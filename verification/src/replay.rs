//! Sliding-window protection against replayed packet counters.

use std::collections::VecDeque;

use vstd::prelude::*;

use crate::error::SmnCryptoError;

verus! {

/// How many counters, ending with the highest one accepted, a window tracks.
pub const REPLAY_WINDOW_SIZE: u64 = 2048;

/// The highest counter that is too old for a window whose highest accepted
/// counter is `last`.
pub open spec fn window_floor(last: u64) -> u64 {
    if last > REPLAY_WINDOW_SIZE {
        (last - REPLAY_WINDOW_SIZE) as u64
    } else {
        0
    }
}

/// What a window remembers: the highest counter accepted, and which counters
/// above the floor were accepted.
#[verifier::ext_equal]
pub struct ReplayView {
    pub last: u64,
    pub seen: Set<u64>,
}

impl ReplayView {
    /// The window of a session that has not received anything.
    pub open spec fn fresh() -> ReplayView {
        ReplayView { last: 0, seen: Set::empty() }
    }

    /// Only counters between the floor and the highest counter are remembered.
    pub open spec fn wf(self) -> bool {
        forall|c: u64| #[trigger]
            self.seen.contains(c) ==> window_floor(self.last) < c && c <= self.last
    }

    /// Whether a packet with this counter is let through: the counter is above
    /// the floor, and was not accepted before.
    pub open spec fn accepts(self, counter: u64) -> bool {
        counter > window_floor(self.last) && !self.seen.contains(counter)
    }

    /// The window once a packet with this counter was let through or refused.
    pub open spec fn after(self, counter: u64) -> ReplayView {
        if !self.accepts(counter) {
            self
        } else if counter > self.last {
            ReplayView {
                last: counter,
                seen: self.seen.insert(counter).filter(|c: u64| c > window_floor(counter)),
            }
        } else {
            ReplayView { last: self.last, seen: self.seen.insert(counter) }
        }
    }

    /// The window once packets with these counters have arrived, in this order.
    pub open spec fn after_all(self, counters: Seq<u64>) -> ReplayView
        decreases counters.len(),
    {
        if counters.len() == 0 {
            self
        } else {
            self.after_all(counters.drop_last()).after(counters.last())
        }
    }
}

/// Appending to a sequence adds one member, and keeps its members distinct
/// when the appended one is new.
proof fn lemma_push(s: Seq<u64>, c: u64)
    ensures
        forall|x: u64| #[trigger] s.push(c).contains(x) <==> s.contains(x) || x == c,
        s.no_duplicates() && !s.contains(c) ==> s.push(c).no_duplicates(),
{
    assert forall|x: u64| s.contains(x) || x == c implies #[trigger] s.push(c).contains(x) by {
        if s.contains(x) {
            let i = choose|i: int| 0 <= i < s.len() && s[i] == x;
            assert(s.push(c)[i] == x);
        } else {
            assert(s.push(c)[s.len() as int] == x);
        }
    }
}

/// The replay window of one session.
#[derive(Clone, Debug)]
pub struct ReplayWindowState {
    last_counter: u64,
    /// The accepted counters above the floor, in the order of their arrival.
    window: VecDeque<u64>,
}

impl View for ReplayWindowState {
    type V = ReplayView;

    closed spec fn view(&self) -> ReplayView {
        ReplayView { last: self.last_counter, seen: self.window@.to_set() }
    }
}

impl ReplayWindowState {
    /// No counter is held twice, and none is held that the window cannot track.
    pub open spec fn wf(self) -> bool {
        &&& self.holds_each_once()
        &&& self@.wf()
    }

    /// No counter is held twice.
    pub closed spec fn holds_each_once(self) -> bool {
        self.window@.no_duplicates()
    }

    /// How many counters the window holds.
    pub closed spec fn held(self) -> nat {
        self.window@.len()
    }

    /// A window never holds more than `REPLAY_WINDOW_SIZE` counters.
    pub proof fn lemma_held_bound(self)
        requires
            self.wf(),
        ensures
            self.held() <= REPLAY_WINDOW_SIZE,
    {
        let last = self.last_counter as int;
        let floor = window_floor(self.last_counter) as int;
        let held = self.window@.map_values(|c: u64| c as int);
        let range = vstd::set_lib::set_int_range(floor + 1, last + 1);
        assert(held.no_duplicates());
        held.unique_seq_to_set();
        assert forall|x: int| held.to_set().contains(x) implies range.contains(x) by {
            let i = choose|i: int| 0 <= i < held.len() && held[i] == x;
            assert(self@.seen.contains(self.window@[i]));
        }
        vstd::set_lib::lemma_int_range(floor + 1, last + 1);
        vstd::set_lib::lemma_len_subset(held.to_set(), range);
    }

    /// Creates the window of a session that has not received anything.
    pub fn new() -> (state: Self)
        ensures
            state.wf(),
            state@ == ReplayView::fresh(),
    {
        let state = ReplayWindowState { last_counter: 0, window: VecDeque::new() };
        assert(state@.seen =~= Set::empty());
        state
    }

    /// Lets a packet counter through, and remembers it, or refuses it.
    ///
    /// A counter is refused when it is zero, when it was let through before, or
    /// when it lies `REPLAY_WINDOW_SIZE` or more below the highest counter that
    /// was let through. A refused counter changes nothing.
    pub fn check_and_update(&mut self, counter: u64) -> (result: Result<(), SmnCryptoError>)
        requires
            old(self).wf(),
        ensures
            final(self).wf(),
            final(self).held() <= REPLAY_WINDOW_SIZE,
            final(self)@ == old(self)@.after(counter),
            !old(self)@.accepts(counter) ==> *final(self) == *old(self),
            result is Ok <==> counter > 0 && counter + REPLAY_WINDOW_SIZE > old(self)@.last
                && !old(self)@.seen.contains(counter),
            result is Err ==> *final(self) == *old(self),
            result is Ok && counter > old(self)@.last ==> final(self)@.last == counter,
            result is Ok && counter <= old(self)@.last ==> final(self)@.last == old(self)@.last,
            result is Ok ==> (forall|c: u64| #[trigger]
                final(self)@.seen.contains(c) <==> (c == counter || old(self)@.seen.contains(c)) && c
                    + REPLAY_WINDOW_SIZE > final(self)@.last),
            old(self)@.accepts(counter) ==> result == Ok::<(), SmnCryptoError>(()),
            !old(self)@.accepts(counter) ==> result == Err::<(), SmnCryptoError>(
                SmnCryptoError::ReplayedPacket,
            ),
    {
        proof {
            self.lemma_held_bound();
        }
        if counter == 0 {
            return Err(SmnCryptoError::ReplayedPacket);
        }
        if counter > self.last_counter {
            let ghost before = self.window@;
            self.last_counter = counter;
            self.window.push_back(counter);
            proof {
                assert(!before.contains(counter)) by {
                    assert(before.contains(counter) ==> old(self)@.seen.contains(counter));
                }
                lemma_push(before, counter);
            }
            self.drop_expired();
            assert(self@.seen =~= old(self)@.after(counter).seen);
            proof {
                self.lemma_held_bound();
            }
            Ok(())
        } else if counter > self.last_counter.saturating_sub(REPLAY_WINDOW_SIZE) {
            if self.has_seen(counter) {
                Err(SmnCryptoError::ReplayedPacket)
            } else {
                proof {
                    lemma_push(self.window@, counter);
                }
                self.window.push_back(counter);
                assert(self@.seen =~= old(self)@.seen.insert(counter));
                proof {
                    self.lemma_held_bound();
                }
                Ok(())
            }
        } else {
            Err(SmnCryptoError::ReplayedPacket)
        }
    }

    /// Whether the window holds the counter.
    fn has_seen(&self, counter: u64) -> (found: bool)
        ensures
            found == self@.seen.contains(counter),
    {
        let mut i: usize = 0;
        while i < self.window.len()
            invariant
                i <= self.window@.len(),
                forall|j: int| 0 <= j < i ==> self.window@[j] != counter,
            decreases self.window@.len() - i,
        {
            if self.window[i] == counter {
                return true;
            }
            i += 1;
        }
        false
    }

    /// Forgets the counters that are no longer above the floor.
    fn drop_expired(&mut self)
        requires
            old(self).window@.no_duplicates(),
        ensures
            final(self).last_counter == old(self).last_counter,
            final(self).window@.no_duplicates(),
            forall|c: u64| #[trigger]
                final(self).window@.contains(c) <==> old(self).window@.contains(c) && c
                    > window_floor(old(self).last_counter),
    {
        let floor: u64 = self.last_counter.saturating_sub(REPLAY_WINDOW_SIZE);
        let ghost all = self.window@;
        let mut kept: VecDeque<u64> = VecDeque::new();
        let mut i: usize = 0;
        while i < self.window.len()
            invariant
                i <= self.window@.len(),
                self.window@ == all,
                all.no_duplicates(),
                kept@.no_duplicates(),
                forall|c: u64| #[trigger]
                    kept@.contains(c) <==> all.take(i as int).contains(c) && c > floor,
            decreases self.window@.len() - i,
        {
            let c: u64 = self.window[i];
            proof {
                assert(all.take(i as int + 1) =~= all.take(i as int).push(c));
                lemma_push(all.take(i as int), c);
                lemma_push(kept@, c);
            }
            if c > floor {
                kept.push_back(c);
            }
            i += 1;
        }
        assert(all.take(i as int) =~= all);
        self.window = kept;
    }
}

/// The highest of the counters, or zero where there is none.
pub open spec fn highest(counters: Seq<u64>) -> u64
    decreases counters.len(),
{
    if counters.len() == 0 {
        0
    } else if counters.last() > highest(counters.drop_last()) {
        counters.last()
    } else {
        highest(counters.drop_last())
    }
}

/// What a window remembers of its history: the highest counter that arrived,
/// and every counter that arrived and is still above the floor.
pub proof fn law_window_remembers_history(counters: Seq<u64>)
    ensures
        ReplayView::fresh().after_all(counters).wf(),
        ReplayView::fresh().after_all(counters).last == highest(counters),
        forall|c: u64| #[trigger]
            ReplayView::fresh().after_all(counters).seen.contains(c) <==> counters.contains(c) && c
                > window_floor(highest(counters)),
    decreases counters.len(),
{
    if counters.len() > 0 {
        let earlier = counters.drop_last();
        let counter = counters.last();
        law_window_remembers_history(earlier);
        assert(counters =~= earlier.push(counter));
        lemma_push(earlier, counter);
    }
}

/// A session lets a counter through exactly when it has not arrived before and
/// is less than `REPLAY_WINDOW_SIZE` below the highest counter that has.
pub proof fn law_window_decides(counters: Seq<u64>, counter: u64)
    ensures
        ReplayView::fresh().after_all(counters).accepts(counter) <==> counter > window_floor(
            highest(counters),
        ) && !counters.contains(counter),
{
    law_window_remembers_history(counters);
}

/// A window lets a counter through exactly when it is not zero, lies less than
/// 2048 below the highest counter that was let through, and was not seen.
pub proof fn law_window_lets_in(window: ReplayView, counter: u64)
    requires
        window.wf(),
    ensures
        window.accepts(counter) <==> counter > 0 && counter + 2048 > window.last
            && !window.seen.contains(counter),
{
}

/// A counter that is let through joins those that were seen, and the window then
/// ends with the highest of them: it remembers what lies less than 2048 below.
pub proof fn law_window_moves(window: ReplayView, counter: u64)
    requires
        window.wf(),
    ensures
        window.after(counter).wf(),
        window.after(counter).last >= window.last,
        window.accepts(counter) ==> window.after(counter).last >= counter,
        window.after(counter).last == window.last || window.after(counter).last == counter,
        forall|c: u64| #[trigger]
            window.after(counter).seen.contains(c) <==> (window.seen.contains(c) || (c == counter
                && window.accepts(counter))) && c + 2048 > window.after(counter).last,
        !window.accepts(counter) ==> window.after(counter) == window,
{
}

/// A session lets a counter through exactly when it is not zero, is none of those
/// that have arrived, and lies less than 2048 below each of them that is higher.
pub proof fn law_arrivals_decide(counters: Seq<u64>, counter: u64)
    ensures
        ReplayView::fresh().after_all(counters).accepts(counter) <==> counter > 0 && (forall|i: int|
            0 <= i < counters.len() ==> #[trigger] counters[i] != counter && counters[i] < counter
                + 2048),
{
    law_window_decides(counters, counter);
    lemma_highest(counters);
    let h = highest(counters);
    if h >= counter + 2048 {
        let i = choose|i: int| 0 <= i < counters.len() && counters[i] == h;
        assert(counters[i] == h);
    }
    if counters.contains(counter) {
        let i = choose|i: int| 0 <= i < counters.len() && counters[i] == counter;
        assert(counters[i] == counter);
    }
    assert(forall|i: int| 0 <= i < counters.len() ==> counters.contains(#[trigger] counters[i]));
}

/// The highest counter is one of them, unless all are zero, and none is higher.
proof fn lemma_highest(counters: Seq<u64>)
    ensures
        forall|i: int| 0 <= i < counters.len() ==> #[trigger] counters[i] <= highest(counters),
        highest(counters) == 0 || exists|i: int|
            0 <= i < counters.len() && #[trigger] counters[i] == highest(counters),
    decreases counters.len(),
{
    if counters.len() > 0 {
        let earlier = counters.drop_last();
        lemma_highest(earlier);
        assert forall|i: int| 0 <= i < counters.len() implies #[trigger] counters[i] <= highest(
            counters,
        ) by {
            if i < earlier.len() {
                assert(earlier[i] == counters[i]);
            }
        }
        if counters.last() > highest(earlier) {
            assert(counters[counters.len() - 1] == highest(counters));
        } else if highest(earlier) != 0 {
            let i = choose|i: int| 0 <= i < earlier.len() && #[trigger] earlier[i] == highest(earlier);
            assert(counters[i] == highest(counters));
        }
    }
}

/// A counter that is refused stays refused, whatever arrives later.
pub proof fn law_refused_stays_refused(window: ReplayView, counter: u64, later: Seq<u64>)
    requires
        window.wf(),
        !window.accepts(counter),
    ensures
        window.after_all(later).wf(),
        !window.after_all(later).accepts(counter),
    decreases later.len(),
{
    if later.len() > 0 {
        law_refused_stays_refused(window, counter, later.drop_last());
    }
}

/// A counter that was let through is never let through again.
pub proof fn law_accepted_once(window: ReplayView, counter: u64, later: Seq<u64>)
    requires
        window.wf(),
        window.accepts(counter),
    ensures
        !window.after(counter).after_all(later).accepts(counter),
{
    law_refused_stays_refused(window.after(counter), counter, later);
}

/// A counter above every earlier one is always let through.
pub proof fn law_newer_is_accepted(window: ReplayView, counter: u64)
    requires
        window.wf(),
        counter > window.last,
    ensures
        window.accepts(counter),
        window.after(counter).last == counter,
{
}

} // verus!
