//! The replay windows of the most recently used sessions.

use vstd::prelude::*;

use crate::replay::{law_window_lets_in, ReplayView, ReplayWindowState};

verus! {

/// How many sessions are remembered at once.
pub const MAX_SESSIONS_IN_CACHE: usize = 10000;

/// What is remembered of one session.
#[verifier::ext_equal]
pub struct SessionView {
    pub id: Seq<char>,
    pub window: ReplayView,
}

/// Whether the session is remembered.
pub open spec fn has_session(sessions: Seq<SessionView>, id: Seq<char>) -> bool {
    exists|i: int| 0 <= i < sessions.len() && (#[trigger] sessions[i]).id == id
}

/// Where a remembered session stands, counted from the one used longest ago.
pub open spec fn position(sessions: Seq<SessionView>, id: Seq<char>) -> int
    recommends
        has_session(sessions, id),
{
    choose|i: int| 0 <= i < sessions.len() && (#[trigger] sessions[i]).id == id
}

/// The replay window of a session; that of a session which is not remembered
/// is fresh.
pub open spec fn window_of(sessions: Seq<SessionView>, id: Seq<char>) -> ReplayView {
    if has_session(sessions, id) {
        sessions[position(sessions, id)].window
    } else {
        ReplayView::fresh()
    }
}

/// The sessions, without the one that makes room for `id`: the one with that
/// name, or else, when all places are taken, the one used longest ago.
pub open spec fn make_room(sessions: Seq<SessionView>, id: Seq<char>) -> Seq<SessionView> {
    if has_session(sessions, id) {
        sessions.remove(position(sessions, id))
    } else if sessions.len() >= MAX_SESSIONS_IN_CACHE {
        sessions.drop_first()
    } else {
        sessions
    }
}

/// The sessions once `id` was used and its replay window became `window`.
pub open spec fn used(
    sessions: Seq<SessionView>,
    id: Seq<char>,
    window: ReplayView,
) -> Seq<SessionView> {
    make_room(sessions, id).push(SessionView { id, window })
}

/// At most `MAX_SESSIONS_IN_CACHE` sessions are remembered, each once, each
/// with a valid window.
pub open spec fn sessions_wf(sessions: Seq<SessionView>) -> bool {
    &&& sessions.len() <= MAX_SESSIONS_IN_CACHE
    &&& forall|i: int, j: int|
        0 <= i < j < sessions.len() ==> (#[trigger] sessions[i]).id != (#[trigger] sessions[j]).id
    &&& forall|i: int| 0 <= i < sessions.len() ==> (#[trigger] sessions[i]).window.wf()
}

/// Using a session keeps the cache within its bounds and its sessions distinct.
pub proof fn law_used_keeps_wf(sessions: Seq<SessionView>, id: Seq<char>, window: ReplayView)
    requires
        sessions_wf(sessions),
        window.wf(),
    ensures
        sessions_wf(used(sessions, id, window)),
{
}

/// A session that was just used is remembered with the window it was left
/// with, as the one used last.
pub proof fn law_used_is_remembered(
    sessions: Seq<SessionView>,
    id: Seq<char>,
    window: ReplayView,
)
    requires
        sessions_wf(sessions),
        window.wf(),
    ensures
        has_session(used(sessions, id, window), id),
        position(used(sessions, id, window), id) == used(sessions, id, window).len() - 1,
        window_of(used(sessions, id, window), id) == window,
{
    let after = used(sessions, id, window);
    law_used_keeps_wf(sessions, id, window);
    assert(after[after.len() - 1].id == id);
}

/// The window of a remembered session is the one it is remembered with; that of any
/// other session has seen nothing.
pub proof fn law_window_is_the_remembered_one(sessions: Seq<SessionView>, id: Seq<char>)
    requires
        sessions_wf(sessions),
    ensures
        forall|i: int|
            0 <= i < sessions.len() && (#[trigger] sessions[i]).id == id ==> window_of(sessions, id)
                == sessions[i].window,
        (forall|i: int| 0 <= i < sessions.len() ==> (#[trigger] sessions[i]).id != id) ==> window_of(
            sessions,
            id,
        ).last == 0 && window_of(sessions, id).seen == Set::<u64>::empty(),
{
}

/// A counter is let into a session exactly when it is not zero and, if the session
/// is remembered, lies less than 2048 below its highest counter and was not seen.
pub proof fn law_session_lets_in(sessions: Seq<SessionView>, id: Seq<char>, counter: u64)
    requires
        sessions_wf(sessions),
    ensures
        window_of(sessions, id).accepts(counter) <==> counter > 0 && (forall|i: int|
            0 <= i < sessions.len() && (#[trigger] sessions[i]).id == id ==> counter + 2048
                > sessions[i].window.last && !sessions[i].window.seen.contains(counter)),
{
    law_window_is_the_remembered_one(sessions, id);
    if has_session(sessions, id) {
        assert(sessions[position(sessions, id)].id == id);
    }
    law_window_lets_in(window_of(sessions, id), counter);
}

/// Using a session moves it to the end, with its new window. The others keep their
/// order and their windows; only when all 10000 places are taken and the session is
/// new does the one at the front leave.
pub proof fn law_used_moves_to_the_end(
    sessions: Seq<SessionView>,
    id: Seq<char>,
    window: ReplayView,
)
    requires
        sessions_wf(sessions),
    ensures
        used(sessions, id, window).len() > 0,
        used(sessions, id, window).last().id == id,
        used(sessions, id, window).last().window == window,
        forall|i: int|
            0 <= i < sessions.len() && (#[trigger] sessions[i]).id == id ==> used(
                sessions,
                id,
                window,
            ).drop_last() == sessions.subrange(0, i) + sessions.subrange(
                i + 1,
                sessions.len() as int,
            ),
        (forall|i: int| 0 <= i < sessions.len() ==> (#[trigger] sessions[i]).id != id)
            && sessions.len() < 10000 ==> used(sessions, id, window).drop_last() == sessions,
        (forall|i: int| 0 <= i < sessions.len() ==> (#[trigger] sessions[i]).id != id)
            && sessions.len() == 10000 ==> used(sessions, id, window).drop_last()
            == sessions.subrange(1, 10000),
{
    let rest = used(sessions, id, window).drop_last();
    assert(rest =~= make_room(sessions, id));
    assert forall|i: int| 0 <= i < sessions.len() && (#[trigger] sessions[i]).id == id implies rest
        == sessions.subrange(0, i) + sessions.subrange(i + 1, sessions.len() as int) by {
        assert(position(sessions, id) == i);
        assert(rest =~= sessions.subrange(0, i) + sessions.subrange(i + 1, sessions.len() as int));
    }
    if sessions.len() == 10000 {
        assert(sessions.drop_first() =~= sessions.subrange(1, 10000));
    }
}

/// Whether using `id` makes the cache forget the session `other`: all places
/// are taken, `id` is new, and `other` was used longest ago.
pub open spec fn forgotten_for(
    sessions: Seq<SessionView>,
    id: Seq<char>,
    other: Seq<char>,
) -> bool {
    &&& sessions.len() >= MAX_SESSIONS_IN_CACHE
    &&& !has_session(sessions, id)
    &&& sessions[0].id == other
}

/// Using a session leaves every other one as it was, except for the single one
/// that is forgotten.
pub proof fn law_other_sessions_kept(
    sessions: Seq<SessionView>,
    id: Seq<char>,
    window: ReplayView,
    other: Seq<char>,
)
    requires
        sessions_wf(sessions),
        window.wf(),
        other != id,
    ensures
        has_session(used(sessions, id, window), other) <==> has_session(sessions, other)
            && !forgotten_for(sessions, id, other),
        has_session(used(sessions, id, window), other) ==> window_of(
            used(sessions, id, window),
            other,
        ) == window_of(sessions, other),
{
    let after = used(sessions, id, window);
    law_used_keeps_wf(sessions, id, window);
    if has_session(sessions, other) && !forgotten_for(sessions, id, other) {
        let i = position(sessions, other);
        if has_session(sessions, id) {
            let p = position(sessions, id);
            let k = if i < p { i } else { i - 1 };
            assert(after[k] == sessions[i]);
        } else if sessions.len() >= MAX_SESSIONS_IN_CACHE {
            assert(after[i - 1] == sessions[i]);
        } else {
            assert(after[i] == sessions[i]);
        }
    }
    if has_session(after, other) {
        let k = position(after, other);
        if has_session(sessions, id) {
            let p = position(sessions, id);
            let i = if k < p { k } else { k + 1 };
            assert(after[k] == sessions[i]);
        } else if sessions.len() >= MAX_SESSIONS_IN_CACHE {
            assert(after[k] == sessions[k + 1]);
            assert(sessions[k + 1].id != sessions[0].id);
        } else {
            assert(after[k] == sessions[k]);
        }
    }
}

/// A packet that has arrived: the session it belongs to, and its counter.
pub struct Arrival {
    pub id: Seq<char>,
    pub counter: u64,
}

/// The sessions once a packet has arrived.
pub open spec fn after_arrival(sessions: Seq<SessionView>, arrival: Arrival) -> Seq<SessionView> {
    used(sessions, arrival.id, window_of(sessions, arrival.id).after(arrival.counter))
}

/// The sessions once these packets have arrived, in this order.
pub open spec fn after_arrivals(sessions: Seq<SessionView>, arrivals: Seq<Arrival>) -> Seq<
    SessionView,
>
    decreases arrivals.len(),
{
    if arrivals.len() == 0 {
        sessions
    } else {
        after_arrival(after_arrivals(sessions, arrivals.drop_last()), arrivals.last())
    }
}

/// The sessions, other than `id`, that the packets belong to.
pub open spec fn other_sessions(arrivals: Seq<Arrival>, id: Seq<char>) -> Set<Seq<char>> {
    name_list(arrivals).to_set().remove(id)
}

/// The sessions that the packets belong to, in the order of their arrival.
pub open spec fn name_list(arrivals: Seq<Arrival>) -> Seq<Seq<char>> {
    arrivals.map_values(|arrival: Arrival| arrival.id)
}

/// An arrival keeps the cache within its bounds and its sessions distinct.
pub proof fn law_arrival_keeps_wf(sessions: Seq<SessionView>, arrival: Arrival)
    requires
        sessions_wf(sessions),
    ensures
        window_of(sessions, arrival.id).wf(),
        sessions_wf(after_arrival(sessions, arrival)),
{
    law_used_keeps_wf(
        sessions,
        arrival.id,
        window_of(sessions, arrival.id).after(arrival.counter),
    );
}

/// A session is remembered for as long as packets of fewer than
/// `MAX_SESSIONS_IN_CACHE` other sessions have arrived since its own last one.
pub proof fn law_recent_session_is_remembered(
    sessions: Seq<SessionView>,
    arrival: Arrival,
    later: Seq<Arrival>,
)
    requires
        sessions_wf(sessions),
        other_sessions(later, arrival.id).len() < MAX_SESSIONS_IN_CACHE,
    ensures
        has_session(after_arrivals(after_arrival(sessions, arrival), later), arrival.id),
{
    lemma_survivor_place(sessions, arrival, later);
}

/// Once a packet has arrived in a session, no packet with the same counter is
/// let into it, for as long as packets of fewer than `MAX_SESSIONS_IN_CACHE`
/// other sessions have arrived since then.
pub proof fn law_session_accepts_once(
    sessions: Seq<SessionView>,
    arrival: Arrival,
    later: Seq<Arrival>,
)
    requires
        sessions_wf(sessions),
        other_sessions(later, arrival.id).len() < MAX_SESSIONS_IN_CACHE,
    ensures
        !window_of(
            after_arrivals(after_arrival(sessions, arrival), later),
            arrival.id,
        ).accepts(arrival.counter),
    decreases later.len(),
{
    let id = arrival.id;
    let window = window_of(sessions, id);
    let start = after_arrival(sessions, arrival);
    if later.len() == 0 {
        law_arrival_keeps_wf(sessions, arrival);
        law_used_is_remembered(sessions, id, window.after(arrival.counter));
    } else {
        let earlier = later.drop_last();
        let next = later.last();
        let before = after_arrivals(start, earlier);
        assert(later =~= earlier.push(next));
        lemma_other_sessions_push(earlier, next, id);
        lemma_survivor_place(sessions, arrival, earlier);
        lemma_survivor_place(sessions, arrival, later);
        law_session_accepts_once(sessions, arrival, earlier);
        law_arrival_keeps_wf(before, next);
        let next_window = window_of(before, next.id).after(next.counter);
        law_used_keeps_wf(before, next.id, next_window);
        if next.id == id {
            law_used_is_remembered(before, id, next_window);
        } else {
            law_other_sessions_kept(before, next.id, next_window, id);
        }
    }
}

/// The counters of the packets that belong to a session, in this order.
pub open spec fn counters_of(arrivals: Seq<Arrival>, id: Seq<char>) -> Seq<u64>
    decreases arrivals.len(),
{
    if arrivals.len() == 0 {
        Seq::empty()
    } else if arrivals.last().id == id {
        counters_of(arrivals.drop_last(), id).push(arrivals.last().counter)
    } else {
        counters_of(arrivals.drop_last(), id)
    }
}

/// The window of a session is what its own packets made of it, for as long as
/// packets of fewer than `MAX_SESSIONS_IN_CACHE` other sessions have arrived.
pub proof fn law_session_window_is_its_history(arrivals: Seq<Arrival>, id: Seq<char>)
    requires
        other_sessions(arrivals, id).len() < MAX_SESSIONS_IN_CACHE,
    ensures
        window_of(after_arrivals(Seq::empty(), arrivals), id) == ReplayView::fresh().after_all(
            counters_of(arrivals, id),
        ),
    decreases arrivals.len(),
{
    if arrivals.len() > 0 {
        let earlier = arrivals.drop_last();
        let next = arrivals.last();
        let before = after_arrivals(Seq::empty(), earlier);
        assert(arrivals =~= earlier.push(next));
        lemma_other_sessions_push(earlier, next, id);
        lemma_remembered_have_arrived(earlier);
        law_session_window_is_its_history(earlier, id);
        law_arrival_keeps_wf(before, next);
        let window = window_of(before, next.id).after(next.counter);
        if next.id == id {
            law_used_is_remembered(before, id, window);
            assert(counters_of(arrivals, id).drop_last() =~= counters_of(earlier, id));
        } else {
            if forgotten_for(before, next.id, id) {
                assert forall|j: int| 0 < j < before.len() implies other_sessions(
                    arrivals,
                    id,
                ).contains((#[trigger] before[j]).id) by {
                    assert(before[0].id != before[j].id);
                }
                lemma_full_of_names(before, other_sessions(arrivals, id), next.id);
            }
            law_other_sessions_kept(before, next.id, window, id);
        }
    }
}

/// The window of a session that stays remembered is not touched by the packets of
/// other sessions.
pub proof fn law_window_is_untouched(
    sessions: Seq<SessionView>,
    arrivals: Seq<Arrival>,
    id: Seq<char>,
)
    requires
        sessions_wf(sessions),
        counters_of(arrivals, id).len() == 0,
        has_session(after_arrivals(sessions, arrivals), id),
    ensures
        sessions_wf(after_arrivals(sessions, arrivals)),
        has_session(sessions, id),
        window_of(after_arrivals(sessions, arrivals), id) == window_of(sessions, id),
    decreases arrivals.len(),
{
    if arrivals.len() > 0 {
        let before = after_arrivals(sessions, arrivals.drop_last());
        let next = arrivals.last();
        lemma_arrivals_keep_wf(sessions, arrivals.drop_last());
        law_arrival_keeps_wf(before, next);
        law_other_sessions_kept(
            before,
            next.id,
            window_of(before, next.id).after(next.counter),
            id,
        );
        law_window_is_untouched(sessions, arrivals.drop_last(), id);
    }
}

proof fn lemma_arrivals_keep_wf(sessions: Seq<SessionView>, arrivals: Seq<Arrival>)
    requires
        sessions_wf(sessions),
    ensures
        sessions_wf(after_arrivals(sessions, arrivals)),
    decreases arrivals.len(),
{
    if arrivals.len() > 0 {
        lemma_arrivals_keep_wf(sessions, arrivals.drop_last());
        law_arrival_keeps_wf(after_arrivals(sessions, arrivals.drop_last()), arrivals.last());
    }
}

/// A cache that was empty remembers only sessions of which a packet has arrived.
proof fn lemma_remembered_have_arrived(arrivals: Seq<Arrival>)
    ensures
        sessions_wf(after_arrivals(Seq::empty(), arrivals)),
        forall|j: int|
            0 <= j < after_arrivals(Seq::empty(), arrivals).len() ==> name_list(arrivals).contains(
                (#[trigger] after_arrivals(Seq::empty(), arrivals)[j]).id,
            ),
    decreases arrivals.len(),
{
    lemma_arrivals_keep_wf(Seq::empty(), arrivals);
    if arrivals.len() > 0 {
        let earlier = arrivals.drop_last();
        let next = arrivals.last();
        let before = after_arrivals(Seq::empty(), earlier);
        let now = after_arrivals(Seq::empty(), arrivals);
        lemma_remembered_have_arrived(earlier);
        assert(name_list(arrivals) =~= name_list(earlier).push(next.id));
        assert forall|j: int| 0 <= j < now.len() implies name_list(arrivals).contains(
            (#[trigger] now[j]).id,
        ) by {
            if j == now.len() - 1 {
                assert(name_list(arrivals)[arrivals.len() - 1] == now[j].id);
            } else {
                let i = if has_session(before, next.id) {
                    if j < position(before, next.id) {
                        j
                    } else {
                        j + 1
                    }
                } else if before.len() >= MAX_SESSIONS_IN_CACHE {
                    j + 1
                } else {
                    j
                };
                assert(now[j] == before[i]);
                let k = choose|k: int|
                    0 <= k < name_list(earlier).len() && name_list(earlier)[k] == before[i].id;
                assert(name_list(arrivals)[k] == before[i].id);
            }
        }
    }
}

/// A session of which no packet arrives is forgotten once packets of 10000 other
/// sessions have arrived.
pub proof fn law_unused_session_is_forgotten(
    sessions: Seq<SessionView>,
    arrivals: Seq<Arrival>,
    id: Seq<char>,
)
    requires
        sessions_wf(sessions),
        !name_list(arrivals).contains(id),
        name_list(arrivals).to_set().len() >= 10000,
    ensures
        !has_session(after_arrivals(sessions, arrivals), id),
{
    let now = after_arrivals(sessions, arrivals);
    lemma_arrivals_keep_wf(sessions, arrivals);
    if has_session(now, id) {
        lemma_newer_stand_behind(sessions, arrivals, id);
        let k = position(now, id);
        let behind = Seq::new((now.len() - k - 1) as nat, |j: int| now[k + 1 + j].id);
        let names = name_list(arrivals).to_set();
        assert forall|x: Seq<char>| names.contains(x) implies behind.to_set().contains(x) by {
            let p = position(now, x);
            assert(behind[p - k - 1] == x);
        }
        behind.lemma_cardinality_of_set();
        vstd::seq_lib::seq_to_set_is_finite(behind);
        vstd::set_lib::lemma_len_subset(names, behind.to_set());
    }
}

/// As long as a session of which no packet arrives is remembered, the sessions of
/// the packets that do arrive stand behind it.
proof fn lemma_newer_stand_behind(
    sessions: Seq<SessionView>,
    arrivals: Seq<Arrival>,
    id: Seq<char>,
)
    requires
        sessions_wf(sessions),
        !name_list(arrivals).contains(id),
        has_session(after_arrivals(sessions, arrivals), id),
    ensures
        forall|x: Seq<char>| #[trigger]
            name_list(arrivals).contains(x) ==> has_session(after_arrivals(sessions, arrivals), x)
                && position(after_arrivals(sessions, arrivals), x) > position(
                after_arrivals(sessions, arrivals),
                id,
            ),
    decreases arrivals.len(),
{
    if arrivals.len() > 0 {
        let earlier = arrivals.drop_last();
        let next = arrivals.last();
        let before = after_arrivals(sessions, earlier);
        let now = after_arrivals(sessions, arrivals);
        let window = window_of(before, next.id).after(next.counter);
        let names = name_list(arrivals);
        assert(names =~= name_list(earlier).push(next.id));
        assert(names[arrivals.len() - 1] == next.id);
        assert forall|i: int| 0 <= i < earlier.len() implies name_list(earlier)[i] != id by {
            assert(names[i] == name_list(earlier)[i]);
        }
        lemma_arrivals_keep_wf(sessions, earlier);
        lemma_arrivals_keep_wf(sessions, arrivals);
        law_arrival_keeps_wf(before, next);
        law_other_sessions_kept(before, next.id, window, id);
        lemma_newer_stand_behind(sessions, earlier, id);
        let b = position(before, id);
        let shift = if has_session(before, next.id) {
            position(before, next.id)
        } else if before.len() >= MAX_SESSIONS_IN_CACHE {
            0
        } else {
            before.len() as int
        };
        let k = if b < shift {
            b
        } else {
            b - 1
        };
        assert(now[k] == before[b]);
        assert(position(now, id) == k);
        assert forall|x: Seq<char>| #[trigger] names.contains(x) implies has_session(now, x)
            && position(now, x) > position(now, id) by {
            if x == next.id {
                assert(now[now.len() - 1].id == x);
            } else {
                let i = choose|i: int| 0 <= i < names.len() && names[i] == x;
                assert(name_list(earlier)[i] == x);
                assert(name_list(earlier).contains(x));
                let p = position(before, x);
                let q = if p < shift {
                    p
                } else {
                    p - 1
                };
                assert(now[q] == before[p]);
                assert(position(now, x) == q);
            }
        }
    }
}

/// One more arrival adds at most its own session to the other ones.
proof fn lemma_other_sessions_push(arrivals: Seq<Arrival>, next: Arrival, id: Seq<char>)
    ensures
        other_sessions(arrivals, id).finite(),
        other_sessions(arrivals.push(next), id).finite(),
        other_sessions(arrivals.push(next), id) == (if next.id == id {
            other_sessions(arrivals, id)
        } else {
            other_sessions(arrivals, id).insert(next.id)
        }),
        other_sessions(arrivals, id).len() <= other_sessions(arrivals.push(next), id).len(),
{
    let ids = name_list(arrivals);
    let all = ids.push(next.id);
    assert(name_list(arrivals.push(next)) =~= all);
    vstd::seq_lib::seq_to_set_is_finite(ids);
    assert forall|x: Seq<char>| #[trigger] all.contains(x) <==> ids.contains(x) || x == next.id by {
        if ids.contains(x) {
            let i = choose|i: int| 0 <= i < ids.len() && ids[i] == x;
            assert(all[i] == x);
        } else if x == next.id {
            assert(all[ids.len() as int] == x);
        } else if all.contains(x) {
            let i = choose|i: int| 0 <= i < all.len() && all[i] == x;
            assert(i < ids.len() ==> ids[i] == x);
        }
    }
    assert(other_sessions(arrivals.push(next), id) =~= (if next.id == id {
        other_sessions(arrivals, id)
    } else {
        other_sessions(arrivals, id).insert(next.id)
    }));
}

/// Behind a session stand only sessions of which a packet arrived after its own
/// last one.
proof fn lemma_survivor_place(
    sessions: Seq<SessionView>,
    arrival: Arrival,
    later: Seq<Arrival>,
)
    requires
        sessions_wf(sessions),
        other_sessions(later, arrival.id).len() < MAX_SESSIONS_IN_CACHE,
    ensures
        sessions_wf(after_arrivals(after_arrival(sessions, arrival), later)),
        has_session(after_arrivals(after_arrival(sessions, arrival), later), arrival.id),
        ({
            let now = after_arrivals(after_arrival(sessions, arrival), later);
            forall|j: int|
                position(now, arrival.id) < j < now.len() ==> other_sessions(
                    later,
                    arrival.id,
                ).contains((#[trigger] now[j]).id)
        }),
    decreases later.len(),
{
    let id = arrival.id;
    let start = after_arrival(sessions, arrival);
    law_arrival_keeps_wf(sessions, arrival);
    if later.len() == 0 {
        law_used_is_remembered(sessions, id, window_of(sessions, id).after(arrival.counter));
    } else {
        let earlier = later.drop_last();
        let next = later.last();
        assert(later =~= earlier.push(next));
        lemma_other_sessions_push(earlier, next, id);
        lemma_survivor_place(sessions, arrival, earlier);
        let before = after_arrivals(start, earlier);
        let now = after_arrivals(start, later);
        let window = window_of(before, next.id).after(next.counter);
        assert(now == used(before, next.id, window));
        law_arrival_keeps_wf(before, next);
        if next.id == id {
            law_used_is_remembered(before, id, window);
        } else {
            if forgotten_for(before, next.id, id) {
                lemma_full_of_names(before, other_sessions(later, id), next.id);
            }
            law_other_sessions_kept(before, next.id, window, id);
            let k = position(now, id);
            assert forall|j: int| k < j < now.len() implies other_sessions(later, id).contains(
                (#[trigger] now[j]).id,
            ) by {
                if j < now.len() - 1 {
                    if has_session(before, next.id) {
                        let p = position(before, next.id);
                        assert(now[j] == before[if j < p { j } else { j + 1 }]);
                        assert(now[k] == before[if k < p { k } else { k + 1 }]);
                    } else if before.len() >= MAX_SESSIONS_IN_CACHE {
                        assert(now[j] == before[j + 1]);
                        assert(now[k] == before[k + 1]);
                    } else {
                        assert(now[j] == before[j]);
                        assert(now[k] == before[k]);
                    }
                }
            }
        }
    }
}

/// A full cache whose sessions, but for the first, were all used lately, and
/// which does not hold `next`, can only come from as many names as it has places.
proof fn lemma_full_of_names(before: Seq<SessionView>, lately: Set<Seq<char>>, next: Seq<char>)
    requires
        sessions_wf(before),
        before.len() >= MAX_SESSIONS_IN_CACHE,
        !has_session(before, next),
        lately.contains(next),
        lately.finite(),
        forall|j: int| 0 < j < before.len() ==> lately.contains((#[trigger] before[j]).id),
    ensures
        lately.len() >= MAX_SESSIONS_IN_CACHE,
{
    let ids = Seq::new(
        before.len(),
        |j: int|
            if j == 0 {
                next
            } else {
                before[j].id
            },
    );
    assert forall|i: int, j: int| 0 <= i < ids.len() && 0 <= j < ids.len() && i != j implies ids[i]
        != ids[j] by {
        if i != 0 && j != 0 {
            assert(before[i].id != before[j].id);
        } else if i == 0 {
            assert(before[j].id != next);
        } else {
            assert(before[i].id != next);
        }
    }
    ids.unique_seq_to_set();
    assert(ids.to_set().subset_of(lately));
    vstd::set_lib::lemma_len_subset(ids.to_set(), lately);
}

struct Session {
    id: String,
    state: ReplayWindowState,
}

impl View for Session {
    type V = SessionView;

    closed spec fn view(&self) -> SessionView {
        SessionView { id: self.id@, window: self.state@ }
    }
}

/// Remembers the replay windows of the sessions that were used last.
pub struct LruSessionCache {
    /// The remembered sessions, the one used longest ago first.
    sessions: Vec<Session>,
}

impl View for LruSessionCache {
    type V = Seq<SessionView>;

    closed spec fn view(&self) -> Seq<SessionView> {
        self.sessions@.map_values(|session: Session| session@)
    }
}

impl LruSessionCache {
    /// The sessions are distinct and few enough, and their windows are valid.
    pub open spec fn wf(self) -> bool {
        &&& sessions_wf(self@)
        &&& self.holds_valid_windows()
    }

    /// Every window that is held is valid.
    pub closed spec fn holds_valid_windows(self) -> bool {
        forall|i: int| 0 <= i < self.sessions@.len() ==> (#[trigger] self.sessions@[i]).state.wf()
    }

    /// Creates a cache that remembers no session.
    pub fn new() -> (cache: Self)
        ensures
            cache.wf(),
            cache@ == Seq::<SessionView>::empty(),
    {
        let cache = LruSessionCache { sessions: Vec::new() };
        assert(cache@ =~= Seq::<SessionView>::empty());
        cache
    }

    /// Returns the replay window of a session and makes it the one used last.
    ///
    /// A session that is not remembered gets a fresh window; when all places
    /// are taken, the session that was used longest ago is forgotten.
    pub fn get_or_insert(&mut self, session_id: String) -> (state: &mut ReplayWindowState)
        requires
            old(self).wf(),
        ensures
            state.wf(),
            state@ == window_of(old(self)@, session_id@),
            final(self)@ == used(old(self)@, session_id@, final(state)@),
            final(state).wf() ==> final(self).wf(),
            forall|i: int|
                0 <= i < old(self)@.len() && (#[trigger] old(self)@[i]).id == session_id@ ==> state@
                    == old(self)@[i].window,
            (forall|i: int| 0 <= i < old(self)@.len() ==> (#[trigger] old(self)@[i]).id
                != session_id@) ==> state@.last == 0 && state@.seen == Set::<u64>::empty(),
            final(self)@.len() > 0,
            final(self)@.last() == (SessionView { id: session_id@, window: final(state)@ }),
            forall|i: int|
                0 <= i < old(self)@.len() && (#[trigger] old(self)@[i]).id == session_id@
                    ==> final(self)@.drop_last() == old(self)@.subrange(0, i) + old(
                    self,
                )@.subrange(i + 1, old(self)@.len() as int),
            (forall|i: int| 0 <= i < old(self)@.len() ==> (#[trigger] old(self)@[i]).id
                != session_id@) && old(self)@.len() < 10000 ==> final(self)@.drop_last() == old(
                self,
            )@,
            (forall|i: int| 0 <= i < old(self)@.len() ==> (#[trigger] old(self)@[i]).id
                != session_id@) && old(self)@.len() == 10000 ==> final(self)@.drop_last() == old(
                self,
            )@.subrange(1, 10000),
    {
        proof {
            law_window_is_the_remembered_one(self@, session_id@);
            assert forall|window: ReplayView| true implies {
                let after = #[trigger] used(self@, session_id@, window);
                &&& after.len() > 0
                &&& after.last() == (SessionView { id: session_id@, window })
                &&& after.drop_last() == used(self@, session_id@, ReplayView::fresh()).drop_last()
            } by {
                let after = used(self@, session_id@, window);
                assert(after.drop_last() =~= make_room(self@, session_id@));
                assert(used(self@, session_id@, ReplayView::fresh()).drop_last() =~= make_room(
                    self@,
                    session_id@,
                ));
            }
            law_used_moves_to_the_end(self@, session_id@, ReplayView::fresh());
        }
        let session = match self.find(&session_id) {
            Some(i) => self.sessions.remove(i),
            None => {
                if self.sessions.len() >= MAX_SESSIONS_IN_CACHE {
                    let _oldest = self.sessions.remove(0);
                }
                Session { id: session_id, state: ReplayWindowState::new() }
            },
        };
        self.sessions.push(session);
        let last: usize = self.sessions.len() - 1;
        proof {
            let window = window_of(old(self)@, session_id@);
            assert(self@ =~= used(old(self)@, session_id@, window));
            law_used_keeps_wf(old(self)@, session_id@, window);
            let held = self.sessions@;
            assert forall|i: int, j: int| 0 <= i < j < held.len() implies (#[trigger] held[i]).id@
                != (#[trigger] held[j]).id@ by {
                assert(self@[i].id != self@[j].id);
            }
            assert(held.len() == self@.len());
        }
        &mut self.sessions[last].state
    }

    /// Finds where a session is held.
    fn find(&self, session_id: &String) -> (found: Option<usize>)
        requires
            self.wf(),
        ensures
            found is Some <==> has_session(self@, session_id@),
            found matches Some(i) ==> i < self@.len() && i == position(self@, session_id@),
    {
        let mut i: usize = 0;
        while i < self.sessions.len()
            invariant
                self.wf(),
                i <= self.sessions@.len(),
                forall|j: int| 0 <= j < i ==> (#[trigger] self@[j]).id != session_id@,
            decreases self.sessions@.len() - i,
        {
            assert(self@[i as int].id == self.sessions@[i as int].id@);
            if self.sessions[i].id == *session_id {
                return Some(i);
            }
            i += 1;
        }
        None
    }
}

} // verus!
