//! Histories: what an engine keeps once any operations were performed on it.

use vstd::prelude::*;

use crate::key_update::KeyUpdateView;
use crate::packet::packet_counter;
use crate::sessions::{after_arrivals, law_arrival_keeps_wf, Arrival};
use crate::store::StoreView;

verus! {

/// An operation of the engine, with what its effect depends on.
pub enum Operation {
    /// A signing key was generated, or handed over to be kept.
    KeepIdentity { seed: Seq<u8> },
    /// An identity was wiped.
    WipeIdentity { handle: u64 },
    /// A one-time secret was generated, or handed over to be kept.
    KeepEphemeral { secret: Seq<u8> },
    /// A session key was asked for.
    ComputeSessionKey { handle: u64, peer_public_key: Seq<u8> },
    /// A one-time secret was wiped.
    WipeEphemeral { handle: u64 },
    /// A key update arrived.
    VerifyKeyUpdate { update: KeyUpdateView, signing_public_key: Seq<u8> },
    /// A packet arrived.
    DecryptPacket { session_id: Seq<char>, session_key: Seq<u8>, packet: Seq<u8> },
    /// A key was named, a key update was signed, or a message was encrypted:
    /// these leave the engine as it was.
    Look,
}

impl Operation {
    /// Whether the operation gives out a handle.
    pub open spec fn gives_handle(self) -> bool {
        self is KeepIdentity || self is KeepEphemeral
    }

    /// Whether the operation uses up or wipes the one-time secret with this handle.
    pub open spec fn spends_ephemeral(self, handle: u64) -> bool {
        match self {
            Operation::ComputeSessionKey { handle: h, peer_public_key } => h == handle
                && peer_public_key.len() == 32,
            Operation::WipeEphemeral { handle: h } => h == handle,
            _ => false,
        }
    }

    /// Whether the operation checks a key update that bears this name.
    pub open spec fn checks_update_of(self, master_id: Seq<char>) -> bool {
        self matches Operation::VerifyKeyUpdate { update, .. } && update.master_id == master_id
    }
}

impl StoreView {
    /// The store once an operation was performed.
    pub open spec fn after_operation(self, operation: Operation) -> StoreView {
        match operation {
            Operation::KeepIdentity { seed } => self.with_identity(seed),
            Operation::WipeIdentity { handle } => self.without_identity(handle),
            Operation::KeepEphemeral { secret } => self.with_ephemeral(secret),
            Operation::ComputeSessionKey { handle, peer_public_key } => self.after_handshake(
                handle,
                peer_public_key,
            ),
            Operation::WipeEphemeral { handle } => self.without_ephemeral(handle),
            Operation::VerifyKeyUpdate { update, signing_public_key } => self.after_update(
                update,
                signing_public_key,
            ),
            Operation::DecryptPacket { session_id, session_key, packet } => self.after_decrypt(
                session_id,
                session_key,
                packet,
            ),
            Operation::Look => self,
        }
    }

    /// The store once these operations were performed, in this order.
    pub open spec fn after_history(self, history: Seq<Operation>) -> StoreView
        decreases history.len(),
    {
        if history.len() == 0 {
            self
        } else {
            self.after_history(history.drop_last()).after_operation(history.last())
        }
    }
}

/// The handles that a history gives out, in this order.
pub open spec fn handles_given(store: StoreView, history: Seq<Operation>) -> Seq<u64>
    decreases history.len(),
{
    if history.len() == 0 {
        Seq::empty()
    } else {
        let earlier = history.drop_last();
        if history.last().gives_handle() {
            handles_given(store, earlier).push(store.after_history(earlier).next_handle)
        } else {
            handles_given(store, earlier)
        }
    }
}

/// The packets of a history that are looked up in the replay protection: those
/// that come with a key and a header of the right length.
pub open spec fn arrivals_in(history: Seq<Operation>) -> Seq<Arrival>
    decreases history.len(),
{
    if history.len() == 0 {
        Seq::empty()
    } else {
        let earlier = arrivals_in(history.drop_last());
        match history.last() {
            Operation::DecryptPacket { session_id, session_key, packet } => if StoreView::lengths_fit(
                session_key,
                packet,
            ) {
                earlier.push(Arrival { id: session_id, counter: packet_counter(packet) })
            } else {
                earlier
            },
            _ => earlier,
        }
    }
}

/// How many handles there are.
pub open spec fn handle_count() -> int {
    0x1_0000_0000_0000_0000
}

/// The handle that is reached when the handles count up to `n`, from zero again
/// when they run out.
pub open spec fn wrapped(n: int) -> int {
    n % 0x1_0000_0000_0000_0000
}

/// Every operation keeps the replay protection valid.
pub proof fn law_history_keeps_wf(store: StoreView, history: Seq<Operation>)
    requires
        store.wf(),
    ensures
        store.after_history(history).wf(),
    decreases history.len(),
{
    if history.len() > 0 {
        law_history_keeps_wf(store, history.drop_last());
        let before = store.after_history(history.drop_last());
        if let Operation::DecryptPacket { session_id, packet, .. } = history.last() {
            law_arrival_keeps_wf(
                before.sessions,
                Arrival { id: session_id, counter: packet_counter(packet) },
            );
        }
    }
}

/// The sessions depend on the packets that arrived alone: no other operation
/// touches them.
pub proof fn law_only_packets_touch_sessions(store: StoreView, history: Seq<Operation>)
    ensures
        store.after_history(history).sessions == after_arrivals(
            store.sessions,
            arrivals_in(history),
        ),
    decreases history.len(),
{
    if history.len() > 0 {
        law_only_packets_touch_sessions(store, history.drop_last());
        let earlier = arrivals_in(history.drop_last());
        let all = arrivals_in(history);
        if all.len() > earlier.len() {
            assert(all.drop_last() =~= earlier);
        }
    }
}

/// The handles count up, and start again at zero when they run out.
pub proof fn law_handles_count_up(store: StoreView, history: Seq<Operation>)
    ensures
        store.after_history(history).next_handle == wrapped(
            store.next_handle + handles_given(store, history).len(),
        ),
        forall|i: int|
            0 <= i < handles_given(store, history).len() ==> #[trigger] handles_given(
                store,
                history,
            )[i] == wrapped(store.next_handle + i),
    decreases history.len(),
{
    if history.len() > 0 {
        law_handles_count_up(store, history.drop_last());
    }
}

/// Until the handles run out, no handle is given out twice, whatever became of
/// what was put under it: neither within a history, nor in what follows it.
pub proof fn law_handles_are_not_reused(
    store: StoreView,
    earlier: Seq<Operation>,
    later: Seq<Operation>,
)
    requires
        handles_given(store, earlier).len() + handles_given(
            store.after_history(earlier),
            later,
        ).len() <= handle_count(),
    ensures
        handles_given(store, earlier).no_duplicates(),
        forall|handle: u64| #[trigger]
            handles_given(store, earlier).contains(handle) ==> !handles_given(
                store.after_history(earlier),
                later,
            ).contains(handle),
{
    law_handles_count_up(store, earlier);
    law_handles_count_up(store.after_history(earlier), later);
    let given = handles_given(store, earlier);
    let next = handles_given(store.after_history(earlier), later);
    assert forall|i: int, j: int| 0 <= i < given.len() && 0 <= j < next.len() implies given[i]
        != next[j] by {
        assert(next[j] == wrapped(store.next_handle + given.len() + j));
    }
}

/// A new engine keeps nothing under a handle that it did not give out.
pub proof fn law_handles_in_use_were_given_out(history: Seq<Operation>, handle: u64)
    ensures
        StoreView::fresh().after_history(history).identities.contains_key(handle)
            ==> handles_given(StoreView::fresh(), history).contains(handle),
        StoreView::fresh().after_history(history).ephemerals.contains_key(handle)
            ==> handles_given(StoreView::fresh(), history).contains(handle),
    decreases history.len(),
{
    if history.len() > 0 {
        let earlier = history.drop_last();
        law_handles_in_use_were_given_out(earlier, handle);
        let given = handles_given(StoreView::fresh(), earlier);
        let all = handles_given(StoreView::fresh(), history);
        if given.contains(handle) {
            let i = choose|i: int| 0 <= i < given.len() && given[i] == handle;
            assert(all[i] == handle);
        }
        if history.last().gives_handle() {
            assert(all[given.len() as int] == StoreView::fresh().after_history(earlier).next_handle);
        }
    }
}

/// Until the handles run out, what a new engine is given to keep replaces nothing.
pub proof fn law_nothing_is_replaced(history: Seq<Operation>)
    requires
        handles_given(StoreView::fresh(), history).len() < handle_count(),
    ensures
        !StoreView::fresh().after_history(history).identities.contains_key(
            StoreView::fresh().after_history(history).next_handle,
        ),
        !StoreView::fresh().after_history(history).ephemerals.contains_key(
            StoreView::fresh().after_history(history).next_handle,
        ),
{
    law_handles_count_up(StoreView::fresh(), history);
    law_handles_in_use_were_given_out(
        history,
        StoreView::fresh().after_history(history).next_handle,
    );
}

/// What is missing under a handle stays missing until the handle is given out.
pub proof fn law_missing_stays_missing(store: StoreView, history: Seq<Operation>, handle: u64)
    requires
        !handles_given(store, history).contains(handle),
    ensures
        !store.identities.contains_key(handle) ==> !store.after_history(
            history,
        ).identities.contains_key(handle),
        !store.ephemerals.contains_key(handle) ==> !store.after_history(
            history,
        ).ephemerals.contains_key(handle),
    decreases history.len(),
{
    if history.len() > 0 {
        lemma_not_given_earlier(store, history, handle);
        law_missing_stays_missing(store, history.drop_last(), handle);
    }
}

/// A one-time secret stays under its handle until it is used up or wiped, or the
/// handle is given out again.
pub proof fn law_ephemeral_stays(store: StoreView, history: Seq<Operation>, handle: u64)
    requires
        store.ephemerals.contains_key(handle),
        !handles_given(store, history).contains(handle),
        forall|i: int|
            0 <= i < history.len() ==> !(#[trigger] history[i]).spends_ephemeral(handle),
    ensures
        store.after_history(history).ephemerals.contains_key(handle),
        store.after_history(history).ephemerals[handle] == store.ephemerals[handle],
    decreases history.len(),
{
    if history.len() > 0 {
        lemma_not_given_earlier(store, history, handle);
        assert(!history[history.len() - 1].spends_ephemeral(handle));
        law_ephemeral_stays(store, history.drop_last(), handle);
    }
}

/// An identity stays under its handle until it is wiped, or the handle is given
/// out again.
pub proof fn law_identity_stays(store: StoreView, history: Seq<Operation>, handle: u64)
    requires
        store.identities.contains_key(handle),
        !handles_given(store, history).contains(handle),
        !history.contains(Operation::WipeIdentity { handle }),
    ensures
        store.after_history(history).identities.contains_key(handle),
        store.after_history(history).identities[handle] == store.identities[handle],
    decreases history.len(),
{
    if history.len() > 0 {
        let earlier = history.drop_last();
        lemma_not_given_earlier(store, history, handle);
        assert(history[history.len() - 1] != Operation::WipeIdentity { handle });
        assert forall|i: int| 0 <= i < earlier.len() implies earlier[i]
            != (Operation::WipeIdentity { handle }) by {
            assert(history[i] == earlier[i]);
        }
        law_identity_stays(store, earlier, handle);
    }
}

proof fn lemma_not_given_earlier(store: StoreView, history: Seq<Operation>, handle: u64)
    requires
        history.len() > 0,
        !handles_given(store, history).contains(handle),
    ensures
        !handles_given(store, history.drop_last()).contains(handle),
        history.last().gives_handle() ==> store.after_history(history.drop_last()).next_handle
            != handle,
{
    let given = handles_given(store, history.drop_last());
    let all = handles_given(store, history);
    assert forall|i: int| 0 <= i < given.len() implies given[i] != handle by {
        assert(all[i] == given[i]);
    }
    if history.last().gives_handle() {
        assert(all[given.len() as int] == store.after_history(history.drop_last()).next_handle);
    }
}

} // verus!
