//! What holds of the engine across several operations.

use vstd::prelude::*;

use crate::error::SmnCryptoError;
use crate::handshake::{is_key_pair, peer_agrees, session_key};
use crate::history::{
    arrivals_in, handles_given, law_missing_stays_missing, law_only_packets_touch_sessions,
    Operation,
};
use crate::key_update::KeyUpdateView;
use crate::packet::{opened_packet, packet_counter};
use crate::primitives::ed25519_public_key;
use crate::replay::{highest, law_window_decides, window_floor};
use crate::sessions::{
    counters_of, has_session, law_session_accepts_once, law_session_window_is_its_history,
    law_window_is_untouched, other_sessions, Arrival, MAX_SESSIONS_IN_CACHE,
};
use crate::store::StoreView;

verus! {

/// Two nodes that exchange the public halves of their one-time secrets both get
/// a session key, and it is the same one: what one of them computes, and thereby
/// knows its peer to agree on, is what the other one gets.
pub proof fn law_both_sides_get_the_same_key(
    alice: StoreView,
    alice_handle: u64,
    alice_public_key: Seq<u8>,
    bob: StoreView,
    bob_handle: u64,
    bob_public_key: Seq<u8>,
)
    requires
        alice.ephemerals.contains_key(alice_handle),
        is_key_pair(alice.ephemerals[alice_handle], alice_public_key),
        bob.ephemerals.contains_key(bob_handle),
        is_key_pair(bob.ephemerals[bob_handle], bob_public_key),
        peer_agrees(
            session_key(alice.ephemerals[alice_handle], bob_public_key),
            alice.ephemerals[alice_handle],
            bob_public_key,
        ),
    ensures
        alice.session_key_outcome(alice_handle, bob_public_key) is Ok,
        bob.session_key_outcome(bob_handle, alice_public_key) == alice.session_key_outcome(
            alice_handle,
            bob_public_key,
        ),
{
}

/// A one-time secret serves one handshake: once it was tried with a public key
/// of the right length, every further attempt fails, whatever is done in between,
/// until the handles have run out and its handle is given out once more.
pub proof fn law_ephemeral_is_used_once(
    store: StoreView,
    handle: u64,
    peer_public_key: Seq<u8>,
    later: Seq<Operation>,
    next_public_key: Seq<u8>,
)
    requires
        peer_public_key.len() == 32,
        next_public_key.len() == 32,
        !handles_given(store.after_handshake(handle, peer_public_key), later).contains(handle),
    ensures
        store.after_handshake(handle, peer_public_key).after_history(later).session_key_outcome(
            handle,
            next_public_key,
        ) == Err::<Seq<u8>, SmnCryptoError>(SmnCryptoError::HandshakeFailed),
{
    law_missing_stays_missing(store.after_handshake(handle, peer_public_key), later, handle);
}

/// A handshake leaves the other one-time secrets, and everything else, alone.
pub proof fn law_handshake_touches_one_secret(
    store: StoreView,
    handle: u64,
    peer_public_key: Seq<u8>,
    other: u64,
)
    requires
        other != handle,
    ensures
        store.after_handshake(handle, peer_public_key).ephemerals.contains_key(other)
            <==> store.ephemerals.contains_key(other),
        store.ephemerals.contains_key(other) ==> store.after_handshake(
            handle,
            peer_public_key,
        ).ephemerals[other] == store.ephemerals[other],
        store.after_handshake(handle, peer_public_key) == (StoreView {
            ephemerals: store.after_handshake(handle, peer_public_key).ephemerals,
            ..store
        }),
{
}

/// No handshake succeeds with a one-time secret that was wiped, whatever is done in
/// between, until the handles have run out and its handle is given out once more.
pub proof fn law_wiped_ephemeral_is_gone(
    store: StoreView,
    handle: u64,
    later: Seq<Operation>,
    peer_public_key: Seq<u8>,
)
    requires
        peer_public_key.len() == 32,
        !handles_given(store.without_ephemeral(handle), later).contains(handle),
    ensures
        store.without_ephemeral(handle).after_history(later).session_key_outcome(
            handle,
            peer_public_key,
        ) == Err::<Seq<u8>, SmnCryptoError>(SmnCryptoError::HandshakeFailed),
{
    law_missing_stays_missing(store.without_ephemeral(handle), later, handle);
}

/// An identity that was wiped signs nothing, whatever is done in between, until the
/// handles have run out and its handle is given out once more.
pub proof fn law_wiped_identity_is_gone(
    store: StoreView,
    handle: u64,
    later: Seq<Operation>,
    new_encryption_public_key: Seq<u8>,
    timestamp: u64,
)
    requires
        !handles_given(store.without_identity(handle), later).contains(handle),
    ensures
        store.without_identity(handle).after_history(later).signed_update(
            handle,
            new_encryption_public_key,
            timestamp,
        ) == Err::<KeyUpdateView, SmnCryptoError>(SmnCryptoError::HandshakeFailed),
{
    law_missing_stays_missing(store.without_identity(handle), later, handle);
}

/// The key update that an identity signs is accepted by whoever knows its public
/// key, exactly when it is newer than the last one accepted under its name.
pub proof fn law_signed_update_is_accepted(
    signer: StoreView,
    handle: u64,
    update: KeyUpdateView,
    receiver: StoreView,
)
    requires
        signer.signed_update(handle, update.new_encryption_public_key, update.timestamp) == Ok::<
            KeyUpdateView,
            SmnCryptoError,
        >(update),
        update.authentic(ed25519_public_key(signer.identities[handle])),
    ensures
        receiver.accepts_update(update, ed25519_public_key(signer.identities[handle]))
            <==> update.timestamp > receiver.last_update(update.master_id),
{
}

/// A key update as it reaches a node, with the public key it is checked against.
pub struct ReceivedUpdate {
    pub update: KeyUpdateView,
    pub signing_public_key: Seq<u8>,
}

/// The time of the last accepted update under a name never goes back, whatever
/// is done.
pub proof fn law_update_times_only_grow(
    store: StoreView,
    history: Seq<Operation>,
    master_id: Seq<char>,
)
    ensures
        store.last_update(master_id) <= store.after_history(history).last_update(master_id),
    decreases history.len(),
{
    if history.len() > 0 {
        law_update_times_only_grow(store, history.drop_last(), master_id);
    }
}

/// Once a key update was accepted, no update under the same name that is as old
/// is accepted, whatever is done in between: neither the same one again, nor any
/// other.
pub proof fn law_old_updates_are_refused(
    store: StoreView,
    accepted: ReceivedUpdate,
    later: Seq<Operation>,
    stale: ReceivedUpdate,
)
    requires
        store.accepts_update(accepted.update, accepted.signing_public_key),
        stale.update.master_id == accepted.update.master_id,
        stale.update.timestamp <= accepted.update.timestamp,
    ensures
        !store.after_update(accepted.update, accepted.signing_public_key).after_history(
            later,
        ).accepts_update(stale.update, stale.signing_public_key),
{
    law_update_times_only_grow(
        store.after_update(accepted.update, accepted.signing_public_key),
        later,
        accepted.update.master_id,
    );
}

/// The time of the last accepted update under a name changes only with the key
/// updates that bear this name.
pub proof fn law_update_touches_one_name(
    store: StoreView,
    history: Seq<Operation>,
    other: Seq<char>,
)
    requires
        forall|i: int| 0 <= i < history.len() ==> !(#[trigger] history[i]).checks_update_of(other),
    ensures
        store.after_history(history).last_update(other) == store.last_update(other),
    decreases history.len(),
{
    if history.len() > 0 {
        assert(!history[history.len() - 1].checks_update_of(other));
        law_update_touches_one_name(store, history.drop_last(), other);
    }
}

/// A packet that holds a message is decrypted to that message, in a session that
/// lets its counter in.
pub proof fn law_decrypt_after_encrypt(
    receiver: StoreView,
    session_id: Seq<char>,
    session_key: Seq<u8>,
    packet: Seq<u8>,
    associated_data: Seq<u8>,
    message: Seq<u8>,
)
    requires
        StoreView::lengths_fit(session_key, packet),
        opened_packet(session_key, packet, associated_data) == Some(message),
        receiver.accepts_counter(session_id, packet_counter(packet)),
    ensures
        receiver.decrypt_outcome(session_id, session_key, packet, associated_data) == Ok::<
            Seq<u8>,
            SmnCryptoError,
        >(message),
{
}

/// Once a packet has arrived in a session, every packet with the same counter is
/// answered as a replay, whatever else it holds and whatever is done in between,
/// for as long as packets of fewer than `MAX_SESSIONS_IN_CACHE` other sessions
/// have arrived.
pub proof fn law_replay_is_refused(
    store: StoreView,
    session_id: Seq<char>,
    session_key: Seq<u8>,
    packet: Seq<u8>,
    later: Seq<Operation>,
    replay_key: Seq<u8>,
    replay: Seq<u8>,
    associated_data: Seq<u8>,
)
    requires
        store.wf(),
        StoreView::lengths_fit(session_key, packet),
        other_sessions(arrivals_in(later), session_id).len() < MAX_SESSIONS_IN_CACHE,
        StoreView::lengths_fit(replay_key, replay),
        packet_counter(replay) == packet_counter(packet),
    ensures
        store.after_decrypt(session_id, session_key, packet).after_history(later).decrypt_outcome(
            session_id,
            replay_key,
            replay,
            associated_data,
        ) == Err::<Seq<u8>, SmnCryptoError>(SmnCryptoError::ReplayedPacket),
{
    let arrival = Arrival { id: session_id, counter: packet_counter(packet) };
    law_only_packets_touch_sessions(
        store.after_decrypt(session_id, session_key, packet),
        later,
    );
    law_session_accepts_once(store.sessions, arrival, arrivals_in(later));
}

/// A new engine lets a counter into a session exactly when no packet with it has
/// arrived there before and it is less than `REPLAY_WINDOW_SIZE` below the highest
/// counter that has, whatever else was done, for as long as packets of fewer than
/// `MAX_SESSIONS_IN_CACHE` other sessions have arrived.
pub proof fn law_engine_decides(history: Seq<Operation>, session_id: Seq<char>, counter: u64)
    requires
        other_sessions(arrivals_in(history), session_id).len() < MAX_SESSIONS_IN_CACHE,
    ensures
        StoreView::fresh().after_history(history).accepts_counter(session_id, counter)
            <==> counter > window_floor(highest(counters_of(arrivals_in(history), session_id)))
            && !counters_of(arrivals_in(history), session_id).contains(counter),
{
    law_only_packets_touch_sessions(StoreView::fresh(), history);
    law_session_window_is_its_history(arrivals_in(history), session_id);
    law_window_decides(counters_of(arrivals_in(history), session_id), counter);
}

/// The replay protection of a session changes only with its own packets, whatever
/// else is done, as long as the session stays remembered.
pub proof fn law_sessions_are_independent(
    store: StoreView,
    history: Seq<Operation>,
    other: Seq<char>,
    counter: u64,
)
    requires
        store.wf(),
        counters_of(arrivals_in(history), other).len() == 0,
        has_session(store.after_history(history).sessions, other),
    ensures
        has_session(store.sessions, other),
        store.after_history(history).accepts_counter(other, counter) == store.accepts_counter(
            other,
            counter,
        ),
{
    law_only_packets_touch_sessions(store, history);
    law_window_is_untouched(store.sessions, arrivals_in(history), other);
}

} // verus!
