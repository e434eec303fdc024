//! What the operations give, in terms of the primitives, of the bytes that go in and
//! come out, and of what was done before.

use vstd::prelude::*;

use crate::bytes::{be_bytes, be_value, law_write_after_read};
use crate::error::SmnCryptoError;
use crate::handshake::law_session_key_comes_from_the_exchange;
use crate::history::{
    arrivals_in, handles_given, law_handles_count_up, law_only_packets_touch_sessions, Operation,
};
use crate::key_update::{law_signature_covers_the_update, law_signed_message, KeyUpdateView};
use crate::packet::{law_opened_packet_layout, packet_counter};
use crate::primitives::{
    ed25519_accepts, ed25519_public_key, ed25519_signature, hex_lower, hkdf_sha256, sha256,
    x25519_shared_secret, xchacha20poly1305_open,
};
use crate::replay::law_arrivals_decide;
use crate::sessions::{
    counters_of, law_session_lets_in, law_session_window_is_its_history,
    law_unused_session_is_forgotten, name_list, other_sessions,
};
use crate::store::StoreView;

verus! {

/// A handshake succeeds exactly when the peer's public key has 32 bytes, not all of
/// them zero, and the secret is there; the key is HKDF of the exchanged secret.
pub proof fn law_handshake_gives(store: StoreView, handle: u64, peer_public_key: Seq<u8>)
    ensures
        peer_public_key.len() != 32 ==> store.session_key_outcome(handle, peer_public_key) == Err::<
            Seq<u8>,
            SmnCryptoError,
        >(SmnCryptoError::InvalidKeyLength),
        peer_public_key.len() == 32 && (forall|i: int| 0 <= i < 32 ==> peer_public_key[i] == 0)
            ==> store.session_key_outcome(handle, peer_public_key) == Err::<
            Seq<u8>,
            SmnCryptoError,
        >(SmnCryptoError::HandshakeFailed),
        peer_public_key.len() == 32 && !store.ephemerals.contains_key(handle)
            ==> store.session_key_outcome(handle, peer_public_key) == Err::<
            Seq<u8>,
            SmnCryptoError,
        >(SmnCryptoError::HandshakeFailed),
        peer_public_key.len() == 32 && store.ephemerals.contains_key(handle) && (exists|i: int|
            0 <= i < 32 && peer_public_key[i] != 0) ==> store.session_key_outcome(
            handle,
            peer_public_key,
        ) == Ok::<Seq<u8>, SmnCryptoError>(
            hkdf_sha256(
                x25519_shared_secret(store.ephemerals[handle], peer_public_key),
                seq![115u8, 109, 110, 45, 115, 101, 115, 115, 105, 111, 110, 45, 118, 49],
                32,
            ),
        ),
{
    law_session_key_comes_from_the_exchange(store.ephemerals[handle], peer_public_key);
}

/// Whether the public key accepts the signature of the label, the whole new key and
/// the time of an update.
pub open spec fn signature_holds(update: KeyUpdateView, signing_public_key: Seq<u8>) -> bool {
    &&& signing_public_key.len() == 32
    &&& update.signature.len() == 64
    &&& ed25519_accepts(
        signing_public_key,
        seq![83u8, 77, 78, 45, 75, 69, 89, 45, 85, 80, 68, 65, 84, 69, 45, 86, 49] + update.new_encryption_public_key + be_bytes(update.timestamp),
        update.signature,
    )
}

/// An update that is signed bears the key and the time that it was asked for, the
/// name of the signer, and the signature of the label, the whole key and the time.
pub proof fn law_signing_gives(
    store: StoreView,
    handle: u64,
    new_encryption_public_key: Seq<u8>,
    timestamp: u64,
)
    ensures
        store.signed_update(handle, new_encryption_public_key, timestamp) is Ok
            <==> store.identities.contains_key(handle),
        store.signed_update(handle, new_encryption_public_key, timestamp) matches Ok(update) ==> {
            &&& update.new_encryption_public_key == new_encryption_public_key
            &&& update.timestamp == timestamp
            &&& update.master_id == hex_lower(
                sha256(ed25519_public_key(store.identities[handle])),
            ).take(60)
            &&& update.signature == ed25519_signature(
                store.identities[handle],
                seq![83u8, 77, 78, 45, 75, 69, 89, 45, 85, 80, 68, 65, 84, 69, 45, 86, 49] + new_encryption_public_key + be_bytes(timestamp),
            )
        },
        store.signed_update(handle, new_encryption_public_key, timestamp) matches Err(e) ==> e
            == SmnCryptoError::HandshakeFailed,
{
    law_signed_message(new_encryption_public_key, timestamp);
}

/// An update is accepted exactly when its signature holds and its time is above zero
/// and above that of the last one that was accepted under its name. Then its time
/// takes that place; otherwise nothing changes.
pub proof fn law_update_is_accepted(
    store: StoreView,
    update: KeyUpdateView,
    signing_public_key: Seq<u8>,
)
    ensures
        store.accepts_update(update, signing_public_key) <==> signature_holds(
            update,
            signing_public_key,
        ) && update.timestamp > 0 && (store.key_updates.contains_key(update.master_id)
            ==> update.timestamp > store.key_updates[update.master_id]),
        store.accepts_update(update, signing_public_key) ==> store.after_update(
            update,
            signing_public_key,
        ).key_updates == store.key_updates.insert(update.master_id, update.timestamp),
        !store.accepts_update(update, signing_public_key) ==> store.after_update(
            update,
            signing_public_key,
        ) == store,
        store.after_update(update, signing_public_key).identities == store.identities,
        store.after_update(update, signing_public_key).ephemerals == store.ephemerals,
        store.after_update(update, signing_public_key).next_handle == store.next_handle,
        store.after_update(update, signing_public_key).sessions == store.sessions,
{
    law_signature_covers_the_update(update, signing_public_key);
}

/// Whether the operation checks an update under this name and of this time whose
/// signature holds.
pub open spec fn checks_genuine(operation: Operation, master_id: Seq<char>, timestamp: u64) -> bool {
    operation matches Operation::VerifyKeyUpdate { update, signing_public_key } && {
        &&& update.master_id == master_id
        &&& update.timestamp == timestamp
        &&& signature_holds(update, signing_public_key)
    }
}

/// An engine accepts an update exactly when its signature holds, its time is above
/// zero, and every update under its name whose signature held is older, whatever
/// else was done before.
pub proof fn law_newest_update_is_accepted(
    history: Seq<Operation>,
    update: KeyUpdateView,
    signing_public_key: Seq<u8>,
)
    ensures
        StoreView::fresh().after_history(history).accepts_update(update, signing_public_key)
            <==> signature_holds(update, signing_public_key) && update.timestamp > 0 && (forall|
            i: int,
            t: u64,
        |
            0 <= i < history.len() && #[trigger] checks_genuine(history[i], update.master_id, t)
                ==> t < update.timestamp),
{
    law_signature_covers_the_update(update, signing_public_key);
    lemma_last_update(history, update.master_id);
}

proof fn lemma_last_update(history: Seq<Operation>, master_id: Seq<char>)
    ensures
        forall|i: int, t: u64|
            0 <= i < history.len() && #[trigger] checks_genuine(history[i], master_id, t) ==> t
                <= StoreView::fresh().after_history(history).last_update(master_id),
        StoreView::fresh().after_history(history).last_update(master_id) == 0 || exists|i: int|
            0 <= i < history.len() && #[trigger] checks_genuine(
                history[i],
                master_id,
                StoreView::fresh().after_history(history).last_update(master_id),
            ),
    decreases history.len(),
{
    if history.len() > 0 {
        let earlier = history.drop_last();
        let before = StoreView::fresh().after_history(earlier).last_update(master_id);
        let now = StoreView::fresh().after_history(history).last_update(master_id);
        lemma_last_update(earlier, master_id);
        if let Operation::VerifyKeyUpdate { update, signing_public_key } = history.last() {
            law_signature_covers_the_update(update, signing_public_key);
        }
        assert forall|i: int, t: u64|
            0 <= i < history.len() && #[trigger] checks_genuine(history[i], master_id, t) implies t
            <= now by {
            if i < earlier.len() {
                assert(checks_genuine(earlier[i], master_id, t));
            }
        }
        if now != before {
            assert(checks_genuine(history[history.len() - 1], master_id, now));
        } else if now != 0 {
            let i = choose|i: int|
                0 <= i < earlier.len() && #[trigger] checks_genuine(earlier[i], master_id, before);
            assert(checks_genuine(history[i], master_id, now));
        }
    }
}

/// A packet is answered by the lengths of the key and the packet, then by its
/// counter, and then by what the cipher opens under the whole key, the nonce in the
/// packet, and the caller's data with the first eight bytes of the packet behind it.
pub proof fn law_decrypting_gives(
    store: StoreView,
    session_id: Seq<char>,
    session_key: Seq<u8>,
    packet: Seq<u8>,
    associated_data: Seq<u8>,
)
    requires
        store.wf(),
    ensures
        session_key.len() != 32 || packet.len() < 32 ==> store.decrypt_outcome(
            session_id,
            session_key,
            packet,
            associated_data,
        ) == Err::<Seq<u8>, SmnCryptoError>(SmnCryptoError::InvalidKeyLength),
        session_key.len() == 32 && packet.len() >= 32 ==> (store.decrypt_outcome(
            session_id,
            session_key,
            packet,
            associated_data,
        ) == Err::<Seq<u8>, SmnCryptoError>(SmnCryptoError::ReplayedPacket) <==> be_value(
            packet.take(8),
        ) == 0 || (exists|i: int|
            0 <= i < store.sessions.len() && (#[trigger] store.sessions[i]).id == session_id && (
            be_value(packet.take(8)) + 2048 <= store.sessions[i].window.last
                || store.sessions[i].window.seen.contains(be_value(packet.take(8)) as u64)))),
        store.decrypt_outcome(session_id, session_key, packet, associated_data) matches Ok(message)
            ==> xchacha20poly1305_open(
            session_key,
            packet.subrange(8, 32),
            associated_data + packet.take(8),
            packet.skip(32),
        ) == Some(message),
        store.decrypt_outcome(session_id, session_key, packet, associated_data) == Err::<
            Seq<u8>,
            SmnCryptoError,
        >(SmnCryptoError::DecryptionFailed) ==> xchacha20poly1305_open(
            session_key,
            packet.subrange(8, 32),
            associated_data + packet.take(8),
            packet.skip(32),
        ) is None || 0x3f_ffff_ff80 < packet.len() - 48 < 0x3f_ffff_ffc0,
        store.decrypt_outcome(session_id, session_key, packet, associated_data) is Ok
            || store.decrypt_outcome(session_id, session_key, packet, associated_data) == Err::<
            Seq<u8>,
            SmnCryptoError,
        >(SmnCryptoError::InvalidKeyLength) || store.decrypt_outcome(
            session_id,
            session_key,
            packet,
            associated_data,
        ) == Err::<Seq<u8>, SmnCryptoError>(SmnCryptoError::ReplayedPacket)
            || store.decrypt_outcome(session_id, session_key, packet, associated_data) == Err::<
            Seq<u8>,
            SmnCryptoError,
        >(SmnCryptoError::DecryptionFailed),
{
    if session_key.len() == 32 && packet.len() >= 32 {
        law_write_after_read(packet.take(8));
        law_opened_packet_layout(session_key, packet, associated_data);
        law_session_lets_in(store.sessions, session_id, packet_counter(packet));
    }
}

/// Whether the operation brings a packet with this counter into this session, under
/// a key and with a header of the right length.
pub open spec fn brings(operation: Operation, id: Seq<char>, counter: int) -> bool {
    operation matches Operation::DecryptPacket { session_id, session_key, packet } && {
        &&& session_id == id
        &&& session_key.len() == 32
        &&& packet.len() >= 32
        &&& be_value(packet.take(8)) == counter
    }
}

/// The sessions, other than `id`, that a history brings packets into.
pub open spec fn visited(history: Seq<Operation>, id: Seq<char>) -> Set<Seq<char>> {
    Set::new(
        |x: Seq<char>|
            x != id && exists|i: int, c: int|
                0 <= i < history.len() && #[trigger] brings(history[i], x, c),
    )
}

/// A new engine answers a packet as a replay exactly when its counter is zero, has
/// come into the session before, or lies 2048 or more below one that has, whatever
/// else was done, for as long as packets came into fewer than 10000 other sessions.
pub proof fn law_counters_come_in_once(
    history: Seq<Operation>,
    session_id: Seq<char>,
    session_key: Seq<u8>,
    packet: Seq<u8>,
    associated_data: Seq<u8>,
)
    requires
        session_key.len() == 32,
        packet.len() >= 32,
        visited(history, session_id).len() < 10000,
    ensures
        StoreView::fresh().after_history(history).decrypt_outcome(
            session_id,
            session_key,
            packet,
            associated_data,
        ) == Err::<Seq<u8>, SmnCryptoError>(SmnCryptoError::ReplayedPacket) <==> be_value(
            packet.take(8),
        ) == 0 || (exists|i: int, c: int|
            0 <= i < history.len() && #[trigger] brings(history[i], session_id, c) && (c == be_value(
                packet.take(8),
            ) || c >= be_value(packet.take(8)) + 2048)),
{
    let counter = packet_counter(packet);
    let arrivals = arrivals_in(history);
    let counters = counters_of(arrivals, session_id);
    law_write_after_read(packet.take(8));
    lemma_visited(history, session_id);
    law_only_packets_touch_sessions(StoreView::fresh(), history);
    law_session_window_is_its_history(arrivals, session_id);
    law_arrivals_decide(counters, counter);
    lemma_counters_were_brought(history, session_id);
    if exists|i: int|
        0 <= i < counters.len() && !(#[trigger] counters[i] != counter && counters[i] < counter
            + 2048) {
        let i = choose|i: int|
            0 <= i < counters.len() && !(#[trigger] counters[i] != counter && counters[i] < counter
                + 2048);
        assert(counters.contains(counters[i]));
        let j = choose|j: int|
            0 <= j < history.len() && #[trigger] brings(history[j], session_id, counters[i] as int);
        assert(brings(history[j], session_id, counters[i] as int));
    }
    assert forall|j: int, c: int|
        0 <= j < history.len() && #[trigger] brings(history[j], session_id, c) && (c == counter || c
            >= counter + 2048) implies !StoreView::fresh().after_history(history).accepts_counter(
        session_id,
        counter,
    ) by {
        let i = choose|i: int| 0 <= i < counters.len() && counters[i] == c as u64;
        assert(counters[i] == c);
    }
}

/// A session that no packet came into is new again once packets came into 10000
/// other sessions: only a counter of zero is then answered as a replay.
pub proof fn law_unused_session_starts_anew(
    store: StoreView,
    history: Seq<Operation>,
    session_id: Seq<char>,
    session_key: Seq<u8>,
    packet: Seq<u8>,
    associated_data: Seq<u8>,
)
    requires
        store.wf(),
        session_key.len() == 32,
        packet.len() >= 32,
        forall|i: int, c: int|
            0 <= i < history.len() ==> !#[trigger] brings(history[i], session_id, c),
        visited(history, session_id).len() >= 10000,
    ensures
        store.after_history(history).decrypt_outcome(
            session_id,
            session_key,
            packet,
            associated_data,
        ) == Err::<Seq<u8>, SmnCryptoError>(SmnCryptoError::ReplayedPacket) <==> be_value(
            packet.take(8),
        ) == 0,
{
    let names = name_list(arrivals_in(history));
    law_write_after_read(packet.take(8));
    lemma_names_were_brought(history);
    lemma_visited(history, session_id);
    assert(names.to_set() =~= other_sessions(arrivals_in(history), session_id));
    law_only_packets_touch_sessions(store, history);
    law_unused_session_is_forgotten(store.sessions, arrivals_in(history), session_id);
}

proof fn lemma_names_were_brought(history: Seq<Operation>)
    ensures
        forall|x: Seq<char>| #[trigger]
            name_list(arrivals_in(history)).contains(x) <==> exists|i: int, c: int|
                0 <= i < history.len() && #[trigger] brings(history[i], x, c),
    decreases history.len(),
{
    let names = name_list(arrivals_in(history));
    if history.len() > 0 {
        let earlier = history.drop_last();
        let before = name_list(arrivals_in(earlier));
        lemma_names_were_brought(earlier);
        assert forall|x: Seq<char>| #[trigger] names.contains(x) implies exists|i: int, c: int|
            0 <= i < history.len() && #[trigger] brings(history[i], x, c) by {
            let k = choose|k: int| 0 <= k < names.len() && names[k] == x;
            if k < before.len() {
                assert(before[k] == x);
                assert(before.contains(x));
                let (i, c) = choose|i: int, c: int|
                    0 <= i < earlier.len() && #[trigger] brings(earlier[i], x, c);
                assert(brings(history[i], x, c));
            } else {
                if let Operation::DecryptPacket { packet, .. } = history.last() {
                    assert(brings(
                        history[history.len() - 1],
                        x,
                        be_value(packet.take(8)) as int,
                    ));
                }
            }
        }
        assert forall|x: Seq<char>|
            (exists|i: int, c: int|
                0 <= i < history.len() && #[trigger] brings(history[i], x, c)) implies #[trigger]
            names.contains(x) by {
            let (i, c) = choose|i: int, c: int|
                0 <= i < history.len() && #[trigger] brings(history[i], x, c);
            if i < earlier.len() {
                assert(brings(earlier[i], x, c));
                assert(before.contains(x));
                let k = choose|k: int| 0 <= k < before.len() && before[k] == x;
                assert(names[k] == x);
            } else {
                assert(names[before.len() as int] == x);
            }
        }
    }
}

proof fn lemma_visited(history: Seq<Operation>, id: Seq<char>)
    ensures
        visited(history, id) == other_sessions(arrivals_in(history), id),
{
    lemma_names_were_brought(history);
    assert(visited(history, id) =~= other_sessions(arrivals_in(history), id));
}

proof fn lemma_counters_were_brought(history: Seq<Operation>, id: Seq<char>)
    ensures
        forall|c: u64| #[trigger]
            counters_of(arrivals_in(history), id).contains(c) ==> exists|i: int|
                0 <= i < history.len() && #[trigger] brings(history[i], id, c as int),
        forall|i: int, c: int|
            0 <= i < history.len() && #[trigger] brings(history[i], id, c) ==> c <= u64::MAX
                && counters_of(arrivals_in(history), id).contains(c as u64),
    decreases history.len(),
{
    if history.len() > 0 {
        let earlier = history.drop_last();
        let before = counters_of(arrivals_in(earlier), id);
        let now = counters_of(arrivals_in(history), id);
        lemma_counters_were_brought(earlier, id);
        let all = arrivals_in(history);
        if all.len() > arrivals_in(earlier).len() {
            assert(all.drop_last() =~= arrivals_in(earlier));
        }
        if let Operation::DecryptPacket { packet, .. } = history.last() {
            if packet.len() >= 32 {
                law_write_after_read(packet.take(8));
            }
        }
        assert forall|c: u64| #[trigger] now.contains(c) implies exists|i: int|
            0 <= i < history.len() && #[trigger] brings(history[i], id, c as int) by {
            let k = choose|k: int| 0 <= k < now.len() && now[k] == c;
            if k < before.len() {
                assert(before[k] == c);
                assert(before.contains(c));
                let i = choose|i: int|
                    0 <= i < earlier.len() && #[trigger] brings(earlier[i], id, c as int);
                assert(brings(history[i], id, c as int));
            } else {
                assert(brings(history[history.len() - 1], id, c as int));
            }
        }
        assert forall|i: int, c: int|
            0 <= i < history.len() && #[trigger] brings(history[i], id, c) implies c <= u64::MAX
            && now.contains(c as u64) by {
            if i < earlier.len() {
                assert(brings(earlier[i], id, c));
                let k = choose|k: int| 0 <= k < before.len() && before[k] == c as u64;
                assert(now[k] == c as u64);
            } else {
                assert(now[before.len() as int] == c as u64);
            }
        }
    }
}

/// The handles of a new engine are one, two, three, and so on.
pub proof fn law_handles_start_at_one(history: Seq<Operation>, i: int)
    requires
        0 <= i < handles_given(StoreView::fresh(), history).len(),
        i < u64::MAX,
    ensures
        handles_given(StoreView::fresh(), history)[i] == i + 1,
{
    law_handles_count_up(StoreView::fresh(), history);
}

} // verus!
