//! What an engine keeps: secrets under handles, the times of the key updates
//! that were accepted, and the replay windows of its sessions.

use std::collections::HashMap;

use ed25519_dalek::SigningKey;
use vstd::hash_map::StringHashMap;
use vstd::prelude::*;
use x25519_dalek::EphemeralSecret;

use crate::error::SmnCryptoError;
use crate::key_update::KeyUpdateView;
use crate::primitives::{ephemeral_secret_bytes, signing_key_seed};
use crate::sessions::{
    law_arrival_keeps_wf, law_session_lets_in, sessions_wf, used, window_of, Arrival,
    LruSessionCache, SessionView,
};

verus! {

broadcast use vstd::std_specs::hash::group_hash_axioms;

/// What an engine keeps.
#[verifier::ext_equal]
pub struct StoreView {
    /// The seeds of the long-term identities, by their handles.
    pub identities: Map<u64, Seq<u8>>,
    /// The one-time secrets that were not used yet, by their handles.
    pub ephemerals: Map<u64, Seq<u8>>,
    /// The handle that is given out next.
    pub next_handle: u64,
    /// The time of the last key update that was accepted, by the name it bears.
    pub key_updates: Map<Seq<char>, u64>,
    /// The sessions that are remembered, the one used longest ago first.
    pub sessions: Seq<SessionView>,
}

/// The handle that follows another one.
pub open spec fn next_after(handle: u64) -> u64 {
    if handle == u64::MAX {
        0
    } else {
        (handle + 1) as u64
    }
}

impl StoreView {
    /// An engine that has done nothing yet.
    pub open spec fn fresh() -> StoreView {
        StoreView {
            identities: Map::empty(),
            ephemerals: Map::empty(),
            next_handle: 1,
            key_updates: Map::empty(),
            sessions: Seq::empty(),
        }
    }

    /// The sessions are distinct and few enough, and their windows are valid.
    pub open spec fn wf(self) -> bool {
        sessions_wf(self.sessions)
    }

    /// The store once its next handle was given out.
    pub open spec fn with_handle_taken(self) -> StoreView {
        StoreView { next_handle: next_after(self.next_handle), ..self }
    }

    /// The store once an identity was put under the next handle.
    pub open spec fn with_identity(self, seed: Seq<u8>) -> StoreView {
        StoreView {
            identities: self.identities.insert(self.next_handle, seed),
            ..self.with_handle_taken()
        }
    }

    /// The store once a one-time secret was put under the next handle.
    pub open spec fn with_ephemeral(self, secret: Seq<u8>) -> StoreView {
        StoreView {
            ephemerals: self.ephemerals.insert(self.next_handle, secret),
            ..self.with_handle_taken()
        }
    }

    /// The store once an identity was wiped.
    pub open spec fn without_identity(self, handle: u64) -> StoreView {
        StoreView { identities: self.identities.remove(handle), ..self }
    }

    /// The store once a one-time secret was used up or wiped.
    pub open spec fn without_ephemeral(self, handle: u64) -> StoreView {
        StoreView { ephemerals: self.ephemerals.remove(handle), ..self }
    }

    /// The time of the last key update that was accepted under a name, or zero.
    pub open spec fn last_update(self, master_id: Seq<char>) -> u64 {
        if self.key_updates.contains_key(master_id) {
            self.key_updates[master_id]
        } else {
            0
        }
    }

    /// The store once a key update of this time was accepted under a name.
    pub open spec fn with_update(self, master_id: Seq<char>, timestamp: u64) -> StoreView {
        StoreView { key_updates: self.key_updates.insert(master_id, timestamp), ..self }
    }

    /// Whether a key update is accepted: its signature is valid, and it is newer
    /// than the last one that was accepted under its name.
    pub open spec fn accepts_update(
        self,
        update: KeyUpdateView,
        signing_public_key: Seq<u8>,
    ) -> bool {
        &&& update.authentic(signing_public_key)
        &&& update.timestamp > self.last_update(update.master_id)
    }

    /// The store once a key update was accepted or refused.
    pub open spec fn after_update(
        self,
        update: KeyUpdateView,
        signing_public_key: Seq<u8>,
    ) -> StoreView {
        if self.accepts_update(update, signing_public_key) {
            self.with_update(update.master_id, update.timestamp)
        } else {
            self
        }
    }

    /// Whether a packet with this counter is let into a session.
    pub open spec fn accepts_counter(self, session_id: Seq<char>, counter: u64) -> bool {
        window_of(self.sessions, session_id).accepts(counter)
    }

    /// The store once a packet with this counter was let into a session or
    /// refused: either way the session is the one used last.
    pub open spec fn after_counter(self, session_id: Seq<char>, counter: u64) -> StoreView {
        StoreView {
            sessions: used(
                self.sessions,
                session_id,
                window_of(self.sessions, session_id).after(counter),
            ),
            ..self
        }
    }
}

/// Keeps the secrets and the replay protection of an engine.
pub struct SecretStore {
    ephemeral_x25519: HashMap<u64, EphemeralSecret>,
    identities_ed25519: HashMap<u64, SigningKey>,
    next_handle: u64,
    last_accepted_key_update_ts: StringHashMap<u64>,
    packet_replay_cache: LruSessionCache,
}

/// The seeds of the signing keys.
spec fn seeds(keys: Map<u64, SigningKey>) -> Map<u64, Seq<u8>> {
    keys.map_values(|key: SigningKey| signing_key_seed(key))
}

/// The bytes of the one-time secrets.
spec fn secrets(keys: Map<u64, EphemeralSecret>) -> Map<u64, Seq<u8>> {
    keys.map_values(|secret: EphemeralSecret| ephemeral_secret_bytes(secret))
}

impl View for SecretStore {
    type V = StoreView;

    closed spec fn view(&self) -> StoreView {
        StoreView {
            identities: seeds(self.identities_ed25519@),
            ephemerals: secrets(self.ephemeral_x25519@),
            next_handle: self.next_handle,
            key_updates: self.last_accepted_key_update_ts@,
            sessions: self.packet_replay_cache@,
        }
    }
}

impl SecretStore {
    /// The replay protection is valid.
    pub open spec fn wf(self) -> bool {
        &&& self.cache_wf()
        &&& self@.wf()
    }

    /// The session cache is valid.
    pub closed spec fn cache_wf(self) -> bool {
        self.packet_replay_cache.wf()
    }

    /// Creates a store that keeps nothing.
    pub fn new() -> (store: Self)
        ensures
            store.wf(),
            store@ == StoreView::fresh(),
            store@.identities == Map::<u64, Seq<u8>>::empty(),
            store@.ephemerals == Map::<u64, Seq<u8>>::empty(),
            store@.next_handle == 1,
            store@.key_updates == Map::<Seq<char>, u64>::empty(),
            store@.sessions.len() == 0,
    {
        let store = SecretStore {
            ephemeral_x25519: HashMap::new(),
            identities_ed25519: HashMap::new(),
            next_handle: 1,
            last_accepted_key_update_ts: StringHashMap::new(),
            packet_replay_cache: LruSessionCache::new(),
        };
        assert(store@ =~= StoreView::fresh());
        store
    }

    /// Gives out a handle. The handles count up from one, and start again at
    /// zero when they run out.
    pub fn alloc_handle(&mut self) -> (handle: u64)
        requires
            old(self).wf(),
        ensures
            final(self).wf(),
            handle == old(self)@.next_handle,
            final(self)@ == old(self)@.with_handle_taken(),
            old(self)@.next_handle < u64::MAX ==> final(self)@.next_handle == old(self)@.next_handle
                + 1,
            old(self)@.next_handle == u64::MAX ==> final(self)@.next_handle == 0,
            final(self)@.identities == old(self)@.identities,
            final(self)@.ephemerals == old(self)@.ephemerals,
            final(self)@.key_updates == old(self)@.key_updates,
            final(self)@.sessions == old(self)@.sessions,
    {
        let handle: u64 = self.next_handle;
        self.next_handle = self.next_handle.wrapping_add(1);
        handle
    }

    /// Puts a signing key under a new handle.
    pub fn insert_identity(&mut self, key: SigningKey) -> (handle: u64)
        requires
            old(self).wf(),
        ensures
            final(self).wf(),
            handle == old(self)@.next_handle,
            final(self)@ == old(self)@.with_identity(signing_key_seed(key)),
            final(self)@.identities == old(self)@.identities.insert(handle, signing_key_seed(key)),
            old(self)@.next_handle < u64::MAX ==> final(self)@.next_handle == old(self)@.next_handle
                + 1,
            old(self)@.next_handle == u64::MAX ==> final(self)@.next_handle == 0,
            final(self)@.ephemerals == old(self)@.ephemerals,
            final(self)@.key_updates == old(self)@.key_updates,
            final(self)@.sessions == old(self)@.sessions,
    {
        let handle: u64 = self.alloc_handle();
        let ghost before = self.identities_ed25519@;
        self.identities_ed25519.insert(handle, key);
        assert(seeds(before.insert(handle, key)) =~= seeds(before).insert(
            handle,
            signing_key_seed(key),
        ));
        handle
    }

    /// Puts a one-time secret under a new handle.
    pub fn insert_ephemeral(&mut self, secret: EphemeralSecret) -> (handle: u64)
        requires
            old(self).wf(),
        ensures
            final(self).wf(),
            handle == old(self)@.next_handle,
            final(self)@ == old(self)@.with_ephemeral(ephemeral_secret_bytes(secret)),
            final(self)@.ephemerals == old(self)@.ephemerals.insert(
                handle,
                ephemeral_secret_bytes(secret),
            ),
            old(self)@.next_handle < u64::MAX ==> final(self)@.next_handle == old(self)@.next_handle
                + 1,
            old(self)@.next_handle == u64::MAX ==> final(self)@.next_handle == 0,
            final(self)@.identities == old(self)@.identities,
            final(self)@.key_updates == old(self)@.key_updates,
            final(self)@.sessions == old(self)@.sessions,
    {
        let handle: u64 = self.alloc_handle();
        let ghost before = self.ephemeral_x25519@;
        self.ephemeral_x25519.insert(handle, secret);
        assert(secrets(before.insert(handle, secret)) =~= secrets(before).insert(
            handle,
            ephemeral_secret_bytes(secret),
        ));
        handle
    }

    /// Looks up a signing key.
    pub fn identity(&self, handle: u64) -> (key: Option<&SigningKey>)
        ensures
            key is Some <==> self@.identities.contains_key(handle),
            key matches Some(key) ==> signing_key_seed(*key) == self@.identities[handle],
    {
        self.identities_ed25519.get(&handle)
    }

    /// Takes a signing key out of the store.
    pub fn take_identity(&mut self, handle: u64) -> (key: Option<SigningKey>)
        requires
            old(self).wf(),
        ensures
            final(self).wf(),
            final(self)@ == old(self)@.without_identity(handle),
            final(self)@.identities == old(self)@.identities.remove(handle),
            final(self)@.ephemerals == old(self)@.ephemerals,
            final(self)@.next_handle == old(self)@.next_handle,
            final(self)@.key_updates == old(self)@.key_updates,
            final(self)@.sessions == old(self)@.sessions,
            key is Some <==> old(self)@.identities.contains_key(handle),
            key matches Some(key) ==> signing_key_seed(key) == old(self)@.identities[handle],
    {
        let ghost before = self.identities_ed25519@;
        let key = self.identities_ed25519.remove(&handle);
        assert(seeds(before.remove(handle)) =~= seeds(before).remove(handle));
        key
    }

    /// Takes a one-time secret out of the store.
    pub fn take_ephemeral(&mut self, handle: u64) -> (secret: Option<EphemeralSecret>)
        requires
            old(self).wf(),
        ensures
            final(self).wf(),
            final(self)@ == old(self)@.without_ephemeral(handle),
            final(self)@.ephemerals == old(self)@.ephemerals.remove(handle),
            final(self)@.identities == old(self)@.identities,
            final(self)@.next_handle == old(self)@.next_handle,
            final(self)@.key_updates == old(self)@.key_updates,
            final(self)@.sessions == old(self)@.sessions,
            secret is Some <==> old(self)@.ephemerals.contains_key(handle),
            secret matches Some(secret) ==> ephemeral_secret_bytes(secret)
                == old(self)@.ephemerals[handle],
    {
        let ghost before = self.ephemeral_x25519@;
        let secret = self.ephemeral_x25519.remove(&handle);
        assert(secrets(before.remove(handle)) =~= secrets(before).remove(handle));
        secret
    }

    /// Accepts the time of an authentic key update, unless an update that is as
    /// new was accepted under the same name.
    pub fn accept_update_time(&mut self, master_id: String, timestamp: u64) -> (accepted: bool)
        requires
            old(self).wf(),
        ensures
            final(self).wf(),
            accepted == (timestamp > old(self)@.last_update(master_id@)),
            accepted ==> final(self)@ == old(self)@.with_update(master_id@, timestamp),
            !accepted ==> final(self)@ == old(self)@,
            accepted <==> timestamp > 0 && (old(self)@.key_updates.contains_key(master_id@)
                ==> timestamp > old(self)@.key_updates[master_id@]),
            accepted ==> final(self)@.key_updates == old(self)@.key_updates.insert(
                master_id@,
                timestamp,
            ),
            !accepted ==> final(self)@.key_updates == old(self)@.key_updates,
            final(self)@.identities == old(self)@.identities,
            final(self)@.ephemerals == old(self)@.ephemerals,
            final(self)@.next_handle == old(self)@.next_handle,
            final(self)@.sessions == old(self)@.sessions,
    {
        let last_ts: u64 = match self.last_accepted_key_update_ts.get(master_id.as_str()) {
            Some(ts) => *ts,
            None => 0,
        };
        if timestamp <= last_ts {
            return false;
        }
        self.last_accepted_key_update_ts.insert(master_id, timestamp);
        true
    }

    /// Lets the counter of a packet into a session, or refuses it.
    pub fn admit_counter(&mut self, session_id: String, counter: u64) -> (result: Result<
        (),
        SmnCryptoError,
    >)
        requires
            old(self).wf(),
        ensures
            final(self).wf(),
            final(self)@ == old(self)@.after_counter(session_id@, counter),
            old(self)@.accepts_counter(session_id@, counter) ==> result == Ok::<(), SmnCryptoError>(
                (),
            ),
            !old(self)@.accepts_counter(session_id@, counter) ==> result == Err::<
                (),
                SmnCryptoError,
            >(SmnCryptoError::ReplayedPacket),
            result is Ok <==> counter > 0 && (forall|i: int|
                0 <= i < old(self)@.sessions.len() && (#[trigger] old(self)@.sessions[i]).id
                    == session_id@ ==> counter + 2048 > old(self)@.sessions[i].window.last
                    && !old(self)@.sessions[i].window.seen.contains(counter)),
            final(self)@.sessions == used(
                old(self)@.sessions,
                session_id@,
                window_of(old(self)@.sessions, session_id@).after(counter),
            ),
            final(self)@.sessions.len() <= 10000,
            final(self)@.sessions.len() > 0,
            final(self)@.sessions.last().id == session_id@,
            final(self)@.identities == old(self)@.identities,
            final(self)@.ephemerals == old(self)@.ephemerals,
            final(self)@.next_handle == old(self)@.next_handle,
            final(self)@.key_updates == old(self)@.key_updates,
    {
        proof {
            law_session_lets_in(self@.sessions, session_id@, counter);
            law_arrival_keeps_wf(self@.sessions, Arrival { id: session_id@, counter });
        }
        let state = self.packet_replay_cache.get_or_insert(session_id);
        state.check_and_update(counter)
    }
}

} // verus!
