//! The engine: the operations that a node performs.

use ed25519_dalek::SigningKey;
use vstd::prelude::*;
use vstd::slice::slice_to_vec;
use x25519_dalek::EphemeralSecret;

use crate::bytes::{
    all_zero, ascii, be_bytes, be_value, is_all_zero, law_write_after_read, to_array_32,
    to_array_64,
};
use crate::error::SmnCryptoError;
use crate::handshake::{
    derive_session_key, is_key_pair, peer_agrees, session_key, EphemeralKeyPair,
};
use crate::key_update::{
    build_key_update_payload, key_update_payload, master_id, name_public_key, KeyUpdateView,
    LongTermIdentity, SignedKeyUpdate, MASTER_ID_LEN,
};
use crate::packet::{
    bytes_of, law_frame_after_parse, law_opened_packet_layout, open_packet, opened_packet, packet_counter, packet_nonce,
    parse_packet, seal_packet, sealable, sealed_packet, HEADER_LEN,
};
use crate::primitives::{
    ed25519_accepts, ed25519_public_key, ed25519_signature, ephemeral_public_key,
    ephemeral_secret_bytes, generate_ephemeral_secret, generate_signing_key, hex_lower,
    hkdf_sha256, random_nonce, sha256, sign, signing_key_seed, signing_public_key,
    verify_signature, x25519_public_key, x25519_shared_secret, xchacha20poly1305_open,
    xchacha20poly1305_seal, KEY_STREAM_LEN, TAG_LEN,
};
use crate::sessions::{used, window_of};
use crate::store::{SecretStore, StoreView};

verus! {

impl StoreView {
    /// The session key that a handshake with a peer gives, or why it fails.
    pub open spec fn session_key_outcome(self, handle: u64, peer_public_key: Seq<u8>) -> Result<
        Seq<u8>,
        SmnCryptoError,
    > {
        if peer_public_key.len() != 32 {
            Err(SmnCryptoError::InvalidKeyLength)
        } else if !self.ephemerals.contains_key(handle) || all_zero(peer_public_key) {
            Err(SmnCryptoError::HandshakeFailed)
        } else {
            Ok(session_key(self.ephemerals[handle], peer_public_key))
        }
    }

    /// The store once a handshake was tried: the secret is used up, unless the
    /// public key of the peer did not even have the right length.
    pub open spec fn after_handshake(self, handle: u64, peer_public_key: Seq<u8>) -> StoreView {
        if peer_public_key.len() != 32 {
            self
        } else {
            self.without_ephemeral(handle)
        }
    }

    /// The key update that an identity signs, or why it does not.
    pub open spec fn signed_update(
        self,
        handle: u64,
        new_encryption_public_key: Seq<u8>,
        timestamp: u64,
    ) -> Result<KeyUpdateView, SmnCryptoError> {
        if self.identities.contains_key(handle) {
            let seed = self.identities[handle];
            Ok(
                KeyUpdateView {
                    master_id: master_id(ed25519_public_key(seed)),
                    new_encryption_public_key,
                    timestamp,
                    signature: ed25519_signature(
                        seed,
                        key_update_payload(new_encryption_public_key, timestamp),
                    ),
                },
            )
        } else {
            Err(SmnCryptoError::HandshakeFailed)
        }
    }

    /// Whether a key and a packet have the lengths that they must have.
    pub open spec fn lengths_fit(session_key: Seq<u8>, packet: Seq<u8>) -> bool {
        session_key.len() == 32 && packet.len() >= HEADER_LEN
    }

    /// The message that a packet holds, or why it is not handed out.
    pub open spec fn decrypt_outcome(
        self,
        session_id: Seq<char>,
        session_key: Seq<u8>,
        packet: Seq<u8>,
        associated_data: Seq<u8>,
    ) -> Result<Seq<u8>, SmnCryptoError> {
        if !Self::lengths_fit(session_key, packet) {
            Err(SmnCryptoError::InvalidKeyLength)
        } else if !self.accepts_counter(session_id, packet_counter(packet)) {
            Err(SmnCryptoError::ReplayedPacket)
        } else {
            match opened_packet(session_key, packet, associated_data) {
                Some(message) => Ok(message),
                None => Err(SmnCryptoError::DecryptionFailed),
            }
        }
    }

    /// The store once a packet has arrived. Its counter is used up before the
    /// packet is decrypted, so also when the packet is not authentic.
    pub open spec fn after_decrypt(
        self,
        session_id: Seq<char>,
        session_key: Seq<u8>,
        packet: Seq<u8>,
    ) -> StoreView {
        if Self::lengths_fit(session_key, packet) {
            self.after_counter(session_id, packet_counter(packet))
        } else {
            self
        }
    }
}

/// Performs the cryptography of a node and keeps its secrets.
pub struct SmnCryptoEngine {
    store: SecretStore,
}

impl View for SmnCryptoEngine {
    type V = StoreView;

    closed spec fn view(&self) -> StoreView {
        self.store@
    }
}

impl SmnCryptoEngine {
    /// The replay protection is valid.
    pub open spec fn wf(self) -> bool {
        &&& self.store_wf()
        &&& self@.wf()
    }

    /// The store is valid.
    pub closed spec fn store_wf(self) -> bool {
        self.store.wf()
    }

    /// Creates an engine that keeps no secret and has seen no packet.
    pub fn new() -> (engine: Self)
        ensures
            engine.wf(),
            engine@ == StoreView::fresh(),
            engine@.identities == Map::<u64, Seq<u8>>::empty(),
            engine@.ephemerals == Map::<u64, Seq<u8>>::empty(),
            engine@.next_handle == 1,
            engine@.key_updates == Map::<Seq<char>, u64>::empty(),
            engine@.sessions.len() == 0,
    {
        SmnCryptoEngine { store: SecretStore::new() }
    }

    /// Creates a long-term identity with a random Ed25519 key.
    pub fn generate_identity(&mut self) -> (identity: LongTermIdentity)
        requires
            old(self).wf(),
        ensures
            final(self).wf(),
            identity.opaque_handle == old(self)@.next_handle,
            final(self)@.identities.contains_key(identity.opaque_handle),
            final(self)@ == old(self)@.with_identity(
                final(self)@.identities[identity.opaque_handle],
            ),
            final(self)@.identities[identity.opaque_handle].len() == 32,
            identity.signing_public_key@ == ed25519_public_key(
                final(self)@.identities[identity.opaque_handle],
            ),
            identity.signing_public_key@.len() == 32,
            final(self)@.identities == old(self)@.identities.insert(
                identity.opaque_handle,
                final(self)@.identities[identity.opaque_handle],
            ),
            old(self)@.next_handle < u64::MAX ==> final(self)@.next_handle == old(self)@.next_handle
                + 1,
            old(self)@.next_handle == u64::MAX ==> final(self)@.next_handle == 0,
            final(self)@.ephemerals == old(self)@.ephemerals,
            final(self)@.key_updates == old(self)@.key_updates,
            final(self)@.sessions == old(self)@.sessions,
    {
        self.keep_identity(generate_signing_key())
    }

    /// Keeps a signing key as a long-term identity.
    pub fn keep_identity(&mut self, key: SigningKey) -> (identity: LongTermIdentity)
        requires
            old(self).wf(),
        ensures
            final(self).wf(),
            final(self)@ == old(self)@.with_identity(signing_key_seed(key)),
            identity.opaque_handle == old(self)@.next_handle,
            identity.signing_public_key@ == ed25519_public_key(signing_key_seed(key)),
            identity.signing_public_key@.len() == 32,
            final(self)@.identities == old(self)@.identities.insert(
                identity.opaque_handle,
                signing_key_seed(key),
            ),
            old(self)@.next_handle < u64::MAX ==> final(self)@.next_handle == old(self)@.next_handle
                + 1,
            old(self)@.next_handle == u64::MAX ==> final(self)@.next_handle == 0,
            final(self)@.ephemerals == old(self)@.ephemerals,
            final(self)@.key_updates == old(self)@.key_updates,
            final(self)@.sessions == old(self)@.sessions,
    {
        let public: [u8; 32] = signing_public_key(&key);
        let handle: u64 = self.store.insert_identity(key);
        LongTermIdentity { signing_public_key: slice_to_vec(&public), opaque_handle: handle }
    }

    /// Names the identity that has this public key: the first sixty hexadecimal
    /// digits of its SHA-256 digest.
    pub fn derive_master_id(&self, signing_public_key: Vec<u8>) -> (id: String)
        ensures
            id@ == master_id(signing_public_key@),
            id@.len() == MASTER_ID_LEN,
            sha256(signing_public_key@).len() == 32,
            id@ == hex_lower(sha256(signing_public_key@)).take(60),
    {
        name_public_key(&signing_public_key)
    }

    /// Forgets a long-term identity; its key overwrites itself.
    pub fn wipe_identity(&mut self, handle: u64)
        requires
            old(self).wf(),
        ensures
            final(self).wf(),
            final(self)@ == old(self)@.without_identity(handle),
            final(self)@.identities == old(self)@.identities.remove(handle),
            final(self)@.ephemerals == old(self)@.ephemerals,
            final(self)@.next_handle == old(self)@.next_handle,
            final(self)@.key_updates == old(self)@.key_updates,
            final(self)@.sessions == old(self)@.sessions,
    {
        let _wiped = self.store.take_identity(handle);
    }

    /// Creates a one-time X25519 key pair from random bytes.
    pub fn generate_ephemeral_keys(&mut self) -> (result: Result<EphemeralKeyPair, SmnCryptoError>)
        requires
            old(self).wf(),
        ensures
            final(self).wf(),
            result matches Ok(pair) && {
                &&& pair.opaque_handle == old(self)@.next_handle
                &&& final(self)@.ephemerals.contains_key(pair.opaque_handle)
                &&& final(self)@ == old(self)@.with_ephemeral(
                    final(self)@.ephemerals[pair.opaque_handle],
                )
                &&& is_key_pair(
                    final(self)@.ephemerals[pair.opaque_handle],
                    pair.public_key@,
                )
                &&& pair.public_key@ == x25519_public_key(
                    final(self)@.ephemerals[pair.opaque_handle],
                )
                &&& final(self)@.ephemerals == old(self)@.ephemerals.insert(
                    pair.opaque_handle,
                    final(self)@.ephemerals[pair.opaque_handle],
                )
            },
            old(self)@.next_handle < u64::MAX ==> final(self)@.next_handle == old(self)@.next_handle
                + 1,
            old(self)@.next_handle == u64::MAX ==> final(self)@.next_handle == 0,
            final(self)@.identities == old(self)@.identities,
            final(self)@.key_updates == old(self)@.key_updates,
            final(self)@.sessions == old(self)@.sessions,
    {
        Ok(self.keep_ephemeral(generate_ephemeral_secret()))
    }

    /// Keeps a one-time secret until it is used up or wiped.
    pub fn keep_ephemeral(&mut self, secret: EphemeralSecret) -> (pair: EphemeralKeyPair)
        requires
            old(self).wf(),
        ensures
            final(self).wf(),
            final(self)@ == old(self)@.with_ephemeral(ephemeral_secret_bytes(secret)),
            pair.opaque_handle == old(self)@.next_handle,
            pair.public_key@ == x25519_public_key(ephemeral_secret_bytes(secret)),
            pair.public_key@.len() == 32,
            !all_zero(pair.public_key@),
            final(self)@.ephemerals == old(self)@.ephemerals.insert(
                pair.opaque_handle,
                ephemeral_secret_bytes(secret),
            ),
            old(self)@.next_handle < u64::MAX ==> final(self)@.next_handle == old(self)@.next_handle
                + 1,
            old(self)@.next_handle == u64::MAX ==> final(self)@.next_handle == 0,
            final(self)@.identities == old(self)@.identities,
            final(self)@.key_updates == old(self)@.key_updates,
            final(self)@.sessions == old(self)@.sessions,
    {
        let public: [u8; 32] = ephemeral_public_key(&secret);
        let handle: u64 = self.store.insert_ephemeral(secret);
        EphemeralKeyPair { public_key: slice_to_vec(&public), opaque_handle: handle }
    }

    /// Uses up a one-time secret to compute the key of a session with a peer,
    /// who arrives at the same key from the other two halves.
    pub fn compute_session_key(
        &mut self,
        my_ephemeral_handle: u64,
        neighbor_ephemeral_public: Vec<u8>,
    ) -> (result: Result<Vec<u8>, SmnCryptoError>)
        requires
            old(self).wf(),
        ensures
            final(self).wf(),
            final(self)@ == old(self)@.after_handshake(
                my_ephemeral_handle,
                neighbor_ephemeral_public@,
            ),
            bytes_of(result) == old(self)@.session_key_outcome(
                my_ephemeral_handle,
                neighbor_ephemeral_public@,
            ),
            result matches Ok(key) ==> {
                &&& key@.len() == 32
                &&& peer_agrees(
                    key@,
                    old(self)@.ephemerals[my_ephemeral_handle],
                    neighbor_ephemeral_public@,
                )
                &&& key@ == hkdf_sha256(
                    x25519_shared_secret(
                        old(self)@.ephemerals[my_ephemeral_handle],
                        neighbor_ephemeral_public@,
                    ),
                    ascii("smn-session-v1"@),
                    32,
                )
            },
            result is Ok <==> neighbor_ephemeral_public@.len() == 32
                && old(self)@.ephemerals.contains_key(my_ephemeral_handle) && (exists|i: int|
                0 <= i < 32 && neighbor_ephemeral_public@[i] != 0),
            result matches Err(e) ==> e == (if neighbor_ephemeral_public@.len() != 32 {
                SmnCryptoError::InvalidKeyLength
            } else {
                SmnCryptoError::HandshakeFailed
            }),
            neighbor_ephemeral_public@.len() == 32 ==> final(self)@.ephemerals == old(
                self,
            )@.ephemerals.remove(my_ephemeral_handle),
            neighbor_ephemeral_public@.len() != 32 ==> final(self)@.ephemerals == old(
                self,
            )@.ephemerals,
            final(self)@.identities == old(self)@.identities,
            final(self)@.next_handle == old(self)@.next_handle,
            final(self)@.key_updates == old(self)@.key_updates,
            final(self)@.sessions == old(self)@.sessions,
    {
        if neighbor_ephemeral_public.len() != 32 {
            return Err(SmnCryptoError::InvalidKeyLength);
        }
        let secret = match self.store.take_ephemeral(my_ephemeral_handle) {
            Some(secret) => secret,
            None => return Err(SmnCryptoError::HandshakeFailed),
        };
        let neighbor: [u8; 32] = to_array_32(&neighbor_ephemeral_public);
        if is_all_zero(&neighbor) {
            return Err(SmnCryptoError::HandshakeFailed);
        }
        derive_session_key(secret, &neighbor)
    }

    /// Forgets a one-time secret; it overwrites itself.
    pub fn wipe_ephemeral(&mut self, handle: u64)
        requires
            old(self).wf(),
        ensures
            final(self).wf(),
            final(self)@ == old(self)@.without_ephemeral(handle),
            final(self)@.ephemerals == old(self)@.ephemerals.remove(handle),
            final(self)@.identities == old(self)@.identities,
            final(self)@.next_handle == old(self)@.next_handle,
            final(self)@.key_updates == old(self)@.key_updates,
            final(self)@.sessions == old(self)@.sessions,
    {
        let _wiped = self.store.take_ephemeral(handle);
    }

    /// Signs the announcement of a new encryption key with a long-term identity.
    pub fn sign_key_update(
        &self,
        identity_handle: u64,
        new_encryption_public_key: Vec<u8>,
        timestamp: u64,
    ) -> (result: Result<SignedKeyUpdate, SmnCryptoError>)
        ensures
            result is Ok <==> self@.identities.contains_key(identity_handle),
            result matches Ok(update) ==> {
                &&& self@.signed_update(
                    identity_handle,
                    new_encryption_public_key@,
                    timestamp,
                ) == Ok::<KeyUpdateView, SmnCryptoError>(update@)
                &&& update@.authentic(ed25519_public_key(self@.identities[identity_handle]))
                &&& update@.master_id.len() == MASTER_ID_LEN
                &&& sha256(ed25519_public_key(self@.identities[identity_handle])).len() == 32
            },
            result matches Err(e) ==> e == SmnCryptoError::HandshakeFailed,
            result matches Ok(update) ==> {
                &&& update.new_encryption_public_key@ == new_encryption_public_key@
                &&& update.timestamp == timestamp
                &&& update.signature@.len() == 64
                &&& update.signature@ == ed25519_signature(
                    self@.identities[identity_handle],
                    ascii("SMN-KEY-UPDATE-V1"@) + new_encryption_public_key@ + be_bytes(timestamp),
                )
                &&& ed25519_accepts(
                    ed25519_public_key(self@.identities[identity_handle]),
                    ascii("SMN-KEY-UPDATE-V1"@) + new_encryption_public_key@ + be_bytes(timestamp),
                    update.signature@,
                )
                &&& update.master_id@ == hex_lower(
                    sha256(ed25519_public_key(self@.identities[identity_handle])),
                ).take(60)
            },
    {
        let key = match self.store.identity(identity_handle) {
            Some(key) => key,
            None => return Err(SmnCryptoError::HandshakeFailed),
        };
        let payload: Vec<u8> = build_key_update_payload(&new_encryption_public_key, timestamp);
        let signature: [u8; 64] = sign(key, &payload);
        let public: [u8; 32] = signing_public_key(key);
        let id: String = self.derive_master_id(slice_to_vec(&public));
        Ok(
            SignedKeyUpdate {
                master_id: id,
                new_encryption_public_key,
                timestamp,
                signature: slice_to_vec(&signature),
            },
        )
    }

    /// Accepts a key update when its signature is valid and it is newer than the
    /// last one that was accepted under its name.
    pub fn verify_key_update(
        &mut self,
        update: SignedKeyUpdate,
        known_signing_public_key: Vec<u8>,
    ) -> (accepted: bool)
        requires
            old(self).wf(),
        ensures
            final(self).wf(),
            accepted == old(self)@.accepts_update(update@, known_signing_public_key@),
            final(self)@ == old(self)@.after_update(update@, known_signing_public_key@),
            accepted <==> {
                &&& known_signing_public_key@.len() == 32
                &&& update.signature@.len() == 64
                &&& ed25519_accepts(
                    known_signing_public_key@,
                    ascii("SMN-KEY-UPDATE-V1"@) + update.new_encryption_public_key@ + be_bytes(
                        update.timestamp,
                    ),
                    update.signature@,
                )
                &&& update.timestamp > 0
                &&& old(self)@.key_updates.contains_key(update.master_id@) ==> update.timestamp
                    > old(self)@.key_updates[update.master_id@]
            },
            accepted ==> final(self)@.key_updates == old(self)@.key_updates.insert(
                update.master_id@,
                update.timestamp,
            ),
            !accepted ==> final(self)@.key_updates == old(self)@.key_updates,
            final(self)@.identities == old(self)@.identities,
            final(self)@.ephemerals == old(self)@.ephemerals,
            final(self)@.next_handle == old(self)@.next_handle,
            final(self)@.sessions == old(self)@.sessions,
    {
        if known_signing_public_key.len() != 32 || update.signature.len() != 64 {
            return false;
        }
        let public: [u8; 32] = to_array_32(&known_signing_public_key);
        let signature: [u8; 64] = to_array_64(&update.signature);
        let payload: Vec<u8> = build_key_update_payload(
            &update.new_encryption_public_key,
            update.timestamp,
        );
        if verify_signature(&public, &payload, &signature).is_err() {
            return false;
        }
        self.store.accept_update_time(update.master_id, update.timestamp)
    }

    /// Encrypts a message into a packet under a random nonce.
    pub fn encrypt_packet(
        &self,
        session_key: Vec<u8>,
        plaintext: Vec<u8>,
        associated_data: Vec<u8>,
        packet_counter: u64,
    ) -> (result: Result<Vec<u8>, SmnCryptoError>)
        requires
            session_key@.len() == 32 ==> sealable(plaintext@.len() as int),
        ensures
            session_key@.len() != 32 ==> bytes_of(result) == Err::<Seq<u8>, SmnCryptoError>(
                SmnCryptoError::InvalidKeyLength,
            ),
            session_key@.len() == 32 && plaintext@.len() > KEY_STREAM_LEN ==> bytes_of(result)
                == Err::<Seq<u8>, SmnCryptoError>(SmnCryptoError::DecryptionFailed),
            session_key@.len() == 32 && plaintext@.len() <= KEY_STREAM_LEN ==> result is Ok,
            result matches Ok(bytes) ==> {
                &&& bytes@.len() == HEADER_LEN + plaintext@.len() + TAG_LEN
                &&& bytes@ == sealed_packet(
                    session_key@,
                    packet_nonce(bytes@),
                    plaintext@,
                    associated_data@,
                    packet_counter,
                )
                &&& crate::packet::packet_counter(bytes@) == packet_counter
                &&& opened_packet(session_key@, bytes@, associated_data@) == Some(plaintext@)
            },
            result is Ok <==> session_key@.len() == 32 && plaintext@.len() <= 0x3f_ffff_ff80,
            result matches Ok(bytes) ==> {
                &&& bytes@.len() == plaintext@.len() + 48
                &&& bytes@.take(8) == be_bytes(packet_counter)
                &&& bytes@.skip(32) == xchacha20poly1305_seal(
                    session_key@,
                    bytes@.subrange(8, 32),
                    associated_data@ + be_bytes(packet_counter),
                    plaintext@,
                )
                &&& xchacha20poly1305_open(
                    session_key@,
                    bytes@.subrange(8, 32),
                    associated_data@ + be_bytes(packet_counter),
                    bytes@.skip(32),
                ) == Some(plaintext@)
            },
            result matches Err(e) ==> e == (if session_key@.len() != 32 {
                SmnCryptoError::InvalidKeyLength
            } else {
                SmnCryptoError::DecryptionFailed
            }),
    {
        if session_key.len() != 32 {
            return Err(SmnCryptoError::InvalidKeyLength);
        }
        let nonce: [u8; 24] = random_nonce();
        seal_packet(&session_key, &nonce, &plaintext, associated_data, packet_counter)
    }

    /// Decrypts a packet, unless its counter was seen before in the session.
    pub fn decrypt_packet(
        &mut self,
        session_id: String,
        session_key: Vec<u8>,
        ciphertext: Vec<u8>,
        associated_data: Vec<u8>,
    ) -> (result: Result<Vec<u8>, SmnCryptoError>)
        requires
            old(self).wf(),
        ensures
            final(self).wf(),
            bytes_of(result) == old(self)@.decrypt_outcome(
                session_id@,
                session_key@,
                ciphertext@,
                associated_data@,
            ),
            result matches Ok(message) ==> ciphertext@.len() == HEADER_LEN + message@.len()
                + TAG_LEN,
            final(self)@ == old(self)@.after_decrypt(session_id@, session_key@, ciphertext@),
            result matches Ok(message) ==> {
                &&& session_key@.len() == 32
                &&& ciphertext@.len() == message@.len() + 48
                &&& xchacha20poly1305_open(
                    session_key@,
                    ciphertext@.subrange(8, 32),
                    associated_data@ + ciphertext@.take(8),
                    ciphertext@.skip(32),
                ) == Some(message@)
            },
            result matches Err(e) ==> {
                &&& e == SmnCryptoError::InvalidKeyLength <==> session_key@.len() != 32
                    || ciphertext@.len() < 32
                &&& e == SmnCryptoError::InvalidKeyLength || e == SmnCryptoError::ReplayedPacket || e
                    == SmnCryptoError::DecryptionFailed
            },
            session_key@.len() == 32 && ciphertext@.len() >= 32 ==> ((result is Ok || result
                == Err::<Vec<u8>, SmnCryptoError>(SmnCryptoError::DecryptionFailed)) <==> be_value(
                ciphertext@.take(8),
            ) > 0 && (forall|i: int|
                0 <= i < old(self)@.sessions.len() && (#[trigger] old(self)@.sessions[i]).id
                    == session_id@ ==> be_value(ciphertext@.take(8)) + 2048 > old(
                    self,
                )@.sessions[i].window.last && !old(self)@.sessions[i].window.seen.contains(
                    be_value(ciphertext@.take(8)) as u64,
                ))),
            result == Err::<Vec<u8>, SmnCryptoError>(SmnCryptoError::DecryptionFailed)
                ==> xchacha20poly1305_open(
                session_key@,
                ciphertext@.subrange(8, 32),
                associated_data@ + ciphertext@.take(8),
                ciphertext@.skip(32),
            ) is None || 0x3f_ffff_ff80 < ciphertext@.len() - 48 < 0x3f_ffff_ffc0,
            session_key@.len() == 32 && ciphertext@.len() >= 32 ==> final(self)@.sessions == used(
                old(self)@.sessions,
                session_id@,
                window_of(old(self)@.sessions, session_id@).after(be_value(ciphertext@.take(8)) as u64),
            ),
            session_key@.len() != 32 || ciphertext@.len() < 32 ==> final(self)@.sessions == old(
                self,
            )@.sessions,
            final(self)@.identities == old(self)@.identities,
            final(self)@.ephemerals == old(self)@.ephemerals,
            final(self)@.next_handle == old(self)@.next_handle,
            final(self)@.key_updates == old(self)@.key_updates,
    {
        if session_key.len() != 32 {
            return Err(SmnCryptoError::InvalidKeyLength);
        }
        let parts = match parse_packet(&ciphertext) {
            Ok(parts) => parts,
            Err(e) => return Err(e),
        };
        proof {
            law_frame_after_parse(ciphertext@);
            law_opened_packet_layout(session_key@, ciphertext@, associated_data@);
            law_write_after_read(ciphertext@.take(8));
        }
        match self.store.admit_counter(session_id, parts.counter) {
            Ok(()) => {},
            Err(e) => return Err(e),
        }
        let key: [u8; 32] = to_array_32(&session_key);
        open_packet(&key, &parts, associated_data)
    }
}

impl Default for SmnCryptoEngine {
    fn default() -> (engine: Self)
        ensures
            engine.wf(),
            engine@ == StoreView::fresh(),
            engine@.identities == Map::<u64, Seq<u8>>::empty(),
            engine@.ephemerals == Map::<u64, Seq<u8>>::empty(),
            engine@.next_handle == 1,
            engine@.key_updates == Map::<Seq<char>, u64>::empty(),
            engine@.sessions.len() == 0,
    {
        SmnCryptoEngine::new()
    }
}

} // verus!
