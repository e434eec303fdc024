use ed25519_dalek::SigningKey;
use rand_core::{CryptoRng, Error, RngCore};
use smn_crypto_core::{SignedKeyUpdate, SmnCryptoEngine, SmnCryptoError};
use x25519_dalek::EphemeralSecret;

/// Yields the same byte over and over.
struct ConstantRng(u8);

impl RngCore for ConstantRng {
    fn next_u32(&mut self) -> u32 {
        u32::from_le_bytes([self.0; 4])
    }

    fn next_u64(&mut self) -> u64 {
        u64::from_le_bytes([self.0; 8])
    }

    fn fill_bytes(&mut self, dest: &mut [u8]) {
        for byte in dest.iter_mut() {
            *byte = self.0;
        }
    }

    fn try_fill_bytes(&mut self, dest: &mut [u8]) -> Result<(), Error> {
        self.fill_bytes(dest);
        Ok(())
    }
}

impl CryptoRng for ConstantRng {}

fn unhex(text: &str) -> Vec<u8> {
    (0..text.len() / 2)
        .map(|i| u8::from_str_radix(&text[2 * i..2 * i + 2], 16).unwrap())
        .collect()
}

fn seed() -> [u8; 32] {
    unhex("9d61b19deffd5a60ba844af492ec2cc44449c5697b326919703bac031cae7f60")
        .try_into()
        .unwrap()
}

fn copy(update: &SignedKeyUpdate) -> SignedKeyUpdate {
    SignedKeyUpdate {
        master_id: update.master_id.clone(),
        new_encryption_public_key: update.new_encryption_public_key.clone(),
        timestamp: update.timestamp,
        signature: update.signature.clone(),
    }
}

#[test]
fn key_update_replay_is_rejected() {
    let mut engine = SmnCryptoEngine::new();
    let identity = engine.generate_identity();

    let update1 = match engine.sign_key_update(identity.opaque_handle, vec![1u8; 32], 1000) {
        Ok(update) => update,
        Err(_) => panic!("no update"),
    };
    assert!(engine.verify_key_update(
        SignedKeyUpdate {
            master_id: update1.master_id.clone(),
            new_encryption_public_key: update1.new_encryption_public_key.clone(),
            timestamp: update1.timestamp,
            signature: update1.signature.clone(),
        },
        identity.signing_public_key.clone()
    ));

    assert!(!engine.verify_key_update(
        SignedKeyUpdate {
            master_id: update1.master_id,
            new_encryption_public_key: update1.new_encryption_public_key,
            timestamp: update1.timestamp,
            signature: update1.signature,
        },
        identity.signing_public_key
    ));
}

#[test]
fn packet_replay_window_works() {
    let mut engine = SmnCryptoEngine::new();
    let session_key = vec![7u8; 32];

    for i in 1..=3 {
        let ct = engine
            .encrypt_packet(session_key.clone(), b"hello".to_vec(), b"aad".to_vec(), i)
            .unwrap();
        let pt = engine
            .decrypt_packet("session-a".to_string(), session_key.clone(), ct, b"aad".to_vec())
            .unwrap();
        assert_eq!(pt, b"hello");
    }

    let ct2 = engine
        .encrypt_packet(session_key.clone(), b"replay".to_vec(), b"aad".to_vec(), 2)
        .unwrap();
    let replay_result =
        engine.decrypt_packet("session-a".to_string(), session_key, ct2, b"aad".to_vec());
    assert!(matches!(replay_result, Err(SmnCryptoError::ReplayedPacket)));
}

#[test]
fn identity_has_the_public_key_of_its_seed() {
    let mut engine = SmnCryptoEngine::new();
    let identity = engine.keep_identity(SigningKey::from_bytes(&seed()));
    assert_eq!(identity.opaque_handle, 1);
    assert_eq!(
        identity.signing_public_key,
        unhex("d75a980182b10ab7d54bfed3c964073a0ee172f3daa62325af021a68f707511a")
    );
}

#[test]
fn master_id_is_the_start_of_the_hash() {
    let engine = SmnCryptoEngine::new();
    let public = unhex("d75a980182b10ab7d54bfed3c964073a0ee172f3daa62325af021a68f707511a");
    assert_eq!(
        engine.derive_master_id(public),
        "21fe31dfa154a261626bf854046fd2271b7bed4b6abe45aa58877ef47f97"
    );
    assert_eq!(
        engine.derive_master_id(Vec::new()),
        "e3b0c44298fc1c149afbf4c8996fb92427ae41e4649b934ca495991b7852"
    );
}

#[test]
fn signed_update_is_exact() {
    let mut engine = SmnCryptoEngine::default();
    let identity = engine.keep_identity(SigningKey::from_bytes(&seed()));
    let update = engine
        .sign_key_update(identity.opaque_handle, vec![1u8; 32], 1000)
        .ok()
        .unwrap();
    assert_eq!(
        update.master_id,
        "21fe31dfa154a261626bf854046fd2271b7bed4b6abe45aa58877ef47f97"
    );
    assert_eq!(update.new_encryption_public_key, vec![1u8; 32]);
    assert_eq!(update.timestamp, 1000);
    assert_eq!(
        update.signature,
        unhex(
            "720cbabc93cb282a2227dc6b463564b067f1f9b7a18cc9e15d1591588eb922e0\
             97bc8a8b24103c1f0680f65e68d4c84ea6f787bb6674b586a564be4cb30db50f"
        )
    );
}

#[test]
fn signing_needs_a_known_identity() {
    let mut engine = SmnCryptoEngine::new();
    assert!(matches!(
        engine.sign_key_update(1, vec![1u8; 32], 5),
        Err(SmnCryptoError::HandshakeFailed)
    ));
    let identity = engine.generate_identity();
    assert!(engine.sign_key_update(identity.opaque_handle, vec![1u8; 32], 5).is_ok());
    engine.wipe_identity(identity.opaque_handle);
    assert!(matches!(
        engine.sign_key_update(identity.opaque_handle, vec![1u8; 32], 5),
        Err(SmnCryptoError::HandshakeFailed)
    ));
    engine.wipe_identity(77);
}

#[test]
fn older_updates_are_refused_and_newer_ones_accepted() {
    let mut engine = SmnCryptoEngine::new();
    let identity = engine.generate_identity();
    let public = identity.signing_public_key.clone();
    let at = |engine: &SmnCryptoEngine, ts: u64| {
        engine.sign_key_update(identity.opaque_handle, vec![9u8; 4], ts).ok().unwrap()
    };
    let zero = at(&engine, 0);
    let early = at(&engine, 500);
    let first = at(&engine, 1000);
    let second = at(&engine, 1001);
    assert!(!engine.verify_key_update(zero, public.clone()));
    assert!(engine.verify_key_update(copy(&first), public.clone()));
    assert!(!engine.verify_key_update(early, public.clone()));
    assert!(engine.verify_key_update(second, public.clone()));
    assert!(!engine.verify_key_update(first, public));
}

#[test]
fn updates_under_another_name_are_independent() {
    let mut engine = SmnCryptoEngine::new();
    let a = engine.generate_identity();
    let b = engine.generate_identity();
    let update_a = engine.sign_key_update(a.opaque_handle, vec![1u8; 32], 1000).ok().unwrap();
    let update_b = engine.sign_key_update(b.opaque_handle, vec![2u8; 32], 10).ok().unwrap();
    assert!(engine.verify_key_update(update_a, a.signing_public_key));
    assert!(engine.verify_key_update(update_b, b.signing_public_key));
}

#[test]
fn forged_updates_are_refused() {
    let mut engine = SmnCryptoEngine::new();
    let identity = engine.generate_identity();
    let stranger = engine.generate_identity();
    let public = identity.signing_public_key.clone();
    let update = engine.sign_key_update(identity.opaque_handle, vec![1u8; 32], 1000).ok().unwrap();

    let mut changed = copy(&update);
    changed.timestamp = 1001;
    assert!(!engine.verify_key_update(changed, public.clone()));

    let mut changed = copy(&update);
    changed.new_encryption_public_key[0] = 2;
    assert!(!engine.verify_key_update(changed, public.clone()));

    let mut changed = copy(&update);
    changed.signature[0] ^= 1;
    assert!(!engine.verify_key_update(changed, public.clone()));

    let mut changed = copy(&update);
    changed.signature.pop();
    assert!(!engine.verify_key_update(changed, public.clone()));

    assert!(!engine.verify_key_update(copy(&update), stranger.signing_public_key));
    assert!(!engine.verify_key_update(copy(&update), vec![1u8; 31]));
    assert!(!engine.verify_key_update(copy(&update), vec![0xffu8; 32]));
    assert!(engine.verify_key_update(update, public));
}

#[test]
fn handles_count_up_from_one() {
    let mut engine = SmnCryptoEngine::new();
    assert_eq!(engine.generate_identity().opaque_handle, 1);
    assert_eq!(engine.generate_ephemeral_keys().ok().unwrap().opaque_handle, 2);
    assert_eq!(engine.generate_identity().opaque_handle, 3);
}

#[test]
fn session_key_is_exact_and_shared() {
    let mut alice = SmnCryptoEngine::new();
    let mut bob = SmnCryptoEngine::new();
    let a = alice.keep_ephemeral(EphemeralSecret::random_from_rng(ConstantRng(0x11)));
    let b = bob.keep_ephemeral(EphemeralSecret::random_from_rng(ConstantRng(0x22)));
    assert_eq!(
        a.public_key,
        unhex("7b4e909bbe7ffe44c465a220037d608ee35897d31ef972f07f74892cb0f73f13")
    );
    assert_eq!(
        b.public_key,
        unhex("0faa684ed28867b97f4a6a2dee5df8ce974e76b7018e3f22a1c4cf2678570f20")
    );
    let expected = unhex("6182277afbadffc79348f313cb9f3b68e12f38f67c359691c8103ef3d0c1edaf");
    let key = alice.compute_session_key(a.opaque_handle, b.public_key).unwrap();
    assert_eq!(key, expected);
    let key = bob.compute_session_key(b.opaque_handle, a.public_key).unwrap();
    assert_eq!(key, expected);
}

#[test]
fn generated_keys_agree() {
    let mut alice = SmnCryptoEngine::new();
    let mut bob = SmnCryptoEngine::new();
    let a = alice.generate_ephemeral_keys().ok().unwrap();
    let b = bob.generate_ephemeral_keys().ok().unwrap();
    assert_ne!(a.public_key, b.public_key);
    assert_ne!(a.public_key, vec![0u8; 32]);
    let at_alice = alice.compute_session_key(a.opaque_handle, b.public_key).unwrap();
    let at_bob = bob.compute_session_key(b.opaque_handle, a.public_key).unwrap();
    assert_eq!(at_alice, at_bob);
    assert_eq!(at_alice.len(), 32);
}

#[test]
fn keys_of_one_engine_agree() {
    let mut engine = SmnCryptoEngine::new();
    let a = engine.generate_ephemeral_keys().ok().unwrap();
    let b = engine.generate_ephemeral_keys().ok().unwrap();
    let first = engine.compute_session_key(a.opaque_handle, b.public_key).unwrap();
    let second = engine.compute_session_key(b.opaque_handle, a.public_key).unwrap();
    assert_eq!(first, second);
}

#[test]
fn ephemeral_secret_is_used_once() {
    let mut engine = SmnCryptoEngine::new();
    let a = engine.generate_ephemeral_keys().ok().unwrap();
    let b = engine.generate_ephemeral_keys().ok().unwrap();
    assert!(matches!(
        engine.compute_session_key(a.opaque_handle, vec![1u8; 31]),
        Err(SmnCryptoError::InvalidKeyLength)
    ));
    assert!(engine.compute_session_key(a.opaque_handle, b.public_key.clone()).is_ok());
    assert!(matches!(
        engine.compute_session_key(a.opaque_handle, b.public_key),
        Err(SmnCryptoError::HandshakeFailed)
    ));
    engine.wipe_ephemeral(b.opaque_handle);
    assert!(matches!(
        engine.compute_session_key(b.opaque_handle, a.public_key),
        Err(SmnCryptoError::HandshakeFailed)
    ));
}

#[test]
fn zero_public_key_fails_and_uses_up_the_secret() {
    let mut engine = SmnCryptoEngine::new();
    let a = engine.generate_ephemeral_keys().ok().unwrap();
    let b = engine.generate_ephemeral_keys().ok().unwrap();
    assert!(matches!(
        engine.compute_session_key(a.opaque_handle, vec![0u8; 32]),
        Err(SmnCryptoError::HandshakeFailed)
    ));
    assert!(matches!(
        engine.compute_session_key(a.opaque_handle, b.public_key),
        Err(SmnCryptoError::HandshakeFailed)
    ));
}

#[test]
fn wrong_lengths_are_refused() {
    let mut engine = SmnCryptoEngine::new();
    assert!(matches!(
        engine.encrypt_packet(vec![7u8; 31], b"m".to_vec(), Vec::new(), 1),
        Err(SmnCryptoError::InvalidKeyLength)
    ));
    let packet = engine.encrypt_packet(vec![7u8; 32], b"m".to_vec(), Vec::new(), 1).unwrap();
    assert_eq!(packet.len(), 32 + 1 + 16);
    assert!(matches!(
        engine.decrypt_packet("s".to_string(), vec![7u8; 33], packet.clone(), Vec::new()),
        Err(SmnCryptoError::InvalidKeyLength)
    ));
    assert!(matches!(
        engine.decrypt_packet("s".to_string(), vec![7u8; 32], packet[..31].to_vec(), Vec::new()),
        Err(SmnCryptoError::InvalidKeyLength)
    ));
    assert!(engine.decrypt_packet("s".to_string(), vec![7u8; 32], packet, Vec::new()).is_ok());
}

#[test]
fn packets_without_a_whole_tag_are_refused() {
    let mut engine = SmnCryptoEngine::new();
    let packet = engine.encrypt_packet(vec![7u8; 32], Vec::new(), Vec::new(), 1).unwrap();
    assert_eq!(packet.len(), 48);
    assert!(matches!(
        engine.decrypt_packet("a".to_string(), vec![7u8; 32], packet[..32].to_vec(), Vec::new()),
        Err(SmnCryptoError::DecryptionFailed)
    ));
    assert!(matches!(
        engine.decrypt_packet("b".to_string(), vec![7u8; 32], packet[..47].to_vec(), Vec::new()),
        Err(SmnCryptoError::DecryptionFailed)
    ));
    let message = engine.decrypt_packet("c".to_string(), vec![7u8; 32], packet, Vec::new());
    assert_eq!(message.unwrap(), Vec::<u8>::new());
}

#[test]
fn tampered_packets_are_refused_and_use_up_their_counter() {
    let mut engine = SmnCryptoEngine::new();
    let key = vec![7u8; 32];
    let packet = engine.encrypt_packet(key.clone(), b"m".to_vec(), b"aad".to_vec(), 5).unwrap();
    let mut tampered = packet.clone();
    tampered[40] ^= 1;
    assert!(matches!(
        engine.decrypt_packet("s".to_string(), key.clone(), tampered, b"aad".to_vec()),
        Err(SmnCryptoError::DecryptionFailed)
    ));
    assert!(matches!(
        engine.decrypt_packet("s".to_string(), key.clone(), packet.clone(), b"aad".to_vec()),
        Err(SmnCryptoError::ReplayedPacket)
    ));
    assert_eq!(
        engine.decrypt_packet("t".to_string(), key.clone(), packet.clone(), b"aad".to_vec()),
        Ok(b"m".to_vec())
    );
    assert!(matches!(
        engine.decrypt_packet("u".to_string(), key.clone(), packet.clone(), b"other".to_vec()),
        Err(SmnCryptoError::DecryptionFailed)
    ));
    let mut renumbered = packet.clone();
    renumbered[7] = 6;
    assert!(matches!(
        engine.decrypt_packet("v".to_string(), key.clone(), renumbered, b"aad".to_vec()),
        Err(SmnCryptoError::DecryptionFailed)
    ));
    assert!(matches!(
        engine.decrypt_packet("w".to_string(), key, packet[..40].to_vec(), b"aad".to_vec()),
        Err(SmnCryptoError::DecryptionFailed)
    ));
}

#[test]
fn nonces_differ_between_packets() {
    let engine = SmnCryptoEngine::new();
    let a = engine.encrypt_packet(vec![7u8; 32], b"m".to_vec(), Vec::new(), 1).unwrap();
    let b = engine.encrypt_packet(vec![7u8; 32], b"m".to_vec(), Vec::new(), 1).unwrap();
    assert_eq!(a[..8], b[..8]);
    assert_ne!(a[8..32], b[8..32]);
}

#[test]
fn counter_zero_is_refused() {
    let mut engine = SmnCryptoEngine::new();
    let packet = engine.encrypt_packet(vec![7u8; 32], b"m".to_vec(), Vec::new(), 0).unwrap();
    assert!(matches!(
        engine.decrypt_packet("s".to_string(), vec![7u8; 32], packet, Vec::new()),
        Err(SmnCryptoError::ReplayedPacket)
    ));
}

#[test]
fn protection_survives_other_operations() {
    let mut engine = SmnCryptoEngine::new();
    let identity = engine.generate_identity();
    let update = engine.sign_key_update(identity.opaque_handle, vec![1u8; 32], 1000).ok().unwrap();
    let packet = engine.encrypt_packet(vec![7u8; 32], b"m".to_vec(), Vec::new(), 5).unwrap();
    assert!(engine.verify_key_update(copy(&update), identity.signing_public_key.clone()));
    assert!(engine.decrypt_packet("s".to_string(), vec![7u8; 32], packet.clone(), Vec::new()).is_ok());

    let a = engine.generate_ephemeral_keys().ok().unwrap();
    let b = engine.generate_ephemeral_keys().ok().unwrap();
    assert!(engine.compute_session_key(a.opaque_handle, b.public_key).is_ok());
    engine.wipe_ephemeral(b.opaque_handle);
    engine.wipe_identity(identity.opaque_handle);
    let other = engine.encrypt_packet(vec![7u8; 32], b"m".to_vec(), Vec::new(), 9).unwrap();
    assert!(engine.decrypt_packet("t".to_string(), vec![7u8; 32], other, Vec::new()).is_ok());

    assert!(!engine.verify_key_update(update, identity.signing_public_key));
    assert!(matches!(
        engine.decrypt_packet("s".to_string(), vec![7u8; 32], packet, Vec::new()),
        Err(SmnCryptoError::ReplayedPacket)
    ));
}

#[test]
fn wiped_handles_are_not_given_out_again() {
    let mut engine = SmnCryptoEngine::new();
    for expected in 1..=50u64 {
        let handle = if expected % 2 == 0 {
            let handle = engine.generate_identity().opaque_handle;
            engine.wipe_identity(handle);
            handle
        } else {
            let handle = engine.generate_ephemeral_keys().ok().unwrap().opaque_handle;
            engine.wipe_ephemeral(handle);
            handle
        };
        assert_eq!(handle, expected);
    }
}
