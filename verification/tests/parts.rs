use smn_crypto_core::bytes::{is_all_zero, to_array_24, to_array_64, u64_from_be_bytes, u64_to_be_bytes};
use smn_crypto_core::key_update::{name_digest, name_public_key};
use smn_crypto_core::packet::{frame_packet, is_sealable, open_packet, parse_packet, seal_packet};
use smn_crypto_core::{
    build_key_update_payload, LruSessionCache, ReplayWindowState, SecretStore, SmnCryptoError,
};

fn nonce() -> [u8; 24] {
    let mut nonce = [0u8; 24];
    for i in 0..24 {
        nonce[i] = i as u8;
    }
    nonce
}

#[test]
fn integers_are_written_most_significant_byte_first() {
    assert_eq!(u64_to_be_bytes(0x0102030405060708), [1, 2, 3, 4, 5, 6, 7, 8]);
    assert_eq!(u64_to_be_bytes(0), [0; 8]);
    assert_eq!(u64_to_be_bytes(u64::MAX), [255; 8]);
    assert_eq!(u64_from_be_bytes(&[1, 2, 3, 4, 5, 6, 7, 8]), 0x0102030405060708);
    assert_eq!(u64_from_be_bytes(&[255; 8]), u64::MAX);
    assert_eq!(u64_from_be_bytes(&u64_to_be_bytes(1000)), 1000);
}

#[test]
fn arrays_are_copied() {
    assert_eq!(to_array_24(&nonce()), nonce());
    assert_eq!(to_array_64(&[3u8; 64]), [3u8; 64]);
    assert!(is_all_zero(&[0, 0, 0]));
    assert!(!is_all_zero(&[0, 0, 1]));
    assert!(is_all_zero(&[]));
}

#[test]
fn payload_is_domain_key_time() {
    let payload = build_key_update_payload(&[0xaa, 0xbb], 0x0102);
    assert_eq!(payload, b"SMN-KEY-UPDATE-V1\xaa\xbb\0\0\0\0\0\0\x01\x02".to_vec());
}

#[test]
fn digests_are_named_by_sixty_digits() {
    let mut digest = [0u8; 32];
    for i in 0..32 {
        digest[i] = i as u8;
    }
    assert_eq!(
        name_digest(&digest),
        "000102030405060708090a0b0c0d0e0f101112131415161718191a1b1c1d"
    );
    assert_eq!(
        name_public_key(b""),
        "e3b0c44298fc1c149afbf4c8996fb92427ae41e4649b934ca495991b7852"
    );
}

#[test]
fn packets_are_framed_and_parsed() {
    let bytes = frame_packet(258, &nonce(), b"body");
    assert_eq!(bytes[..8], [0, 0, 0, 0, 0, 0, 1, 2]);
    assert_eq!(bytes[8..32], nonce());
    assert_eq!(&bytes[32..], b"body");
    let parts = parse_packet(&bytes).ok().unwrap();
    assert_eq!(parts.counter, 258);
    assert_eq!(parts.nonce, nonce());
    assert_eq!(parts.ciphertext, b"body");
    assert!(matches!(parse_packet(&bytes[..31]), Err(SmnCryptoError::InvalidKeyLength)));
    assert!(parse_packet(&bytes[..32]).is_ok());
}

#[test]
fn sealed_packet_is_exact() {
    let packet =
        seal_packet(&[7u8; 32], &nonce(), b"hello", b"aad".to_vec(), 0x0102030405060708).unwrap();
    let expected: Vec<u8> = [
        u64_to_be_bytes(0x0102030405060708).to_vec(),
        nonce().to_vec(),
        vec![
            0xc0, 0x72, 0xc7, 0xe9, 0x95, 0x83, 0x77, 0x3b, 0xf3, 0x4f, 0xd3, 0x38, 0x45, 0xaa,
            0xf8, 0xb4, 0xae, 0xe4, 0xd7, 0x5c, 0x6f,
        ],
    ]
    .concat();
    assert_eq!(packet, expected);
    let parts = parse_packet(&packet).ok().unwrap();
    assert_eq!(open_packet(&[7u8; 32], &parts, b"aad".to_vec()), Ok(b"hello".to_vec()));
    assert_eq!(
        open_packet(&[8u8; 32], &parts, b"aad".to_vec()),
        Err(SmnCryptoError::DecryptionFailed)
    );
    assert_eq!(
        seal_packet(&[7u8; 3], &nonce(), b"hello", Vec::new(), 1),
        Err(SmnCryptoError::InvalidKeyLength)
    );
}

#[test]
fn sealable_lengths() {
    assert!(is_sealable(0));
    assert!(is_sealable(0x3f_ffff_ff80));
    assert!(!is_sealable(0x3f_ffff_ff81));
    assert!(!is_sealable(0x3f_ffff_ffbf));
    assert!(is_sealable(0x3f_ffff_ffc0));
    assert!(is_sealable(isize::MAX as usize - 48));
    assert!(!is_sealable(isize::MAX as usize - 47));
}

#[test]
fn empty_message_round_trips() {
    let packet = seal_packet(&[1u8; 32], &nonce(), b"", Vec::new(), 1).unwrap();
    assert_eq!(packet.len(), 48);
    let parts = parse_packet(&packet).ok().unwrap();
    assert_eq!(open_packet(&[1u8; 32], &parts, Vec::new()), Ok(Vec::new()));
}

#[test]
fn window_edges() {
    let replayed = Err(SmnCryptoError::ReplayedPacket);
    let mut window = ReplayWindowState::new();
    assert_eq!(window.check_and_update(0), replayed);
    assert_eq!(window.check_and_update(3000), Ok(()));
    assert_eq!(window.check_and_update(3000), replayed);
    assert_eq!(window.check_and_update(952), replayed);
    assert_eq!(window.check_and_update(953), Ok(()));
    assert_eq!(window.check_and_update(953), replayed);
    assert_eq!(window.check_and_update(2999), Ok(()));
    assert_eq!(window.check_and_update(3001), Ok(()));
    assert_eq!(window.check_and_update(953), replayed);
    assert_eq!(window.check_and_update(2999), replayed);
    assert_eq!(window.check_and_update(u64::MAX), Ok(()));
    assert_eq!(window.check_and_update(3002), replayed);
    assert_eq!(window.check_and_update(u64::MAX - 1), Ok(()));
    assert_eq!(window.check_and_update(u64::MAX), replayed);
}

#[test]
fn every_counter_is_let_through_once() {
    let mut window = ReplayWindowState::new();
    for c in (1..=2048u64).rev() {
        assert_eq!(window.check_and_update(c), Ok(()));
    }
    for c in 1..=2048u64 {
        assert_eq!(window.check_and_update(c), Err(SmnCryptoError::ReplayedPacket));
    }
    for c in 2049..=6000u64 {
        assert_eq!(window.check_and_update(c), Ok(()));
        assert_eq!(window.check_and_update(c - 1), Err(SmnCryptoError::ReplayedPacket));
    }
}

#[test]
fn sessions_are_separate() {
    let mut cache = LruSessionCache::new();
    assert_eq!(cache.get_or_insert("a".to_string()).check_and_update(1), Ok(()));
    assert_eq!(cache.get_or_insert("b".to_string()).check_and_update(1), Ok(()));
    assert_eq!(
        cache.get_or_insert("a".to_string()).check_and_update(1),
        Err(SmnCryptoError::ReplayedPacket)
    );
}

#[test]
fn least_recently_used_session_is_forgotten() {
    let replayed = Err(SmnCryptoError::ReplayedPacket);
    let mut cache = LruSessionCache::new();
    for i in 0..10000 {
        assert_eq!(cache.get_or_insert(format!("s{}", i)).check_and_update(1), Ok(()));
    }
    assert_eq!(cache.get_or_insert("s0".to_string()).check_and_update(1), replayed);
    assert_eq!(cache.get_or_insert("new".to_string()).check_and_update(1), Ok(()));
    assert_eq!(cache.get_or_insert("s0".to_string()).check_and_update(1), replayed);
    assert_eq!(cache.get_or_insert("s2".to_string()).check_and_update(1), replayed);
    assert_eq!(cache.get_or_insert("s1".to_string()).check_and_update(1), Ok(()));
}

#[test]
fn store_gives_out_handles_and_admits_counters() {
    let mut store = SecretStore::new();
    assert_eq!(store.alloc_handle(), 1);
    assert_eq!(store.alloc_handle(), 2);
    assert!(store.identity(1).is_none());
    assert!(store.take_ephemeral(1).is_none());
    assert!(!store.accept_update_time("m".to_string(), 0));
    assert!(store.accept_update_time("m".to_string(), 2));
    assert!(!store.accept_update_time("m".to_string(), 2));
    assert!(store.accept_update_time("n".to_string(), 1));
    assert_eq!(store.admit_counter("s".to_string(), 9), Ok(()));
    assert_eq!(
        store.admit_counter("s".to_string(), 9),
        Err(SmnCryptoError::ReplayedPacket)
    );
}

#[test]
fn errors_have_messages() {
    assert_eq!(SmnCryptoError::InvalidKeyLength.message(), "invalid key length");
    assert_eq!(SmnCryptoError::DecryptionFailed.message(), "decryption failed");
    assert_eq!(SmnCryptoError::SignatureInvalid.message(), "signature invalid");
    assert_eq!(SmnCryptoError::HandshakeFailed.message(), "handshake failed");
    assert_eq!(SmnCryptoError::StaleKeyUpdate.message(), "stale or replayed key update");
    assert_eq!(SmnCryptoError::ReplayedPacket.message(), "replayed packet");
}
