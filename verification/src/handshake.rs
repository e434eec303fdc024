//! Session keys from one-time X25519 secrets.

use vstd::prelude::*;
use x25519_dalek::EphemeralSecret;

use crate::bytes::{all_zero, ascii};
use crate::error::SmnCryptoError;
use crate::primitives::{
    diffie_hellman, ephemeral_secret_bytes, hkdf_expand, hkdf_sha256, x25519_public_key,
    x25519_shared_secret,
};

verus! {

/// A one-time key pair, as its owner sees it.
pub struct EphemeralKeyPair {
    /// The X25519 public key to send to the peer.
    pub public_key: Vec<u8>,
    /// The handle under which the engine keeps the secret.
    pub opaque_handle: u64,
}

/// Whether the public key belongs to the secret, and a peer can use it.
pub open spec fn is_key_pair(secret: Seq<u8>, public_key: Seq<u8>) -> bool {
    &&& secret.len() == 32
    &&& public_key == x25519_public_key(secret)
    &&& public_key.len() == 32
    &&& !all_zero(public_key)
}

/// The text that tells session keys apart from anything else that is derived.
pub open spec fn session_info() -> Seq<u8> {
    ascii("smn-session-v1"@)
}

/// The session key that a secret and the public key of a peer give.
pub open spec fn session_key(secret: Seq<u8>, peer_public_key: Seq<u8>) -> Seq<u8> {
    hkdf_sha256(x25519_shared_secret(secret, peer_public_key), session_info(), 32)
}

/// Whether the owner of the peer's public key, given the public key that goes
/// with `secret`, arrives at the session key `key` too.
pub open spec fn peer_agrees(key: Seq<u8>, secret: Seq<u8>, peer_public_key: Seq<u8>) -> bool {
    forall|peer_secret: Seq<u8>|
        peer_secret.len() == 32 && peer_public_key == #[trigger] x25519_public_key(peer_secret)
            ==> key == session_key(peer_secret, x25519_public_key(secret))
}

/// The session key is what HKDF makes of the whole secret that X25519 gives, under
/// the fourteen characters of the label, without a salt, in 32 bytes.
pub proof fn law_session_key_comes_from_the_exchange(secret: Seq<u8>, peer_public_key: Seq<u8>)
    ensures
        session_key(secret, peer_public_key) == hkdf_sha256(
            x25519_shared_secret(secret, peer_public_key),
            seq![115u8, 109, 110, 45, 115, 101, 115, 115, 105, 111, 110, 45, 118, 49],
            32,
        ),
{
    reveal_strlit("smn-session-v1");
    assert(session_info() =~= seq![115u8, 109, 110, 45, 115, 101, 115, 115, 105, 111, 110, 45, 118, 49]);
}

/// A public key belongs to a secret when X25519 says so; a peer can use it when it
/// has 32 bytes, not all of them zero.
pub proof fn law_key_pair_is_usable(secret: Seq<u8>, public_key: Seq<u8>)
    requires
        is_key_pair(secret, public_key),
    ensures
        public_key == x25519_public_key(secret),
        secret.len() == 32,
        public_key.len() == 32,
        exists|i: int| 0 <= i < 32 && public_key[i] != 0,
{
}

/// Uses up a secret to compute the key of a session with a peer.
pub fn derive_session_key(secret: EphemeralSecret, peer_public_key: &[u8; 32]) -> (result: Result<
    Vec<u8>,
    SmnCryptoError,
>)
    ensures
        result matches Ok(key) && {
            &&& key@ == session_key(ephemeral_secret_bytes(secret), peer_public_key@)
            &&& key@.len() == 32
            &&& peer_agrees(key@, ephemeral_secret_bytes(secret), peer_public_key@)
            &&& key@ == hkdf_sha256(
                x25519_shared_secret(ephemeral_secret_bytes(secret), peer_public_key@),
                ascii("smn-session-v1"@),
                32,
            )
        },
{
    let info: &str = "smn-session-v1";
    let info_bytes: &[u8] = info.as_bytes();
    proof {
        reveal_strlit("smn-session-v1");
        assert(info.is_ascii());
        assert(info_bytes@ =~= session_info());
    }
    let shared = diffie_hellman(secret, peer_public_key);
    match hkdf_expand(shared.as_bytes(), info_bytes) {
        Ok(key) => Ok(vstd::slice::slice_to_vec(&key)),
        Err(_) => Err(SmnCryptoError::HandshakeFailed),
    }
}

} // verus!
