//! The cryptographic primitives, each a thin wrapper around the crate that
//! implements it. Nothing in this module is proved: each contract states what
//! the crate behind it does.

use chacha20poly1305::aead::{Aead, KeyInit, Payload};
use chacha20poly1305::{XChaCha20Poly1305, XNonce};
use ed25519_dalek::{Signature, SignatureError, Signer, SigningKey, Verifier, VerifyingKey};
use hkdf::{Hkdf, InvalidLength};
use rand_core::{OsRng, RngCore};
use sha2::{Digest, Sha256};
use vstd::prelude::*;
use x25519_dalek::{EphemeralSecret, PublicKey, SharedSecret};

use crate::bytes::all_zero;

verus! {

/// An Ed25519 signing key. It overwrites its seed when it is dropped.
#[verifier::external_type_specification]
#[verifier::external_body]
pub struct ExSigningKey(ed25519_dalek::SigningKey);

/// Why Ed25519 refused a public key or a signature.
#[verifier::external_type_specification]
#[verifier::external_body]
pub struct ExSignatureError(ed25519_dalek::SignatureError);

/// An X25519 secret that can be used once. It overwrites itself when dropped.
#[verifier::external_type_specification]
#[verifier::external_body]
pub struct ExEphemeralSecret(x25519_dalek::EphemeralSecret);

/// The outcome of a Diffie-Hellman exchange. It overwrites itself when dropped.
#[verifier::external_type_specification]
#[verifier::external_body]
pub struct ExSharedSecret(x25519_dalek::SharedSecret);

/// Why HKDF refused to produce an output.
#[verifier::external_type_specification]
#[verifier::external_body]
pub struct ExInvalidLength(hkdf::InvalidLength);

/// Why the cipher refused to encrypt or to decrypt.
#[verifier::external_type_specification]
#[verifier::external_body]
pub struct ExAeadError(chacha20poly1305::aead::Error);

/// The 32 bytes that a signing key holds, as `SigningKey::to_bytes` returns them.
pub uninterp spec fn signing_key_seed(key: SigningKey) -> Seq<u8>;

/// The 32 bytes that an ephemeral secret holds.
pub uninterp spec fn ephemeral_secret_bytes(secret: EphemeralSecret) -> Seq<u8>;

/// The 32 bytes that a shared secret holds.
pub uninterp spec fn shared_secret_bytes(secret: SharedSecret) -> Seq<u8>;

/// The Ed25519 public key that belongs to a seed.
pub uninterp spec fn ed25519_public_key(seed: Seq<u8>) -> Seq<u8>;

/// The Ed25519 signature of a message under a seed.
pub uninterp spec fn ed25519_signature(seed: Seq<u8>, message: Seq<u8>) -> Seq<u8>;

/// Whether the bytes are an Ed25519 public key under which the signature of the
/// message is valid.
pub uninterp spec fn ed25519_accepts(
    public_key: Seq<u8>,
    message: Seq<u8>,
    signature: Seq<u8>,
) -> bool;

/// The X25519 public key that belongs to a secret.
pub uninterp spec fn x25519_public_key(secret: Seq<u8>) -> Seq<u8>;

/// What X25519 makes of a secret and a public key.
pub uninterp spec fn x25519_shared_secret(secret: Seq<u8>, public_key: Seq<u8>) -> Seq<u8>;

/// The output of HKDF with SHA-256, without a salt, of the given length.
pub uninterp spec fn hkdf_sha256(ikm: Seq<u8>, info: Seq<u8>, len: nat) -> Seq<u8>;

/// The SHA-256 digest of the data.
pub uninterp spec fn sha256(data: Seq<u8>) -> Seq<u8>;

/// The XChaCha20-Poly1305 ciphertext of a message, followed by its tag.
pub uninterp spec fn xchacha20poly1305_seal(
    key: Seq<u8>,
    nonce: Seq<u8>,
    aad: Seq<u8>,
    message: Seq<u8>,
) -> Seq<u8>;

/// The message that an XChaCha20-Poly1305 ciphertext with its tag holds, if it
/// is authentic.
pub uninterp spec fn xchacha20poly1305_open(
    key: Seq<u8>,
    nonce: Seq<u8>,
    aad: Seq<u8>,
    ciphertext: Seq<u8>,
) -> Option<Seq<u8>>;

/// How many bytes longer a ciphertext with its tag is than its message.
pub const TAG_LEN: usize = 16;

/// The length of the longest message that the key stream of one nonce covers.
pub const KEY_STREAM_LEN: u64 = 0x3f_ffff_ff80;

/// The length of the shortest message that the cipher refuses as too long.
pub const REFUSED_LEN: u64 = 0x3f_ffff_ffc0;

/// The messages for which the key stream ends too early, though the cipher does
/// not refuse them.
pub open spec fn outruns_key_stream(message_len: int) -> bool {
    KEY_STREAM_LEN < message_len < REFUSED_LEN
}

/// The lower-case hexadecimal digit for a value below sixteen.
pub open spec fn hex_digit(value: int) -> char {
    if value < 10 {
        (48 + value) as char
    } else {
        (87 + value) as char
    }
}

/// The lower-case hexadecimal digits of the data, two for each byte, the more
/// significant one first.
pub open spec fn hex_lower(data: Seq<u8>) -> Seq<char> {
    Seq::new(
        2 * data.len(),
        |i: int|
            if i % 2 == 0 {
                hex_digit(data[i / 2] as int / 16)
            } else {
                hex_digit(data[i / 2] as int % 16)
            },
    )
}

/// `SigningKey::generate` with `OsRng`: a signing key with a random seed of 32
/// bytes; how the seed is distributed is not stated. It panics when the operating
/// system has no random numbers to give.
#[verifier::external_body]
pub(crate) fn generate_signing_key() -> (key: SigningKey)
    ensures
        signing_key_seed(key).len() == 32,
{
    SigningKey::generate(&mut OsRng)
}

/// `SigningKey::verifying_key`, as bytes: the public half of the key, which
/// depends on the seed alone.
#[verifier::external_body]
pub(crate) fn signing_public_key(key: &SigningKey) -> (public_key: [u8; 32])
    ensures
        public_key@ == ed25519_public_key(signing_key_seed(*key)),
{
    key.verifying_key().to_bytes()
}

/// `Signer::sign` for `SigningKey`, as bytes: the signature, which depends on
/// the seed and the message alone. Its public half accepts what a key signs.
#[verifier::external_body]
pub(crate) fn sign(key: &SigningKey, message: &[u8]) -> (signature: [u8; 64])
    ensures
        signature@ == ed25519_signature(signing_key_seed(*key), message@),
        ed25519_accepts(ed25519_public_key(signing_key_seed(*key)), message@, signature@),
{
    key.sign(message).to_bytes()
}

/// `VerifyingKey::from_bytes`, then `Verifier::verify`: succeeds when the bytes
/// are a public key under which the signature of the message is valid.
#[verifier::external_body]
pub(crate) fn verify_signature(
    public_key: &[u8; 32],
    message: &[u8],
    signature: &[u8; 64],
) -> (result: Result<(), SignatureError>)
    ensures
        result is Ok <==> ed25519_accepts(public_key@, message@, signature@),
{
    VerifyingKey::from_bytes(public_key)?.verify(message, &Signature::from_bytes(signature))
}

/// `EphemeralSecret::random_from_rng` with `OsRng`: a random secret of 32 bytes;
/// how it is distributed is not stated. It panics when the operating system has
/// no random numbers to give.
#[verifier::external_body]
pub(crate) fn generate_ephemeral_secret() -> (secret: EphemeralSecret)
    ensures
        ephemeral_secret_bytes(secret).len() == 32,
{
    EphemeralSecret::random_from_rng(OsRng)
}

/// `PublicKey::from` for a reference to an `EphemeralSecret`, as bytes: the
/// public key, which depends on the bytes of the secret alone. It is never zero:
/// a clamped scalar is no multiple of the order of the base point, and only the
/// identity and a point of order two have a coordinate of zero.
#[verifier::external_body]
pub(crate) fn ephemeral_public_key(secret: &EphemeralSecret) -> (public_key: [u8; 32])
    ensures
        public_key@ == x25519_public_key(ephemeral_secret_bytes(*secret)),
        !all_zero(public_key@),
{
    PublicKey::from(secret).to_bytes()
}

/// `EphemeralSecret::diffie_hellman`: what X25519 makes of the secret and a
/// public key. When the public key belongs to another secret, that secret and
/// the public key of this one give the same result.
#[verifier::external_body]
pub(crate) fn diffie_hellman(secret: EphemeralSecret, public_key: &[u8; 32]) -> (shared:
    SharedSecret)
    ensures
        shared_secret_bytes(shared) == x25519_shared_secret(
            ephemeral_secret_bytes(secret),
            public_key@,
        ),
        forall|other: Seq<u8>|
            other.len() == 32 && public_key@ == #[trigger] x25519_public_key(other)
                ==> shared_secret_bytes(shared) == x25519_shared_secret(
                other,
                x25519_public_key(ephemeral_secret_bytes(secret)),
            ),
{
    secret.diffie_hellman(&PublicKey::from(*public_key))
}

/// `SharedSecret::as_bytes`: the bytes that the shared secret holds.
pub assume_specification[ x25519_dalek::SharedSecret::as_bytes ](
    secret: &SharedSecret,
) -> (bytes: &[u8; 32])
    ensures
        bytes@ == shared_secret_bytes(*secret),
;

/// `Hkdf::<Sha256>::new` without a salt, then `Hkdf::expand` to 32 bytes, which
/// succeeds, as 32 bytes are fewer than the 8160 that HKDF can produce.
#[verifier::external_body]
pub(crate) fn hkdf_expand(ikm: &[u8], info: &[u8]) -> (result: Result<[u8; 32], InvalidLength>)
    ensures
        result is Ok,
        result matches Ok(okm) ==> okm@ == hkdf_sha256(ikm@, info@, 32),
{
    let mut okm = [0u8; 32];
    Hkdf::<Sha256>::new(None, ikm).expand(info, &mut okm)?;
    Ok(okm)
}

/// `Sha256::digest`: the digest of the data.
#[verifier::external_body]
pub(crate) fn sha256_digest(data: &[u8]) -> (digest: [u8; 32])
    ensures
        digest@ == sha256(data@),
{
    Sha256::digest(data).into()
}

/// `hex::encode`: two lower-case hexadecimal digits for each byte.
#[verifier::external_body]
pub(crate) fn hex_encode(data: &[u8]) -> (text: String)
    requires
        2 * data@.len() <= isize::MAX,
    ensures
        text@ == hex_lower(data@),
{
    hex::encode(data)
}

/// `RngCore::fill_bytes` of `OsRng`: a random nonce; how it is distributed is not
/// stated. It panics when the operating system has no random numbers to give.
#[verifier::external_body]
pub(crate) fn random_nonce() -> (nonce: [u8; 24]) {
    let mut nonce = [0u8; 24];
    OsRng.fill_bytes(&mut nonce);
    nonce
}

/// `Aead::encrypt` for `XChaCha20Poly1305`: the ciphertext of the message and
/// its tag, or an error for a message that is too long. Decrypting the result
/// gives the message back. The call panics on a message that outruns the key
/// stream, and on one that leaves no room for the tag.
#[verifier::external_body]
pub(crate) fn aead_encrypt(
    key: &[u8; 32],
    nonce: &[u8; 24],
    aad: &[u8],
    message: &[u8],
) -> (result: Result<Vec<u8>, chacha20poly1305::aead::Error>)
    requires
        message@.len() + TAG_LEN <= isize::MAX,
        !outruns_key_stream(message@.len() as int),
    ensures
        result is Ok <==> message@.len() <= KEY_STREAM_LEN,
        result matches Ok(ciphertext) ==> {
            &&& ciphertext@ == xchacha20poly1305_seal(key@, nonce@, aad@, message@)
            &&& ciphertext@.len() == message@.len() + TAG_LEN
            &&& xchacha20poly1305_open(key@, nonce@, aad@, ciphertext@) == Some(message@)
        },
{
    XChaCha20Poly1305::new(key.into()).encrypt(XNonce::from_slice(nonce), Payload {
        msg: message,
        aad,
    })
}

/// `Aead::decrypt` for `XChaCha20Poly1305`: the message that the ciphertext and
/// its tag hold, or an error when they are not authentic, too short to hold a
/// tag, or too long. The call can panic on a ciphertext whose message outruns
/// the key stream.
#[verifier::external_body]
pub(crate) fn aead_decrypt(
    key: &[u8; 32],
    nonce: &[u8; 24],
    aad: &[u8],
    ciphertext: &[u8],
) -> (result: Result<Vec<u8>, chacha20poly1305::aead::Error>)
    requires
        !outruns_key_stream(ciphertext@.len() - TAG_LEN),
    ensures
        result is Ok <==> xchacha20poly1305_open(key@, nonce@, aad@, ciphertext@) is Some,
        result matches Ok(message) ==> {
            &&& xchacha20poly1305_open(key@, nonce@, aad@, ciphertext@) == Some(message@)
            &&& ciphertext@.len() == message@.len() + TAG_LEN
            &&& message@.len() <= KEY_STREAM_LEN
        },
{
    XChaCha20Poly1305::new(key.into()).decrypt(XNonce::from_slice(nonce), Payload {
        msg: ciphertext,
        aad,
    })
}

} // verus!
