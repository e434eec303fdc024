//! Long-term identities and the key updates that they sign.

use vstd::prelude::*;

use crate::bytes::{append, ascii, be_bytes, law_read_after_write, u64_to_be_bytes};
use crate::primitives::{
    ed25519_accepts, hex_digit, hex_encode, hex_lower, sha256, sha256_digest,
};

verus! {

/// A long-term identity, as its owner sees it.
pub struct LongTermIdentity {
    /// The Ed25519 public key that others verify its signatures with.
    pub signing_public_key: Vec<u8>,
    /// The handle under which the engine keeps the signing key.
    pub opaque_handle: u64,
}

/// An announcement of a new encryption key, signed by a long-term identity.
pub struct SignedKeyUpdate {
    pub master_id: String,
    pub new_encryption_public_key: Vec<u8>,
    pub timestamp: u64,
    pub signature: Vec<u8>,
}

/// What a key update says.
#[verifier::ext_equal]
pub struct KeyUpdateView {
    pub master_id: Seq<char>,
    pub new_encryption_public_key: Seq<u8>,
    pub timestamp: u64,
    pub signature: Seq<u8>,
}

impl View for SignedKeyUpdate {
    type V = KeyUpdateView;

    open spec fn view(&self) -> KeyUpdateView {
        KeyUpdateView {
            master_id: self.master_id@,
            new_encryption_public_key: self.new_encryption_public_key@,
            timestamp: self.timestamp,
            signature: self.signature@,
        }
    }
}

impl KeyUpdateView {
    /// Whether the update carries a valid signature of the owner of this public
    /// key. The signature covers the new key and the time, not the name.
    pub open spec fn authentic(self, signing_public_key: Seq<u8>) -> bool {
        &&& signing_public_key.len() == 32
        &&& self.signature.len() == 64
        &&& ed25519_accepts(
            signing_public_key,
            key_update_payload(self.new_encryption_public_key, self.timestamp),
            self.signature,
        )
    }
}

/// How many characters the name of an identity has.
pub const MASTER_ID_LEN: usize = 60;

/// The name that goes with the digest of a public key: its first
/// `MASTER_ID_LEN` hexadecimal digits.
pub open spec fn master_id_of_digest(digest: Seq<u8>) -> Seq<char> {
    hex_lower(digest).take(MASTER_ID_LEN as int)
}

/// The name of the identity with this public key.
pub open spec fn master_id(signing_public_key: Seq<u8>) -> Seq<char> {
    master_id_of_digest(sha256(signing_public_key))
}

/// The text that tells key updates apart from anything else that is signed.
pub open spec fn key_update_domain() -> Seq<u8> {
    ascii("SMN-KEY-UPDATE-V1"@)
}

/// The message that is signed for a key update.
pub open spec fn key_update_payload(new_encryption_public_key: Seq<u8>, timestamp: u64) -> Seq<u8> {
    key_update_domain() + new_encryption_public_key + be_bytes(timestamp)
}

/// The message that is signed determines the new key and the time.
pub proof fn law_payload_tells_updates_apart(
    key_a: Seq<u8>,
    timestamp_a: u64,
    key_b: Seq<u8>,
    timestamp_b: u64,
)
    requires
        key_update_payload(key_a, timestamp_a) == key_update_payload(key_b, timestamp_b),
    ensures
        key_a == key_b,
        timestamp_a == timestamp_b,
{
    let n = key_update_domain().len() as int;
    let a = key_update_payload(key_a, timestamp_a);
    let b = key_update_payload(key_b, timestamp_b);
    law_read_after_write(timestamp_a);
    law_read_after_write(timestamp_b);
    assert(a.subrange(n, a.len() - 8) =~= key_a);
    assert(b.subrange(n, b.len() - 8) =~= key_b);
    assert(a.skip(a.len() - 8) =~= be_bytes(timestamp_a));
    assert(b.skip(b.len() - 8) =~= be_bytes(timestamp_b));
}

/// The message that is signed for a key update is the seventeen characters of the
/// label, every byte of the new key, and the eight bytes of the time.
pub proof fn law_signed_message(new_encryption_public_key: Seq<u8>, timestamp: u64)
    ensures
        key_update_payload(new_encryption_public_key, timestamp) == seq![83u8, 77, 78, 45, 75, 69, 89, 45, 85, 80, 68, 65, 84, 69, 45, 86, 49]
            + new_encryption_public_key + be_bytes(timestamp),
{
    reveal_strlit("SMN-KEY-UPDATE-V1");
    assert(key_update_domain() =~= seq![83u8, 77, 78, 45, 75, 69, 89, 45, 85, 80, 68, 65, 84, 69, 45, 86, 49]);
}

/// An update is authentic exactly when the public key accepts its signature of the
/// label, the whole new key and the time that the update bears.
pub proof fn law_signature_covers_the_update(update: KeyUpdateView, signing_public_key: Seq<u8>)
    ensures
        update.authentic(signing_public_key) <==> signing_public_key.len() == 32
            && update.signature.len() == 64 && ed25519_accepts(
            signing_public_key,
            seq![83u8, 77, 78, 45, 75, 69, 89, 45, 85, 80, 68, 65, 84, 69, 45, 86, 49] + update.new_encryption_public_key + be_bytes(update.timestamp),
            update.signature,
        ),
{
    law_signed_message(update.new_encryption_public_key, update.timestamp);
}

/// Two updates with different keys or different times are never checked against
/// the same message.
pub proof fn law_updates_are_checked_apart(a: KeyUpdateView, b: KeyUpdateView)
    requires
        a.new_encryption_public_key != b.new_encryption_public_key || a.timestamp != b.timestamp,
    ensures
        key_update_payload(a.new_encryption_public_key, a.timestamp) != key_update_payload(
            b.new_encryption_public_key,
            b.timestamp,
        ),
        seq![83u8, 77, 78, 45, 75, 69, 89, 45, 85, 80, 68, 65, 84, 69, 45, 86, 49] + a.new_encryption_public_key + be_bytes(a.timestamp) != seq![83u8, 77, 78, 45, 75, 69, 89, 45, 85, 80, 68, 65, 84, 69, 45, 86, 49]
            + b.new_encryption_public_key + be_bytes(b.timestamp),
{
    if key_update_payload(a.new_encryption_public_key, a.timestamp) == key_update_payload(
        b.new_encryption_public_key,
        b.timestamp,
    ) {
        law_payload_tells_updates_apart(
            a.new_encryption_public_key,
            a.timestamp,
            b.new_encryption_public_key,
            b.timestamp,
        );
    }
    law_signed_message(a.new_encryption_public_key, a.timestamp);
    law_signed_message(b.new_encryption_public_key, b.timestamp);
}

/// The name of an identity has sixty characters, one for each half of the first
/// thirty bytes of the digest: a digit below ten, a letter from a to f above.
pub proof fn law_name_spells_the_digest(digest: Seq<u8>)
    requires
        digest.len() == 32,
    ensures
        master_id_of_digest(digest).len() == 60,
        forall|i: int|
            0 <= i < 30 ==> {
                &&& #[trigger] digest[i] / 16 < 10 ==> master_id_of_digest(digest)[2 * i] as int
                    == 48 + digest[i] / 16
                &&& digest[i] / 16 >= 10 ==> master_id_of_digest(digest)[2 * i] as int == 97 + (
                digest[i] / 16 - 10)
                &&& digest[i] % 16 < 10 ==> master_id_of_digest(digest)[2 * i + 1] as int == 48
                    + digest[i] % 16
                &&& digest[i] % 16 >= 10 ==> master_id_of_digest(digest)[2 * i + 1] as int == 97 + (
                digest[i] % 16 - 10)
            },
{
}

/// The name of an identity is the start of the digest of its whole public key.
pub proof fn law_name_comes_from_the_digest(signing_public_key: Seq<u8>)
    ensures
        master_id(signing_public_key) == hex_lower(sha256(signing_public_key)).take(60),
{
}

proof fn lemma_hex_lower_is_ascii(data: Seq<u8>)
    ensures
        vstd::utf8::is_ascii_chars(hex_lower(data)),
{
    assert(forall|v: int| 0 <= v < 16 ==> 0 <= (#[trigger] hex_digit(v)) as u32 && (hex_digit(v) as u32) < 128);
}

/// Names the identity whose public key has this digest.
pub fn name_digest(digest: &[u8; 32]) -> (id: String)
    ensures
        id@ == master_id_of_digest(digest@),
        id@.len() == MASTER_ID_LEN,
        id@ == hex_lower(digest@).take(60),
{
    let encoded: String = hex_encode(digest);
    proof {
        lemma_hex_lower_is_ascii(digest@);
    }
    encoded.as_str().substring_ascii(0, MASTER_ID_LEN).to_owned()
}

/// Names the identity that has this public key.
pub fn name_public_key(signing_public_key: &[u8]) -> (id: String)
    ensures
        id@ == master_id(signing_public_key@),
        id@.len() == MASTER_ID_LEN,
        sha256(signing_public_key@).len() == 32,
        id@ == hex_lower(sha256(signing_public_key@)).take(60),
{
    name_digest(&sha256_digest(signing_public_key))
}

/// Builds the message that is signed for a key update.
pub fn build_key_update_payload(new_encryption_public_key: &[u8], timestamp: u64) -> (payload: Vec<
    u8,
>)
    ensures
        payload@ == key_update_payload(new_encryption_public_key@, timestamp),
        payload@ == ascii("SMN-KEY-UPDATE-V1"@) + new_encryption_public_key@ + be_bytes(timestamp),
{
    let domain: &str = "SMN-KEY-UPDATE-V1";
    let domain_bytes: &[u8] = domain.as_bytes();
    proof {
        reveal_strlit("SMN-KEY-UPDATE-V1");
        assert(domain.is_ascii());
        assert(domain_bytes@ =~= key_update_domain());
    }
    let mut payload: Vec<u8> = Vec::new();
    append(&mut payload, domain_bytes);
    append(&mut payload, new_encryption_public_key);
    append(&mut payload, &u64_to_be_bytes(timestamp));
    assert(payload@ =~= key_update_payload(new_encryption_public_key@, timestamp));
    payload
}

} // verus!
