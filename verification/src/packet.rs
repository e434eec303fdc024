//! Encrypted packets: a counter, a nonce, and a ciphertext with its tag.

use vstd::prelude::*;

use crate::bytes::{
    append, be_bytes, be_value, law_digits_have_weights, law_read_after_write,
    law_write_after_read, to_array_24, to_array_32, u64_from_be_bytes, u64_to_be_bytes,
};
use crate::error::SmnCryptoError;
use crate::primitives::{
    aead_decrypt, aead_encrypt, outruns_key_stream, xchacha20poly1305_open,
    xchacha20poly1305_seal, KEY_STREAM_LEN, REFUSED_LEN, TAG_LEN,
};

verus! {

/// How many bytes of a packet hold its counter.
pub const COUNTER_LEN: usize = 8;

/// How many bytes of a packet hold its nonce.
pub const NONCE_LEN: usize = 24;

/// How many bytes of a packet come before its ciphertext.
pub const HEADER_LEN: usize = 32;

/// The bytes of a packet.
pub open spec fn packet(counter: u64, nonce: Seq<u8>, ciphertext: Seq<u8>) -> Seq<u8> {
    be_bytes(counter) + nonce + ciphertext
}

/// The counter of a packet.
pub open spec fn packet_counter(packet: Seq<u8>) -> u64 {
    be_value(packet.take(COUNTER_LEN as int)) as u64
}

/// The nonce of a packet.
pub open spec fn packet_nonce(packet: Seq<u8>) -> Seq<u8> {
    packet.subrange(COUNTER_LEN as int, HEADER_LEN as int)
}

/// The ciphertext of a packet, with its tag.
pub open spec fn packet_ciphertext(packet: Seq<u8>) -> Seq<u8> {
    packet.skip(HEADER_LEN as int)
}

/// What is authenticated along with the message: the caller's data, and the
/// counter of the packet.
pub open spec fn packet_aad(associated_data: Seq<u8>, counter: u64) -> Seq<u8> {
    associated_data + be_bytes(counter)
}

/// The packet that a message becomes under a key and a nonce.
pub open spec fn sealed_packet(
    key: Seq<u8>,
    nonce: Seq<u8>,
    message: Seq<u8>,
    associated_data: Seq<u8>,
    counter: u64,
) -> Seq<u8> {
    packet(
        counter,
        nonce,
        xchacha20poly1305_seal(key, nonce, packet_aad(associated_data, counter), message),
    )
}

/// The message that a packet holds, if the packet is authentic. A packet whose
/// message would outrun the key stream holds none: the cipher makes no such packet.
pub open spec fn opened_packet(
    key: Seq<u8>,
    packet: Seq<u8>,
    associated_data: Seq<u8>,
) -> Option<Seq<u8>> {
    if outruns_key_stream(packet_ciphertext(packet).len() - TAG_LEN) {
        None
    } else {
        xchacha20poly1305_open(
            key,
            packet_nonce(packet),
            packet_aad(associated_data, packet_counter(packet)),
            packet_ciphertext(packet),
        )
    }
}

/// The messages that can be handed to the cipher: the key stream does not end
/// within them, and the packet has room in memory.
pub open spec fn sealable(message_len: int) -> bool {
    &&& message_len + TAG_LEN + HEADER_LEN <= isize::MAX
    &&& !outruns_key_stream(message_len)
}

/// Tells whether a message of this length can be handed to the cipher.
pub fn is_sealable(message_len: usize) -> (sealable_len: bool)
    ensures
        sealable_len == sealable(message_len as int),
        sealable_len <==> message_len + 48 <= isize::MAX && !(0x3f_ffff_ff80 < message_len
            < 0x3f_ffff_ffc0),
{
    let len: u64 = message_len as u64;
    let room: usize = isize::MAX as usize - TAG_LEN - HEADER_LEN;
    message_len <= room && (len <= KEY_STREAM_LEN || len >= REFUSED_LEN)
}

/// The bytes behind a result.
pub open spec fn bytes_of(result: Result<Vec<u8>, SmnCryptoError>) -> Result<
    Seq<u8>,
    SmnCryptoError,
> {
    match result {
        Ok(bytes) => Ok(bytes@),
        Err(e) => Err(e),
    }
}

/// The counter, the nonce and the ciphertext can be read back from a packet.
pub proof fn law_parse_after_frame(counter: u64, nonce: Seq<u8>, ciphertext: Seq<u8>)
    requires
        nonce.len() == NONCE_LEN,
    ensures
        packet(counter, nonce, ciphertext).len() == HEADER_LEN + ciphertext.len(),
        packet_counter(packet(counter, nonce, ciphertext)) == counter,
        packet_nonce(packet(counter, nonce, ciphertext)) == nonce,
        packet_ciphertext(packet(counter, nonce, ciphertext)) == ciphertext,
{
    let p = packet(counter, nonce, ciphertext);
    law_read_after_write(counter);
    assert(p.take(COUNTER_LEN as int) =~= be_bytes(counter));
    assert(packet_nonce(p) =~= nonce);
    assert(packet_ciphertext(p) =~= ciphertext);
}

/// A packet is made of its counter, its nonce and its ciphertext.
pub proof fn law_frame_after_parse(bytes: Seq<u8>)
    requires
        bytes.len() >= HEADER_LEN,
    ensures
        packet(packet_counter(bytes), packet_nonce(bytes), packet_ciphertext(bytes)) == bytes,
{
    law_write_after_read(bytes.take(COUNTER_LEN as int));
    assert(packet(packet_counter(bytes), packet_nonce(bytes), packet_ciphertext(bytes)) =~= bytes);
}

/// What is authenticated with a message is the caller's data, whatever it is,
/// followed by the eight bytes of the counter.
pub proof fn law_counter_is_authenticated(associated_data: Seq<u8>, counter: u64)
    ensures
        packet_aad(associated_data, counter).len() == associated_data.len() + 8,
        packet_aad(associated_data, counter).take(associated_data.len() as int) == associated_data,
        packet_aad(associated_data, counter).skip(associated_data.len() as int) == be_bytes(counter),
{
    law_read_after_write(counter);
    let aad = packet_aad(associated_data, counter);
    assert(aad.take(associated_data.len() as int) =~= associated_data);
    assert(aad.skip(associated_data.len() as int) =~= be_bytes(counter));
}

/// What is authenticated tells the caller's data and the counter apart: no two
/// packets share it, unless they agree in both.
pub proof fn law_authenticated_data_tells_packets_apart(
    data_a: Seq<u8>,
    counter_a: u64,
    data_b: Seq<u8>,
    counter_b: u64,
)
    requires
        data_a != data_b || counter_a != counter_b,
    ensures
        packet_aad(data_a, counter_a) != packet_aad(data_b, counter_b),
{
    law_counter_is_authenticated(data_a, counter_a);
    law_counter_is_authenticated(data_b, counter_b);
    law_read_after_write(counter_a);
    law_read_after_write(counter_b);
}

/// A packet is the counter in eight bytes, the nonce, and what the cipher makes of
/// the message under the whole key, the nonce, and the caller's data with the
/// counter behind it.
pub proof fn law_sealed_packet_layout(
    key: Seq<u8>,
    nonce: Seq<u8>,
    message: Seq<u8>,
    associated_data: Seq<u8>,
    counter: u64,
)
    requires
        nonce.len() == 24,
    ensures
        sealed_packet(key, nonce, message, associated_data, counter).take(8) == be_bytes(counter),
        sealed_packet(key, nonce, message, associated_data, counter).subrange(8, 32) == nonce,
        sealed_packet(key, nonce, message, associated_data, counter).skip(32)
            == xchacha20poly1305_seal(key, nonce, associated_data + be_bytes(counter), message),
{
    law_read_after_write(counter);
    let p = sealed_packet(key, nonce, message, associated_data, counter);
    assert(p.take(8) =~= be_bytes(counter));
    assert(p.subrange(8, 32) =~= nonce);
    assert(p.skip(32) =~= xchacha20poly1305_seal(
        key,
        nonce,
        associated_data + be_bytes(counter),
        message,
    ));
}

/// A packet holds what the cipher opens under the whole key from its bytes: the
/// nonce is in those from the ninth to the last of the header, the ciphertext is
/// what follows the header, and the first eight bytes are authenticated behind the
/// caller's data. Only a message that the key stream cannot cover is never held.
pub proof fn law_opened_packet_layout(key: Seq<u8>, packet: Seq<u8>, associated_data: Seq<u8>)
    requires
        packet.len() >= 32,
    ensures
        !(0x3f_ffff_ff80 < packet.len() - 48 < 0x3f_ffff_ffc0) ==> opened_packet(
            key,
            packet,
            associated_data,
        ) == xchacha20poly1305_open(
            key,
            packet.subrange(8, 32),
            associated_data + packet.take(8),
            packet.skip(32),
        ),
        0x3f_ffff_ff80 < packet.len() - 48 < 0x3f_ffff_ffc0 ==> opened_packet(
            key,
            packet,
            associated_data,
        ) is None,
{
    law_write_after_read(packet.take(8));
    assert(packet_aad(associated_data, packet_counter(packet)) =~= associated_data + packet.take(
        8,
    ));
}

/// The counter of a packet is its first eight bytes, each with its weight.
pub proof fn law_counter_comes_first(packet: Seq<u8>)
    requires
        packet.len() >= 32,
    ensures
        packet_counter(packet) == packet[0] * 0x100_0000_0000_0000 + packet[1] * 0x1_0000_0000_0000
            + packet[2] * 0x100_0000_0000 + packet[3] * 0x1_0000_0000 + packet[4] * 0x100_0000
            + packet[5] * 0x1_0000 + packet[6] * 0x100 + packet[7],
{
    law_digits_have_weights(packet.take(8));
}

/// The parts of a packet.
pub struct PacketParts {
    pub counter: u64,
    pub nonce: [u8; 24],
    pub ciphertext: Vec<u8>,
}

/// Puts a packet together.
pub fn frame_packet(counter: u64, nonce: &[u8; 24], ciphertext: &[u8]) -> (bytes: Vec<u8>)
    ensures
        bytes@ == packet(counter, nonce@, ciphertext@),
        bytes@ == be_bytes(counter) + nonce@ + ciphertext@,
{
    let mut bytes: Vec<u8> = Vec::new();
    append(&mut bytes, &u64_to_be_bytes(counter));
    append(&mut bytes, nonce);
    append(&mut bytes, ciphertext);
    assert(bytes@ =~= packet(counter, nonce@, ciphertext@));
    bytes
}

/// Takes a packet apart, unless it is too short to hold a header.
pub fn parse_packet(bytes: &[u8]) -> (result: Result<PacketParts, SmnCryptoError>)
    ensures
        bytes@.len() < HEADER_LEN ==> result == Err::<PacketParts, SmnCryptoError>(
            SmnCryptoError::InvalidKeyLength,
        ),
        bytes@.len() >= HEADER_LEN ==> result is Ok,
        result matches Ok(parts) ==> {
            &&& parts.counter == packet_counter(bytes@)
            &&& parts.nonce@ == packet_nonce(bytes@)
            &&& parts.ciphertext@ == packet_ciphertext(bytes@)
        },
        result is Ok <==> bytes@.len() >= 32,
        result matches Ok(parts) ==> {
            &&& be_bytes(parts.counter) == bytes@.take(8)
            &&& parts.nonce@ == bytes@.subrange(8, 32)
            &&& parts.ciphertext@ == bytes@.skip(32)
        },
        result matches Err(e) ==> e == SmnCryptoError::InvalidKeyLength,
{
    if bytes.len() < HEADER_LEN {
        return Err(SmnCryptoError::InvalidKeyLength);
    }
    let (counter_bytes, rest) = bytes.split_at(COUNTER_LEN);
    let (nonce_bytes, ciphertext) = rest.split_at(NONCE_LEN);
    let counter: u64 = u64_from_be_bytes(counter_bytes);
    let nonce: [u8; 24] = to_array_24(nonce_bytes);
    proof {
        assert(counter_bytes@ =~= bytes@.take(COUNTER_LEN as int));
        assert(nonce@ =~= packet_nonce(bytes@));
        assert(ciphertext@ =~= packet_ciphertext(bytes@));
    }
    Ok(PacketParts { counter, nonce, ciphertext: vstd::slice::slice_to_vec(ciphertext) })
}

/// Encrypts a message under a nonce, and puts the packet together.
pub fn seal_packet(
    session_key: &[u8],
    nonce: &[u8; 24],
    message: &[u8],
    associated_data: Vec<u8>,
    counter: u64,
) -> (result: Result<Vec<u8>, SmnCryptoError>)
    requires
        session_key@.len() == 32 ==> sealable(message@.len() as int),
    ensures
        session_key@.len() != 32 ==> bytes_of(result) == Err::<Seq<u8>, SmnCryptoError>(
            SmnCryptoError::InvalidKeyLength,
        ),
        session_key@.len() == 32 && message@.len() > KEY_STREAM_LEN ==> bytes_of(result) == Err::<
            Seq<u8>,
            SmnCryptoError,
        >(SmnCryptoError::DecryptionFailed),
        session_key@.len() == 32 && message@.len() <= KEY_STREAM_LEN ==> bytes_of(result) == Ok::<
            Seq<u8>,
            SmnCryptoError,
        >(sealed_packet(session_key@, nonce@, message@, associated_data@, counter)),
        result matches Ok(bytes) ==> {
            &&& bytes@.len() == HEADER_LEN + message@.len() + TAG_LEN
            &&& packet_counter(bytes@) == counter
            &&& packet_nonce(bytes@) == nonce@
            &&& opened_packet(session_key@, bytes@, associated_data@) == Some(message@)
        },
        result is Ok <==> session_key@.len() == 32 && message@.len() <= 0x3f_ffff_ff80,
        result matches Ok(bytes) ==> {
            &&& bytes@.take(8) == be_bytes(counter)
            &&& bytes@.subrange(8, 32) == nonce@
            &&& bytes@.skip(32) == xchacha20poly1305_seal(
                session_key@,
                nonce@,
                associated_data@ + be_bytes(counter),
                message@,
            )
            &&& xchacha20poly1305_open(
                session_key@,
                nonce@,
                associated_data@ + be_bytes(counter),
                bytes@.skip(32),
            ) == Some(message@)
        },
        result matches Err(e) ==> e == (if session_key@.len() != 32 {
            SmnCryptoError::InvalidKeyLength
        } else {
            SmnCryptoError::DecryptionFailed
        }),
{
    if session_key.len() != 32 {
        return Err(SmnCryptoError::InvalidKeyLength);
    }
    let key: [u8; 32] = to_array_32(session_key);
    let mut aad: Vec<u8> = associated_data;
    append(&mut aad, &u64_to_be_bytes(counter));
    match aead_encrypt(&key, nonce, &aad, message) {
        Ok(ciphertext) => {
            proof {
                law_parse_after_frame(counter, nonce@, ciphertext@);
                law_sealed_packet_layout(
                    session_key@,
                    nonce@,
                    message@,
                    associated_data@,
                    counter,
                );
            }
            Ok(frame_packet(counter, nonce, &ciphertext))
        },
        Err(_) => Err(SmnCryptoError::DecryptionFailed),
    }
}

/// Decrypts the message of a packet, if the packet is authentic.
pub fn open_packet(session_key: &[u8; 32], parts: &PacketParts, associated_data: Vec<u8>) -> (result:
    Result<Vec<u8>, SmnCryptoError>)
    ensures
        bytes_of(result) == (match opened_packet(
            session_key@,
            packet(parts.counter, parts.nonce@, parts.ciphertext@),
            associated_data@,
        ) {
            Some(message) => Ok::<Seq<u8>, SmnCryptoError>(message),
            None => Err(SmnCryptoError::DecryptionFailed),
        }),
        result matches Ok(message) ==> parts.ciphertext@.len() == message@.len() + TAG_LEN,
        result matches Ok(message) ==> xchacha20poly1305_open(
            session_key@,
            parts.nonce@,
            associated_data@ + be_bytes(parts.counter),
            parts.ciphertext@,
        ) == Some(message@),
        result is Ok <==> xchacha20poly1305_open(
            session_key@,
            parts.nonce@,
            associated_data@ + be_bytes(parts.counter),
            parts.ciphertext@,
        ) is Some && !(0x3f_ffff_ff80 < parts.ciphertext@.len() - 16 < 0x3f_ffff_ffc0),
        result matches Err(e) ==> e == SmnCryptoError::DecryptionFailed,
{
    proof {
        law_parse_after_frame(parts.counter, parts.nonce@, parts.ciphertext@);
    }
    let len: usize = parts.ciphertext.len();
    if len > TAG_LEN {
        let message_len: u64 = (len - TAG_LEN) as u64;
        if KEY_STREAM_LEN < message_len && message_len < REFUSED_LEN {
            return Err(SmnCryptoError::DecryptionFailed);
        }
    }
    let mut aad: Vec<u8> = associated_data;
    append(&mut aad, &u64_to_be_bytes(parts.counter));
    match aead_decrypt(session_key, &parts.nonce, &aad, &parts.ciphertext) {
        Ok(message) => Ok(message),
        Err(_) => Err(SmnCryptoError::DecryptionFailed),
    }
}

} // verus!
