//! Byte strings: big-endian integers, fixed-length copies, concatenation.

use vstd::prelude::*;

verus! {

/// The `len` lowest bytes of an integer, the most significant one first.
pub open spec fn be_digits(value: nat, len: nat) -> Seq<u8>
    decreases len,
{
    if len == 0 {
        Seq::empty()
    } else {
        be_digits(value / 256, (len - 1) as nat).push((value % 256) as u8)
    }
}

/// The eight bytes of an integer, the most significant one first.
pub open spec fn be_bytes(value: u64) -> Seq<u8> {
    be_digits(value as nat, 8)
}

/// The integer that bytes stand for, the most significant one first.
pub open spec fn be_value(bytes: Seq<u8>) -> nat
    decreases bytes.len(),
{
    if bytes.len() == 0 {
        0
    } else {
        be_value(bytes.drop_last()) * 256 + bytes.last() as nat
    }
}

/// How many values `len` bytes can stand for.
spec fn be_limit(len: nat) -> nat
    decreases len,
{
    if len == 0 {
        1
    } else {
        be_limit((len - 1) as nat) * 256
    }
}

proof fn lemma_limit_of_eight()
    ensures
        be_limit(8) == u64::MAX + 1,
{
    reveal_with_fuel(be_limit, 9);
}

proof fn lemma_value_below_limit(bytes: Seq<u8>)
    ensures
        be_value(bytes) < be_limit(bytes.len()),
    decreases bytes.len(),
{
    if bytes.len() > 0 {
        lemma_value_below_limit(bytes.drop_last());
    }
}

proof fn lemma_value_of_digits(value: nat, len: nat)
    requires
        value < be_limit(len),
    ensures
        be_digits(value, len).len() == len,
        be_value(be_digits(value, len)) == value,
    decreases len,
{
    if len > 0 {
        let rest = be_digits(value / 256, (len - 1) as nat);
        lemma_value_of_digits(value / 256, (len - 1) as nat);
        assert(be_digits(value, len).drop_last() =~= rest);
    }
}

proof fn lemma_digits_of_value(bytes: Seq<u8>)
    ensures
        be_digits(be_value(bytes), bytes.len()) == bytes,
    decreases bytes.len(),
{
    if bytes.len() > 0 {
        let rest = bytes.drop_last();
        lemma_digits_of_value(rest);
        assert(be_value(bytes) / 256 == be_value(rest));
        assert(be_value(bytes) % 256 == bytes.last());
        assert(bytes =~= rest.push(bytes.last()));
    } else {
        assert(bytes =~= Seq::empty());
    }
}

/// Eight bytes stand for an integer that fits.
proof fn lemma_be_value_fits(bytes: Seq<u8>)
    requires
        bytes.len() == 8,
    ensures
        be_value(bytes) <= u64::MAX,
{
    lemma_limit_of_eight();
    lemma_value_below_limit(bytes);
}

/// Reading an integer gives back the one that was written.
pub proof fn law_read_after_write(value: u64)
    ensures
        be_bytes(value).len() == 8,
        be_value(be_bytes(value)) == value,
{
    lemma_limit_of_eight();
    lemma_value_of_digits(value as nat, 8);
}

/// Writing an integer gives back the bytes that it was read from.
pub proof fn law_write_after_read(bytes: Seq<u8>)
    requires
        bytes.len() == 8,
    ensures
        be_value(bytes) <= u64::MAX,
        be_bytes(be_value(bytes) as u64) == bytes,
{
    lemma_be_value_fits(bytes);
    lemma_digits_of_value(bytes);
}

/// Each byte of an integer is one of its digits to the base 256, the most
/// significant one first.
pub proof fn law_bytes_are_digits(value: u64)
    ensures
        be_bytes(value).len() == 8,
        be_bytes(value)[0] == value as int / 0x100_0000_0000_0000 % 256,
        be_bytes(value)[1] == value as int / 0x1_0000_0000_0000 % 256,
        be_bytes(value)[2] == value as int / 0x100_0000_0000 % 256,
        be_bytes(value)[3] == value as int / 0x1_0000_0000 % 256,
        be_bytes(value)[4] == value as int / 0x100_0000 % 256,
        be_bytes(value)[5] == value as int / 0x1_0000 % 256,
        be_bytes(value)[6] == value as int / 0x100 % 256,
        be_bytes(value)[7] == value as int / 1 % 256,
{
    let v = value as nat;
    reveal_with_fuel(be_digits, 9);
    assert(v / 0x100 / 256 == v / 0x1_0000);
    assert(v / 0x1_0000 / 256 == v / 0x100_0000);
    assert(v / 0x100_0000 / 256 == v / 0x1_0000_0000);
    assert(v / 0x1_0000_0000 / 256 == v / 0x100_0000_0000);
    assert(v / 0x100_0000_0000 / 256 == v / 0x1_0000_0000_0000);
    assert(v / 0x1_0000_0000_0000 / 256 == v / 0x100_0000_0000_0000);
}

/// Eight bytes stand for the sum of their digits, each with its weight.
pub proof fn law_digits_have_weights(bytes: Seq<u8>)
    requires
        bytes.len() == 8,
    ensures
        be_value(bytes) == bytes[0] * 0x100_0000_0000_0000
            + bytes[1] * 0x1_0000_0000_0000
            + bytes[2] * 0x100_0000_0000
            + bytes[3] * 0x1_0000_0000
            + bytes[4] * 0x100_0000
            + bytes[5] * 0x1_0000
            + bytes[6] * 0x100
            + bytes[7],
{
    reveal_with_fuel(be_value, 9);
}

/// Different integers have different bytes.
pub proof fn law_bytes_tell_integers_apart(a: u64, b: u64)
    requires
        be_bytes(a) == be_bytes(b),
    ensures
        a == b,
{
    law_read_after_write(a);
    law_read_after_write(b);
}

/// Writes an integer, the most significant byte first.
pub fn u64_to_be_bytes(value: u64) -> (bytes: [u8; 8])
    ensures
        bytes@ == be_bytes(value),
        bytes@[0] == value as int / 0x100_0000_0000_0000 % 256,
        bytes@[1] == value as int / 0x1_0000_0000_0000 % 256,
        bytes@[2] == value as int / 0x100_0000_0000 % 256,
        bytes@[3] == value as int / 0x1_0000_0000 % 256,
        bytes@[4] == value as int / 0x100_0000 % 256,
        bytes@[5] == value as int / 0x1_0000 % 256,
        bytes@[6] == value as int / 0x100 % 256,
        bytes@[7] == value as int / 1 % 256,
{
    proof {
        law_bytes_are_digits(value);
    }
    let mut bytes: [u8; 8] = [0u8; 8];
    let mut rest: u64 = value;
    let mut i: usize = 8;
    assert(bytes@.skip(8) =~= Seq::empty());
    assert(be_bytes(value) =~= be_digits(rest as nat, 8) + bytes@.skip(8));
    while i > 0
        invariant
            i <= 8,
            be_bytes(value) == be_digits(rest as nat, i as nat) + bytes@.skip(i as int),
        decreases i,
    {
        let ghost before = bytes@;
        i -= 1;
        bytes[i] = (rest % 256) as u8;
        rest = rest / 256;
        assert(bytes@.skip(i as int) =~= seq![bytes@[i as int]] + before.skip(i as int + 1));
        assert(be_bytes(value) =~= be_digits(rest as nat, i as nat) + bytes@.skip(i as int));
    }
    assert(bytes@.skip(0) =~= bytes@);
    assert(be_bytes(value) =~= bytes@);
    bytes
}

/// Reads an integer, the most significant byte first.
pub fn u64_from_be_bytes(bytes: &[u8]) -> (value: u64)
    requires
        bytes@.len() == 8,
    ensures
        value == be_value(bytes@),
        be_bytes(value) == bytes@,
        value == bytes@[0] * 0x100_0000_0000_0000
            + bytes@[1] * 0x1_0000_0000_0000
            + bytes@[2] * 0x100_0000_0000
            + bytes@[3] * 0x1_0000_0000
            + bytes@[4] * 0x100_0000
            + bytes@[5] * 0x1_0000
            + bytes@[6] * 0x100
            + bytes@[7],
{
    proof {
        law_digits_have_weights(bytes@);
        law_write_after_read(bytes@);
        lemma_be_value_fits(bytes@);
    }
    let mut value: u64 = 0;
    let mut i: usize = 0;
    assert(bytes@.take(8) =~= bytes@);
    while i < 8
        invariant
            i <= 8,
            bytes@.len() == 8,
            value == be_value(bytes@.take(i as int)),
            value < be_limit(i as nat),
        decreases 8 - i,
    {
        proof {
            reveal_with_fuel(be_limit, 9);
        }
        assert(bytes@.take(i as int + 1).drop_last() =~= bytes@.take(i as int));
        value = value * 256 + bytes[i] as u64;
        i += 1;
    }
    value
}

/// Appends bytes to a byte string.
pub fn append(bytes: &mut Vec<u8>, more: &[u8])
    ensures
        final(bytes)@ == old(bytes)@ + more@,
{
    bytes.extend_from_slice(more);
    assert(bytes@ =~= old(bytes)@ + more@);
}

/// Copies 24 bytes.
pub fn to_array_24(bytes: &[u8]) -> (array: [u8; 24])
    requires
        bytes@.len() == 24,
    ensures
        array@ == bytes@,
{
    let mut array: [u8; 24] = [0u8; 24];
    let mut i: usize = 0;
    while i < 24
        invariant
            i <= 24,
            bytes@.len() == 24,
            array@.take(i as int) == bytes@.take(i as int),
        decreases 24 - i,
    {
        array[i] = bytes[i];
        i += 1;
        assert(array@.take(i as int) =~= bytes@.take(i as int));
    }
    assert(array@ =~= array@.take(24));
    assert(bytes@ =~= bytes@.take(24));
    array
}

/// Copies 32 bytes.
pub fn to_array_32(bytes: &[u8]) -> (array: [u8; 32])
    requires
        bytes@.len() == 32,
    ensures
        array@ == bytes@,
{
    let mut array: [u8; 32] = [0u8; 32];
    let mut i: usize = 0;
    while i < 32
        invariant
            i <= 32,
            bytes@.len() == 32,
            array@.take(i as int) == bytes@.take(i as int),
        decreases 32 - i,
    {
        array[i] = bytes[i];
        i += 1;
        assert(array@.take(i as int) =~= bytes@.take(i as int));
    }
    assert(array@ =~= array@.take(32));
    assert(bytes@ =~= bytes@.take(32));
    array
}

/// Copies 64 bytes.
pub fn to_array_64(bytes: &[u8]) -> (array: [u8; 64])
    requires
        bytes@.len() == 64,
    ensures
        array@ == bytes@,
{
    let mut array: [u8; 64] = [0u8; 64];
    let mut i: usize = 0;
    while i < 64
        invariant
            i <= 64,
            bytes@.len() == 64,
            array@.take(i as int) == bytes@.take(i as int),
        decreases 64 - i,
    {
        array[i] = bytes[i];
        i += 1;
        assert(array@.take(i as int) =~= bytes@.take(i as int));
    }
    assert(array@ =~= array@.take(64));
    assert(bytes@ =~= bytes@.take(64));
    array
}

/// Whether all bytes are zero.
pub open spec fn all_zero(bytes: Seq<u8>) -> bool {
    forall|i: int| 0 <= i < bytes.len() ==> #[trigger] bytes[i] == 0
}

/// Tells whether all bytes are zero.
pub fn is_all_zero(bytes: &[u8]) -> (zero: bool)
    ensures
        zero == all_zero(bytes@),
        zero <==> (forall|i: int| 0 <= i < bytes@.len() ==> bytes@[i] == 0),
{
    let mut i: usize = 0;
    while i < bytes.len()
        invariant
            i <= bytes@.len(),
            forall|j: int| 0 <= j < i ==> #[trigger] bytes@[j] == 0,
        decreases bytes@.len() - i,
    {
        if bytes[i] != 0 {
            return false;
        }
        i += 1;
    }
    true
}

/// The bytes of a text made of ASCII characters.
pub open spec fn ascii(text: Seq<char>) -> Seq<u8> {
    Seq::new(text.len(), |i: int| text[i] as u8)
}

} // verus!
