//! Conversion between bytes and buffers of single bits.
//!
//! A byte unpacks into eight bits, most significant bit first, and eight
//! bits pack into a byte in the same order.

use crate::error::LengthError;
use vstd::arithmetic::power2::lemma2_to64;
use vstd::arithmetic::power2::lemma_pow2_strictly_increases;
use vstd::arithmetic::power2::lemma_pow2_unfold;
use vstd::arithmetic::power2::pow2;
use vstd::prelude::*;
use vstd::slice::slice_subrange;

verus! {

/// Bit `i` of `byte`, where bit 0 is the most significant one.
pub open spec fn bit_of(byte: u8, i: int) -> bool
    recommends
        0 <= i < 8,
{
    (byte >> ((7 - i) as u8)) & 1u8 == 1u8
}

/// The eight bits of `byte`, most significant bit first.
pub open spec fn bits_of_byte(byte: u8) -> Seq<bool> {
    Seq::new(8, |i: int| bit_of(byte, i))
}

/// The numeric value of one bit.
pub open spec fn bit_value(bit: bool) -> int {
    if bit {
        1
    } else {
        0
    }
}

/// The byte whose bits, most significant first, are the first eight of `bits`.
pub open spec fn byte_of(bits: Seq<bool>) -> u8
    recommends
        bits.len() >= 8,
{
    (128 * bit_value(bits[0]) + 64 * bit_value(bits[1]) + 32 * bit_value(bits[2]) + 16
        * bit_value(bits[3]) + 8 * bit_value(bits[4]) + 4 * bit_value(bits[5]) + 2 * bit_value(
        bits[6],
    ) + bit_value(bits[7])) as u8
}

/// The bit buffer of a byte sequence: eight bits for each byte, in order.
pub open spec fn bits_of_bytes(bytes: Seq<u8>) -> Seq<bool> {
    Seq::new(8 * bytes.len(), |i: int| bit_of(bytes[i / 8], i % 8))
}

/// The bytes of a bit buffer: one byte for each full group of eight bits.
pub open spec fn bytes_of_bits(bits: Seq<bool>) -> Seq<u8> {
    Seq::new(bits.len() / 8, |k: int| byte_of(bits.subrange(8 * k, 8 * k + 8)))
}

/// The value of the first `k` bits of `bits`, read as a binary number.
spec fn prefix_value(bits: Seq<bool>, k: nat) -> int
    decreases k,
{
    if k == 0 {
        0
    } else {
        2 * prefix_value(bits, (k - 1) as nat) + bit_value(bits[k - 1])
    }
}

/// The first `k` bits, read as a binary number, stay below two to the
/// power of `k`.
proof fn lemma_prefix_value_bound(bits: Seq<bool>, k: nat)
    requires
        k <= 8,
    ensures
        0 <= prefix_value(bits, k) < pow2(k),
        k < 8 ==> prefix_value(bits, k) < 128,
        prefix_value(bits, k) < 256,
    decreases k,
{
    lemma2_to64();
    if k > 0 {
        lemma_prefix_value_bound(bits, (k - 1) as nat);
        lemma_pow2_unfold(k);
    }
    if k < 7 {
        lemma_pow2_strictly_increases(k, 7);
    }
    if k < 8 {
        lemma_pow2_strictly_increases(k, 8);
    }
}

/// The first eight bits, read as a binary number, are the byte that they
/// pack into.
proof fn lemma_prefix_value_eight(bits: Seq<bool>)
    ensures
        prefix_value(bits, 8) == byte_of(bits),
{
    reveal_with_fuel(prefix_value, 9);
}

/// Unpacks a byte into its eight bits, most significant bit first.
pub fn to_binary(input: u8) -> (rslt: Vec<bool>)
    ensures
        rslt@ == bits_of_byte(input),
{
    let mut rslt: Vec<bool> = Vec::with_capacity(8);
    let mut i: u8 = 0;
    while i < 8
        invariant
            i <= 8,
            rslt@.len() == i,
            forall|j: int| 0 <= j < i ==> rslt@[j] == bit_of(input, j),
        decreases 8 - i,
    {
        let shift: u8 = 7 - i;
        let mask: u8 = 1u8 << shift;
        assert(((input & mask) == mask) == ((input >> shift) & 1u8 == 1u8)) by (bit_vector)
            requires
                shift < 8,
                mask == 1u8 << shift,
        ;
        rslt.push((input & mask) == mask);
        i = i + 1;
    }
    rslt
}

/// Packs the first eight bits of `input` into a byte, most significant bit
/// first.
pub fn from_binary(input: &[bool]) -> (rslt: u8)
    requires
        input@.len() >= 8,
    ensures
        rslt == byte_of(input@),
{
    let mut rslt: u8 = 0;
    let mut i: usize = 0;
    while i < 8
        invariant
            i <= 8,
            input@.len() >= 8,
            rslt == prefix_value(input@, i as nat),
        decreases 8 - i,
    {
        let bit: u8 = if input[i] {
            1
        } else {
            0
        };
        proof {
            lemma_prefix_value_bound(input@, i as nat);
        }
        assert(((rslt << 1) | bit) == 2 * rslt + bit) by (bit_vector)
            requires
                rslt < 128,
                bit <= 1,
        ;
        rslt = (rslt << 1) | bit;
        i = i + 1;
    }
    proof {
        lemma_prefix_value_eight(input@);
    }
    rslt
}

/// Unpacks every byte of `input`, in order, into one bit buffer.
pub fn arr_to_binary(input: Vec<u8>) -> (rslt: Vec<bool>)
    ensures
        rslt@ == bits_of_bytes(input@),
{
    let mut rslt: Vec<bool> = Vec::new();
    let mut k: usize = 0;
    while k < input.len()
        invariant
            k <= input.len(),
            rslt@.len() == 8 * k,
            forall|i: int| 0 <= i < 8 * k ==> rslt@[i] == bit_of(input@[i / 8], i % 8),
        decreases input.len() - k,
    {
        let mut byte_bits = to_binary(input[k]);
        let ghost before = rslt@;
        rslt.append(&mut byte_bits);
        assert forall|i: int| 0 <= i < 8 * (k + 1) implies rslt@[i] == bit_of(
            input@[i / 8],
            i % 8,
        ) by {
            if i >= 8 * k {
                assert(rslt@[i] == bits_of_byte(input@[k as int])[i - 8 * k]);
            } else {
                assert(rslt@[i] == before[i]);
            }
        }
        k = k + 1;
    }
    rslt
}

/// Packs a bit buffer into bytes, eight bits to a byte.
///
/// A buffer whose length is not a multiple of eight is refused.
pub fn arr_from_binary(input: Vec<bool>) -> (rslt: Result<Vec<u8>, LengthError>)
    ensures
        input@.len() % 8 == 0 ==> rslt is Ok && rslt->Ok_0@ == bytes_of_bits(input@),
        input@.len() % 8 != 0 ==> rslt == Err::<Vec<u8>, LengthError>(
            LengthError { bit_len: input.len() },
        ),
{
    let bit_len: usize = input.len();
    if bit_len % 8 != 0 {
        return Err(LengthError { bit_len });
    }
    let byte_len: usize = bit_len / 8;
    let mut rslt: Vec<u8> = Vec::with_capacity(byte_len);
    let mut k: usize = 0;
    while k < byte_len
        invariant
            k <= byte_len,
            bit_len == input@.len(),
            bit_len == 8 * byte_len,
            rslt@.len() == k,
            forall|j: int| 0 <= j < k ==> rslt@[j] == byte_of(input@.subrange(8 * j, 8 * j + 8)),
        decreases byte_len - k,
    {
        let chunk = slice_subrange(input.as_slice(), 8 * k, 8 * k + 8);
        rslt.push(from_binary(chunk));
        k = k + 1;
    }
    Ok(rslt)
}

/// Packing the bits of a byte gives the byte back.
pub proof fn lemma_byte_round_trip(byte: u8)
    ensures
        byte_of(bits_of_byte(byte)) == byte,
{
    let b0: u8 = (byte >> 7u8) & 1u8;
    let b1: u8 = (byte >> 6u8) & 1u8;
    let b2: u8 = (byte >> 5u8) & 1u8;
    let b3: u8 = (byte >> 4u8) & 1u8;
    let b4: u8 = (byte >> 3u8) & 1u8;
    let b5: u8 = (byte >> 2u8) & 1u8;
    let b6: u8 = (byte >> 1u8) & 1u8;
    let b7: u8 = (byte >> 0u8) & 1u8;
    assert(b0 <= 1 && b1 <= 1 && b2 <= 1 && b3 <= 1 && b4 <= 1 && b5 <= 1 && b6 <= 1 && b7 <= 1
        && 128 * b0 + 64 * b1 + 32 * b2 + 16 * b3 + 8 * b4 + 4 * b5 + 2 * b6 + b7 == byte)
        by (bit_vector)
        requires
            b0 == (byte >> 7u8) & 1u8,
            b1 == (byte >> 6u8) & 1u8,
            b2 == (byte >> 5u8) & 1u8,
            b3 == (byte >> 4u8) & 1u8,
            b4 == (byte >> 3u8) & 1u8,
            b5 == (byte >> 2u8) & 1u8,
            b6 == (byte >> 1u8) & 1u8,
            b7 == (byte >> 0u8) & 1u8,
    ;
    let bits = bits_of_byte(byte);
    assert(bit_value(bits[0]) == b0 && bit_value(bits[1]) == b1 && bit_value(bits[2]) == b2);
    assert(bit_value(bits[3]) == b3 && bit_value(bits[4]) == b4 && bit_value(bits[5]) == b5);
    assert(bit_value(bits[6]) == b6 && bit_value(bits[7]) == b7);
}

/// Unpacking the byte that eight bits pack into gives those bits back.
pub proof fn lemma_bits_round_trip(bits: Seq<bool>)
    requires
        bits.len() >= 8,
    ensures
        bits_of_byte(byte_of(bits)) == bits.subrange(0, 8),
{
    let b0: u8 = bit_value(bits[0]) as u8;
    let b1: u8 = bit_value(bits[1]) as u8;
    let b2: u8 = bit_value(bits[2]) as u8;
    let b3: u8 = bit_value(bits[3]) as u8;
    let b4: u8 = bit_value(bits[4]) as u8;
    let b5: u8 = bit_value(bits[5]) as u8;
    let b6: u8 = bit_value(bits[6]) as u8;
    let b7: u8 = bit_value(bits[7]) as u8;
    let byte: u8 = byte_of(bits);
    assert((byte >> 7u8) & 1u8 == b0 && (byte >> 6u8) & 1u8 == b1 && (byte >> 5u8) & 1u8 == b2 && (
    byte >> 4u8) & 1u8 == b3 && (byte >> 3u8) & 1u8 == b4 && (byte >> 2u8) & 1u8 == b5 && (byte
        >> 1u8) & 1u8 == b6 && (byte >> 0u8) & 1u8 == b7) by (bit_vector)
        requires
            b0 <= 1 && b1 <= 1 && b2 <= 1 && b3 <= 1 && b4 <= 1 && b5 <= 1 && b6 <= 1 && b7 <= 1,
            byte == 128 * b0 + 64 * b1 + 32 * b2 + 16 * b3 + 8 * b4 + 4 * b5 + 2 * b6 + b7,
    ;
    assert(bits_of_byte(byte) =~= bits.subrange(0, 8)) by {
        assert(bit_of(byte, 0) == bits[0] && bit_of(byte, 1) == bits[1]);
        assert(bit_of(byte, 2) == bits[2] && bit_of(byte, 3) == bits[3]);
        assert(bit_of(byte, 4) == bits[4] && bit_of(byte, 5) == bits[5]);
        assert(bit_of(byte, 6) == bits[6] && bit_of(byte, 7) == bits[7]);
    }
}

/// Packing the bit buffer of a byte sequence gives the byte sequence back.
pub proof fn lemma_bytes_round_trip(bytes: Seq<u8>)
    ensures
        bits_of_bytes(bytes).len() == 8 * bytes.len(),
        bytes_of_bits(bits_of_bytes(bytes)) == bytes,
{
    let bits = bits_of_bytes(bytes);
    assert forall|k: int| 0 <= k < bytes.len() implies bytes_of_bits(bits)[k] == bytes[k] by {
        lemma_byte_of_kept_bits(bytes, bits, k);
    }
    assert(bytes_of_bits(bits) =~= bytes);
}

/// A byte of which the bit buffer still holds the eight bits is packed as
/// it was, whatever has become of the other bits.
pub proof fn lemma_byte_of_kept_bits(bytes: Seq<u8>, bits: Seq<bool>, k: int)
    requires
        bits.len() == 8 * bytes.len(),
        0 <= k < bytes.len(),
        forall|j: int| 8 * k <= j < 8 * k + 8 ==> bits[j] == bits_of_bytes(bytes)[j],
    ensures
        bytes_of_bits(bits)[k] == bytes[k],
{
    let chunk = bits.subrange(8 * k, 8 * k + 8);
    assert(chunk =~= bits_of_byte(bytes[k])) by {
        assert forall|i: int| 0 <= i < 8 implies chunk[i] == bit_of(bytes[k], i) by {
            assert((8 * k + i) / 8 == k && (8 * k + i) % 8 == i);
            assert(chunk[i] == bits_of_bytes(bytes)[8 * k + i]);
        }
    }
    lemma_byte_round_trip(bytes[k]);
}

/// Unpacking the bytes of a bit buffer whose length is a multiple of eight
/// gives the buffer back.
pub proof fn lemma_buffer_round_trip(bits: Seq<bool>)
    requires
        bits.len() % 8 == 0,
    ensures
        bytes_of_bits(bits).len() * 8 == bits.len(),
        bits_of_bytes(bytes_of_bits(bits)) == bits,
{
    let bytes = bytes_of_bits(bits);
    assert forall|i: int| 0 <= i < bits.len() implies bits_of_bytes(bytes)[i] == bits[i] by {
        let k = i / 8;
        let chunk = bits.subrange(8 * k, 8 * k + 8);
        lemma_bits_round_trip(chunk);
        assert(bits_of_byte(byte_of(chunk))[i % 8] == chunk.subrange(0, 8)[i % 8]);
    }
    assert(bits_of_bytes(bytes) =~= bits);
}

} // verus!
