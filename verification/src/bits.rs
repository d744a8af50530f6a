//! The bit-addressing model shared by every embed and extract path: how a
//! byte decomposes into bits (most-significant first), how bits reassemble
//! into a byte, and how a 32-bit length travels as four big-endian bytes.
//! Symmetry of these definitions across encode and decode is the codec's
//! single most safety-critical invariant.

use vstd::prelude::*;

verus! {

/// True of a value that is a single bit.
pub open spec fn is_bit(b: u8) -> bool {
    b == 0 || b == 1
}

/// Bit `i` of byte `b`, most-significant first: bit 0 carries weight 128.
pub open spec fn bit_of_byte(b: u8, i: int) -> u8
    recommends
        0 <= i < 8,
{
    (b >> ((7 - i) as u8)) & 1
}

/// The bits of a byte sequence in embedding order: byte `k` occupies bit
/// positions `8*k .. 8*k + 8`, most-significant bit first.
pub open spec fn bits_of_bytes(bytes: Seq<u8>) -> Seq<u8> {
    Seq::new(bytes.len() * 8, |i: int| bit_of_byte(bytes[i / 8], i % 8))
}

/// The value assembled from the first `k` bits at `start`, most-significant
/// first: the shape of the loop that reads a byte back out of a carrier.
pub open spec fn byte_prefix_value(bits: Seq<u8>, start: int, k: nat) -> int
    recommends
        0 <= start,
        start + k <= bits.len(),
        k <= 8,
    decreases k,
{
    if k == 0 {
        0
    } else {
        byte_prefix_value(bits, start, (k - 1) as nat) * 2 + bits[start + k - 1]
    }
}

/// The byte assembled from the eight bits at `start`.
pub open spec fn byte_of_bits(bits: Seq<u8>, start: int) -> u8 {
    byte_prefix_value(bits, start, 8) as u8
}

/// Two to the `k`th power, for the assembly bound below.
pub open spec fn two_pow(k: nat) -> int
    decreases k,
{
    if k == 0 {
        1
    } else {
        2 * two_pow((k - 1) as nat)
    }
}

/// A prefix of `k` bits assembles to a value below `2^k`.
pub proof fn lemma_byte_prefix_value_bound(bits: Seq<u8>, start: int, k: nat)
    requires
        0 <= start,
        start + k <= bits.len(),
        forall|i: int| start <= i < start + k ==> is_bit(bits[i]),
    ensures
        0 <= byte_prefix_value(bits, start, k) < two_pow(k),
    decreases k,
{
    if k > 0 {
        lemma_byte_prefix_value_bound(bits, start, (k - 1) as nat);
        assert(is_bit(bits[start + k - 1]));
    }
}

/// Each bit of a byte is a bit.
pub proof fn lemma_bit_of_byte_is_bit(b: u8, i: int)
    requires
        0 <= i < 8,
    ensures
        is_bit(bit_of_byte(b, i)),
{
    let k = (7 - i) as u8;
    assert((b >> k) & 1 == 0 || (b >> k) & 1 == 1) by (bit_vector);
}

/// Reassembling the eight bits of a byte, most-significant first, gives the
/// byte back: the round-trip core of the whole codec.
pub proof fn lemma_byte_of_bits_roundtrip(bits: Seq<u8>, start: int, b: u8)
    requires
        0 <= start,
        start + 8 <= bits.len(),
        forall|j: int| 0 <= j < 8 ==> bits[start + j] == bit_of_byte(b, j),
    ensures
        byte_of_bits(bits, start) == b,
{
    reveal_with_fuel(byte_prefix_value, 9);
    assert(bits[start + 0] == bit_of_byte(b, 0) && bits[start + 1] == bit_of_byte(b, 1) && bits[
        start + 2
    ] == bit_of_byte(b, 2) && bits[start + 3] == bit_of_byte(b, 3) && bits[start + 4]
        == bit_of_byte(b, 4) && bits[start + 5] == bit_of_byte(b, 5) && bits[start + 6]
        == bit_of_byte(b, 6) && bits[start + 7] == bit_of_byte(b, 7));
    assert(bits[start + 0] == (b >> 7u8) & 1);
    assert(bits[start + 1] == (b >> 6u8) & 1);
    assert(bits[start + 2] == (b >> 5u8) & 1);
    assert(bits[start + 3] == (b >> 4u8) & 1);
    assert(bits[start + 4] == (b >> 3u8) & 1);
    assert(bits[start + 5] == (b >> 2u8) & 1);
    assert(bits[start + 6] == (b >> 1u8) & 1);
    assert(bits[start + 7] == (b >> 0u8) & 1);
    assert(((b >> 7u8) & 1) * 128 + ((b >> 6u8) & 1) * 64 + ((b >> 5u8) & 1) * 32 + ((b >> 4u8)
        & 1) * 16 + ((b >> 3u8) & 1) * 8 + ((b >> 2u8) & 1) * 4 + ((b >> 1u8) & 1) * 2 + ((b
        >> 0u8) & 1) == b) by (bit_vector);
}

/// A 32-bit value from four bytes, big-endian.
pub open spec fn be32(b0: u8, b1: u8, b2: u8, b3: u8) -> u32 {
    (b0 * 0x100_0000 + b1 * 0x1_0000 + b2 * 0x100 + b3) as u32
}

/// The four big-endian bytes of a 32-bit value.
pub open spec fn be32_bytes(x: u32) -> Seq<u8> {
    seq![
        (x / 0x100_0000) as u8,
        ((x / 0x1_0000) % 0x100) as u8,
        ((x / 0x100) % 0x100) as u8,
        (x % 0x100) as u8,
    ]
}

/// The four big-endian bytes of a value recompose to the value.
pub proof fn lemma_be32_roundtrip(x: u32)
    ensures
        be32(be32_bytes(x)[0], be32_bytes(x)[1], be32_bytes(x)[2], be32_bytes(x)[3]) == x,
{
    assert((x / 0x100_0000) * 0x100_0000 + ((x / 0x1_0000) % 0x100) * 0x1_0000 + ((x / 0x100)
        % 0x100) * 0x100 + (x % 0x100) == x) by (bit_vector);
}

/// The four big-endian bytes of `x`, as a vector.
pub fn u32_to_be_bytes(x: u32) -> (r: Vec<u8>)
    ensures
        r@ == be32_bytes(x),
{
    let mut r: Vec<u8> = Vec::new();
    r.push((x / 0x100_0000) as u8);
    r.push(((x / 0x1_0000) % 0x100) as u8);
    r.push(((x / 0x100) % 0x100) as u8);
    r.push((x % 0x100) as u8);
    proof {
        assert(r@ =~= be32_bytes(x));
    }
    r
}

/// The 32-bit value carried by four big-endian bytes.
pub fn u32_from_be_bytes(b0: u8, b1: u8, b2: u8, b3: u8) -> (r: u32)
    ensures
        r == be32(b0, b1, b2, b3),
{
    (b0 as u32) * 0x100_0000 + (b1 as u32) * 0x1_0000 + (b2 as u32) * 0x100 + (b3 as u32)
}

} // verus!
