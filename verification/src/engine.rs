//! The LSB embed/extract engine: writes a frame's bits into a bit channel
//! in order, respecting capacity, and reads a frame back out, validating
//! the header against the channel's bounds. Both directions address bits
//! most-significant first within each byte, at strictly increasing unit
//! indices — the symmetry every carrier variant must share.

use vstd::prelude::*;
use crate::bits::{
    bit_of_byte, bits_of_bytes, byte_of_bits, byte_prefix_value, be32, be32_bytes, is_bit,
    lemma_bit_of_byte_is_bit, lemma_byte_of_bits_roundtrip, lemma_byte_prefix_value_bound,
    lemma_be32_roundtrip, two_pow, u32_from_be_bytes,
};
use crate::channel::Channel;
use crate::errors::StegError;
use crate::frame::spec_frame;
use crate::traits::ContentType;

verus! {

/// The low bit of every unit of a channel, in embedding order.
pub open spec fn low_bits(units: Seq<int>) -> Seq<u8> {
    Seq::new(units.len(), |i: int| (units[i] % 2) as u8)
}

/// The number of bits the fixed frame header (tag and length) occupies.
pub open spec fn header_bits() -> int {
    40
}

/// What extraction from a channel with the given low bits yields: the tag
/// and the payload bytes the channel carries, or the exact reason the
/// channel carries no frame.
pub open spec fn spec_extract(bits: Seq<u8>) -> Result<(ContentType, Seq<u8>), StegError> {
    if bits.len() < header_bits() {
        Err(StegError::CarrierTooSmall)
    } else {
        let tag_byte = byte_of_bits(bits, 0);
        match ContentType::spec_from_u8(tag_byte) {
            None => Err(StegError::UnknownContentType(tag_byte)),
            Some(tag) => {
                let length = be32(
                    byte_of_bits(bits, 8),
                    byte_of_bits(bits, 16),
                    byte_of_bits(bits, 24),
                    byte_of_bits(bits, 32),
                ) as int;
                if header_bits() + length * 8 > bits.len() {
                    Err(
                        StegError::CorruptedLength {
                            length: length as usize,
                            available: bits.len() as usize,
                        },
                    )
                } else {
                    Ok((tag, Seq::new(length as nat, |k: int| byte_of_bits(bits, 40 + 8 * k))))
                }
            },
        }
    }
}

/// Every low bit is a bit.
proof fn lemma_low_bits_are_bits(units: Seq<int>)
    ensures
        forall|i: int| 0 <= i < units.len() ==> is_bit(#[trigger] low_bits(units)[i]),
{
}

/// How a channel's units relate to their prior values once a frame's bits
/// were embedded: unit `i` carries frame bit `i` in its low bit with its
/// higher-order bits preserved, and every unit beyond the frame's bits
/// keeps its exact prior value.
pub open spec fn embedded(before: Seq<int>, after: Seq<int>, frame: Seq<u8>) -> bool {
    &&& after.len() == before.len()
    &&& forall|i: int|
        0 <= i < frame.len() * 8 ==> after[i] == (before[i] / 2) * 2 + bits_of_bytes(frame)[i]
    &&& forall|i: int| frame.len() * 8 <= i < before.len() ==> after[i] == before[i]
}

/// Writes the frame's bits into the channel, bit `p` into unit `p`, after
/// validating capacity in full: on failure the channel is untouched, and on
/// success every unit beyond the frame's bits keeps its exact prior value.
pub fn embed<C: Channel>(channel: &mut C, frame_bytes: &Vec<u8>) -> (r: Result<(), StegError>)
    requires
        frame_bytes@.len() * 8 <= usize::MAX,
    ensures
        r is Ok <==> frame_bytes@.len() * 8 <= old(channel).units().len(),
        r is Ok ==> embedded(old(channel).units(), final(channel).units(), frame_bytes@),
        r is Err ==> final(channel).units() == old(channel).units() && r == Err::<
            (),
            StegError,
        >(
            StegError::InsufficientCapacity {
                needed: (frame_bytes@.len() * 8) as usize,
                available: old(channel).units().len() as usize,
            },
        ),
{
    let needed: usize = frame_bytes.len() * 8;
    let available: usize = channel.unit_count();
    if needed > available {
        return Err(StegError::InsufficientCapacity { needed, available });
    }
    let mut p: usize = 0;
    while p < needed
        invariant
            p <= needed,
            needed == frame_bytes@.len() * 8,
            needed <= old(channel).units().len(),
            channel.units().len() == old(channel).units().len(),
            forall|i: int|
                0 <= i < p ==> channel.units()[i] == (old(channel).units()[i] / 2) * 2
                    + bits_of_bytes(frame_bytes@)[i],
            forall|i: int|
                p <= i < old(channel).units().len() ==> channel.units()[i] == old(
                    channel).units()[i],
        decreases needed - p,
    {
        let byte = frame_bytes[p / 8];
        let shift = (7 - (p % 8)) as u8;
        let bit = (byte >> shift) & 1;
        proof {
            assert(p as int / 8 == (p / 8) as int && p as int % 8 == (p % 8) as int);
            assert(bit == bit_of_byte(frame_bytes@[p as int / 8], p as int % 8));
            assert(bit == bits_of_bytes(frame_bytes@)[p as int]);
            lemma_bit_of_byte_is_bit(frame_bytes@[p as int / 8], p as int % 8);
        }
        channel.write_bit(p, bit);
        p = p + 1;
    }
    Ok(())
}

/// Reads the byte whose eight bits sit at units `start .. start + 8`,
/// most-significant first.
fn read_byte<C: Channel>(channel: &C, start: usize) -> (b: u8)
    requires
        start + 8 <= channel.units().len(),
        start + 8 <= usize::MAX,
    ensures
        b == byte_of_bits(low_bits(channel.units()), start as int),
{
    let ghost bits = low_bits(channel.units());
    proof {
        lemma_low_bits_are_bits(channel.units());
    }
    let mut acc: u8 = 0;
    let mut j: usize = 0;
    while j < 8
        invariant
            j <= 8,
            start + 8 <= channel.units().len(),
            start + 8 <= usize::MAX,
            bits == low_bits(channel.units()),
            forall|i: int| 0 <= i < bits.len() ==> is_bit(#[trigger] bits[i]),
            acc == byte_prefix_value(bits, start as int, j as nat),
        decreases 8 - j,
    {
        let bit = channel.read_bit(start + j);
        proof {
            assert(bit == bits[start + j]);
            lemma_byte_prefix_value_bound(bits, start as int, j as nat);
            lemma_two_pow_le(j as nat, 7);
            assert(two_pow(7) == 128) by {
                reveal_with_fuel(two_pow, 8);
            }
        }
        acc = acc * 2 + bit;
        j = j + 1;
    }
    acc
}

/// `two_pow` is positive and grows with its argument.
proof fn lemma_two_pow_le(a: nat, b: nat)
    requires
        a <= b,
    ensures
        1 <= two_pow(a) <= two_pow(b),
    decreases b,
{
    if a < b {
        lemma_two_pow_le(a, (b - 1) as nat);
    } else if a > 0 {
        lemma_two_pow_le((a - 1) as nat, (b - 1) as nat);
    }
}

/// Reads the frame the channel carries: the tag byte from the first eight
/// units, the payload length from the next thirty-two, then exactly that
/// many payload bytes, every byte assembled most-significant bit first.
pub fn extract<C: Channel>(channel: &C) -> (r: Result<(ContentType, Vec<u8>), StegError>)
    ensures
        match r {
            Ok(p) => spec_extract(low_bits(channel.units())) == Ok::<
                (ContentType, Seq<u8>),
                StegError,
            >((p.0, p.1@)),
            Err(e) => spec_extract(low_bits(channel.units())) == Err::<
                (ContentType, Seq<u8>),
                StegError,
            >(e),
        },
{
    let ghost bits = low_bits(channel.units());
    let count = channel.unit_count();
    if count < 40 {
        return Err(StegError::CarrierTooSmall);
    }
    let tag_byte = read_byte(channel, 0);
    let tag = match ContentType::from_u8(tag_byte) {
        Some(t) => t,
        None => {
            return Err(StegError::UnknownContentType(tag_byte));
        },
    };
    let length = u32_from_be_bytes(
        read_byte(channel, 8),
        read_byte(channel, 16),
        read_byte(channel, 24),
        read_byte(channel, 32),
    );
    if length as usize > (count - 40) / 8 {
        proof {
            assert(header_bits() + (length as int) * 8 > bits.len());
        }
        return Err(StegError::CorruptedLength { length: length as usize, available: count });
    }
    proof {
        assert(header_bits() + (length as int) * 8 <= bits.len());
    }
    let len = length as usize;
    let mut payload: Vec<u8> = Vec::new();
    let mut k: usize = 0;
    while k < len
        invariant
            k <= len,
            len as int * 8 + 40 <= channel.units().len(),
            channel.units().len() <= usize::MAX,
            bits == low_bits(channel.units()),
            payload@.len() == k,
            forall|t: int| 0 <= t < k ==> payload@[t] == byte_of_bits(bits, 40 + 8 * t),
        decreases len - k,
    {
        let b = read_byte(channel, 40 + 8 * k);
        payload.push(b);
        k = k + 1;
    }
    proof {
        assert(payload@ =~= Seq::new(length as nat, |t: int| byte_of_bits(bits, 40 + 8 * t)));
    }
    Ok((tag, payload))
}

/// Bits that agree with a byte sequence's bits reassemble to those bytes.
proof fn lemma_bytes_recovered(bytes: Seq<u8>, bits: Seq<u8>)
    requires
        bits.len() >= bytes.len() * 8,
        forall|i: int| 0 <= i < bytes.len() * 8 ==> bits[i] == bits_of_bytes(bytes)[i],
    ensures
        forall|m: int| 0 <= m < bytes.len() ==> byte_of_bits(bits, 8 * m) == bytes[m],
{
    assert forall|m: int| 0 <= m < bytes.len() implies byte_of_bits(bits, 8 * m) == bytes[m] by {
        assert forall|j: int| 0 <= j < 8 implies bits[8 * m + j] == bit_of_byte(bytes[m], j) by {
            let i = 8 * m + j;
            assert(0 <= i < bytes.len() * 8);
            assert(i / 8 == m && i % 8 == j);
            assert(bits[i] == bits_of_bytes(bytes)[i]);
        }
        lemma_byte_of_bits_roundtrip(bits, 8 * m, bytes[m]);
    }
}

/// A channel whose leading low bits are the bits of the frame for `(tag,
/// payload)` extracts to exactly `(tag, payload)`, whatever its remaining
/// bits hold.
pub proof fn lemma_frame_bits_extract(tag: ContentType, payload: Seq<u8>, bits: Seq<u8>)
    requires
        payload.len() <= u32::MAX,
        bits.len() >= (5 + payload.len()) * 8,
        forall|i: int|
            0 <= i < (5 + payload.len()) * 8 ==> bits[i] == bits_of_bytes(
                spec_frame(tag, payload),
            )[i],
    ensures
        spec_extract(bits) == Ok::<(ContentType, Seq<u8>), StegError>((tag, payload)),
{
    let f = spec_frame(tag, payload);
    let n = payload.len() as u32;
    assert(f.len() == 5 + payload.len());
    lemma_bytes_recovered(f, bits);
    assert(byte_of_bits(bits, 0) == f[0]) by {
        assert(byte_of_bits(bits, 8int * 0) == f[0]);
    }
    assert(f[0] == tag.spec_to_u8());
    assert(ContentType::spec_from_u8(tag.spec_to_u8()) == Some(tag));
    assert(byte_of_bits(bits, 8) == f[1] && byte_of_bits(bits, 16) == f[2] && byte_of_bits(
        bits,
        24,
    ) == f[3] && byte_of_bits(bits, 32) == f[4]) by {
        assert(byte_of_bits(bits, 8int * 1) == f[1] && byte_of_bits(bits, 8int * 2) == f[2]
            && byte_of_bits(bits, 8int * 3) == f[3] && byte_of_bits(bits, 8int * 4) == f[4]);
    }
    assert(f[1] == be32_bytes(n)[0] && f[2] == be32_bytes(n)[1] && f[3] == be32_bytes(n)[2] && f[4]
        == be32_bytes(n)[3]);
    lemma_be32_roundtrip(n);
    let recovered = Seq::new(n as nat, |k: int| byte_of_bits(bits, 40 + 8 * k));
    assert(recovered =~= payload) by {
        assert forall|k: int| 0 <= k < n implies recovered[k] == payload[k] by {
            assert(byte_of_bits(bits, 8 * (5 + k)) == f[5 + k]);
            assert(40 + 8 * k == 8 * (5 + k));
            assert(f[5 + k] == payload[k]);
        }
    }
}

/// Round-trip law: a channel into which the frame for `(tag, payload)` was
/// successfully embedded — its units relate to their prior values as
/// `embed` ensures — extracts to exactly `(tag, payload)`.
pub proof fn lemma_embed_extract_round_trip(
    tag: ContentType,
    payload: Seq<u8>,
    before: Seq<int>,
    after: Seq<int>,
)
    requires
        payload.len() <= u32::MAX,
        before.len() >= (5 + payload.len()) * 8,
        embedded(before, after, spec_frame(tag, payload)),
    ensures
        spec_extract(low_bits(after)) == Ok::<(ContentType, Seq<u8>), StegError>((tag, payload)),
{
    let f = spec_frame(tag, payload);
    assert(f.len() == 5 + payload.len());
    let bits = low_bits(after);
    assert forall|i: int| 0 <= i < (5 + payload.len()) * 8 implies bits[i] == bits_of_bytes(f)[i] by {
        let b = bits_of_bytes(f)[i];
        assert(is_bit(b)) by {
            assert(i / 8 < f.len() && 0 <= i % 8 < 8);
            lemma_bit_of_byte_is_bit(f[i / 8], i % 8);
        }
        assert(((before[i] / 2) * 2 + b) % 2 == b) by (nonlinear_arith)
            requires
                is_bit(b),
        ;
    }
    lemma_frame_bits_extract(tag, payload, bits);
}

/// A channel whose first eight low bits assemble to a byte outside the tag
/// table is rejected with exactly `UnknownContentType` of that byte.
pub proof fn lemma_unknown_tag_rejected(bits: Seq<u8>)
    requires
        bits.len() >= 40,
        byte_of_bits(bits, 0) != 0,
        byte_of_bits(bits, 0) != 1,
    ensures
        spec_extract(bits) == Err::<(ContentType, Seq<u8>), StegError>(
            StegError::UnknownContentType(byte_of_bits(bits, 0)),
        ),
{
}

/// A channel whose header declares a payload length larger than its
/// remaining units can carry is rejected with exactly `CorruptedLength`.
pub proof fn lemma_corrupted_length_rejected(bits: Seq<u8>)
    requires
        40 <= bits.len() <= usize::MAX,
        ContentType::spec_from_u8(byte_of_bits(bits, 0)) is Some,
        be32(
            byte_of_bits(bits, 8),
            byte_of_bits(bits, 16),
            byte_of_bits(bits, 24),
            byte_of_bits(bits, 32),
        ) > (bits.len() - 40) / 8,
    ensures
        spec_extract(bits) matches Err(e) && e matches StegError::CorruptedLength {
            length,
            available,
        } && length == be32(
            byte_of_bits(bits, 8),
            byte_of_bits(bits, 16),
            byte_of_bits(bits, 24),
            byte_of_bits(bits, 32),
        ) && available == bits.len(),
{
    let length = be32(
        byte_of_bits(bits, 8),
        byte_of_bits(bits, 16),
        byte_of_bits(bits, 24),
        byte_of_bits(bits, 32),
    ) as int;
    let avail = bits.len() as int;
    vstd::arithmetic::div_mod::lemma_fundamental_div_mod(avail - 40, 8);
    assert(40 + length * 8 > avail);
}

} // verus!
