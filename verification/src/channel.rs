//! The carrier-agnostic bit channel: an ordered sequence of addressable
//! units, each able to hold exactly one embedded bit in its least-significant
//! position while every higher-order bit is preserved verbatim.

use vstd::prelude::*;

verus! {

/// A carrier seen as indexable embeddable units. `units()` gives each unit's
/// value as an unsigned integer; reading touches nothing, and writing a bit
/// replaces only the unit's least-significant bit.
pub trait Channel {
    /// The units of the carrier, in embedding order, each as its unsigned
    /// value.
    spec fn units(&self) -> Seq<int>;

    /// How many units the carrier holds.
    fn unit_count(&self) -> (n: usize)
        ensures
            n == self.units().len(),
    ;

    /// The low bit of unit `index`.
    fn read_bit(&self, index: usize) -> (b: u8)
        requires
            index < self.units().len(),
        ensures
            b == self.units()[index as int] % 2,
    ;

    /// Replaces the low bit of unit `index` with `bit`, preserving the
    /// unit's higher-order bits and every other unit exactly.
    fn write_bit(&mut self, index: usize, bit: u8)
        requires
            index < old(self).units().len(),
            bit == 0 || bit == 1,
        ensures
            final(self).units() == old(self).units().update(
                index as int,
                (old(self).units()[index as int] / 2) * 2 + bit,
            ),
    ;
}

/// An image carrier: one unit is one byte of one color channel of one pixel,
/// in row-major, channel-interleaved order.
pub struct ImageChannel {
    /// The flat RGB byte buffer of the carrier image.
    pub bytes: Vec<u8>,
}

/// An audio carrier: one unit is one signed 16-bit PCM sample, in stream
/// order. A sample's unit value is its two's-complement bit pattern.
pub struct AudioChannel {
    /// The 16-bit PCM samples of the carrier.
    pub samples: Vec<i16>,
}

impl Channel for ImageChannel {
    open spec fn units(&self) -> Seq<int> {
        Seq::new(self.bytes@.len(), |i: int| self.bytes@[i] as int)
    }

    fn unit_count(&self) -> (n: usize)
        ensures
            n == self.units().len(),
    {
        self.bytes.len()
    }

    fn read_bit(&self, index: usize) -> (b: u8)
        ensures
            b == self.units()[index as int] % 2,
    {
        let u = self.bytes[index];
        proof {
            assert(u & 1 == u % 2) by (bit_vector);
        }
        u & 1
    }

    fn write_bit(&mut self, index: usize, bit: u8)
        ensures
            final(self).units() == old(self).units().update(
                index as int,
                (old(self).units()[index as int] / 2) * 2 + bit,
            ),
    {
        let u = self.bytes[index];
        let v = (u & 0xFE) | bit;
        proof {
            assert((u & 0xFE) | bit == (u / 2) * 2 + bit) by (bit_vector)
                requires
                    bit == 0 || bit == 1,
            ;
        }
        self.bytes.set(index, v);
        proof {
            assert(self.units() =~= old(self).units().update(
                index as int,
                (old(self).units()[index as int] / 2) * 2 + bit,
            ));
        }
    }
}

impl Channel for AudioChannel {
    open spec fn units(&self) -> Seq<int> {
        Seq::new(self.samples@.len(), |i: int| (self.samples@[i] as u16) as int)
    }

    fn unit_count(&self) -> (n: usize)
        ensures
            n == self.units().len(),
    {
        self.samples.len()
    }

    fn read_bit(&self, index: usize) -> (b: u8)
        ensures
            b == self.units()[index as int] % 2,
    {
        let u = self.samples[index] as u16;
        proof {
            assert((u & 1) as u8 == u % 2 && u % 2 <= 1) by (bit_vector);
        }
        (u & 1) as u8
    }

    fn write_bit(&mut self, index: usize, bit: u8)
        ensures
            final(self).units() == old(self).units().update(
                index as int,
                (old(self).units()[index as int] / 2) * 2 + bit,
            ),
    {
        let u = self.samples[index] as u16;
        let v = (u & 0xFFFE) | (bit as u16);
        let s = v as i16;
        proof {
            assert((u & 0xFFFE) | (bit as u16) == (u / 2) * 2 + bit && (((u & 0xFFFE) | (
            bit as u16)) as i16) as u16 == (u & 0xFFFE) | (bit as u16)) by (bit_vector)
                requires
                    bit == 0 || bit == 1,
            ;
        }
        self.samples.set(index, s);
        proof {
            assert(self.units() =~= old(self).units().update(
                index as int,
                (old(self).units()[index as int] / 2) * 2 + bit,
            ));
        }
    }
}

} // verus!
