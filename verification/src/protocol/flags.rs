//! The flag bits of a frame's first byte.

use vstd::prelude::*;

verus! {

/// The weight of a flag that is either high or low.
pub open spec fn weight(high: bool, bit: int) -> int {
    if high {
        bit
    } else {
        0
    }
}

/// Whether the bit of weight `bit` is high in `byte`.
pub open spec fn bit_high(byte: u8, bit: int) -> bool {
    (byte as int / bit) % 2 == 1
}

/// The flags that precede the operation code in the first byte of a frame.
#[derive(Copy, Clone, Debug, PartialEq, Eq, Structural)]
pub struct HeaderFlags {
    /// Whether this is the final frame of a message.
    pub fin: bool,
    /// The first reserved bit.
    pub rsv_1: bool,
    /// The second reserved bit.
    pub rsv_2: bool,
    /// The third reserved bit.
    pub rsv_3: bool,
}

impl HeaderFlags {
    /// The number whose high bits are these flags.
    pub open spec fn spec_bits(self) -> int {
        weight(self.fin, 128) + weight(self.rsv_1, 64) + weight(self.rsv_2, 32) + weight(
            self.rsv_3,
            16,
        )
    }

    /// The flags among the bits of `byte`.
    pub open spec fn spec_from_bits(byte: u8) -> HeaderFlags {
        HeaderFlags {
            fin: bit_high(byte, 128),
            rsv_1: bit_high(byte, 64),
            rsv_2: bit_high(byte, 32),
            rsv_3: bit_high(byte, 16),
        }
    }

    /// No flags.
    pub fn empty() -> (flags: HeaderFlags)
        ensures
            flags == (HeaderFlags { fin: false, rsv_1: false, rsv_2: false, rsv_3: false }),
    {
        HeaderFlags { fin: false, rsv_1: false, rsv_2: false, rsv_3: false }
    }

    /// Only the final flag.
    pub fn final_frame() -> (flags: HeaderFlags)
        ensures
            flags == (HeaderFlags { fin: true, rsv_1: false, rsv_2: false, rsv_3: false }),
    {
        HeaderFlags { fin: true, rsv_1: false, rsv_2: false, rsv_3: false }
    }

    /// The flags as the bits of a byte.
    pub fn bits(&self) -> (bits: u8)
        ensures
            bits == self.spec_bits(),
    {
        let fin: u8 = if self.fin { 128 } else { 0 };
        let rsv_1: u8 = if self.rsv_1 { 64 } else { 0 };
        let rsv_2: u8 = if self.rsv_2 { 32 } else { 0 };
        let rsv_3: u8 = if self.rsv_3 { 16 } else { 0 };
        fin + rsv_1 + rsv_2 + rsv_3
    }

    /// The flags in `byte`. Bits that are no flag are dropped.
    pub fn from_bits_truncate(byte: u8) -> (flags: HeaderFlags)
        ensures
            flags == Self::spec_from_bits(byte),
    {
        HeaderFlags {
            fin: (byte / 128) % 2 == 1,
            rsv_1: (byte / 64) % 2 == 1,
            rsv_2: (byte / 32) % 2 == 1,
            rsv_3: (byte / 16) % 2 == 1,
        }
    }

    /// Whether every flag of `other` is high here.
    pub fn contains(&self, other: HeaderFlags) -> (high: bool)
        ensures
            high == ((other.fin ==> self.fin) && (other.rsv_1 ==> self.rsv_1) && (other.rsv_2
                ==> self.rsv_2) && (other.rsv_3 ==> self.rsv_3)),
    {
        (!other.fin || self.fin) && (!other.rsv_1 || self.rsv_1) && (!other.rsv_2 || self.rsv_2) && (
        !other.rsv_3 || self.rsv_3)
    }

    /// Whether the final flag is high.
    pub fn is_fin(&self) -> (high: bool)
        ensures
            high == self.fin,
    {
        self.fin
    }

    /// Whether the first reserved bit is high.
    pub fn is_rsv1(&self) -> (high: bool)
        ensures
            high == self.rsv_1,
    {
        self.rsv_1
    }

    /// Whether the second reserved bit is high.
    pub fn is_rsv2(&self) -> (high: bool)
        ensures
            high == self.rsv_2,
    {
        self.rsv_2
    }

    /// Whether the third reserved bit is high.
    pub fn is_rsv3(&self) -> (high: bool)
        ensures
            high == self.rsv_3,
    {
        self.rsv_3
    }
}

/// The flags read from a byte that holds them beside an operation code are the flags written.
pub proof fn lemma_flags_of_first_byte(flags: HeaderFlags, code: u8, byte: u8)
    requires
        code < 16,
        byte == flags.spec_bits() + code,
    ensures
        HeaderFlags::spec_from_bits(byte) == flags,
        byte % 16 == code,
{
}

} // verus!
