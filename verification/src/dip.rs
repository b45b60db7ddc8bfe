//! Device-independent lengths, held by the bit pattern of the single-precision number they are
//! stored as.
//!
//! Among the numbers that are not negative, a larger bit pattern is a larger number, so a range
//! of lengths is a range of bit patterns.

use vstd::prelude::*;

verus! {

/// Bit pattern of 1.0, the smallest side a fence may have.
pub const ONE_BITS: u32 = 0x3F80_0000;

/// Bit pattern of 8192.0, the largest side a fence may have.
pub const SIDE_MAX_BITS: u32 = 0x4600_0000;

/// Bit pattern of 0.2, the lowest opacity multiplier.
pub const OPACITY_MIN_BITS: u32 = 0x3E4C_CCCD;

/// Bit pattern of 2.0, the highest opacity multiplier.
pub const OPACITY_MAX_BITS: u32 = 0x4000_0000;

/// Bit pattern of 0.6, the default icon tint strength.
pub const TINT_STRENGTH_BITS: u32 = 0x3F19_999A;

/// A single-precision number, by its bit pattern.
#[derive(Clone, Copy, Debug, PartialEq, Eq, Structural)]
pub struct Dip {
    pub bits: u32,
}

impl Dip {
    /// Neither an infinity nor a NaN: the eight exponent bits are not all ones.
    pub open spec fn finite(self) -> bool {
        (self.bits as int / 0x80_0000) % 0x100 != 0xFF
    }

    /// A number from 1.0 to 8192.0.
    pub open spec fn side_in_range(self) -> bool {
        ONE_BITS <= self.bits <= SIDE_MAX_BITS
    }

    /// A number from 0.2 to 2.0.
    pub open spec fn opacity_in_range(self) -> bool {
        OPACITY_MIN_BITS <= self.bits <= OPACITY_MAX_BITS
    }

    /// A zero, of either sign.
    pub open spec fn zero(self) -> bool {
        self.bits == 0 || self.bits == 0x8000_0000
    }

    /// Not a number.
    pub open spec fn nan(self) -> bool {
        !self.finite() && self.bits as int % 0x80_0000 != 0
    }

    /// The two numbers compare equal: the same number, or zeros of either sign. A NaN equals
    /// nothing.
    pub open spec fn equals(self, other: Dip) -> bool {
        !self.nan() && (self.bits == other.bits || (self.zero() && other.zero()))
    }

    /// Whether the two numbers compare equal.
    pub fn same(self, other: Dip) -> (r: bool)
        ensures
            r == self.equals(other),
    {
        let nan: bool = !self.is_finite() && self.bits % 0x80_0000 != 0;
        !nan && (self.bits == other.bits || ((self.bits == 0 || self.bits == 0x8000_0000) && (
        other.bits == 0 || other.bits == 0x8000_0000)))
    }

    /// Whether the number is neither an infinity nor a NaN.
    pub fn is_finite(self) -> (r: bool)
        ensures
            r == self.finite(),
    {
        (self.bits / 0x80_0000) % 0x100 != 0xFF
    }

    /// Whether the number can be the width or height of a fence.
    pub fn is_side(self) -> (r: bool)
        ensures
            r == self.side_in_range(),
    {
        ONE_BITS <= self.bits && self.bits <= SIDE_MAX_BITS
    }

    /// Whether the number can be an opacity multiplier.
    pub fn is_opacity(self) -> (r: bool)
        ensures
            r == self.opacity_in_range(),
    {
        OPACITY_MIN_BITS <= self.bits && self.bits <= OPACITY_MAX_BITS
    }
}

/// A number that is not negative, with exponent `e` and fraction `m`, is finite unless its exponent
/// is the largest; it is a side from 1 to 8192, that is from two to the power of 0 to that of 13,
/// and an opacity from one fifth to two.
pub proof fn ranges_are_those_of_the_numbers(d: Dip, e: int, m: int)
    requires
        d.bits == e * 0x80_0000 + m,
        0 <= e < 256,
        0 <= m < 0x80_0000,
    ensures
        d.finite() <==> e != 255,
        d.side_in_range() <==> 127 <= e && (e < 127 + 13 || (e == 127 + 13 && m == 0)),
        d.opacity_in_range() <==> (e > 124 || (e == 124 && 5 * (0x80_0000 + m) >= 0x400_0000)) && (e
            < 128 || (e == 128 && m == 0)),
        d.nan() <==> e == 255 && m > 0,
        !d.nan() ==> d.equals(d),
        d.nan() ==> !d.equals(d),
{
    assert(d.bits as int / 0x80_0000 == e);
    assert(d.bits as int % 0x80_0000 == m);
}

/// A negative number is neither a side nor an opacity, and a zero equals the other one.
pub proof fn negative_numbers_are_out_of_range(d: Dip)
    requires
        d.bits >= 0x8000_0000,
    ensures
        !d.side_in_range(),
        !d.opacity_in_range(),
        (Dip { bits: 0 }).equals(Dip { bits: 0x8000_0000 }),
        (Dip { bits: 0x8000_0000 }).equals(Dip { bits: 0 }),
{
}

/// Numbers that compare equal do so either way round, and differ at most in the sign of a zero.
pub proof fn equality_is_symmetric(a: Dip, b: Dip)
    ensures
        a.equals(b) ==> b.equals(a),
        a.equals(b) && a.bits != b.bits ==> a.zero() && b.zero(),
{
}

} // verus!
