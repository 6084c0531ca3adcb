//! Real numbers the library carries and orders but does not compute with.

use vstd::prelude::*;

verus! {

/// A double-precision number, held as its IEEE 754 bit pattern.
#[derive(Debug, Clone, Copy, PartialEq, Eq, Structural)]
pub struct Real {
    pub bits: u64,
}

/// The sign bit.
pub const SIGN: u64 = 0x8000_0000_0000_0000;

/// The bits of positive infinity; above them lie the NaNs.
pub const INFINITY: u64 = 0x7ff0_0000_0000_0000;

/// The bits of 0.
pub const ZERO: u64 = 0;

/// The bits of 0.4.
pub const TWO_FIFTHS: u64 = 0x3fd9_9999_9999_999a;

/// The bits of 0.5.
pub const HALF: u64 = 0x3fe0_0000_0000_0000;

/// The bits of 0.7.
pub const SEVEN_TENTHS: u64 = 0x3fe6_6666_6666_6666;

/// The bits of 0.9.
pub const NINE_TENTHS: u64 = 0x3fec_cccc_cccc_cccd;

/// The bits of 1.
pub const ONE: u64 = 0x3ff0_0000_0000_0000;

/// The bits of 5.
pub const FIVE: u64 = 0x4014_0000_0000_0000;

impl Real {
    /// The place of the number in the total order of IEEE 754: negative numbers
    /// by falling magnitude, then the positive ones by rising magnitude.
    pub open spec fn rank(&self) -> int {
        if self.bits < SIGN {
            self.bits as int
        } else {
            -1 - (self.bits - SIGN)
        }
    }

    /// Whether the bits stand for no number.
    pub open spec fn is_nan(&self) -> bool {
        (self.bits > INFINITY && self.bits < SIGN) || self.bits > SIGN + INFINITY
    }

    /// Whether the number is less than another, zeros being equal.
    pub open spec fn less(&self, other: &Real) -> bool {
        !self.is_nan() && !other.is_nan() && self.rank() < other.rank() && !(self.bits == SIGN
            && other.bits == 0)
    }

    /// Whether `self` comes before `other` in the total order.
    pub fn before(&self, other: &Real) -> (r: bool)
        ensures
            r == (self.rank() < other.rank()),
    {
        if self.bits < SIGN {
            other.bits < SIGN && self.bits < other.bits
        } else {
            other.bits < SIGN || other.bits < self.bits
        }
    }

    /// The place of the number in the total order.
    pub fn order(&self) -> (r: i128)
        ensures
            r == self.rank(),
    {
        if self.bits < SIGN {
            self.bits as i128
        } else {
            -1 - ((self.bits - SIGN) as i128)
        }
    }

    /// Whether the number is less than another, zeros being equal.
    pub fn is_less(&self, other: &Real) -> (r: bool)
        ensures
            r == self.less(other),
    {
        let self_nan = (self.bits > INFINITY && self.bits < SIGN) || self.bits > SIGN + INFINITY;
        let other_nan = (other.bits > INFINITY && other.bits < SIGN) || other.bits > SIGN
            + INFINITY;
        !self_nan && !other_nan && self.before(other) && !(self.bits == SIGN && other.bits == 0)
    }

    /// Whether two numbers are equal: zeros are, and a NaN equals nothing.
    pub open spec fn equals(&self, other: &Real) -> bool {
        !self.is_nan() && !other.is_nan() && (self.bits == other.bits || ((self.bits == 0
            || self.bits == SIGN) && (other.bits == 0 || other.bits == SIGN)))
    }

    /// Whether two numbers are equal: zeros are, and a NaN equals nothing.
    pub fn is_equal(&self, other: &Real) -> (r: bool)
        ensures
            r == self.equals(other),
    {
        let self_nan = (self.bits > INFINITY && self.bits < SIGN) || self.bits > SIGN + INFINITY;
        let other_nan = (other.bits > INFINITY && other.bits < SIGN) || other.bits > SIGN
            + INFINITY;
        !self_nan && !other_nan && (self.bits == other.bits || ((self.bits == 0 || self.bits
            == SIGN) && (other.bits == 0 || other.bits == SIGN)))
    }

    /// The number, or the bound it lies beyond.
    pub open spec fn clamped(&self, low: Real, high: Real) -> Real {
        if self.less(&low) {
            low
        } else if high.less(self) {
            high
        } else {
            *self
        }
    }

    /// Restricts the number to an interval.
    pub fn clamp(&self, low: Real, high: Real) -> (r: Real)
        ensures
            r == self.clamped(low, high),
    {
        if self.is_less(&low) {
            low
        } else if high.is_less(self) {
            high
        } else {
            *self
        }
    }
}

/// The total order of IEEE 754 tells any two bit patterns apart.
pub proof fn law_rank_tells_apart(a: Real, b: Real)
    ensures
        a.rank() == b.rank() <==> a == b,
{
}

/// A clamped number lies beyond neither bound.
pub proof fn law_clamped_within(x: Real, low: Real, high: Real)
    requires
        !high.less(&low),
    ensures
        !x.clamped(low, high).less(&low),
        !high.less(&x.clamped(low, high)),
{
}

} // verus!
