//! Single-precision numbers, carried as their IEEE 754 bit patterns.

use vstd::prelude::*;

verus! {

/// The bit pattern of a single-precision number.
///
/// Volumes, offsets and playback rates are stored, compared and clamped in this
/// form; nothing here does arithmetic on them.
#[derive(Clone, Copy, Debug, PartialEq, Eq, Structural)]
pub struct Single {
    pub bits: u32,
}

/// The pattern of the number one.
pub const ONE: u32 = 0x3f80_0000;

/// The pattern of positive zero.
pub const ZERO: u32 = 0;

/// The bits below the sign bit.
pub open spec fn magnitude(bits: u32) -> int {
    bits as int % 0x8000_0000
}

impl Single {
    /// Whether this is one of the patterns that stand for no number: all
    /// exponent bits set over a fraction that is not zero.
    pub open spec fn is_nan_spec(self) -> bool {
        magnitude(self.bits) > 0x7f80_0000
    }

    /// Whether this is a number that is not infinite.
    pub open spec fn is_finite_spec(self) -> bool {
        magnitude(self.bits) < 0x7f80_0000
    }

    /// Where the number stands in the order of the numbers. Both zeros stand
    /// at zero.
    pub open spec fn rank(self) -> int {
        if self.bits < 0x8000_0000 {
            magnitude(self.bits)
        } else {
            -magnitude(self.bits)
        }
    }

    /// The ordering comparison, which nothing passes that is no number.
    pub open spec fn at_most(self, other: Single) -> bool {
        &&& !self.is_nan_spec()
        &&& !other.is_nan_spec()
        &&& self.rank() <= other.rank()
    }

    /// The smaller of the two, the negative of two zeros; if one is no number,
    /// the other one.
    pub open spec fn min_spec(self, other: Single) -> Single {
        if self.is_nan_spec() {
            other
        } else if other.is_nan_spec() || self.rank() < other.rank() || (self.rank()
            == other.rank() && self.bits >= other.bits) {
            self
        } else {
            other
        }
    }

    /// The larger of the two, the positive of two zeros; if one is no number,
    /// the other one.
    pub open spec fn max_spec(self, other: Single) -> Single {
        if self.is_nan_spec() {
            other
        } else if other.is_nan_spec() || self.rank() > other.rank() || (self.rank()
            == other.rank() && self.bits <= other.bits) {
            self
        } else {
            other
        }
    }

    /// The nearest number between `low` and `high`. What is no number stays as
    /// it is.
    pub open spec fn clamp_spec(self, low: Single, high: Single) -> Single {
        if self.is_nan_spec() {
            self
        } else if self.rank() < low.rank() {
            low
        } else if self.rank() > high.rank() {
            high
        } else {
            self
        }
    }

    pub fn is_nan(self) -> (r: bool)
        ensures
            r == self.is_nan_spec(),
    {
        self.bits % 0x8000_0000 > 0x7f80_0000
    }

    /// Whether `self` is less than or equal to `other`.
    pub fn le(self, other: Single) -> (r: bool)
        ensures
            r == self.at_most(other),
    {
        if self.is_nan() || other.is_nan() {
            return false;
        }
        let a: u32 = self.bits % 0x8000_0000;
        let b: u32 = other.bits % 0x8000_0000;
        if self.bits < 0x8000_0000 {
            if other.bits < 0x8000_0000 {
                a <= b
            } else {
                a == 0 && b == 0
            }
        } else if other.bits < 0x8000_0000 {
            true
        } else {
            b <= a
        }
    }

    /// The smaller of the two, the negative of two zeros; if one is no number,
    /// the other one.
    pub fn min(self, other: Single) -> (r: Single)
        ensures
            r == self.min_spec(other),
    {
        if self.is_nan() {
            other
        } else if other.is_nan() || !other.le(self) || (self.le(other) && self.bits
            >= other.bits) {
            self
        } else {
            other
        }
    }

    /// The larger of the two, the positive of two zeros; if one is no number,
    /// the other one.
    pub fn max(self, other: Single) -> (r: Single)
        ensures
            r == self.max_spec(other),
    {
        if self.is_nan() {
            other
        } else if other.is_nan() || !self.le(other) || (other.le(self) && self.bits
            <= other.bits) {
            self
        } else {
            other
        }
    }

    /// Restricts the number to the range from `low` to `high`.
    pub fn clamp(self, low: Single, high: Single) -> (r: Single)
        requires
            low.at_most(high),
        ensures
            r == self.clamp_spec(low, high),
    {
        if self.is_nan() {
            self
        } else if !low.le(self) {
            low
        } else if !self.le(high) {
            high
        } else {
            self
        }
    }
}

/// The order of the numbers: positive ones go by their bits, a change of sign of
/// both turns them round, a negative one is at most a positive one, and the two
/// zeros are as good as each other. What is no number compares with nothing.
pub proof fn numbers_are_in_order(a: Single, b: Single)
    ensures
        a.bits <= 0x7f80_0000 && b.bits <= 0x7f80_0000 ==> (a.at_most(b) <==> a.bits <= b.bits),
        a.bits <= 0x7f80_0000 && b.bits <= 0x7f80_0000 ==> ((Single {
            bits: (a.bits + 0x8000_0000) as u32,
        }).at_most(Single { bits: (b.bits + 0x8000_0000) as u32 }) <==> b.bits <= a.bits),
        a.bits <= 0x7f80_0000 && b.bits <= 0x7f80_0000 ==> (Single {
            bits: (a.bits + 0x8000_0000) as u32,
        }).at_most(b),
        a.bits <= 0x7f80_0000 && b.bits <= 0x7f80_0000 ==> (b.at_most(
            Single { bits: (a.bits + 0x8000_0000) as u32 },
        ) <==> a.bits == 0 && b.bits == 0),
        0x7f80_0000 < a.bits < 0x8000_0000 || 0xff80_0000 < a.bits ==> !a.at_most(b) && !b.at_most(
            a,
        ),
        a.is_nan_spec() <==> !a.at_most(a),
{
}

/// The smaller and the larger of two numbers are the two of them, in order; if one
/// is no number, both are the other one.
pub proof fn smaller_and_larger_are_the_two_in_order(a: Single, b: Single)
    ensures
        a.at_most(a) && b.at_most(b) ==> {
            let low = a.min_spec(b);
            let high = a.max_spec(b);
            &&& low.at_most(high)
            &&& (low == a && high == b) || (low == b && high == a)
        },
        a.at_most(a) && !b.at_most(b) ==> a.min_spec(b) == a && a.max_spec(b) == a,
        !a.at_most(a) ==> a.min_spec(b) == b && a.max_spec(b) == b,
{
}

/// A number that is restricted to a range is in it, stays as it is if it was, and
/// otherwise becomes the bound it ran over.
pub proof fn clamping_goes_to_the_nearest(v: Single, low: Single, high: Single)
    requires
        low.at_most(high),
    ensures
        low.at_most(v) && v.at_most(high) ==> v.clamp_spec(low, high) == v,
        v.at_most(low) && !low.at_most(v) ==> v.clamp_spec(low, high) == low,
        high.at_most(v) && !v.at_most(high) ==> v.clamp_spec(low, high) == high,
        !v.at_most(v) ==> v.clamp_spec(low, high) == v,
{
}

} // verus!
