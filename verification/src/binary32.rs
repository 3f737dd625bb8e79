//! Numbers in the IEEE 754 binary32 format as bit patterns, with their
//! numeric order.

use vstd::prelude::*;

verus! {

/// The bit that holds the sign of a binary32 number.
pub const SIGN_BIT: u32 = 0x8000_0000;

/// The bit pattern of positive infinity; a larger magnitude is not a number.
pub const INFINITY_BITS: u32 = 0x7F80_0000;

/// The bit pattern of the number one.
pub const ONE_BITS: u32 = 0x3F80_0000;

/// A number in the IEEE 754 binary32 format, held as its bit pattern.
///
/// Two values are equal when their bit patterns are: this tells the two zeros
/// apart and equates a not-a-number with itself. Numeric order is given by
/// [`Binary32::less_than`].
#[derive(Clone, Copy, Debug, PartialEq, Eq, Structural)]
pub struct Binary32 {
    pub bits: u32,
}

impl Binary32 {
    /// The bit pattern without its sign bit.
    pub open spec fn magnitude(self) -> int {
        if self.bits >= SIGN_BIT {
            self.bits - SIGN_BIT
        } else {
            self.bits as int
        }
    }

    /// The sign bit is set.
    pub open spec fn is_negative(self) -> bool {
        self.bits >= SIGN_BIT
    }

    /// The pattern denotes no number: exponent all ones, fraction not zero.
    pub open spec fn is_nan(self) -> bool {
        self.magnitude() > INFINITY_BITS
    }

    /// An integer that orders the numbers as their values do: the magnitude,
    /// negated under a set sign bit. Both zeros have rank 0.
    pub open spec fn rank(self) -> int {
        if self.is_negative() {
            -self.magnitude()
        } else {
            self.magnitude()
        }
    }

    /// Numeric `<`: false as soon as one side is not a number.
    pub open spec fn spec_less_than(self, other: Binary32) -> bool {
        !self.is_nan() && !other.is_nan() && self.rank() < other.rank()
    }

    /// The number lies in the half-open interval from zero to one.
    pub open spec fn in_unit_interval(self) -> bool {
        !self.is_nan() && !self.spec_less_than(Binary32::spec_zero()) && self.spec_less_than(
            Binary32::spec_one(),
        )
    }

    /// Positive zero.
    pub open spec fn spec_zero() -> Binary32 {
        Binary32 { bits: 0 }
    }

    /// The number one.
    pub open spec fn spec_one() -> Binary32 {
        Binary32 { bits: ONE_BITS }
    }

    /// The number with the given bit pattern.
    pub fn from_bits(bits: u32) -> (r: Binary32)
        ensures
            r.bits == bits,
    {
        Binary32 { bits }
    }

    /// The bit pattern of the number.
    pub fn to_bits(self) -> (r: u32)
        ensures
            r == self.bits,
    {
        self.bits
    }

    /// Positive zero.
    #[verifier::when_used_as_spec(spec_zero)]
    pub fn zero() -> (r: Binary32)
        ensures
            r == Binary32::spec_zero(),
    {
        Binary32 { bits: 0 }
    }

    /// The number one.
    #[verifier::when_used_as_spec(spec_one)]
    pub fn one() -> (r: Binary32)
        ensures
            r == Binary32::spec_one(),
    {
        Binary32 { bits: ONE_BITS }
    }

    /// Numeric `<` on the two bit patterns.
    #[verifier::when_used_as_spec(spec_less_than)]
    pub fn less_than(self, other: Binary32) -> (r: bool)
        ensures
            r == self.spec_less_than(other),
    {
        let a: u32 = if self.bits >= SIGN_BIT {
            self.bits - SIGN_BIT
        } else {
            self.bits
        };
        let b: u32 = if other.bits >= SIGN_BIT {
            other.bits - SIGN_BIT
        } else {
            other.bits
        };
        if a > INFINITY_BITS || b > INFINITY_BITS {
            false
        } else if self.bits >= SIGN_BIT {
            if other.bits >= SIGN_BIT {
                b < a
            } else {
                a > 0 || b > 0
            }
        } else {
            other.bits < SIGN_BIT && a < b
        }
    }
}

} // verus!
