//! Real-valued multipliers as bit patterns.
//!
//! A [`Scalar`] carries the sixty-four bits of an IEEE 754 binary64 number.
//! Nothing here computes with such numbers; the crate only moves them and
//! classifies them by their encoding.

use vstd::prelude::*;

verus! {

/// Mask that clears the sign bit of an encoding.
pub const MAGNITUDE_MASK: u64 = 0x7fff_ffff_ffff_ffff;

/// Encoding of positive infinity; every larger magnitude is not a number.
pub const INFINITY_BITS: u64 = 0x7ff0_0000_0000_0000;

/// Encoding of the number one.
pub const ONE_BITS: u64 = 0x3ff0_0000_0000_0000;

/// A binary64 number, held as its encoding.
#[derive(Debug, Copy, Clone, PartialEq, Eq, Structural)]
pub struct Scalar {
    pub bits: u64,
}

impl Scalar {
    /// The encoding with the sign bit cleared. Two numbers that are not NaN
    /// compare by absolute value exactly as their magnitudes compare as integers.
    pub open spec fn magnitude(self) -> u64 {
        self.bits & MAGNITUDE_MASK
    }

    /// Positive or negative zero.
    pub open spec fn spec_is_zero(self) -> bool {
        self.magnitude() == 0
    }

    /// Not a number: the exponent is all ones and the fraction is not zero.
    pub open spec fn spec_is_nan(self) -> bool {
        self.magnitude() > INFINITY_BITS
    }

    /// Neither infinite nor NaN.
    pub open spec fn spec_is_finite(self) -> bool {
        self.magnitude() < INFINITY_BITS
    }

    /// Wraps an encoding.
    pub fn from_bits(bits: u64) -> (s: Scalar)
        ensures
            s.bits == bits,
    {
        Scalar { bits }
    }

    /// The encoding.
    pub fn to_bits(self) -> (bits: u64)
        ensures
            bits == self.bits,
    {
        self.bits
    }

    /// The number one.
    pub fn one() -> (s: Scalar)
        ensures
            s.bits == ONE_BITS,
    {
        Scalar { bits: ONE_BITS }
    }

    /// The encoding with the sign bit cleared.
    pub fn abs_bits(self) -> (m: u64)
        ensures
            m == self.magnitude(),
    {
        self.bits & MAGNITUDE_MASK
    }

    /// Whether the number is positive or negative zero.
    #[verifier::when_used_as_spec(spec_is_zero)]
    pub fn is_zero(self) -> (z: bool)
        ensures
            z == self.spec_is_zero(),
    {
        self.abs_bits() == 0
    }

    /// Whether the number is NaN.
    #[verifier::when_used_as_spec(spec_is_nan)]
    pub fn is_nan(self) -> (n: bool)
        ensures
            n == self.spec_is_nan(),
    {
        self.abs_bits() > INFINITY_BITS
    }

    /// Whether the absolute value of `self` is less than that of `other`, as
    /// binary64 numbers compare: never where one of the two is NaN.
    pub open spec fn spec_magnitude_below(self, other: Scalar) -> bool {
        !self.spec_is_nan() && !other.spec_is_nan() && self.magnitude() < other.magnitude()
    }

    /// Whether the absolute value of `self` is less than that of `other`.
    #[verifier::when_used_as_spec(spec_magnitude_below)]
    pub fn magnitude_below(self, other: Scalar) -> (below: bool)
        ensures
            below == self.spec_magnitude_below(other),
    {
        !self.is_nan() && !other.is_nan() && self.abs_bits() < other.abs_bits()
    }

    /// Whether the number is neither infinite nor NaN.
    #[verifier::when_used_as_spec(spec_is_finite)]
    pub fn is_finite(self) -> (f: bool)
        ensures
            f == self.spec_is_finite(),
    {
        self.abs_bits() < INFINITY_BITS
    }
}

} // verus!
