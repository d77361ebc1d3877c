//! IEEE 754 double-precision numbers, held by their bit patterns.
//!
//! The crate never computes with such a number; it only carries it and
//! decides which of two is the greater, exactly as the standard orders them.

use vstd::prelude::*;

verus! {

/// The bit that holds the sign.
pub const SIGN_BIT: u64 = 0x8000_0000_0000_0000;

/// The pattern of positive infinity. Every magnitude above it is a NaN.
pub const INFINITY_BITS: u64 = 0x7ff0_0000_0000_0000;

/// A double-precision number, given by its 64 bits. Two values are equal
/// when their bits are: a NaN equals itself, and the two zeros differ.
#[derive(Clone, Copy, Debug, PartialEq, Eq, Structural)]
pub struct Double {
    pub bits: u64,
}

/// A point of the complex plane.
#[derive(Clone, Copy, Debug, PartialEq, Eq, Structural)]
pub struct Complex {
    pub re: Double,
    pub im: Double,
}

impl Double {
    /// The pattern without its sign bit.
    pub open spec fn magnitude(self) -> int {
        self.bits as int % SIGN_BIT as int
    }

    /// The sign bit is set.
    pub open spec fn is_negative(self) -> bool {
        self.bits >= SIGN_BIT
    }

    /// The pattern stands for no number.
    pub open spec fn is_nan(self) -> bool {
        self.magnitude() > INFINITY_BITS
    }

    /// An integer that grows with the number: for patterns that are
    /// numbers, `a` is below `b` exactly when `a.rank() < b.rank()`. Both
    /// zeros have rank 0.
    pub open spec fn rank(self) -> int {
        if self.is_negative() {
            -self.magnitude()
        } else {
            self.magnitude()
        }
    }

    /// `self > other` as the standard defines it: both are numbers and
    /// `self` is the greater. A NaN exceeds nothing and nothing exceeds it.
    pub open spec fn exceeds(self, other: Double) -> bool {
        !self.is_nan() && !other.is_nan() && self.rank() > other.rank()
    }

    /// Positive zero.
    pub fn zero() -> (z: Double)
        ensures
            z.bits == 0,
    {
        Double { bits: 0 }
    }

    /// The number with the given bits.
    pub fn from_bits(bits: u64) -> (d: Double)
        ensures
            d.bits == bits,
    {
        Double { bits }
    }

    /// The bits of the number.
    pub fn to_bits(self) -> (bits: u64)
        ensures
            bits == self.bits,
    {
        self.bits
    }

    fn magnitude_bits(self) -> (m: u64)
        ensures
            m == self.magnitude(),
    {
        if self.bits >= SIGN_BIT {
            self.bits - SIGN_BIT
        } else {
            self.bits
        }
    }

    /// Whether the pattern stands for no number.
    pub fn is_not_a_number(self) -> (nan: bool)
        ensures
            nan == self.is_nan(),
    {
        self.magnitude_bits() > INFINITY_BITS
    }

    /// Whether `self` is strictly greater than `other`.
    pub fn gt(self, other: Double) -> (greater: bool)
        ensures
            greater == self.exceeds(other),
    {
        let a: u64 = self.magnitude_bits();
        let b: u64 = other.magnitude_bits();
        if a > INFINITY_BITS || b > INFINITY_BITS {
            false
        } else if self.bits >= SIGN_BIT {
            other.bits >= SIGN_BIT && a < b
        } else if other.bits >= SIGN_BIT {
            a > 0 || b > 0
        } else {
            a > b
        }
    }
}

impl Complex {
    /// The origin.
    pub fn zero() -> (z: Complex)
        ensures
            z.re.bits == 0,
            z.im.bits == 0,
    {
        Complex { re: Double::zero(), im: Double::zero() }
    }
}

/// Nothing exceeds itself.
pub proof fn lemma_exceeds_irreflexive(a: Double)
    ensures
        !a.exceeds(a),
{
}

/// Of two numbers at most one exceeds the other.
pub proof fn lemma_exceeds_asymmetric(a: Double, b: Double)
    ensures
        !(a.exceeds(b) && b.exceeds(a)),
{
}

/// What exceeds the greater of two numbers exceeds the smaller.
pub proof fn lemma_exceeds_transitive(a: Double, b: Double, c: Double)
    requires
        a.exceeds(b),
        b.exceeds(c),
    ensures
        a.exceeds(c),
{
}

} // verus!
