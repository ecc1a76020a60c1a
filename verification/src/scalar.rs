//! Binary64 numbers as their IEEE-754 encodings.
//!
//! The tracer never needs to add or multiply inside its decision logic: it
//! needs to order numbers, negate them and pick one of two. All of that is
//! exact integer work on the encoding. A `Scalar` therefore carries the 64-bit
//! pattern of a double, and this module gives the comparison rules of
//! IEEE-754 over it: a NaN is unordered with everything, the two zeros are
//! equal, and everything else is ordered by sign and magnitude.
use vstd::prelude::*;

verus! {

/// The sign bit of a binary64 encoding.
pub const SIGN_BIT: u64 = 0x8000_0000_0000_0000;

/// The encoding of positive infinity; a larger magnitude is a NaN.
pub const INFINITY_BITS: u64 = 0x7FF0_0000_0000_0000;

/// The encoding of `1.0`.
pub const ONE_BITS: u64 = 0x3FF0_0000_0000_0000;

/// A binary64 number, held as its encoding.
///
/// `==` on two scalars compares encodings; `same` compares numbers.
#[derive(Clone, Copy, Debug, PartialEq, Eq, Structural)]
pub struct Scalar {
    pub bits: u64,
}

impl Scalar {
    /// Whether the sign bit is set.
    pub open spec fn negative(self) -> bool {
        self.bits >= SIGN_BIT
    }

    /// The encoding without its sign bit.
    pub open spec fn magnitude(self) -> int {
        if self.bits >= SIGN_BIT {
            self.bits - SIGN_BIT
        } else {
            self.bits as int
        }
    }

    /// Whether the encoding is a NaN.
    pub open spec fn nan(self) -> bool {
        self.magnitude() > INFINITY_BITS
    }

    /// The place of a number on the number line: an integer that grows with
    /// the number. Both zeros have key `0`. Meaningless for a NaN.
    pub open spec fn key(self) -> int {
        if self.negative() {
            -self.magnitude()
        } else {
            self.magnitude()
        }
    }

    /// IEEE-754 `<`.
    pub open spec fn lt_spec(self, other: Scalar) -> bool {
        !self.nan() && !other.nan() && self.key() < other.key()
    }

    /// IEEE-754 `<=`.
    pub open spec fn le_spec(self, other: Scalar) -> bool {
        !self.nan() && !other.nan() && self.key() <= other.key()
    }

    /// IEEE-754 `==`.
    pub open spec fn same_spec(self, other: Scalar) -> bool {
        !self.nan() && !other.nan() && self.key() == other.key()
    }

    /// The number with its sign flipped.
    pub open spec fn neg_spec(self) -> Scalar {
        if self.bits >= SIGN_BIT {
            Scalar { bits: (self.bits - SIGN_BIT) as u64 }
        } else {
            Scalar { bits: (self.bits + SIGN_BIT) as u64 }
        }
    }

    /// Strictly between `lo` and `hi`.
    pub open spec fn inside_spec(self, lo: Scalar, hi: Scalar) -> bool {
        lo.lt_spec(self) && self.lt_spec(hi)
    }

    pub fn from_bits(bits: u64) -> (s: Scalar)
        ensures
            s.bits == bits,
    {
        Scalar { bits }
    }

    pub fn to_bits(self) -> (bits: u64)
        ensures
            bits == self.bits,
    {
        self.bits
    }

    /// Positive zero.
    pub fn zero() -> (s: Scalar)
        ensures
            s.bits == 0,
            !s.nan(),
            s.key() == 0,
    {
        Scalar { bits: 0 }
    }

    /// `1.0`.
    pub fn one() -> (s: Scalar)
        ensures
            s.bits == ONE_BITS,
            !s.nan(),
            s.key() == ONE_BITS,
    {
        Scalar { bits: ONE_BITS }
    }

    /// Positive infinity.
    pub fn infinity() -> (s: Scalar)
        ensures
            s.bits == INFINITY_BITS,
            !s.nan(),
            s.key() == INFINITY_BITS,
    {
        Scalar { bits: INFINITY_BITS }
    }

    pub fn is_nan(self) -> (b: bool)
        ensures
            b == self.nan(),
    {
        if self.bits >= SIGN_BIT {
            self.bits - SIGN_BIT > INFINITY_BITS
        } else {
            self.bits > INFINITY_BITS
        }
    }

    /// The key as a machine integer.
    pub fn ord_key(self) -> (k: i64)
        ensures
            k == self.key(),
    {
        if self.bits >= SIGN_BIT {
            let m: u64 = self.bits - SIGN_BIT;
            -(m as i64)
        } else {
            self.bits as i64
        }
    }

    pub fn lt(self, other: Scalar) -> (b: bool)
        ensures
            b == self.lt_spec(other),
    {
        !self.is_nan() && !other.is_nan() && self.ord_key() < other.ord_key()
    }

    pub fn le(self, other: Scalar) -> (b: bool)
        ensures
            b == self.le_spec(other),
    {
        !self.is_nan() && !other.is_nan() && self.ord_key() <= other.ord_key()
    }

    pub fn same(self, other: Scalar) -> (b: bool)
        ensures
            b == self.same_spec(other),
    {
        !self.is_nan() && !other.is_nan() && self.ord_key() == other.ord_key()
    }

    pub fn neg(self) -> (s: Scalar)
        ensures
            s == self.neg_spec(),
    {
        if self.bits >= SIGN_BIT {
            Scalar { bits: self.bits - SIGN_BIT }
        } else {
            Scalar { bits: self.bits + SIGN_BIT }
        }
    }

    /// Whether the number lies strictly between `lo` and `hi`.
    pub fn inside(self, lo: Scalar, hi: Scalar) -> (b: bool)
        ensures
            b == self.inside_spec(lo, hi),
    {
        lo.lt(self) && self.lt(hi)
    }
}

/// Negation flips the sign and nothing else: it mirrors the number line,
/// keeps a NaN a NaN, and undoes itself.
pub proof fn lemma_neg(a: Scalar)
    ensures
        a.neg_spec().nan() == a.nan(),
        a.neg_spec().magnitude() == a.magnitude(),
        a.neg_spec().negative() == !a.negative(),
        a.neg_spec().key() == -a.key(),
        a.neg_spec().neg_spec() == a,
{
}

} // verus!
