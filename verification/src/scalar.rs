//! Single-precision values, handled by their IEEE-754 bit patterns.
//!
//! The library never performs rounding arithmetic on a `Scalar`. It carries
//! the pattern, compares two patterns the way IEEE-754 orders the values they
//! denote, and flips the sign bit. Everything that rounds is done by the
//! caller and handed in.
use vstd::prelude::*;

verus! {

/// The sign bit of a pattern.
pub const SIGN_BIT: u32 = 0x8000_0000;

/// The pattern of positive infinity; every magnitude above it is a NaN.
pub const INFINITY_BITS: u32 = 0x7f80_0000;

/// The pattern of `1.0`.
pub const ONE_BITS: u32 = 0x3f80_0000;

/// The pattern of the value nearest to `0.001`.
pub const MILLI_BITS: u32 = 0x3a83_126f;

/// A single-precision value, stored as its bit pattern.
#[derive(Clone, Copy, Debug, PartialEq, Eq, Structural)]
pub struct Scalar {
    pub bits: u32,
}

impl Scalar {
    /// The pattern without its sign bit.
    pub open spec fn magnitude(self) -> int {
        if self.bits >= SIGN_BIT {
            self.bits - SIGN_BIT
        } else {
            self.bits as int
        }
    }

    /// Whether the sign bit is set.
    pub open spec fn negative(self) -> bool {
        self.bits >= SIGN_BIT
    }

    /// Whether the pattern denotes no number.
    pub open spec fn nan(self) -> bool {
        self.magnitude() > INFINITY_BITS
    }

    /// The place of the value on the number line: patterns of numbers are
    /// ordered as their keys are, and both zeros share the key 0.
    pub open spec fn key(self) -> int {
        if self.negative() {
            -self.magnitude()
        } else {
            self.magnitude()
        }
    }

    /// IEEE-754 `<`: false as soon as one side is a NaN.
    pub open spec fn lt_spec(self, other: Scalar) -> bool {
        !self.nan() && !other.nan() && self.key() < other.key()
    }

    /// IEEE-754 `<=`: false as soon as one side is a NaN.
    pub open spec fn le_spec(self, other: Scalar) -> bool {
        !self.nan() && !other.nan() && self.key() <= other.key()
    }

    /// The smaller of two values; a NaN gives way to the other operand, and
    /// of two equal values the first is kept.
    pub open spec fn min_spec(self, other: Scalar) -> Scalar {
        if other.nan() {
            self
        } else if self.nan() {
            other
        } else if other.key() < self.key() {
            other
        } else {
            self
        }
    }

    /// The larger of two values; a NaN gives way to the other operand, and
    /// of two equal values the first is kept.
    pub open spec fn max_spec(self, other: Scalar) -> Scalar {
        if other.nan() {
            self
        } else if self.nan() {
            other
        } else if other.key() > self.key() {
            other
        } else {
            self
        }
    }

    /// The pattern with its sign bit flipped.
    pub open spec fn neg_spec(self) -> Scalar {
        if self.bits >= SIGN_BIT {
            Scalar { bits: (self.bits - SIGN_BIT) as u32 }
        } else {
            Scalar { bits: (self.bits + SIGN_BIT) as u32 }
        }
    }

    pub fn from_bits(bits: u32) -> (s: Scalar)
        ensures
            s.bits == bits,
    {
        Scalar { bits }
    }

    pub fn to_bits(self) -> (bits: u32)
        ensures
            bits == self.bits,
    {
        self.bits
    }

    /// Positive zero.
    pub fn zero() -> (s: Scalar)
        ensures
            s.bits == 0,
    {
        Scalar { bits: 0 }
    }

    /// The value `1.0`.
    pub fn one() -> (s: Scalar)
        ensures
            s.bits == ONE_BITS,
    {
        Scalar { bits: ONE_BITS }
    }

    /// Positive infinity.
    pub fn infinity() -> (s: Scalar)
        ensures
            s.bits == INFINITY_BITS,
    {
        Scalar { bits: INFINITY_BITS }
    }

    fn magnitude_bits(self) -> (m: u32)
        ensures
            m == self.magnitude(),
    {
        if self.bits >= SIGN_BIT {
            self.bits - SIGN_BIT
        } else {
            self.bits
        }
    }

    pub fn is_nan(self) -> (b: bool)
        ensures
            b == self.nan(),
    {
        self.magnitude_bits() > INFINITY_BITS
    }

    fn key_value(self) -> (k: i64)
        ensures
            k == self.key(),
    {
        let m: i64 = self.magnitude_bits() as i64;
        if self.bits >= SIGN_BIT {
            -m
        } else {
            m
        }
    }

    pub fn lt(self, other: Scalar) -> (b: bool)
        ensures
            b == self.lt_spec(other),
    {
        !self.is_nan() && !other.is_nan() && self.key_value() < other.key_value()
    }

    pub fn le(self, other: Scalar) -> (b: bool)
        ensures
            b == self.le_spec(other),
    {
        !self.is_nan() && !other.is_nan() && self.key_value() <= other.key_value()
    }

    pub fn gt(self, other: Scalar) -> (b: bool)
        ensures
            b == other.lt_spec(self),
    {
        other.lt(self)
    }

    pub fn min(self, other: Scalar) -> (m: Scalar)
        ensures
            m == self.min_spec(other),
    {
        if other.is_nan() {
            self
        } else if self.is_nan() {
            other
        } else if other.key_value() < self.key_value() {
            other
        } else {
            self
        }
    }

    pub fn max(self, other: Scalar) -> (m: Scalar)
        ensures
            m == self.max_spec(other),
    {
        if other.is_nan() {
            self
        } else if self.is_nan() {
            other
        } else if other.key_value() > self.key_value() {
            other
        } else {
            self
        }
    }

    pub fn neg(self) -> (n: Scalar)
        ensures
            n == self.neg_spec(),
    {
        if self.bits >= SIGN_BIT {
            Scalar { bits: self.bits - SIGN_BIT }
        } else {
            Scalar { bits: self.bits + SIGN_BIT }
        }
    }

    /// Negation mirrors the number line and undoes itself.
    pub proof fn lemma_neg(self)
        ensures
            self.neg_spec().neg_spec() == self,
            self.neg_spec().nan() == self.nan(),
            self.neg_spec().key() == -self.key(),
    {
    }

    /// `<` is a strict order on the values that are numbers.
    pub proof fn lemma_lt_strict_order(a: Scalar, b: Scalar, c: Scalar)
        ensures
            !a.lt_spec(a),
            a.lt_spec(b) && b.lt_spec(c) ==> a.lt_spec(c),
            a.lt_spec(b) ==> !b.lt_spec(a),
            !a.nan() && !b.nan() ==> (a.lt_spec(b) || b.le_spec(a)),
    {
    }

    /// The minimum and maximum of two numbers are bounds of both, and each
    /// is one of the two.
    pub proof fn lemma_min_max(a: Scalar, b: Scalar)
        requires
            !a.nan(),
            !b.nan(),
        ensures
            a.min_spec(b).le_spec(a),
            a.min_spec(b).le_spec(b),
            a.le_spec(a.max_spec(b)),
            b.le_spec(a.max_spec(b)),
            a.min_spec(b) == a || a.min_spec(b) == b,
            a.max_spec(b) == a || a.max_spec(b) == b,
    {
    }
}

} // verus!
