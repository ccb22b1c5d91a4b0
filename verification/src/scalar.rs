//! Scalars by their bit patterns.
//!
//! A `Scalar` is a 32-bit IEEE 754 number, held as its 32 bits: the sign
//! bit, eight bits of exponent and 23 bits of fraction. The library orders
//! scalars and chooses among them; it adds and multiplies none.

use vstd::prelude::*;

verus! {

/// The sign bit.
pub const SIGN: u32 = 0x8000_0000;

/// The bits of positive infinity: every larger magnitude is not a number.
pub const INFINITE: u32 = 0x7f80_0000;

/// A 32-bit IEEE 754 number, by its bits. Two scalars are equal when their
/// bits are; the order of the numbers is `lt` and `le`, under which the two
/// zeros stand alike and what is not a number stands nowhere.
#[derive(Debug, Copy, Clone, PartialEq, Eq, Structural)]
pub struct Scalar {
    pub bits: u32,
}

impl Scalar {
    /// The bits without the sign bit.
    pub open spec fn magnitude(self) -> int {
        if self.bits >= SIGN {
            self.bits - SIGN
        } else {
            self.bits as int
        }
    }

    /// Whether the sign bit is set.
    pub open spec fn is_negative(self) -> bool {
        self.bits >= SIGN
    }

    /// Whether this is not a number.
    pub open spec fn is_nan(self) -> bool {
        self.magnitude() > INFINITE
    }

    /// Where the number stands among the numbers: a number is smaller than
    /// another exactly when its rank is. The two zeros share rank 0.
    pub open spec fn rank(self) -> int {
        if self.is_negative() {
            -self.magnitude()
        } else {
            self.magnitude()
        }
    }

    /// Where the bits stand in the total order of all bit patterns: as
    /// `rank`, but with the negative zero before the positive one, and with
    /// what is not a number beyond the infinities.
    pub open spec fn key(self) -> int {
        if self.is_negative() {
            -self.magnitude() - 1
        } else {
            self.magnitude()
        }
    }

    /// `self < other` as numbers: false where either is not a number.
    pub open spec fn lt(self, other: Scalar) -> bool {
        !self.is_nan() && !other.is_nan() && self.rank() < other.rank()
    }

    /// `self <= other` as numbers: false where either is not a number.
    pub open spec fn le(self, other: Scalar) -> bool {
        !self.is_nan() && !other.is_nan() && self.rank() <= other.rank()
    }

    /// The smaller of two numbers; the one that is a number where the other
    /// is not; the negative zero of two zeros.
    pub open spec fn min_of(self, other: Scalar) -> Scalar {
        if other.is_nan() {
            self
        } else if self.is_nan() {
            other
        } else if other.key() < self.key() {
            other
        } else {
            self
        }
    }

    /// The larger of two numbers; the one that is a number where the other
    /// is not; the positive zero of two zeros.
    pub open spec fn max_of(self, other: Scalar) -> Scalar {
        if other.is_nan() {
            self
        } else if self.is_nan() {
            other
        } else if other.key() > self.key() {
            other
        } else {
            self
        }
    }

    /// The number with the sign bit cleared.
    pub open spec fn abs_of(self) -> Scalar {
        Scalar { bits: self.magnitude() as u32 }
    }

    /// The number with the other sign.
    pub open spec fn neg_of(self) -> Scalar {
        Scalar {
            bits: if self.bits >= SIGN {
                (self.bits - SIGN) as u32
            } else {
                (self.bits + SIGN) as u32
            },
        }
    }

    /// The number moved into the range from zero to one: one where it is
    /// larger or not a number, and zero where it is smaller.
    pub open spec fn saturated(self) -> Scalar {
        self.min_of(Scalar::one_spec()).max_of(Scalar::zero_spec())
    }

    /// Zero.
    pub open spec fn zero_spec() -> Scalar {
        Scalar { bits: 0 }
    }

    /// One.
    pub open spec fn one_spec() -> Scalar {
        Scalar { bits: 0x3f80_0000 }
    }

    /// Positive infinity.
    pub open spec fn infinity_spec() -> Scalar {
        Scalar { bits: INFINITE }
    }

    /// Negative infinity.
    pub open spec fn neg_infinity_spec() -> Scalar {
        Scalar { bits: 0xff80_0000 }
    }

    /// The scalar with these bits.
    pub fn from_bits(bits: u32) -> (s: Scalar)
        ensures
            s.bits == bits,
    {
        Scalar { bits }
    }

    /// The bits of the scalar.
    pub fn to_bits(self) -> (bits: u32)
        ensures
            bits == self.bits,
    {
        self.bits
    }

    /// Zero.
    pub fn zero() -> (s: Scalar)
        ensures
            s == Scalar::zero_spec(),
    {
        Scalar { bits: 0 }
    }

    /// One.
    pub fn one() -> (s: Scalar)
        ensures
            s == Scalar::one_spec(),
    {
        Scalar { bits: 0x3f80_0000 }
    }

    /// Positive infinity.
    pub fn infinity() -> (s: Scalar)
        ensures
            s == Scalar::infinity_spec(),
    {
        Scalar { bits: INFINITE }
    }

    /// Negative infinity.
    pub fn neg_infinity() -> (s: Scalar)
        ensures
            s == Scalar::neg_infinity_spec(),
    {
        Scalar { bits: 0xff80_0000 }
    }

    /// Whether this is not a number.
    pub fn nan(self) -> (r: bool)
        ensures
            r == self.is_nan(),
    {
        let magnitude = if self.bits >= SIGN {
            self.bits - SIGN
        } else {
            self.bits
        };
        magnitude > INFINITE
    }

    /// The place of the bits in the total order.
    pub fn sort_key(self) -> (k: i64)
        ensures
            k == self.key(),
    {
        if self.bits >= SIGN {
            -((self.bits - SIGN) as i64) - 1
        } else {
            self.bits as i64
        }
    }

    /// The place of the number among the numbers.
    fn value_rank(self) -> (k: i64)
        ensures
            k == self.rank(),
    {
        if self.bits >= SIGN {
            -((self.bits - SIGN) as i64)
        } else {
            self.bits as i64
        }
    }

    /// `self < other` as numbers.
    pub fn less_than(self, other: Scalar) -> (r: bool)
        ensures
            r == self.lt(other),
    {
        !self.nan() && !other.nan() && self.value_rank() < other.value_rank()
    }

    /// `self <= other` as numbers.
    pub fn at_most(self, other: Scalar) -> (r: bool)
        ensures
            r == self.le(other),
    {
        !self.nan() && !other.nan() && self.value_rank() <= other.value_rank()
    }

    /// The smaller of two numbers.
    pub fn min(self, other: Scalar) -> (r: Scalar)
        ensures
            r == self.min_of(other),
    {
        if other.nan() {
            self
        } else if self.nan() {
            other
        } else if other.sort_key() < self.sort_key() {
            other
        } else {
            self
        }
    }

    /// The larger of two numbers.
    pub fn max(self, other: Scalar) -> (r: Scalar)
        ensures
            r == self.max_of(other),
    {
        if other.nan() {
            self
        } else if self.nan() {
            other
        } else if other.sort_key() > self.sort_key() {
            other
        } else {
            self
        }
    }

    /// The number with the other sign.
    pub fn neg(self) -> (r: Scalar)
        ensures
            r == self.neg_of(),
    {
        Scalar {
            bits: if self.bits >= SIGN {
                self.bits - SIGN
            } else {
                self.bits + SIGN
            },
        }
    }

    /// The number moved into the range from zero to one.
    pub fn saturate(self) -> (r: Scalar)
        ensures
            r == self.saturated(),
    {
        self.min(Scalar::one()).max(Scalar::zero())
    }

    /// The number without its sign.
    pub fn abs(self) -> (r: Scalar)
        ensures
            r == self.abs_of(),
    {
        Scalar {
            bits: if self.bits >= SIGN {
                self.bits - SIGN
            } else {
                self.bits
            },
        }
    }
}

/// Two scalars with the same key have the same bits.
pub proof fn lemma_key_decides(a: Scalar, b: Scalar)
    requires
        a.key() == b.key(),
    ensures
        a == b,
{
}

/// The smaller of a scalar and itself is the scalar, and so is the larger.
pub proof fn lemma_min_max_idempotent(a: Scalar)
    ensures
        a.min_of(a) == a,
        a.max_of(a) == a,
{
}

/// Where both are numbers, the smaller and the larger of two scalars do not
/// depend on their order.
pub proof fn lemma_min_max_commutative(a: Scalar, b: Scalar)
    requires
        !a.is_nan(),
        !b.is_nan(),
    ensures
        a.min_of(b) == b.min_of(a),
        a.max_of(b) == b.max_of(a),
{
    if a.key() == b.key() {
        lemma_key_decides(a, b);
    }
}

/// A saturated number lies between zero and one, and a number that lies
/// there is left as it is.
pub proof fn lemma_saturated(a: Scalar)
    ensures
        Scalar::zero_spec().le(a.saturated()),
        a.saturated().le(Scalar::one_spec()),
        Scalar::zero_spec().le(a) && a.le(Scalar::one_spec()) && a.bits != SIGN
            ==> a.saturated() == a,
{
}

/// Changing the sign twice gives the number back, and changes the rank to
/// its opposite.
pub proof fn lemma_neg(a: Scalar)
    ensures
        a.neg_of().neg_of() == a,
        a.neg_of().rank() == -a.rank(),
        a.neg_of().is_nan() == a.is_nan(),
{
}

/// The smaller of two numbers is at most each of them, the larger at least
/// each, and both are among the two.
pub proof fn lemma_min_max_bounds(a: Scalar, b: Scalar)
    requires
        !a.is_nan(),
        !b.is_nan(),
    ensures
        a.min_of(b).le(a),
        a.min_of(b).le(b),
        a.le(a.max_of(b)),
        b.le(a.max_of(b)),
        a.min_of(b) == a || a.min_of(b) == b,
        a.max_of(b) == a || a.max_of(b) == b,
{
}

} // verus!
