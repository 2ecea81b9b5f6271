//! The four-limb number.
//!
//! A `Quad` stands for the exact sum of its four limbs. It is normalized
//! where each limb is so small beside the one before it that adding the two
//! would give the first one back. Sign, zero, infinity and NaN are read off
//! the limbs: a NaN or an infinity has it in its leading limb, and a zero
//! has all four limbs zero.

use crate::limb::{inf_limb, nan_limb, with_sign, zero_limb, Limb, INF_BITS, NAN_BITS, ONE_BITS};
use crate::limb_add::{absorbs, negated};
use crate::limb_order::{equal, less};
use crate::renorm::{pz, renorm4, renorm4_of};
use vstd::prelude::*;

verus! {

/// A number held as the unevaluated sum of four limbs.
#[derive(Clone, Copy, Debug)]
pub struct Quad(pub Limb, pub Limb, pub Limb, pub Limb);

/// The number with the given leading limb and nothing else.
pub open spec fn lead(a: Limb) -> Quad {
    Quad(a, pz(), pz(), pz())
}

/// The number with the given limbs.
pub open spec fn quad_of(t: (Limb, Limb, Limb, Limb)) -> Quad {
    Quad(t.0, t.1, t.2, t.3)
}

/// The number with the given patterns as its limbs.
pub open spec fn quad_bits(b: [u64; 4]) -> Quad {
    Quad(Limb { bits: b[0] }, Limb { bits: b[1] }, Limb { bits: b[2] }, Limb { bits: b[3] })
}

/// The number with every limb negated.
pub open spec fn quad_negated(a: Quad) -> Quad {
    Quad(negated(a.0), negated(a.1), negated(a.2), negated(a.3))
}

/// The number itself where its sign bit is clear, else its negation.
pub open spec fn quad_abs(a: Quad) -> Quad {
    if a.negative() {
        quad_negated(a)
    } else {
        a
    }
}

/// `a` is below `b`: neither is a NaN, and the limbs of `a` come before
/// those of `b`, the leading limb counting first.
pub open spec fn quad_less(a: Quad, b: Quad) -> bool {
    !a.nan() && !b.nan() && (less(a.0, b.0) || (equal(a.0, b.0) && (less(a.1, b.1) || (equal(
        a.1,
        b.1,
    ) && (less(a.2, b.2) || (equal(a.2, b.2) && less(a.3, b.3)))))))
}

/// `a` and `b` are the same number, limb by limb.
pub open spec fn quad_equal(a: Quad, b: Quad) -> bool {
    equal(a.0, b.0) && equal(a.1, b.1) && equal(a.2, b.2) && equal(a.3, b.3)
}

impl Quad {
    /// The leading limb is a NaN.
    pub open spec fn nan(self) -> bool {
        self.0.nan()
    }

    /// The leading limb is infinite.
    pub open spec fn infinite(self) -> bool {
        self.0.infinite()
    }

    /// The leading limb is finite.
    pub open spec fn finite(self) -> bool {
        self.0.finite()
    }

    /// All four limbs are zero.
    pub open spec fn zero(self) -> bool {
        self.0.zero() && self.1.zero() && self.2.zero() && self.3.zero()
    }

    /// The sign bit of the leading limb is set.
    pub open spec fn negative(self) -> bool {
        self.0.negative()
    }

    /// Every limb is finite, and each limb after the first is absorbed by
    /// the one before it. A zero limb is followed by zeros only, since a
    /// zero absorbs nothing else.
    pub open spec fn normalized(self) -> bool {
        &&& self.0.finite() && self.1.finite() && self.2.finite() && self.3.finite()
        &&& absorbs(self.0, self.1)
        &&& absorbs(self.1, self.2)
        &&& absorbs(self.2, self.3)
    }

    /// The number in units of 2^-1074, where all its limbs are finite.
    pub open spec fn value(self) -> int {
        self.0.value() + self.1.value() + self.2.value() + self.3.value()
    }

    /// The number with the given limbs, taken as they are. Arithmetic on it
    /// is meaningful only where the limbs are normalized.
    pub fn raw(a: Limb, b: Limb, c: Limb, d: Limb) -> (r: Quad)
        ensures
            r == Quad(a, b, c, d),
    {
        Quad(a, b, c, d)
    }

    /// The number with the given limbs, renormalized.
    pub fn new(a: Limb, b: Limb, c: Limb, d: Limb) -> (r: Quad)
        ensures
            r == quad_of(renorm4_of(a, b, c, d)),
    {
        let (s0, s1, s2, s3) = renorm4(a, b, c, d);
        Quad(s0, s1, s2, s3)
    }

    /// The number with the given patterns as its limbs, taken as they are.
    pub fn from_bits(b: [u64; 4]) -> (r: Quad)
        ensures
            r == quad_bits(b),
    {
        Quad(Limb { bits: b[0] }, Limb { bits: b[1] }, Limb { bits: b[2] }, Limb { bits: b[3] })
    }

    /// The number that is the given limb.
    pub fn from_limb(a: Limb) -> (r: Quad)
        ensures
            r == lead(a),
    {
        Quad(a, Limb { bits: 0 }, Limb { bits: 0 }, Limb { bits: 0 })
    }

    /// The NaN that operations return.
    pub fn nan_value() -> (r: Quad)
        ensures
            r == lead(nan_limb()),
    {
        Quad::from_limb(Limb { bits: NAN_BITS })
    }

    /// Infinity of the given sign.
    pub fn infinity(negative: bool) -> (r: Quad)
        ensures
            r == lead(inf_limb(negative)),
    {
        Quad::from_limb(with_sign(negative, INF_BITS))
    }

    /// Zero of the given sign.
    pub fn zero_value(negative: bool) -> (r: Quad)
        ensures
            r == lead(zero_limb(negative)),
    {
        Quad::from_limb(with_sign(negative, 0))
    }

    /// One.
    pub fn one() -> (r: Quad)
        ensures
            r == lead(Limb { bits: ONE_BITS }),
    {
        Quad::from_limb(Limb { bits: ONE_BITS })
    }

    /// The number is a NaN.
    pub fn is_nan(self) -> (r: bool)
        ensures
            r == self.nan(),
    {
        self.0.is_nan()
    }

    /// The number is an infinity.
    pub fn is_infinite(self) -> (r: bool)
        ensures
            r == self.infinite(),
    {
        self.0.is_infinite()
    }

    /// The number is neither a NaN nor an infinity.
    pub fn is_finite(self) -> (r: bool)
        ensures
            r == self.finite(),
    {
        self.0.is_finite()
    }

    /// The number is a zero of either sign.
    pub fn is_zero(self) -> (r: bool)
        ensures
            r == self.zero(),
    {
        self.0.is_zero() && self.1.is_zero() && self.2.is_zero() && self.3.is_zero()
    }

    /// The sign bit is set, as it is of the negative zero too.
    pub fn is_sign_negative(self) -> (r: bool)
        ensures
            r == self.negative(),
    {
        self.0.is_sign_negative()
    }

    /// The sign bit is clear, as it is of the positive zero too.
    pub fn is_sign_positive(self) -> (r: bool)
        ensures
            r == !self.negative(),
    {
        !self.0.is_sign_negative()
    }

    /// The number with every limb negated.
    pub fn neg(self) -> (r: Quad)
        ensures
            r == quad_negated(self),
    {
        Quad(self.0.neg(), self.1.neg(), self.2.neg(), self.3.neg())
    }

    /// The number itself where its sign bit is clear, else its negation.
    pub fn abs(self) -> (r: Quad)
        ensures
            r == quad_abs(self),
    {
        if self.is_sign_negative() {
            self.neg()
        } else {
            self
        }
    }

    /// The number is below `other`. Nothing is below or above a NaN.
    pub fn lt(self, other: Quad) -> (r: bool)
        ensures
            r == quad_less(self, other),
    {
        if self.is_nan() || other.is_nan() {
            return false;
        }
        if self.0.lt(other.0) {
            return true;
        }
        if !self.0.equals(other.0) {
            return false;
        }
        if self.1.lt(other.1) {
            return true;
        }
        if !self.1.equals(other.1) {
            return false;
        }
        if self.2.lt(other.2) {
            return true;
        }
        if !self.2.equals(other.2) {
            return false;
        }
        self.3.lt(other.3)
    }

    /// The number is above `other`. Nothing is below or above a NaN.
    pub fn gt(self, other: Quad) -> (r: bool)
        ensures
            r == quad_less(other, self),
    {
        other.lt(self)
    }

    /// The number is below `other` or equal to it.
    pub fn le(self, other: Quad) -> (r: bool)
        ensures
            r == (quad_less(self, other) || quad_equal(self, other)),
    {
        self.lt(other) || self.equals(other)
    }

    /// The number is above `other` or equal to it.
    pub fn ge(self, other: Quad) -> (r: bool)
        ensures
            r == (quad_less(other, self) || quad_equal(self, other)),
    {
        other.lt(self) || self.equals(other)
    }

    /// The two numbers are the same, limb by limb.
    pub fn equals(self, other: Quad) -> (r: bool)
        ensures
            r == quad_equal(self, other),
    {
        self.0.equals(other.0) && self.1.equals(other.1) && self.2.equals(other.2)
            && self.3.equals(other.3)
    }
}

} // verus!
