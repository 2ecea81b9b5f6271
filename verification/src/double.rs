//! The two-limb number.
//!
//! A `Double` stands for the exact sum of its two limbs. It is normalized
//! where the second limb is so small beside the first that adding the two
//! would give the first one back. Sign, zero, infinity and NaN are read off
//! the limbs: a NaN or an infinity has it in its leading limb, and a zero
//! has both limbs zero.

use crate::eft::{quick_two_sum, quick_two_sum_of};
use crate::limb::{inf_limb, nan_limb, with_sign, zero_limb, Limb, INF_BITS, NAN_BITS, ONE_BITS};
use crate::limb_add::{absolute, absorbs, negated, sum};
use crate::limb_order::{equal, less};
use crate::renorm::pz;
use vstd::prelude::*;

verus! {

/// A number held as the unevaluated sum of two limbs.
#[derive(Clone, Copy, Debug)]
pub struct Double(pub Limb, pub Limb);

/// The number with the given leading limb and nothing else.
pub open spec fn single(a: Limb) -> Double {
    Double(a, pz())
}

/// The number with the given limbs.
pub open spec fn double_of(t: (Limb, Limb)) -> Double {
    Double(t.0, t.1)
}

/// The number with the given patterns as its limbs.
pub open spec fn double_bits(b: [u64; 2]) -> Double {
    Double(Limb { bits: b[0] }, Limb { bits: b[1] })
}

/// The number that two limbs normalize to: the rounded sum of the two and
/// its error, the limb of larger magnitude taken first.
pub open spec fn normalized_pair(a: Limb, b: Limb) -> Double {
    if less(absolute(b), absolute(a)) {
        double_of(quick_two_sum_of(a, b))
    } else {
        double_of(quick_two_sum_of(b, a))
    }
}

/// The number with both limbs negated.
pub open spec fn double_negated(a: Double) -> Double {
    Double(negated(a.0), negated(a.1))
}

/// The number itself where its sign bit is clear, else its negation.
pub open spec fn double_abs(a: Double) -> Double {
    if a.negative() {
        double_negated(a)
    } else {
        a
    }
}

/// `a` is below `b`: neither is a NaN, and the limbs of `a` come before
/// those of `b`, the leading limb counting first.
pub open spec fn double_less(a: Double, b: Double) -> bool {
    !a.nan() && !b.nan() && (less(a.0, b.0) || (equal(a.0, b.0) && less(a.1, b.1)))
}

/// `a` and `b` are the same number, limb by limb.
pub open spec fn double_equal(a: Double, b: Double) -> bool {
    equal(a.0, b.0) && equal(a.1, b.1)
}

impl Double {
    /// The leading limb is a NaN.
    pub open spec fn nan(self) -> bool {
        self.0.nan()
    }

    /// The leading limb is infinite.
    pub open spec fn infinite(self) -> bool {
        self.0.infinite()
    }

    /// The leading limb is finite.
    pub open spec fn finite(self) -> bool {
        self.0.finite()
    }

    /// Both limbs are zero.
    pub open spec fn zero(self) -> bool {
        self.0.zero() && self.1.zero()
    }

    /// The sign bit of the leading limb is set.
    pub open spec fn negative(self) -> bool {
        self.0.negative()
    }

    /// Both limbs are finite, and the second is absorbed by the first.
    pub open spec fn normalized(self) -> bool {
        self.0.finite() && self.1.finite() && absorbs(self.0, self.1)
    }

    /// The number is normalized, or it is a NaN or an infinity with a
    /// positive zero after it. This is what arithmetic returns.
    pub open spec fn canonical(self) -> bool {
        self.normalized() || (!self.0.finite() && self.1 == pz())
    }

    /// The number in units of 2^-1074, where both its limbs are finite.
    pub open spec fn value(self) -> int {
        self.0.value() + self.1.value()
    }

    /// The number with the given limbs, taken as they are. Arithmetic on it
    /// is meaningful only where the limbs are normalized.
    pub fn raw(a: Limb, b: Limb) -> (r: Double)
        ensures
            r == Double(a, b),
    {
        Double(a, b)
    }

    /// The number with the given limbs, normalized. The limbs are taken to
    /// be exactly what is meant: nothing is done to them but the
    /// normalization.
    pub fn new(a: Limb, b: Limb) -> (r: Double)
        ensures
            r == normalized_pair(a, b),
            a.finite() && b.finite() && sum(a, b).finite() ==> r.normalized() && r.value()
                == a.value() + b.value(),
    {
        proof {
            if a.finite() && b.finite() && sum(a, b).finite() {
                crate::eft_laws::lemma_sum_commutes(a, b);
                if b.abs_bits() < a.abs_bits() {
                    crate::eft_laws::law_quick_two_sum_exact(a, b);
                    crate::eft_laws::law_quick_two_sum_normalizes(a, b);
                } else {
                    crate::eft_laws::law_quick_two_sum_exact(b, a);
                    crate::eft_laws::law_quick_two_sum_normalizes(b, a);
                }
            }
        }
        let (s, e) = if a.abs().gt(b.abs()) {
            quick_two_sum(a, b)
        } else {
            quick_two_sum(b, a)
        };
        Double(s, e)
    }

    /// The number with the given patterns as its limbs, taken as they are.
    pub fn from_bits(b: [u64; 2]) -> (r: Double)
        ensures
            r == double_bits(b),
    {
        Double(Limb { bits: b[0] }, Limb { bits: b[1] })
    }

    /// The number that is the given limb.
    pub fn from_limb(a: Limb) -> (r: Double)
        ensures
            r == single(a),
    {
        Double(a, Limb { bits: 0 })
    }

    /// The leading limb, which is the limb nearest to the number where the
    /// number is normalized.
    pub fn to_limb(self) -> (r: Limb)
        ensures
            r == self.0,
    {
        self.0
    }

    /// The NaN that operations return.
    pub fn nan_value() -> (r: Double)
        ensures
            r == single(nan_limb()),
    {
        Double::from_limb(Limb { bits: NAN_BITS })
    }

    /// Infinity of the given sign.
    pub fn infinity(negative: bool) -> (r: Double)
        ensures
            r == single(inf_limb(negative)),
    {
        Double::from_limb(with_sign(negative, INF_BITS))
    }

    /// Zero of the given sign.
    pub fn zero_value(negative: bool) -> (r: Double)
        ensures
            r == single(zero_limb(negative)),
    {
        Double::from_limb(with_sign(negative, 0))
    }

    /// One.
    pub fn one() -> (r: Double)
        ensures
            r == single(Limb { bits: ONE_BITS }),
    {
        Double::from_limb(Limb { bits: ONE_BITS })
    }

    /// The number is a NaN.
    pub fn is_nan(self) -> (r: bool)
        ensures
            r == self.nan(),
    {
        self.0.is_nan()
    }

    /// The number is an infinity.
    pub fn is_infinite(self) -> (r: bool)
        ensures
            r == self.infinite(),
    {
        self.0.is_infinite()
    }

    /// The number is neither a NaN nor an infinity.
    pub fn is_finite(self) -> (r: bool)
        ensures
            r == self.finite(),
    {
        self.0.is_finite()
    }

    /// The number is a zero of either sign.
    pub fn is_zero(self) -> (r: bool)
        ensures
            r == self.zero(),
    {
        self.0.is_zero() && self.1.is_zero()
    }

    /// The sign bit is set, as it is of the negative zero too.
    pub fn is_sign_negative(self) -> (r: bool)
        ensures
            r == self.negative(),
    {
        self.0.is_sign_negative()
    }

    /// The sign bit is clear, as it is of the positive zero too.
    pub fn is_sign_positive(self) -> (r: bool)
        ensures
            r == !self.negative(),
    {
        !self.0.is_sign_negative()
    }

    /// The number with both limbs negated.
    pub fn neg(self) -> (r: Double)
        ensures
            r == double_negated(self),
            self.normalized() ==> r.normalized(),
    {
        proof {
            if self.normalized() {
                crate::limb_laws::lemma_absorbs_negated(self.0, self.1);
                crate::limb_laws::lemma_negated(self.0);
                crate::limb_laws::lemma_negated(self.1);
            }
        }
        Double(self.0.neg(), self.1.neg())
    }

    /// The number itself where its sign bit is clear, else its negation.
    pub fn abs(self) -> (r: Double)
        ensures
            r == double_abs(self),
            self.normalized() ==> r.normalized(),
    {
        if self.is_sign_negative() {
            self.neg()
        } else {
            self
        }
    }

    /// The number is below `other`. Nothing is below or above a NaN.
    pub fn lt(self, other: Double) -> (r: bool)
        ensures
            r == double_less(self, other),
    {
        if self.is_nan() || other.is_nan() {
            return false;
        }
        if self.0.lt(other.0) {
            return true;
        }
        self.0.equals(other.0) && self.1.lt(other.1)
    }

    /// The number is above `other`. Nothing is below or above a NaN.
    pub fn gt(self, other: Double) -> (r: bool)
        ensures
            r == double_less(other, self),
    {
        other.lt(self)
    }

    /// The number is below `other` or equal to it.
    pub fn le(self, other: Double) -> (r: bool)
        ensures
            r == (double_less(self, other) || double_equal(self, other)),
    {
        self.lt(other) || self.equals(other)
    }

    /// The number is above `other` or equal to it.
    pub fn ge(self, other: Double) -> (r: bool)
        ensures
            r == (double_less(other, self) || double_equal(self, other)),
    {
        other.lt(self) || self.equals(other)
    }

    /// The two numbers are the same, limb by limb.
    pub fn equals(self, other: Double) -> (r: bool)
        ensures
            r == double_equal(self, other),
    {
        self.0.equals(other.0) && self.1.equals(other.1)
    }
}

} // verus!
