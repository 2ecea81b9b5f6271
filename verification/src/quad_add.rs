//! Addition and subtraction of four-limb numbers.

use crate::eft::{three_three_sum, three_three_sum_of, three_two_sum, three_two_sum_of, two_sum, two_sum_of};
use crate::limb::{inf_limb, nan_limb, zero_limb};
use crate::limb_add::sum;
use crate::quad::{lead, quad_negated, quad_of, Quad};
use crate::renorm::{renorm5, renorm5_of};
use vstd::prelude::*;

verus! {

/// The sum of two finite numbers: the limbs are summed in pairs, the errors
/// are carried down, and the five raw limbs are renormalized.
pub open spec fn pairwise_sum(a: Quad, b: Quad) -> Quad {
    let (s0, t0) = two_sum_of(a.0, b.0);
    let (s1, t1) = two_sum_of(a.1, b.1);
    let (s2, t2) = two_sum_of(a.2, b.2);
    let (s3, t3) = two_sum_of(a.3, b.3);
    let (s1, t0) = two_sum_of(s1, t0);
    let (s2, t0, t1) = three_three_sum_of(s2, t0, t1);
    let (s3, t0) = three_two_sum_of(s3, t0, t2);
    let t0 = sum(sum(t0, t1), t3);
    quad_of(renorm5_of(s0, s1, s2, s3, t0))
}

/// The sum of two numbers. A NaN gives a NaN; infinities of opposite sign
/// give a NaN, and an infinity otherwise gives itself; two zeros give the
/// negative zero only where both are negative; one zero gives the other
/// number unchanged.
pub open spec fn quad_sum(a: Quad, b: Quad) -> Quad {
    if a.nan() || b.nan() {
        lead(nan_limb())
    } else if a.infinite() {
        if b.infinite() && a.negative() != b.negative() {
            lead(nan_limb())
        } else {
            lead(inf_limb(a.negative()))
        }
    } else if b.infinite() {
        lead(inf_limb(b.negative()))
    } else if a.zero() && b.zero() {
        lead(zero_limb(a.negative() && b.negative()))
    } else if b.zero() {
        a
    } else if a.zero() {
        b
    } else {
        pairwise_sum(a, b)
    }
}

/// The difference of two numbers.
pub open spec fn quad_difference(a: Quad, b: Quad) -> Quad {
    quad_sum(a, quad_negated(b))
}

impl Quad {
    /// The sum.
    pub fn add(self, other: Quad) -> (r: Quad)
        ensures
            r == quad_sum(self, other),
    {
        if self.is_nan() || other.is_nan() {
            return Quad::nan_value();
        }
        if self.is_infinite() {
            if other.is_infinite() && self.is_sign_negative() != other.is_sign_negative() {
                return Quad::nan_value();
            }
            return Quad::infinity(self.is_sign_negative());
        }
        if other.is_infinite() {
            return Quad::infinity(other.is_sign_negative());
        }
        let za: bool = self.is_zero();
        let zb: bool = other.is_zero();
        if za && zb {
            return Quad::zero_value(self.is_sign_negative() && other.is_sign_negative());
        }
        if zb {
            return self;
        }
        if za {
            return other;
        }
        let (s0, t0) = two_sum(self.0, other.0);
        let (s1, t1) = two_sum(self.1, other.1);
        let (s2, t2) = two_sum(self.2, other.2);
        let (s3, t3) = two_sum(self.3, other.3);
        let (s1, t0) = two_sum(s1, t0);
        let (s2, t0, t1) = three_three_sum(s2, t0, t1);
        let (s3, t0) = three_two_sum(s3, t0, t2);
        let t0 = t0.add(t1).add(t3);
        let (r0, r1, r2, r3) = renorm5(s0, s1, s2, s3, t0);
        Quad(r0, r1, r2, r3)
    }

    /// The difference.
    pub fn sub(self, other: Quad) -> (r: Quad)
        ensures
            r == quad_difference(self, other),
    {
        self.add(other.neg())
    }

    /// Adds `other` to the number in place.
    pub fn add_assign(&mut self, other: Quad)
        ensures
            *final(self) == quad_sum(*old(self), other),
    {
        *self = self.add(other);
    }

    /// Takes `other` from the number in place.
    pub fn sub_assign(&mut self, other: Quad)
        ensures
            *final(self) == quad_difference(*old(self), other),
    {
        *self = self.sub(other);
    }
}

} // verus!
