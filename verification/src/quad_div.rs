//! Division of four-limb numbers.

use crate::limb::{inf_limb, nan_limb, zero_limb, Limb};
use crate::limb_div::quotient;
use crate::quad::{lead, quad_of, Quad};
use crate::quad_add::quad_difference;
use crate::quad_mul::scaled;
use crate::renorm::{renorm5, renorm5_of};
use vstd::prelude::*;

verus! {

/// What is left of `r` once `q` times the divisor `d` is taken from it.
pub open spec fn remainder_after(r: Quad, d: Quad, q: Limb) -> Quad {
    quad_difference(r, scaled(d, q))
}

/// The quotient of two finite numbers, the divisor not zero: five quotient
/// limbs are found one after the other, each by dividing the leading limb of
/// what is left by the leading limb of the divisor, and are renormalized.
pub open spec fn long_quotient(a: Quad, b: Quad) -> Quad {
    let q0 = quotient(a.0, b.0);
    let r = remainder_after(a, b, q0);
    let q1 = quotient(r.0, b.0);
    let r = remainder_after(r, b, q1);
    let q2 = quotient(r.0, b.0);
    let r = remainder_after(r, b, q2);
    let q3 = quotient(r.0, b.0);
    let r = remainder_after(r, b, q3);
    let q4 = quotient(r.0, b.0);
    quad_of(renorm5_of(q0, q1, q2, q3, q4))
}

/// The quotient of two numbers. A NaN gives a NaN, and so do zero by zero
/// and infinity by infinity. Otherwise a zero divisor or an infinite
/// dividend gives an infinity, and an infinite divisor gives a zero, negative
/// where the signs of the two numbers differ.
pub open spec fn quad_quotient(a: Quad, b: Quad) -> Quad {
    let negative = a.negative() != b.negative();
    if a.nan() || b.nan() {
        lead(nan_limb())
    } else if b.zero() {
        if a.zero() {
            lead(nan_limb())
        } else {
            lead(inf_limb(negative))
        }
    } else if a.infinite() {
        if b.infinite() {
            lead(nan_limb())
        } else {
            lead(inf_limb(negative))
        }
    } else if b.infinite() {
        lead(zero_limb(negative))
    } else {
        long_quotient(a, b)
    }
}

impl Quad {
    /// The quotient.
    pub fn div(self, other: Quad) -> (r: Quad)
        ensures
            r == quad_quotient(self, other),
    {
        if self.is_nan() || other.is_nan() {
            Quad::nan_value()
        } else if other.is_zero() {
            if self.is_zero() {
                Quad::nan_value()
            } else if self.is_sign_negative() == other.is_sign_positive() {
                Quad::infinity(true)
            } else {
                Quad::infinity(false)
            }
        } else if self.is_infinite() {
            if other.is_infinite() {
                Quad::nan_value()
            } else if self.is_sign_positive() == other.is_sign_positive() {
                Quad::infinity(false)
            } else {
                Quad::infinity(true)
            }
        } else if other.is_infinite() {
            if self.is_sign_positive() == other.is_sign_positive() {
                Quad::zero_value(false)
            } else {
                Quad::zero_value(true)
            }
        } else {
            let q0 = self.0.div(other.0);
            let mut r = self.sub(other.mul_limb(q0));
            let q1 = r.0.div(other.0);
            r.sub_assign(other.mul_limb(q1));
            let q2 = r.0.div(other.0);
            r.sub_assign(other.mul_limb(q2));
            let q3 = r.0.div(other.0);
            r.sub_assign(other.mul_limb(q3));
            let q4 = r.0.div(other.0);
            let (r0, r1, r2, r3) = renorm5(q0, q1, q2, q3, q4);
            Quad(r0, r1, r2, r3)
        }
    }

    /// Divides the number by `other` in place.
    pub fn div_assign(&mut self, other: Quad)
        ensures
            *final(self) == quad_quotient(*old(self), other),
    {
        *self = self.div(other);
    }

    /// One divided by the number.
    pub fn recip(self) -> (r: Quad)
        ensures
            r == quad_quotient(lead(Limb { bits: crate::limb::ONE_BITS }), self),
    {
        Quad::one().div(self)
    }
}

} // verus!
