//! Arithmetic on two-limb numbers.

use crate::double::{double_negated, double_of, single, Double};
use crate::eft::{quick_two_sum, quick_two_sum_of, two_prod, two_prod_of, two_sum, two_sum_of};
use crate::eft_laws::law_two_sum_normalizes;
use crate::limb::{inf_limb, nan_limb, zero_limb, Limb, HALF_BITS, ONE_BITS};
use crate::limb_add::{absolute, difference, sum};
use crate::limb_div::quotient;
use crate::limb_mul::product;
use crate::limb_order::{equal, less};
use crate::limb_sqrt::root;
use crate::limb_whole::nearest_whole;
use crate::renorm::{is_spent, pz, spent};
use vstd::prelude::*;

verus! {

/// The two limbs of an exact sum as a number: the two limbs where the first
/// is finite, and the first alone where it is not.
pub open spec fn settled(t: (Limb, Limb)) -> Double {
    if t.0.finite() {
        Double(t.0, t.1)
    } else {
        single(t.0)
    }
}

/// Three raw limbs brought into two limbs that do not overlap. Where the
/// leading limb is not finite, or comes out of the first pass as an infinity
/// or a NaN, or as a zero with nothing but zeros below it, it alone is the
/// result.
pub open spec fn renorm3_of(a: Limb, b: Limb, c: Limb) -> Double {
    if !a.finite() {
        single(a)
    } else {
        let (x, e) = quick_two_sum_of(b, c);
        let (s0, s1) = quick_two_sum_of(a, x);
        if spent(s0, s1, e, pz(), pz()) {
            single(s0)
        } else {
            settled(two_sum_of(s0, sum(s1, e)))
        }
    }
}

/// The sum of two finite numbers: the limbs are summed in pairs and the raw
/// limbs are renormalized. A sum beyond the range of the limbs is an
/// infinity.
pub open spec fn pairwise_sum(a: Double, b: Double) -> Double {
    let (s0, e0) = two_sum_of(a.0, b.0);
    if !s0.finite() {
        single(s0)
    } else {
        let (s1, e1) = two_sum_of(a.1, b.1);
        let (s0, e0) = quick_two_sum_of(s0, sum(e0, s1));
        settled(two_sum_of(s0, sum(e0, e1)))
    }
}

/// The sum of two numbers. A NaN gives a NaN; infinities of opposite sign
/// give a NaN, and an infinity otherwise gives itself; two zeros give the
/// negative zero only where both are negative; one zero gives the other
/// number unchanged.
pub open spec fn double_sum(a: Double, b: Double) -> Double {
    if a.nan() || b.nan() {
        single(nan_limb())
    } else if a.infinite() {
        if b.infinite() && a.negative() != b.negative() {
            single(nan_limb())
        } else {
            single(inf_limb(a.negative()))
        }
    } else if b.infinite() {
        single(inf_limb(b.negative()))
    } else if a.zero() && b.zero() {
        single(zero_limb(a.negative() && b.negative()))
    } else if b.zero() {
        a
    } else if a.zero() {
        b
    } else {
        pairwise_sum(a, b)
    }
}

/// The difference of two numbers.
pub open spec fn double_difference(a: Double, b: Double) -> Double {
    double_sum(a, double_negated(b))
}

/// The product of two finite numbers that are not zero: the exact product
/// of the leading limbs, with the cross products added to its error. A
/// product beyond the range of the limbs is an infinity.
pub open spec fn long_product(a: Double, b: Double) -> Double {
    let (p, e) = two_prod_of(a.0, b.0);
    if !p.finite() {
        single(p)
    } else {
        settled(two_sum_of(p, sum(e, sum(product(a.0, b.1), product(a.1, b.0)))))
    }
}

/// The product of two numbers. A NaN gives a NaN, and so does zero times
/// infinity; otherwise a zero or an infinity gives a zero or an infinity
/// whose sign is negative where the signs of the two numbers differ.
pub open spec fn double_product(a: Double, b: Double) -> Double {
    let negative = a.negative() != b.negative();
    if a.nan() || b.nan() {
        single(nan_limb())
    } else if a.zero() || b.zero() {
        if a.infinite() || b.infinite() {
            single(nan_limb())
        } else {
            single(zero_limb(negative))
        }
    } else if a.infinite() || b.infinite() {
        single(inf_limb(negative))
    } else {
        long_product(a, b)
    }
}

/// The product of a number and a limb.
pub open spec fn scaled(a: Double, b: Limb) -> Double {
    let (p, e) = two_prod_of(a.0, b);
    if !p.finite() {
        single(p)
    } else {
        settled(two_sum_of(p, sum(e, product(a.1, b))))
    }
}

/// The number with both limbs multiplied by `p`, which is exact where `p`
/// is a power of two and nothing leaves the range of the limbs.
pub open spec fn limbwise_product(a: Double, p: Limb) -> Double {
    Double(product(a.0, p), product(a.1, p))
}

/// What is left of `r` once `q` times the divisor `d` is taken from it.
pub open spec fn remainder_after(r: Double, d: Double, q: Limb) -> Double {
    double_difference(r, scaled(d, q))
}

/// The quotient of two finite numbers, the divisor not zero: three quotient
/// limbs are found one after the other, each by dividing the leading limb of
/// what is left by the leading limb of the divisor, and are renormalized.
pub open spec fn long_quotient(a: Double, b: Double) -> Double {
    let q0 = quotient(a.0, b.0);
    let r = remainder_after(a, b, q0);
    let q1 = quotient(r.0, b.0);
    let r = remainder_after(r, b, q1);
    let q2 = quotient(r.0, b.0);
    renorm3_of(q0, q1, q2)
}

/// The quotient of two numbers. A NaN gives a NaN, and so do zero by zero
/// and infinity by infinity. Otherwise a zero divisor or an infinite
/// dividend gives an infinity, and an infinite divisor gives a zero, negative
/// where the signs of the two numbers differ.
pub open spec fn double_quotient(a: Double, b: Double) -> Double {
    let negative = a.negative() != b.negative();
    if a.nan() || b.nan() {
        single(nan_limb())
    } else if b.zero() {
        if a.zero() {
            single(nan_limb())
        } else {
            single(inf_limb(negative))
        }
    } else if a.infinite() {
        if b.infinite() {
            single(nan_limb())
        } else {
            single(inf_limb(negative))
        }
    } else if b.infinite() {
        single(zero_limb(negative))
    } else {
        long_quotient(a, b)
    }
}

/// One half, as a limb.
pub open spec fn half() -> Limb {
    Limb { bits: HALF_BITS }
}

/// One, as a limb.
pub open spec fn unit() -> Limb {
    Limb { bits: ONE_BITS }
}

/// The square root. A NaN and a negative number give a NaN, a zero gives
/// itself, infinity gives infinity. Otherwise the root of the leading limb
/// is corrected once by what its square misses of the number.
pub open spec fn double_root(a: Double) -> Double {
    if a.nan() {
        single(nan_limb())
    } else if a.zero() {
        a
    } else if a.negative() {
        single(nan_limb())
    } else if a.infinite() {
        single(inf_limb(false))
    } else {
        let x = quotient(unit(), root(a.0));
        let ax = product(a.0, x);
        let miss = double_difference(a, double_of(two_prod_of(ax, ax)));
        settled(two_sum_of(ax, product(miss.0, product(x, half()))))
    }
}

/// The rounded limb `x` of `a`, stepped back by one where `a` lay halfway
/// and the limb after it is negative.
pub open spec fn settle_half(x: Limb, a: Limb, next: Limb) -> Limb {
    if equal(absolute(difference(x, a)), half()) && less(next, pz()) {
        difference(x, unit())
    } else {
        x
    }
}

/// The whole number nearest to a number: the leading limb is rounded, and
/// the second one too where the leading limb is a whole number.
pub open spec fn double_nearest_whole(a: Double) -> Double {
    let hi = nearest_whole(a.0);
    if equal(hi, a.0) {
        settled(two_sum_of(hi, nearest_whole(a.1)))
    } else {
        single(settle_half(hi, a.0, a.1))
    }
}

/// The exact sum of two limbs as a number: normalized, or an infinity or a
/// NaN alone.
pub fn settle(u: Limb, v: Limb) -> (r: Double)
    ensures
        r == settled(two_sum_of(u, v)),
        r.canonical(),
        r.finite() ==> u.finite() && v.finite() && r.value() == u.value() + v.value(),
{
    let (s, e) = two_sum(u, v);
    if s.is_finite() {
        proof {
            law_two_sum_normalizes(u, v);
        }
        Double(s, e)
    } else {
        Double::from_limb(s)
    }
}

/// Three raw limbs brought into two limbs that do not overlap.
pub fn renorm3(a: Limb, b: Limb, c: Limb) -> (r: Double)
    ensures
        r == renorm3_of(a, b, c),
        r.canonical(),
{
    if !a.is_finite() {
        return Double::from_limb(a);
    }
    let z = Limb { bits: 0 };
    let (x, e) = quick_two_sum(b, c);
    let (s0, s1) = quick_two_sum(a, x);
    if is_spent(s0, s1, e, z, z) {
        return Double::from_limb(s0);
    }
    settle(s0, s1.add(e))
}

impl Double {
    /// The sum.
    pub fn add(self, other: Double) -> (r: Double)
        ensures
            r == double_sum(self, other),
            self.canonical() && other.canonical() ==> r.canonical(),
    {
        if self.is_nan() || other.is_nan() {
            return Double::nan_value();
        }
        if self.is_infinite() {
            if other.is_infinite() && self.is_sign_negative() != other.is_sign_negative() {
                return Double::nan_value();
            }
            return Double::infinity(self.is_sign_negative());
        }
        if other.is_infinite() {
            return Double::infinity(other.is_sign_negative());
        }
        let za: bool = self.is_zero();
        let zb: bool = other.is_zero();
        if za && zb {
            return Double::zero_value(self.is_sign_negative() && other.is_sign_negative());
        }
        if zb {
            return self;
        }
        if za {
            return other;
        }
        let (s0, e0) = two_sum(self.0, other.0);
        if !s0.is_finite() {
            return Double::from_limb(s0);
        }
        let (s1, e1) = two_sum(self.1, other.1);
        let (s0, e0) = quick_two_sum(s0, e0.add(s1));
        settle(s0, e0.add(e1))
    }

    /// The difference.
    pub fn sub(self, other: Double) -> (r: Double)
        ensures
            r == double_difference(self, other),
            self.canonical() && other.canonical() ==> r.canonical(),
    {
        proof {
            crate::limb_laws::lemma_negated(other.0);
        }
        self.add(other.neg())
    }

    /// The product.
    pub fn mul(self, other: Double) -> (r: Double)
        ensures
            r == double_product(self, other),
            r.canonical(),
    {
        let negative: bool = self.is_sign_negative() != other.is_sign_negative();
        if self.is_nan() || other.is_nan() {
            return Double::nan_value();
        }
        if self.is_zero() || other.is_zero() {
            if self.is_infinite() || other.is_infinite() {
                return Double::nan_value();
            }
            return Double::zero_value(negative);
        }
        if self.is_infinite() || other.is_infinite() {
            return Double::infinity(negative);
        }
        let (p, e) = two_prod(self.0, other.0);
        if !p.is_finite() {
            return Double::from_limb(p);
        }
        settle(p, e.add(self.0.mul(other.1).add(self.1.mul(other.0))))
    }

    /// The square.
    pub fn sqr(self) -> (r: Double)
        ensures
            r == double_product(self, self),
            r.canonical(),
    {
        self.mul(self)
    }

    /// The product with a limb.
    pub fn mul_limb(self, b: Limb) -> (r: Double)
        ensures
            r == scaled(self, b),
            r.canonical(),
    {
        let (p, e) = two_prod(self.0, b);
        if !p.is_finite() {
            return Double::from_limb(p);
        }
        settle(p, e.add(self.1.mul(b)))
    }

    /// Both limbs multiplied by `p`, which is meant to be a power of two.
    pub fn mul_pwr2(self, p: Limb) -> (r: Double)
        ensures
            r == limbwise_product(self, p),
    {
        Double(self.0.mul(p), self.1.mul(p))
    }

    /// The quotient.
    pub fn div(self, other: Double) -> (r: Double)
        ensures
            r == double_quotient(self, other),
            r.canonical(),
    {
        if self.is_nan() || other.is_nan() {
            Double::nan_value()
        } else if other.is_zero() {
            if self.is_zero() {
                Double::nan_value()
            } else if self.is_sign_negative() == other.is_sign_positive() {
                Double::infinity(true)
            } else {
                Double::infinity(false)
            }
        } else if self.is_infinite() {
            if other.is_infinite() {
                Double::nan_value()
            } else if self.is_sign_positive() == other.is_sign_positive() {
                Double::infinity(false)
            } else {
                Double::infinity(true)
            }
        } else if other.is_infinite() {
            if self.is_sign_positive() == other.is_sign_positive() {
                Double::zero_value(false)
            } else {
                Double::zero_value(true)
            }
        } else {
            let q0 = self.0.div(other.0);
            let r = self.sub(other.mul_limb(q0));
            let q1 = r.0.div(other.0);
            let r = r.sub(other.mul_limb(q1));
            let q2 = r.0.div(other.0);
            renorm3(q0, q1, q2)
        }
    }

    /// One divided by the number.
    pub fn recip(self) -> (r: Double)
        ensures
            r == double_quotient(single(unit()), self),
            r.canonical(),
    {
        Double::one().div(self)
    }

    /// Adds `other` to the number in place.
    pub fn add_assign(&mut self, other: Double)
        ensures
            *final(self) == double_sum(*old(self), other),
    {
        *self = self.add(other);
    }

    /// Takes `other` from the number in place.
    pub fn sub_assign(&mut self, other: Double)
        ensures
            *final(self) == double_difference(*old(self), other),
    {
        *self = self.sub(other);
    }

    /// Multiplies the number by `other` in place.
    pub fn mul_assign(&mut self, other: Double)
        ensures
            *final(self) == double_product(*old(self), other),
    {
        *self = self.mul(other);
    }

    /// Divides the number by `other` in place.
    pub fn div_assign(&mut self, other: Double)
        ensures
            *final(self) == double_quotient(*old(self), other),
    {
        *self = self.div(other);
    }

    /// The square root.
    pub fn sqrt(self) -> (r: Double)
        ensures
            r == double_root(self),
            r.canonical(),
    {
        if self.is_nan() {
            return Double::nan_value();
        }
        if self.is_zero() {
            return self;
        }
        if self.is_sign_negative() {
            return Double::nan_value();
        }
        if self.is_infinite() {
            return Double::infinity(false);
        }
        let x = Limb { bits: ONE_BITS }.div(self.0.sqrt());
        let ax = self.0.mul(x);
        let (p, e) = two_prod(ax, ax);
        let miss = self.sub(Double(p, e));
        settle(ax, miss.0.mul(x.mul(Limb { bits: HALF_BITS })))
    }

    /// The whole number nearest to the number.
    pub fn round(self) -> (r: Double)
        ensures
            r == double_nearest_whole(self),
            r.canonical(),
    {
        let hi = self.0.round();
        if hi.equals(self.0) {
            settle(hi, self.1.round())
        } else if hi.sub(self.0).abs().equals(Limb { bits: HALF_BITS }) && self.1.lt(
            Limb { bits: 0 },
        ) {
            Double::from_limb(hi.sub(Limb { bits: ONE_BITS }))
        } else {
            Double::from_limb(hi)
        }
    }
}

} // verus!
