//! Multiplication of four-limb numbers.

use crate::eft::{
    three_three_sum, three_three_sum_of, three_two_sum, three_two_sum_of, two_prod, two_prod_of,
    two_sum, two_sum_of,
};
use crate::limb::{inf_limb, nan_limb, zero_limb, Limb};
use crate::limb_add::sum;
use crate::limb_mul::product;
use crate::quad::{lead, quad_of, Quad};
use crate::renorm::{renorm5, renorm5_of};
use vstd::prelude::*;

verus! {

/// The limbs of weight up to the square of the rounding unit in the product
/// of two finite numbers: the leading product, the sum of the two products
/// of the next weight, and the three limbs that the products of the third
/// weight and the errors above them come to, with the error left of the
/// sum of the second weight.
#[verifier::opaque]
pub open spec fn product_head(a: Quad, b: Quad) -> (Limb, Limb, Limb, Limb, Limb, Limb) {
    let (p0, q0) = two_prod_of(a.0, b.0);
    let (p1, q1) = two_prod_of(a.0, b.1);
    let (p2, q2) = two_prod_of(a.1, b.0);
    let (p3, q3) = two_prod_of(a.0, b.2);
    let (p4, q4) = two_prod_of(a.1, b.1);
    let (p5, q5) = two_prod_of(a.2, b.0);
    let (p1, p2, q0) = three_three_sum_of(p1, p2, q0);
    let (p2, q1, q2) = three_three_sum_of(p2, q1, q2);
    let (p3, p4, p5) = three_three_sum_of(p3, p4, p5);
    let (s0, t0) = two_sum_of(p2, p3);
    let (s1, t1) = two_sum_of(q1, p4);
    let s2 = sum(q2, p5);
    let (s1, t0) = two_sum_of(s1, t0);
    let s2 = sum(s2, sum(t0, t1));
    (p0, p1, s0, s1, s2, q0)
}

/// The errors of the products of the third weight, `q3`, `q4` and `q5`.
pub open spec fn product_errors(a: Quad, b: Quad) -> (Limb, Limb, Limb) {
    (two_prod_of(a.0, b.2).1, two_prod_of(a.1, b.1).1, two_prod_of(a.2, b.0).1)
}

/// The two limbs that the terms of the fourth weight and below come to.
#[verifier::opaque]
pub open spec fn product_tail(a: Quad, b: Quad, s1: Limb, s2: Limb, q0: Limb) -> (Limb, Limb) {
    let (q3, q4, q5) = product_errors(a, b);
    let (p6, q6) = two_prod_of(a.0, b.3);
    let (p7, q7) = two_prod_of(a.1, b.2);
    let (p8, q8) = two_prod_of(a.2, b.1);
    let (p9, q9) = two_prod_of(a.3, b.0);
    let (q0, q3) = two_sum_of(q0, q3);
    let (q4, q5) = two_sum_of(q4, q5);
    let (p6, p7) = two_sum_of(p6, p7);
    let (p8, p9) = two_sum_of(p8, p9);
    let (t0, t1) = two_sum_of(q0, q4);
    let t1 = sum(t1, sum(q3, q5));
    let (r0, r1) = two_sum_of(p6, p8);
    let r1 = sum(r1, sum(p7, p9));
    let (q3, q4) = two_sum_of(t0, r0);
    let q4 = sum(q4, sum(t1, r1));
    let (t0, t1) = two_sum_of(q3, s1);
    let t1 = sum(t1, q4);
    let low = sum(
        sum(
            sum(
                sum(
                    sum(sum(sum(product(a.1, b.3), product(a.2, b.2)), product(a.3, b.1)), q6),
                    q7,
                ),
                q8,
            ),
            q9,
        ),
        s2,
    );
    (t0, sum(t1, low))
}

/// The product of two finite numbers that are not zero.
pub open spec fn long_product(a: Quad, b: Quad) -> Quad {
    let (p0, p1, s0, s1, s2, q0) = product_head(a, b);
    let (t0, t1) = product_tail(a, b, s1, s2, q0);
    quad_of(renorm5_of(p0, p1, s0, t0, t1))
}

/// The product of two numbers. A NaN gives a NaN, and so does zero times
/// infinity; otherwise a zero or an infinity gives a zero or an infinity
/// whose sign is negative where the signs of the two numbers differ.
pub open spec fn quad_product(a: Quad, b: Quad) -> Quad {
    let negative = a.negative() != b.negative();
    if a.nan() || b.nan() {
        lead(nan_limb())
    } else if a.zero() || b.zero() {
        if a.infinite() || b.infinite() {
            lead(nan_limb())
        } else {
            lead(zero_limb(negative))
        }
    } else if a.infinite() || b.infinite() {
        lead(inf_limb(negative))
    } else {
        long_product(a, b)
    }
}

/// The product of a number and a limb.
pub open spec fn scaled(a: Quad, b: Limb) -> Quad {
    let (h0, l0) = two_prod_of(a.0, b);
    let (h1, l1) = two_prod_of(a.1, b);
    let (h2, l2) = two_prod_of(a.2, b);
    let h3 = product(a.3, b);
    let (s1, t0) = two_sum_of(h1, l0);
    let (s2, t1, t2) = three_three_sum_of(t0, h2, l1);
    let (s3, t3) = three_two_sum_of(t1, h3, l2);
    let s4 = product(t2, t3);
    quad_of(renorm5_of(h0, s1, s2, s3, s4))
}

/// The number with every limb multiplied by `p`, which is exact where `p`
/// is a power of two and nothing leaves the range of the limbs.
pub open spec fn limbwise_product(a: Quad, p: Limb) -> Quad {
    Quad(product(a.0, p), product(a.1, p), product(a.2, p), product(a.3, p))
}

/// The limbs of the product down to the third weight.
fn mul_head(a: Quad, b: Quad) -> (r: (Limb, Limb, Limb, Limb, Limb, Limb))
    ensures
        r == product_head(a, b),
{
    reveal(product_head);
    let (p0, q0) = two_prod(a.0, b.0);
    let (p1, q1) = two_prod(a.0, b.1);
    let (p2, q2) = two_prod(a.1, b.0);
    let (p3, _q3) = two_prod(a.0, b.2);
    let (p4, _q4) = two_prod(a.1, b.1);
    let (p5, _q5) = two_prod(a.2, b.0);
    let (p1, p2, q0) = three_three_sum(p1, p2, q0);
    let (p2, q1, q2) = three_three_sum(p2, q1, q2);
    let (p3, p4, p5) = three_three_sum(p3, p4, p5);
    let (s0, t0) = two_sum(p2, p3);
    let (s1, t1) = two_sum(q1, p4);
    let s2 = q2.add(p5);
    let (s1, t0) = two_sum(s1, t0);
    let s2 = s2.add(t0.add(t1));
    (p0, p1, s0, s1, s2, q0)
}

/// The two limbs that the terms of the fourth weight and below come to.
fn mul_tail(a: Quad, b: Quad, s1: Limb, s2: Limb, q0: Limb) -> (r: (Limb, Limb))
    ensures
        r == product_tail(a, b, s1, s2, q0),
{
    reveal(product_tail);
    let (_p3, q3) = two_prod(a.0, b.2);
    let (_p4, q4) = two_prod(a.1, b.1);
    let (_p5, q5) = two_prod(a.2, b.0);
    let (p6, q6) = two_prod(a.0, b.3);
    let (p7, q7) = two_prod(a.1, b.2);
    let (p8, q8) = two_prod(a.2, b.1);
    let (p9, q9) = two_prod(a.3, b.0);
    let (q0, q3) = two_sum(q0, q3);
    let (q4, q5) = two_sum(q4, q5);
    let (p6, p7) = two_sum(p6, p7);
    let (p8, p9) = two_sum(p8, p9);
    let (t0, t1) = two_sum(q0, q4);
    let t1 = t1.add(q3.add(q5));
    let (r0, r1) = two_sum(p6, p8);
    let r1 = r1.add(p7.add(p9));
    let (q3, q4) = two_sum(t0, r0);
    let q4 = q4.add(t1.add(r1));
    let (t0, t1) = two_sum(q3, s1);
    let t1 = t1.add(q4);
    let low = a.1.mul(b.3).add(a.2.mul(b.2)).add(a.3.mul(b.1)).add(q6).add(q7).add(q8).add(q9).add(
        s2,
    );
    (t0, t1.add(low))
}

impl Quad {
    /// The product.
    pub fn mul(self, other: Quad) -> (r: Quad)
        ensures
            r == quad_product(self, other),
    {
        let negative: bool = self.is_sign_negative() != other.is_sign_negative();
        if self.is_nan() || other.is_nan() {
            return Quad::nan_value();
        }
        if self.is_zero() || other.is_zero() {
            if self.is_infinite() || other.is_infinite() {
                return Quad::nan_value();
            }
            return Quad::zero_value(negative);
        }
        if self.is_infinite() || other.is_infinite() {
            return Quad::infinity(negative);
        }
        let (p0, p1, s0, s1, s2, q0) = mul_head(self, other);
        let (t0, t1) = mul_tail(self, other, s1, s2, q0);
        let (r0, r1, r2, r3) = renorm5(p0, p1, s0, t0, t1);
        Quad(r0, r1, r2, r3)
    }

    /// The square.
    pub fn sqr(self) -> (r: Quad)
        ensures
            r == quad_product(self, self),
    {
        self.mul(self)
    }

    /// Multiplies the number by `other` in place.
    pub fn mul_assign(&mut self, other: Quad)
        ensures
            *final(self) == quad_product(*old(self), other),
    {
        *self = self.mul(other);
    }

    /// The product with a limb.
    pub fn mul_limb(self, b: Limb) -> (r: Quad)
        ensures
            r == scaled(self, b),
    {
        let (h0, l0) = two_prod(self.0, b);
        let (h1, l1) = two_prod(self.1, b);
        let (h2, l2) = two_prod(self.2, b);
        let h3 = self.3.mul(b);
        let (s1, t0) = two_sum(h1, l0);
        let (s2, t1, t2) = three_three_sum(t0, h2, l1);
        let (s3, t3) = three_two_sum(t1, h3, l2);
        let s4 = t2.mul(t3);
        let (r0, r1, r2, r3) = renorm5(h0, s1, s2, s3, s4);
        Quad(r0, r1, r2, r3)
    }

    /// Every limb multiplied by `p`, which is meant to be a power of two.
    pub fn mul_pwr2(self, p: Limb) -> (r: Quad)
        ensures
            r == limbwise_product(self, p),
    {
        Quad(self.0.mul(p), self.1.mul(p), self.2.mul(p), self.3.mul(p))
    }
}

} // verus!
