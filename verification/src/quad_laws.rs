//! Laws of the four-limb numbers.

use crate::eft::{
    quick_two_sum_of, three_three_sum_of, three_two_sum_of, two_prod_of, two_sum_of,
};
use crate::limb::{inf_limb, nan_limb, zero_limb, Limb, ONE_BITS};
use crate::limb_add::{absolute, sum};
use crate::limb_div::quotient;
use crate::limb_laws::{
    lemma_absorbed_is_smaller, lemma_negated, lemma_one, lemma_quick_two_sum_plain,
    lemma_quick_two_sum_same, lemma_sum_zero, lemma_three_sum_zeros, lemma_two_prod_one,
    lemma_two_prod_zero, lemma_two_sum_opposite, lemma_two_sum_zero, lemma_zero_closed, same,
};
use crate::limb_mul::product;
use crate::limb_order::less;
use crate::quad::{lead, quad_equal, quad_negated, quad_of, Quad};
use crate::quad_add::{quad_difference, quad_sum};
use crate::quad_div::{long_quotient, quad_quotient, remainder_after};
use crate::quad_mul::{product_errors, product_head, product_tail, quad_product, scaled};
use crate::quad_trig::{sin_cos_of, tan_of};
use crate::renorm::{pz, renorm4_of, renorm5_of};
use vstd::arithmetic::power2::pow2;
use vstd::prelude::*;

verus! {

/// Every limb that is zero is the positive zero.
pub open spec fn plain_zeros(x: Quad) -> bool {
    &&& x.0.zero() ==> x.0 == pz()
    &&& x.1.zero() ==> x.1 == pz()
    &&& x.2.zero() ==> x.2 == pz()
    &&& x.3.zero() ==> x.3 == pz()
}

/// In a normalized number each limb that is not zero is smaller in
/// magnitude than the limb before it.
pub proof fn law_limbs_fall(x: Quad)
    requires
        x.normalized(),
    ensures
        !x.1.zero() ==> less(absolute(x.1), absolute(x.0)),
        !x.2.zero() ==> less(absolute(x.2), absolute(x.1)),
        !x.3.zero() ==> less(absolute(x.3), absolute(x.2)),
{
    if !x.1.zero() {
        lemma_absorbed_is_smaller(x.0, x.1);
    }
    if !x.2.zero() {
        lemma_absorbed_is_smaller(x.1, x.2);
    }
    if !x.3.zero() {
        lemma_absorbed_is_smaller(x.2, x.3);
    }
}

/// In a normalized number no limb that is not zero follows a zero limb.
pub proof fn law_zeros_trail(x: Quad)
    requires
        x.normalized(),
    ensures
        x.0.zero() ==> x.1.zero(),
        x.1.zero() ==> x.2.zero(),
        x.2.zero() ==> x.3.zero(),
{
    if x.0.zero() && !x.1.zero() {
        lemma_sum_zero(x.1, x.0);
    }
    if x.1.zero() && !x.2.zero() {
        lemma_sum_zero(x.2, x.1);
    }
    if x.2.zero() && !x.3.zero() {
        lemma_sum_zero(x.3, x.2);
    }
}

/// Renormalizing the limbs of a normalized number gives the same limbs
/// back, where its zero limbs are positive zeros. A negative zero among
/// them comes back as a positive zero.
pub proof fn law_renormalizing_is_idempotent(x: Quad)
    requires
        x.normalized(),
        plain_zeros(x),
    ensures
        quad_of(renorm4_of(x.0, x.1, x.2, x.3)) == x,
{
    law_zeros_trail(x);
    lemma_quick_two_sum_plain(x.2, x.3);
    lemma_quick_two_sum_plain(x.1, x.2);
    lemma_quick_two_sum_plain(x.0, x.1);
    if !x.0.zero() {
        lemma_quick_two_sum_plain(x.0, pz());
    }
    if !x.1.zero() {
        lemma_quick_two_sum_plain(x.1, pz());
    }
}

/// A limb made into a number and read back is the same limb.
pub proof fn law_round_trip(a: Limb)
    ensures
        lead(a).0 == a,
{
}

/// Adding a zero to a finite number that is not zero gives the number back;
/// adding a zero to a zero gives a zero.
pub proof fn law_add_zero(x: Quad, z: Quad)
    requires
        x.finite(),
        z.zero(),
    ensures
        !x.zero() ==> quad_sum(x, z) == x && quad_sum(z, x) == x,
        x.zero() ==> quad_sum(x, z).zero() && quad_sum(z, x).zero(),
{
}

/// A number with finite limbs less itself is positive zero, whatever its
/// sign.
pub proof fn law_sub_self(x: Quad)
    requires
        x.0.finite(),
        x.1.finite(),
        x.2.finite(),
        x.3.finite(),
    ensures
        quad_difference(x, x) == lead(zero_limb(false)),
{
    lemma_negated(x.0);
    lemma_negated(x.1);
    lemma_negated(x.2);
    lemma_negated(x.3);
    lemma_two_sum_opposite(x.0);
    lemma_two_sum_opposite(x.1);
    lemma_two_sum_opposite(x.2);
    lemma_two_sum_opposite(x.3);
    let z = zero_limb(false);
    let y = quad_negated(x);
    let (s0, t0) = two_sum_of(x.0, y.0);
    let (s1, t1) = two_sum_of(x.1, y.1);
    let (s2, t2) = two_sum_of(x.2, y.2);
    let (s3, t3) = two_sum_of(x.3, y.3);
    lemma_zero_closed(s1, t0);
    let (s1, t0) = two_sum_of(s1, t0);
    lemma_three_zeros(s2, t0, t1);
    let (s2, t0, t1) = three_three_sum_of(s2, t0, t1);
    lemma_three_zeros(s3, t0, t2);
    let (s3, t0) = three_two_sum_of(s3, t0, t2);
    lemma_zero_closed(t0, t1);
    lemma_zero_closed(sum(t0, t1), t3);
    let t0 = sum(sum(t0, t1), t3);
    lemma_renorm_zeros(s0, s1, s2, s3, t0);
}

/// The exact sums of three zeros are zeros.
proof fn lemma_three_zeros(a: Limb, b: Limb, c: Limb)
    requires
        a.zero(),
        b.zero(),
        c.zero(),
    ensures
        three_three_sum_of(a, b, c).0.zero(),
        three_three_sum_of(a, b, c).1.zero(),
        three_three_sum_of(a, b, c).2.zero(),
        three_two_sum_of(a, b, c).0.zero(),
        three_two_sum_of(a, b, c).1.zero(),
{
    lemma_zero_closed(a, b);
    let (t1, t2) = two_sum_of(a, b);
    lemma_zero_closed(c, t1);
    let (x, t3) = two_sum_of(c, t1);
    lemma_zero_closed(t2, t3);
}

/// Five zeros of which the first is positive renormalize to positive zeros.
proof fn lemma_renorm_zeros(c0: Limb, c1: Limb, c2: Limb, c3: Limb, c4: Limb)
    requires
        c0 == zero_limb(false),
        c1.zero(),
        c2.zero(),
        c3.zero(),
        c4.zero(),
    ensures
        quad_of(renorm5_of(c0, c1, c2, c3, c4)) == lead(zero_limb(false)),
{
    lemma_zero_closed(c3, c4);
    let (x, e4) = quick_two_sum_of(c3, c4);
    lemma_zero_closed(c2, x);
    let (x, e3) = quick_two_sum_of(c2, x);
    lemma_zero_closed(c1, x);
    let (x, e2) = quick_two_sum_of(c1, x);
    lemma_zero_closed(c0, x);
}

/// An operation on a NaN gives the NaN that operations return.
pub proof fn law_nan_propagates(a: Quad, b: Quad)
    requires
        a.nan() || b.nan(),
    ensures
        quad_sum(a, b) == lead(nan_limb()),
        quad_difference(a, b) == lead(nan_limb()),
        quad_product(a, b) == lead(nan_limb()),
        quad_quotient(a, b) == lead(nan_limb()),
{
    lemma_negated(b.0);
}

/// What division gives on zeros and infinities: zero by zero and infinity
/// by infinity are NaN; another number by zero and an infinity by a finite
/// number are an infinity; a finite number by an infinity is a zero. The
/// sign is negative where the signs of the two numbers differ.
pub proof fn law_division_specials(a: Quad, b: Quad)
    requires
        !a.nan(),
        !b.nan(),
    ensures
        a.zero() && b.zero() ==> quad_quotient(a, b) == lead(nan_limb()),
        a.infinite() && b.infinite() ==> quad_quotient(a, b) == lead(nan_limb()),
        !a.zero() && b.zero() ==> quad_quotient(a, b) == lead(
            inf_limb(a.negative() != b.negative()),
        ),
        a.infinite() && b.finite() ==> quad_quotient(a, b) == lead(
            inf_limb(a.negative() != b.negative()),
        ),
        a.finite() && b.infinite() ==> quad_quotient(a, b) == lead(
            zero_limb(a.negative() != b.negative()),
        ),
{
}

/// What addition and subtraction give on zeros and infinities: an infinity
/// less itself is a NaN, and so is the sum of the two infinities; the sum of
/// two zeros is the negative zero only where both are negative.
pub proof fn law_addition_specials(a: Quad, b: Quad)
    requires
        !a.nan(),
        !b.nan(),
    ensures
        a.infinite() && b.infinite() && a.negative() == b.negative() ==> quad_difference(a, b)
            == lead(nan_limb()),
        a.infinite() && b.infinite() && a.negative() != b.negative() ==> quad_sum(a, b) == lead(
            nan_limb(),
        ),
        a.zero() && b.zero() ==> quad_sum(a, b) == lead(zero_limb(a.negative() && b.negative())),
{
    lemma_negated(b.0);
}

/// Renormalizing the limbs of a normalized number that is not zero, with
/// zeros standing in for its zeros and a zero for a fifth limb, gives the
/// same number.
proof fn lemma_renorm5_same(x: Quad, c1: Limb, c2: Limb, c3: Limb, c4: Limb)
    requires
        x.normalized(),
        !x.0.zero(),
        same(c1, x.1),
        same(c2, x.2),
        same(c3, x.3),
        c4.zero(),
    ensures
        quad_equal(quad_of(renorm5_of(x.0, c1, c2, c3, c4)), x),
{
    law_zeros_trail(x);
    let z = pz();
    // The pass from the lightest limb upward.
    lemma_quick_two_sum_same(x.3, z, c3, c4);
    let (u3, e4) = quick_two_sum_of(c3, c4);
    lemma_quick_two_sum_same(x.2, x.3, c2, u3);
    let (u2, e3) = quick_two_sum_of(c2, u3);
    lemma_quick_two_sum_same(x.1, x.2, c1, u2);
    let (u1, e2) = quick_two_sum_of(c1, u2);
    lemma_quick_two_sum_same(x.0, x.1, x.0, u1);
    let (d0, d1) = quick_two_sum_of(x.0, u1);
    assert(d0 == x.0);
    // The pass from the top downward.
    if !d1.zero() {
        lemma_quick_two_sum_same(x.1, x.2, d1, e2);
        let (s1, s2) = quick_two_sum_of(d1, e2);
        if !s2.zero() {
            lemma_quick_two_sum_same(x.2, x.3, s2, e3);
            let (t2, t3) = quick_two_sum_of(s2, e3);
            if !t3.zero() {
                lemma_sum_zero(t3, e4);
            } else {
                lemma_quick_two_sum_same(x.2, z, t2, e4);
            }
        } else {
            lemma_quick_two_sum_same(x.1, z, s1, e3);
            let (t1, t2) = quick_two_sum_of(s1, e3);
            lemma_quick_two_sum_same(x.1, z, t1, e4);
        }
    } else {
        lemma_quick_two_sum_same(x.0, z, d0, e2);
        let (s0, s1) = quick_two_sum_of(d0, e2);
        lemma_quick_two_sum_same(x.0, z, s0, e3);
        let (t0, t1) = quick_two_sum_of(s0, e3);
        lemma_quick_two_sum_same(x.0, z, t0, e4);
    }
}

/// The head of the product of a normalized number and one: the first three
/// limbs of the number, and zeros.
proof fn lemma_head_times_one(x: Quad)
    requires
        x.normalized(),
    ensures
        product_head(x, lead(Limb { bits: ONE_BITS })).0 == x.0,
        same(product_head(x, lead(Limb { bits: ONE_BITS })).1, x.1),
        same(product_head(x, lead(Limb { bits: ONE_BITS })).2, x.2),
        product_head(x, lead(Limb { bits: ONE_BITS })).3.zero(),
        product_head(x, lead(Limb { bits: ONE_BITS })).4.zero(),
        product_head(x, lead(Limb { bits: ONE_BITS })).5.zero(),
{
    reveal(product_head);
    let z = pz();
    let b = lead(Limb { bits: ONE_BITS });
    lemma_two_prod_one(x.0);
    lemma_two_prod_one(x.1);
    lemma_two_prod_one(x.2);
    lemma_two_prod_zero(x.0, z);
    lemma_two_prod_zero(x.1, z);
    let (p0, q0) = two_prod_of(x.0, b.0);
    let (p1, q1) = two_prod_of(x.0, b.1);
    let (p2, q2) = two_prod_of(x.1, b.0);
    let (p3, q3) = two_prod_of(x.0, b.2);
    let (p4, q4) = two_prod_of(x.1, b.1);
    let (p5, q5) = two_prod_of(x.2, b.0);
    lemma_three_sum_zeros(p1, p2, q0, x.1);
    let (h1, h2, h0) = three_three_sum_of(p1, p2, q0);
    lemma_three_sum_zeros(h2, q1, q2, q2);
    let (g2, g1, g0) = three_three_sum_of(h2, q1, q2);
    lemma_three_sum_zeros(p3, p4, p5, x.2);
    let (f3, f4, f5) = three_three_sum_of(p3, p4, p5);
    lemma_two_sum_zero(f3, g2);
    let (s0, t0) = two_sum_of(g2, f3);
    lemma_zero_closed(g1, f4);
    let (s1, t1) = two_sum_of(g1, f4);
    lemma_zero_closed(g0, f5);
    let s2 = sum(g0, f5);
    lemma_zero_closed(s1, t0);
    let (r1, r0) = two_sum_of(s1, t0);
    lemma_zero_closed(r0, t1);
    lemma_zero_closed(s2, sum(r0, t1));
    let w2 = sum(s2, sum(r0, t1));
    assert(product_head(x, b) == (p0, h1, s0, r1, w2, h0));
}

/// The sum of the terms of the lowest weight in the product of a
/// normalized number and one is a zero.
proof fn lemma_low_times_one(x: Quad, s2: Limb) -> (low: Limb)
    requires
        x.normalized(),
        s2.zero(),
    ensures
        low.zero(),
        low == sum(
            sum(
                sum(
                    sum(
                        sum(
                            sum(
                                sum(product(x.1, pz()), product(x.2, pz())),
                                product(x.3, pz()),
                            ),
                            two_prod_of(x.0, pz()).1,
                        ),
                        two_prod_of(x.1, pz()).1,
                    ),
                    two_prod_of(x.2, pz()).1,
                ),
                two_prod_of(x.3, Limb { bits: ONE_BITS }).1,
            ),
            s2,
        ),
{
    let z = pz();
    lemma_two_prod_one(x.3);
    lemma_two_prod_zero(x.0, z);
    lemma_two_prod_zero(x.1, z);
    lemma_two_prod_zero(x.2, z);
    lemma_two_prod_zero(x.3, z);
    let q6 = two_prod_of(x.0, z).1;
    let q7 = two_prod_of(x.1, z).1;
    let q8 = two_prod_of(x.2, z).1;
    let q9 = two_prod_of(x.3, Limb { bits: ONE_BITS }).1;
    let m13 = product(x.1, z);
    let m22 = product(x.2, z);
    let m31 = product(x.3, z);
    lemma_zero_closed(m13, m22);
    let l1 = sum(m13, m22);
    lemma_zero_closed(l1, m31);
    let l2 = sum(l1, m31);
    lemma_zero_closed(l2, q6);
    let l3 = sum(l2, q6);
    lemma_zero_closed(l3, q7);
    let l4 = sum(l3, q7);
    lemma_zero_closed(l4, q8);
    let l5 = sum(l4, q8);
    lemma_zero_closed(l5, q9);
    let l6 = sum(l5, q9);
    lemma_zero_closed(l6, s2);
    sum(l6, s2)
}

/// The tail of the product of a normalized number and one: the fourth limb
/// of the number, and a zero.
proof fn lemma_tail_times_one(x: Quad, s1: Limb, s2: Limb, q0: Limb)
    requires
        x.normalized(),
        s1.zero(),
        s2.zero(),
        q0.zero(),
    ensures
        same(product_tail(x, lead(Limb { bits: ONE_BITS }), s1, s2, q0).0, x.3),
        product_tail(x, lead(Limb { bits: ONE_BITS }), s1, s2, q0).1.zero(),
{
    reveal(product_tail);
    let z = pz();
    let b = lead(Limb { bits: ONE_BITS });
    lemma_two_prod_one(x.2);
    lemma_two_prod_one(x.3);
    lemma_two_prod_zero(x.0, z);
    lemma_two_prod_zero(x.1, z);
    lemma_two_prod_zero(x.2, z);
    let (q3, q4, q5) = product_errors(x, b);
    let (p6, q6) = two_prod_of(x.0, b.3);
    let (p7, q7) = two_prod_of(x.1, b.2);
    let (p8, q8) = two_prod_of(x.2, b.1);
    let (p9, q9) = two_prod_of(x.3, b.0);
    lemma_zero_closed(q0, q3);
    let (a0, a3) = two_sum_of(q0, q3);
    lemma_zero_closed(q4, q5);
    let (a4, a5) = two_sum_of(q4, q5);
    lemma_zero_closed(p6, p7);
    let (a6, a7) = two_sum_of(p6, p7);
    lemma_two_sum_zero(p9, p8);
    let (a8, a9) = two_sum_of(p8, p9);
    lemma_zero_closed(a0, a4);
    let (b0, b1) = two_sum_of(a0, a4);
    lemma_zero_closed(a3, a5);
    lemma_zero_closed(b1, sum(a3, a5));
    let b2 = sum(b1, sum(a3, a5));
    lemma_two_sum_zero(a8, a6);
    let (c0, c1) = two_sum_of(a6, a8);
    lemma_zero_closed(a7, a9);
    lemma_zero_closed(c1, sum(a7, a9));
    let c2 = sum(c1, sum(a7, a9));
    lemma_two_sum_zero(c0, b0);
    let (d3, d4) = two_sum_of(b0, c0);
    lemma_zero_closed(b2, c2);
    lemma_zero_closed(d4, sum(b2, c2));
    let d5 = sum(d4, sum(b2, c2));
    lemma_two_sum_zero(d3, s1);
    let (e0, e1) = two_sum_of(d3, s1);
    lemma_zero_closed(e1, d5);
    let e2 = sum(e1, d5);
    let low = lemma_low_times_one(x, s2);
    lemma_zero_closed(e2, low);
    assert(product_tail(x, b, s1, s2, q0) == (e0, sum(e2, low)));
}

/// A normalized number times one is the same number.
pub proof fn law_mul_one(x: Quad)
    requires
        x.normalized(),
    ensures
        quad_equal(quad_product(x, lead(Limb { bits: ONE_BITS })), x),
{
    let b = lead(Limb { bits: ONE_BITS });
    lemma_one();
    law_zeros_trail(x);
    if !x.zero() {
        lemma_head_times_one(x);
        let (p0, p1, s0, s1, s2, q0) = product_head(x, b);
        lemma_tail_times_one(x, s1, s2, q0);
        let (t0, t1) = product_tail(x, b, s1, s2, q0);
        lemma_renorm5_same(x, p1, s0, t0, t1);
    }
}

/// The sine and cosine of zero are exactly zero and one; the sine, the
/// cosine and the tangent of a NaN or of an infinity are NaN.
pub proof fn law_trig_specials(a: Quad)
    ensures
        a.zero() ==> sin_cos_of(a) == (lead(zero_limb(false)), lead(Limb { bits: ONE_BITS })),
        a.nan() || a.infinite() ==> sin_cos_of(a) == (lead(nan_limb()), lead(nan_limb()))
            && tan_of(a) == lead(nan_limb()),
{
}

/// One times the positive zero limb is the positive zero.
proof fn lemma_one_scaled_by_zero()
    ensures
        scaled(lead(Limb { bits: ONE_BITS }), pz()) == lead(pz()),
{
    let one = Limb { bits: ONE_BITS };
    let z = pz();
    lemma_one();
    lemma_two_prod_zero(one, z);
    lemma_two_prod_zero(z, z);
    crate::limb_laws::lemma_product_zero(one, z);
    crate::limb_laws::lemma_product_zero(z, z);
    let (h0, l0) = two_prod_of(one, z);
    let (h1, l1) = two_prod_of(z, z);
    let h3 = product(z, z);
    lemma_zero_closed(h1, l0);
    let (s1, t0) = two_sum_of(h1, l0);
    lemma_three_zeros(t0, h1, l1);
    let (s2, t1, t2) = three_three_sum_of(t0, h1, l1);
    lemma_three_zeros(t1, h3, l1);
    let (s3, t3) = three_two_sum_of(t1, h3, l1);
    crate::limb_laws::lemma_product_zero(t2, t3);
    let s4 = product(t2, t3);
    lemma_renorm_zeros(h0, s1, s2, s3, s4);
}

/// The positive zero divided by one is the positive zero, and so the
/// tangent of a zero is the positive zero.
pub proof fn law_zero_over_one()
    ensures
        quad_quotient(lead(pz()), lead(Limb { bits: ONE_BITS })) == lead(pz()),
        forall|a: Quad| a.zero() ==> #[trigger] tan_of(a) == lead(pz()),
{
    let one = Limb { bits: ONE_BITS };
    let z = pz();
    let a = lead(z);
    let b = lead(one);
    lemma_one();
    vstd::arithmetic::power2::lemma_pow2_pos(1074);
    crate::rounding::lemma_round_zero(false, one.magnitude());
    crate::limb_laws::lemma_zero_value(z);
    assert(z.magnitude() * pow2(1074) == 0) by (nonlinear_arith)
        requires
            z.magnitude() == 0,
    ;
    assert(quotient(z, one) == z);
    lemma_one_scaled_by_zero();
    lemma_negated(z);
    assert(remainder_after(a, b, z) == a);
    lemma_renorm_zeros(z, z, z, z, z);
    assert(long_quotient(a, b) == a);
}

} // verus!
