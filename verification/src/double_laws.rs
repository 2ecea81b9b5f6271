//! Laws of the two-limb numbers.

use crate::double::{double_equal, normalized_pair, single, Double};
use crate::double_arith::{
    double_difference, double_product, double_quotient, double_sum, long_quotient,
    remainder_after, scaled, unit,
};
use crate::double_trig::{sin_cos_of, tan_of};
use crate::eft::{two_prod_of, two_sum_of};
use crate::limb::{inf_limb, nan_limb, zero_limb, Limb, ONE_BITS};
use crate::limb_add::{absolute, negated, sum};
use crate::limb_div::quotient;
use crate::limb_laws::{
    lemma_absorbed_is_smaller, lemma_negated, lemma_one, lemma_positive_zeros, lemma_product_one,
    lemma_product_zero, lemma_quick_two_sum_fixed, lemma_sum_zero, lemma_sum_zeros,
    lemma_same_chain, lemma_same_is_equal, lemma_two_sum_opposite, lemma_two_sum_same,
    lemma_two_sum_zero, lemma_zero_closed, lemma_zero_value,
};
use crate::limb_mul::product;
use crate::limb_order::less;
use vstd::arithmetic::power2::pow2;
use vstd::prelude::*;

verus! {

/// In a normalized number a second limb that is not zero is smaller in
/// magnitude than the first.
pub proof fn law_limbs_fall(x: Double)
    requires
        x.normalized(),
        !x.1.zero(),
    ensures
        less(absolute(x.1), absolute(x.0)),
{
    lemma_absorbed_is_smaller(x.0, x.1);
}

/// Normalizing the limbs of a normalized number gives the same limbs back.
/// The pairs left out are the two zeros of different sign, which come back
/// as a positive zero and the zero that stood second.
pub proof fn law_normalizing_is_idempotent(a: Limb, b: Limb)
    requires
        Double(a, b).normalized(),
        !(a.zero() && b.zero() && a.negative() != b.negative()),
    ensures
        normalized_pair(a, b) == Double(a, b),
{
    lemma_zero_value(a);
    lemma_zero_value(b);
    if !b.zero() {
        lemma_absorbed_is_smaller(a, b);
        lemma_quick_two_sum_fixed(a, b);
    } else if !a.zero() {
        lemma_sum_zero(a, b);
        lemma_quick_two_sum_fixed(a, b);
    } else {
        lemma_sum_zeros(a, b);
        lemma_sum_zeros(b, a);
        lemma_positive_zeros();
        let s = sum(b, a);
        lemma_negated(b);
        lemma_sum_zeros(s, negated(b));
        let d = sum(s, negated(b));
        lemma_negated(d);
        lemma_sum_zeros(a, negated(d));
    }
}

/// A limb made into a number and read back is the same limb, and the
/// number made of a finite limb is normalized.
pub proof fn law_round_trip(a: Limb)
    ensures
        single(a).0 == a,
        single(a).canonical(),
{
}

/// Adding a zero to a finite number that is not zero gives the number back;
/// adding a zero to a zero gives a zero.
pub proof fn law_add_zero(x: Double, z: Double)
    requires
        x.finite(),
        z.zero(),
    ensures
        !x.zero() ==> double_sum(x, z) == x && double_sum(z, x) == x,
        x.zero() ==> double_sum(x, z).zero() && double_sum(z, x).zero(),
{
}

/// A normalized number times one is the same number.
pub proof fn law_mul_one(x: Double)
    requires
        x.normalized(),
    ensures
        double_equal(double_product(x, single(unit())), x),
{
    let one = single(unit());
    let z = zero_limb(false);
    lemma_one();
    lemma_zero_value(x.0);
    lemma_zero_value(x.1);
    if !x.zero() {
        lemma_product_one(x.0);
        lemma_product_one(x.1);
        lemma_product_zero(x.0, z);
        // The error of the leading product is zero, and so is one of the
        // two cross products; the other is the second limb.
        let cross = sum(product(x.0, z), product(x.1, unit()));
        lemma_two_sum_zero(x.1, product(x.0, z));
        let low = sum(z, cross);
        lemma_two_sum_zero(cross, z);
        lemma_same_chain(low, cross, x.1);
        lemma_two_sum_same(x.0, x.1, x.0, low);
        let t = two_sum_of(x.0, low);
        lemma_same_is_equal(t.0, x.0);
        lemma_same_is_equal(t.1, x.1);
    }
}

/// A number with finite limbs less itself is positive zero, whatever its
/// sign.
pub proof fn law_sub_self(x: Double)
    requires
        x.0.finite(),
        x.1.finite(),
    ensures
        double_difference(x, x) == single(zero_limb(false)),
{
    lemma_negated(x.0);
    lemma_negated(x.1);
    lemma_two_sum_opposite(x.0);
    lemma_two_sum_opposite(x.1);
    lemma_positive_zeros();
    let z = zero_limb(false);
    let e0 = two_sum_of(x.0, negated(x.0)).1;
    let e1 = two_sum_of(x.1, negated(x.1)).1;
    lemma_zero_closed(e0, z);
    lemma_zero_closed(z, e1);
}

/// An operation on a NaN gives the NaN that operations return.
pub proof fn law_nan_propagates(a: Double, b: Double)
    requires
        a.nan() || b.nan(),
    ensures
        double_sum(a, b) == single(nan_limb()),
        double_difference(a, b) == single(nan_limb()),
        double_product(a, b) == single(nan_limb()),
        double_quotient(a, b) == single(nan_limb()),
{
    lemma_negated(b.0);
}

/// What division gives on zeros and infinities: zero by zero and infinity
/// by infinity are NaN; another number by zero and an infinity by a finite
/// number are an infinity; a finite number by an infinity is a zero. The
/// sign is negative where the signs of the two numbers differ.
pub proof fn law_division_specials(a: Double, b: Double)
    requires
        !a.nan(),
        !b.nan(),
    ensures
        a.zero() && b.zero() ==> double_quotient(a, b) == single(nan_limb()),
        a.infinite() && b.infinite() ==> double_quotient(a, b) == single(nan_limb()),
        !a.zero() && b.zero() ==> double_quotient(a, b) == single(
            inf_limb(a.negative() != b.negative()),
        ),
        a.infinite() && b.finite() ==> double_quotient(a, b) == single(
            inf_limb(a.negative() != b.negative()),
        ),
        a.finite() && b.infinite() ==> double_quotient(a, b) == single(
            zero_limb(a.negative() != b.negative()),
        ),
{
}

/// What addition and subtraction give on zeros and infinities: an infinity
/// less itself is a NaN, and so is the sum of the two infinities; the sum of
/// two zeros is the negative zero only where both are negative.
pub proof fn law_addition_specials(a: Double, b: Double)
    requires
        !a.nan(),
        !b.nan(),
    ensures
        a.infinite() && b.infinite() && a.negative() == b.negative() ==> double_difference(a, b)
            == single(nan_limb()),
        a.infinite() && b.infinite() && a.negative() != b.negative() ==> double_sum(a, b)
            == single(nan_limb()),
        a.zero() && b.zero() ==> double_sum(a, b) == single(
            zero_limb(a.negative() && b.negative()),
        ),
{
    lemma_negated(b.0);
}

/// The sine and cosine of zero are exactly zero and one; the sine, the
/// cosine and the tangent of a NaN or of an infinity are NaN.
pub proof fn law_trig_specials(a: Double)
    ensures
        a.zero() ==> sin_cos_of(a) == (single(zero_limb(false)), single(Limb { bits: ONE_BITS })),
        a.nan() || a.infinite() ==> sin_cos_of(a) == (single(nan_limb()), single(nan_limb()))
            && tan_of(a) == single(nan_limb()),
{
}

/// The positive zero divided by one is the positive zero, and so the
/// tangent of a zero is the positive zero.
pub proof fn law_zero_over_one()
    ensures
        double_quotient(single(zero_limb(false)), single(unit())) == single(zero_limb(false)),
        forall|a: Double| a.zero() ==> #[trigger] tan_of(a) == single(zero_limb(false)),
{
    let one = unit();
    let z = zero_limb(false);
    let a = single(z);
    let b = single(one);
    lemma_one();
    vstd::arithmetic::power2::lemma_pow2_pos(1074);
    crate::rounding::lemma_round_zero(false, one.magnitude());
    lemma_zero_value(z);
    assert(z.magnitude() * pow2(1074) == 0) by (nonlinear_arith)
        requires
            z.magnitude() == 0,
    ;
    assert(quotient(z, one) == z);
    // One times the positive zero limb is the positive zero.
    crate::limb_laws::lemma_two_prod_zero(one, z);
    lemma_product_zero(one, z);
    lemma_product_zero(z, z);
    lemma_negated(z);
    lemma_negated(product(one, z));
    lemma_positive_zeros();
    let e = two_prod_of(one, z).1;
    lemma_zero_closed(e, product(z, z));
    lemma_zero_closed(z, sum(e, product(z, z)));
    assert(scaled(b, z).zero());
    assert(scaled(b, z).0 == z);
    assert(remainder_after(a, b, z) == a);
    assert(long_quotient(a, b) == a);
}

} // verus!
