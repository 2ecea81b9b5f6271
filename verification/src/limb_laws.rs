//! Laws of limb arithmetic that the laws of the multi-limb numbers rest on.

use crate::eft::{quick_two_sum_of, three_three_sum_of, three_two_sum_of, two_prod_of, two_sum_of};
use crate::limb::{inf_limb, zero_limb, Limb, HIDDEN_BIT, INF_BITS, ONE_BITS};
use crate::limb_add::{absolute, absorbs, difference, lemma_round_exact, negated, sum};
use crate::limb_mul::{fused, product};
use crate::limb_order::{equal, less, less_eq};
use crate::power::{lemma_pow2_monotone, lemma_pow2_sum, lemma_pow2_wide};
use crate::rounding::{
    lemma_pack_magnitude, lemma_quantum_bounds, lemma_round_scale, lemma_round_zero,
    nearest_even, pack, quantum, round,
};
use vstd::arithmetic::div_mod::lemma_fundamental_div_mod;
use vstd::arithmetic::power2::{lemma2_to64, lemma_pow2_pos, pow2};
use vstd::prelude::*;

verus! {

/// Negation keeps the magnitude and turns the sign.
pub proof fn lemma_negated(a: Limb)
    ensures
        negated(a).abs_bits() == a.abs_bits(),
        negated(a).negative() == !a.negative(),
        negated(a).magnitude() == a.magnitude(),
        negated(a).value() == -a.value(),
        negated(negated(a)) == a,
{
}

/// A zero has the value zero, and only a zero has it.
pub proof fn lemma_zero_value(a: Limb)
    requires
        a.finite(),
    ensures
        a.zero() <==> a.magnitude() == 0,
        a.zero() ==> a == zero_limb(a.negative()),
{
    lemma_pow2_pos(a.scale());
    let m = a.significand();
    let p = pow2(a.scale());
    assert(m * p == 0 <==> m == 0) by (nonlinear_arith)
        requires
            p > 0,
            m >= 0,
    ;
}

/// Adding a zero to a finite limb that is not zero gives the limb back.
pub proof fn lemma_sum_zero(a: Limb, z: Limb)
    requires
        a.finite(),
        !a.zero(),
        z.zero(),
    ensures
        sum(a, z) == a,
        sum(z, a) == a,
{
    lemma_zero_value(a);
    lemma_zero_value(z);
    lemma_round_exact(a);
}

/// A finite limb and its negation add up to positive zero.
pub proof fn lemma_sum_opposite(a: Limb)
    requires
        a.finite(),
    ensures
        sum(a, negated(a)) == zero_limb(false),
        difference(a, a) == zero_limb(false),
{
    lemma_negated(a);
}

/// Sums, differences and exact sums of zeros are zeros, and a sum of zeros
/// of which one is positive is the positive zero.
pub proof fn lemma_zero_closed(x: Limb, y: Limb)
    requires
        x.zero(),
        y.zero(),
    ensures
        sum(x, y) == zero_limb(x.negative() && y.negative()),
        difference(x, y) == zero_limb(x.negative() && !y.negative()),
        quick_two_sum_of(x, y).0 == sum(x, y),
        quick_two_sum_of(x, y).1.zero(),
        two_sum_of(x, y).0 == sum(x, y),
        two_sum_of(x, y).1.zero(),
{
    lemma_zero_value(x);
    lemma_zero_value(y);
    lemma_negated(x);
    lemma_negated(y);
    let s = sum(x, y);
    lemma_zero_value(s);
    lemma_negated(s);
    let dx = difference(s, x);
    let dy = difference(s, y);
    lemma_zero_value(dx);
    lemma_zero_value(dy);
    lemma_negated(dx);
    lemma_negated(dy);
}

/// The exact sum of a finite limb and its negation is the positive zero,
/// with a zero for its error.
pub proof fn lemma_two_sum_opposite(a: Limb)
    requires
        a.finite(),
    ensures
        two_sum_of(a, negated(a)).0 == zero_limb(false),
        two_sum_of(a, negated(a)).1.zero(),
{
    let z = zero_limb(false);
    let b = negated(a);
    lemma_negated(a);
    lemma_negated(b);
    lemma_sum_opposite(a);
    lemma_sum_opposite(b);
    if a.zero() {
        lemma_zero_closed(a, b);
    } else {
        lemma_sum_zero(b, z);
        assert(difference(z, a) == b);
    }
}

/// A pair of finite limbs of which the first absorbs the second comes out
/// of the quick exact sum as it went in.
pub proof fn lemma_quick_two_sum_fixed(a: Limb, b: Limb)
    requires
        a.finite(),
        b.finite(),
        sum(a, b) == a,
    ensures
        quick_two_sum_of(a, b) == (a, b),
{
    lemma_sum_opposite(a);
    let z = zero_limb(false);
    assert(negated(z) == zero_limb(true));
    if b.zero() {
        lemma_zero_value(b);
    } else {
        lemma_sum_zero(b, zero_limb(true));
    }
}

/// Below the sign bit the patterns of the finite limbs ascend with their
/// magnitudes.
pub proof fn lemma_bits_ascend(a: Limb, b: Limb)
    requires
        a.finite(),
        b.finite(),
    ensures
        a.abs_bits() < b.abs_bits() <==> a.magnitude() < b.magnitude(),
        a.abs_bits() == b.abs_bits() <==> a.magnitude() == b.magnitude(),
{
    if a.abs_bits() < b.abs_bits() {
        lemma_bits_ascend_strict(a, b);
    } else if b.abs_bits() < a.abs_bits() {
        lemma_bits_ascend_strict(b, a);
    }
}

/// One direction of the law above.
proof fn lemma_bits_ascend_strict(a: Limb, b: Limb)
    requires
        a.finite(),
        b.finite(),
        a.abs_bits() < b.abs_bits(),
    ensures
        a.magnitude() < b.magnitude(),
{
    lemma_pow2_wide();
    lemma2_to64();
    let ma = a.significand() as int;
    let mb = b.significand() as int;
    let sa = a.scale();
    let sb = b.scale();
    let pa = pow2(sa) as int;
    let pb = pow2(sb) as int;
    lemma_pow2_pos(sa);
    lemma_pow2_pos(sb);
    if a.biased_exp() == b.biased_exp() {
        assert(ma * pa < mb * pb) by (nonlinear_arith)
            requires
                ma < mb,
                pa == pb,
                pa > 0,
        ;
    } else if a.biased_exp() == 0 {
        assert(ma * pa < mb * pb) by (nonlinear_arith)
            requires
                0 <= ma < 0x10_0000_0000_0000,
                pa == 1,
                mb >= 0x10_0000_0000_0000,
                pb >= 1,
        ;
    } else {
        lemma_pow2_sum(sa, 1, sa + 1);
        lemma_pow2_monotone(sa + 1, sb);
        assert(ma * pa < mb * pb) by (nonlinear_arith)
            requires
                0 <= ma < 0x20_0000_0000_0000,
                mb >= 0x10_0000_0000_0000,
                pb >= 2 * pa,
                pa > 0,
        ;
    }
}

/// What a whole number of units rounds to is finite or an infinity, has the
/// sign it was given, and, where it is finite, lies above half the number.
pub proof fn lemma_round_keeps_most(negative: bool, n: nat)
    requires
        n > 0,
    ensures
        round(negative, n, 1).negative() == negative,
        !round(negative, n, 1).nan(),
        round(negative, n, 1).finite() ==> 2 * round(negative, n, 1).magnitude() > n,
{
    lemma_pow2_wide();
    lemma2_to64();
    let t = quantum(n, 1);
    let p = pow2(t);
    lemma_pow2_pos(t);
    lemma_quantum_bounds(n, 1);
    assert(1 * p == p);
    let q = n / p;
    let m = nearest_even(n, p);
    lemma_fundamental_div_mod(n as int, p as int);
    lemma_pow2_sum(53, t, 53 + t);
    lemma_pow2_sum(52, t, 52 + t);
    assert(q < 0x20_0000_0000_0000 && (t > 0 ==> q >= 0x10_0000_0000_0000)) by (nonlinear_arith)
        requires
            n == p * q + n % p,
            0 <= n % p < p,
            n < 0x20_0000_0000_0000 * p,
            t > 0 ==> n >= 0x10_0000_0000_0000 * p,
            p > 0,
    ;
    let r = round(negative, n, 1);
    assert(r == pack(negative, m, t));
    if r.finite() {
        assert(t * HIDDEN_BIT + m < INF_BITS);
        lemma_pack_magnitude(negative, m, t);
        if t == 0 {
            assert(p == 1);
            assert(m == n);
            assert(m * p == n);
        } else {
            assert(2 * (m * p) > n) by (nonlinear_arith)
                requires
                    n == p * q + n % p,
                    0 <= n % p < p,
                    m >= q,
                    q >= 1,
                    p > 0,
            ;
        }
    }
}

/// A finite limb that absorbs another limb that is not zero is larger in
/// magnitude than that limb.
pub proof fn lemma_absorbed_is_smaller(a: Limb, b: Limb)
    requires
        a.finite(),
        b.finite(),
        !b.zero(),
        sum(a, b) == a,
    ensures
        b.abs_bits() < a.abs_bits(),
        less(absolute(b), absolute(a)),
{
    lemma_bits_ascend(a, b);
    lemma_zero_value(a);
    lemma_zero_value(b);
    if a.abs_bits() <= b.abs_bits() {
        let v = a.value() + b.value();
        let am = a.magnitude();
        let bm = b.magnitude();
        assert(am <= bm);
        if a.negative() == b.negative() {
            let n = am + bm;
            lemma_round_keeps_most(a.negative(), n);
            assert(sum(a, b) == round(a.negative(), n, 1));
            assert(false);
        } else {
            if v == 0 {
                assert(false);
            } else {
                let n = (bm - am) as nat;
                lemma_round_keeps_most(b.negative(), n);
                assert(sum(a, b) == round(b.negative(), n, 1));
                assert(false);
            }
        }
    }
}

/// The magnitude of one, in units.
pub proof fn lemma_one()
    ensures
        (Limb { bits: ONE_BITS }).magnitude() == pow2(1074),
        (Limb { bits: ONE_BITS }).finite(),
        !(Limb { bits: ONE_BITS }).negative(),
{
    lemma_pow2_wide();
    lemma_pow2_sum(52, 1022, 1074);
    let one = Limb { bits: ONE_BITS };
    assert(one.abs_bits() == ONE_BITS);
    assert(one.biased_exp() == 1023);
    assert(one.fraction() == 0);
}

/// A finite limb times one is the limb, and nothing is lost.
pub proof fn lemma_product_one(a: Limb)
    requires
        a.finite(),
    ensures
        product(a, Limb { bits: ONE_BITS }) == a,
        product(Limb { bits: ONE_BITS }, a) == a,
        fused(a, Limb { bits: ONE_BITS }, negated(a)) == zero_limb(false),
{
    let one = Limb { bits: ONE_BITS };
    lemma_one();
    lemma_round_exact(a);
    lemma_negated(a);
    let p = pow2(1074);
    lemma_pow2_pos(1074);
    let m = a.magnitude();
    assert(1 * p == p);
    assert(p * m == m * p) by (nonlinear_arith);
    lemma_round_scale(a.negative(), m, 1, p);
    let c = negated(a);
    assert(c.value() * p == -(m * p) || c.value() * p == m * p) by (nonlinear_arith)
        requires
            c.value() == -m || c.value() == m,
    ;
    assert(a.negative() ==> c.value() * p == m * p) by (nonlinear_arith)
        requires
            a.negative() ==> c.value() == m,
    ;
    assert(!a.negative() ==> c.value() * p == -(m * p)) by (nonlinear_arith)
        requires
            !a.negative() ==> c.value() == -m,
    ;
}

/// A finite limb times a zero is a zero, negative where the signs differ.
pub proof fn lemma_product_zero(a: Limb, z: Limb)
    requires
        a.finite(),
        z.zero(),
    ensures
        product(a, z) == zero_limb(a.negative() != z.negative()),
        product(z, a) == zero_limb(a.negative() != z.negative()),
{
    lemma_zero_value(z);
    lemma_pow2_pos(1074);
    let m = a.magnitude();
    assert(m * 0 == 0 && 0 * m == 0) by (nonlinear_arith);
    lemma_round_zero(a.negative() != z.negative(), pow2(1074));
}

/// The sum of two zeros is a zero, negative only where both are.
pub proof fn lemma_sum_zeros(a: Limb, b: Limb)
    requires
        a.zero(),
        b.zero(),
    ensures
        sum(a, b) == zero_limb(a.negative() && b.negative()),
{
    lemma_zero_value(a);
    lemma_zero_value(b);
}

/// Sums and exact sums of positive zeros are positive zeros.
pub proof fn lemma_positive_zeros()
    ensures
        sum(zero_limb(false), zero_limb(false)) == zero_limb(false),
        difference(zero_limb(false), zero_limb(false)) == zero_limb(false),
        two_sum_of(zero_limb(false), zero_limb(false)) == (zero_limb(false), zero_limb(false)),
        quick_two_sum_of(zero_limb(false), zero_limb(false)) == (
            zero_limb(false),
            zero_limb(false),
        ),
{
    let z = zero_limb(false);
    let n = zero_limb(true);
    assert(negated(z) == n);
    lemma_sum_zeros(z, z);
    lemma_sum_zeros(z, n);
    lemma_sum_zeros(n, z);
}

/// The same number: the same limb, or two zeros.
pub open spec fn same(a: Limb, b: Limb) -> bool {
    a == b || (a.zero() && b.zero())
}

/// The exact product of a finite limb and one is the limb, with a positive
/// zero for its error.
pub proof fn lemma_two_prod_one(a: Limb)
    requires
        a.finite(),
    ensures
        two_prod_of(a, Limb { bits: ONE_BITS }) == (a, zero_limb(false)),
{
    lemma_product_one(a);
}

/// The exact product of a finite limb and a zero is a zero, with a zero for
/// its error.
pub proof fn lemma_two_prod_zero(a: Limb, z: Limb)
    requires
        a.finite(),
        z.zero(),
    ensures
        two_prod_of(a, z).0.zero(),
        two_prod_of(a, z).1.zero(),
        product(a, z).zero(),
{
    lemma_product_zero(a, z);
    lemma_zero_value(z);
    let p = product(a, z);
    lemma_zero_value(p);
    lemma_negated(p);
    let m = a.magnitude();
    assert(m * 0 == 0) by (nonlinear_arith);
    assert(0 * pow2(1074) == 0);
}

/// The exact sum of a finite limb and a zero is the limb, with a zero for
/// its error.
pub proof fn lemma_two_sum_zero(a: Limb, z: Limb)
    requires
        a.finite(),
        z.zero(),
    ensures
        same(sum(a, z), a),
        same(sum(z, a), a),
        same(two_sum_of(a, z).0, a),
        two_sum_of(a, z).1.zero(),
        same(two_sum_of(z, a).0, a),
        two_sum_of(z, a).1.zero(),
        sum(a, z).finite(),
        two_sum_of(a, z).0.finite(),
        two_sum_of(z, a).0.finite(),
{
    if a.zero() {
        lemma_zero_closed(a, z);
        lemma_zero_closed(z, a);
    } else {
        lemma_sum_zero(a, z);
        lemma_sum_opposite(a);
        lemma_zero_closed(z, zero_limb(false));
    }
}

/// The exact sum of three finite limbs of which two are zero is the third,
/// with zeros for its errors.
pub proof fn lemma_three_sum_zeros(a: Limb, b: Limb, c: Limb, v: Limb)
    requires
        v.finite(),
        (a == v && b.zero() && c.zero()) || (a.zero() && b == v && c.zero()) || (a.zero()
            && b.zero() && c == v),
    ensures
        same(three_three_sum_of(a, b, c).0, v),
        three_three_sum_of(a, b, c).0.finite(),
        three_three_sum_of(a, b, c).1.zero(),
        three_three_sum_of(a, b, c).2.zero(),
        same(three_two_sum_of(a, b, c).0, v),
        three_two_sum_of(a, b, c).0.finite(),
        three_two_sum_of(a, b, c).1.zero(),
{
    if b.zero() {
        lemma_two_sum_zero(a, b);
    } else {
        lemma_two_sum_zero(b, a);
    }
    let (t1, t2) = two_sum_of(a, b);
    if c.zero() {
        lemma_two_sum_zero(t1, c);
    } else {
        lemma_two_sum_zero(c, t1);
    }
    let (x, t3) = two_sum_of(c, t1);
    lemma_zero_closed(t2, t3);
}

/// The quick exact sum of a limb and one that it absorbs gives the two
/// back, and so it does where zeros stand in for zeros.
pub proof fn lemma_quick_two_sum_same(a: Limb, b: Limb, a1: Limb, b1: Limb)
    requires
        a.finite(),
        b.finite(),
        absorbs(a, b),
        same(a1, a),
        same(b1, b),
    ensures
        same(quick_two_sum_of(a1, b1).0, a),
        same(quick_two_sum_of(a1, b1).1, b),
        quick_two_sum_of(a1, b1).0.finite(),
        quick_two_sum_of(a1, b1).1.finite(),
{
    if !b.zero() {
        if a.zero() {
            lemma_sum_zero(b, a);
        }
        lemma_quick_two_sum_fixed(a, b);
    } else if !a.zero() {
        lemma_sum_zero(a, b1);
        lemma_quick_two_sum_fixed(a, b1);
    } else {
        lemma_zero_closed(a1, b1);
    }
}

/// The order of the finite limbs is the order of their values, and every
/// finite limb lies between the two infinities.
pub proof fn law_order_by_value(a: Limb, b: Limb)
    requires
        a.finite(),
        b.finite(),
    ensures
        less(a, b) <==> a.value() < b.value(),
        less_eq(a, b) <==> a.value() <= b.value(),
        equal(a, b) <==> a.value() == b.value(),
        less(inf_limb(true), a) && less(a, inf_limb(false)),
{
    lemma_bits_ascend(a, b);
    lemma_zero_value(a);
    lemma_zero_value(b);
}

/// The sum of the negations of two finite limbs is the negation of their
/// sum, where that sum is not zero.
pub proof fn lemma_sum_negated(a: Limb, b: Limb)
    requires
        a.finite(),
        b.finite(),
        a.value() + b.value() != 0,
    ensures
        sum(negated(a), negated(b)) == negated(sum(a, b)),
{
    lemma_negated(a);
    lemma_negated(b);
    let v = a.value() + b.value();
    let n: nat = (if v < 0 {
        -v
    } else {
        v
    }) as nat;
    lemma_round_keeps_most(true, n);
    lemma_round_keeps_most(false, n);
}

/// Negation keeps a limb absorbed.
pub proof fn lemma_absorbs_negated(a: Limb, b: Limb)
    requires
        a.finite(),
        b.finite(),
        absorbs(a, b),
    ensures
        absorbs(negated(a), negated(b)),
{
    lemma_negated(a);
    lemma_negated(b);
    lemma_zero_value(a);
    lemma_zero_value(b);
    if !b.zero() {
        if a.value() + b.value() == 0 {
            lemma_zero_value(sum(a, b));
        } else {
            lemma_sum_negated(a, b);
        }
    }
}

/// The exact sum of a limb and one that it absorbs gives the two back, and
/// so it does where zeros stand in for zeros.
pub proof fn lemma_two_sum_same(a: Limb, b: Limb, a1: Limb, b1: Limb)
    requires
        a.finite(),
        b.finite(),
        absorbs(a, b),
        same(a1, a),
        same(b1, b),
    ensures
        same(two_sum_of(a1, b1).0, a),
        same(two_sum_of(a1, b1).1, b),
        two_sum_of(a1, b1).0.finite(),
        two_sum_of(a1, b1).1.finite(),
{
    if !b.zero() {
        if a.zero() {
            lemma_sum_zero(b, a);
        }
        lemma_absorbed_is_smaller(a, b);
        lemma_quick_two_sum_fixed(a, b);
    } else if !a.zero() {
        lemma_quick_two_sum_same(a, b, a1, b1);
    } else {
        lemma_zero_closed(a1, b1);
    }
}

/// Where zeros are positive zeros, a limb that absorbs another comes out
/// of the quick exact sum with it as the two went in.
pub proof fn lemma_quick_two_sum_plain(a: Limb, b: Limb)
    requires
        a.finite(),
        b.finite(),
        absorbs(a, b),
        a.zero() ==> a == zero_limb(false),
        b.zero() ==> b == zero_limb(false),
    ensures
        quick_two_sum_of(a, b) == (a, b),
{
    if b.zero() {
        if a.zero() {
            lemma_positive_zeros();
        } else {
            lemma_sum_zero(a, b);
        }
    } else if a.zero() {
        lemma_sum_zero(b, a);
    }
    lemma_quick_two_sum_fixed(a, b);
}

/// Two finite limbs that are the same number are equal in the order.
pub proof fn lemma_same_is_equal(a: Limb, b: Limb)
    requires
        same(a, b),
        b.finite(),
    ensures
        equal(a, b),
        a.finite(),
{
}

/// Being the same number carries over from limb to limb.
pub proof fn lemma_same_chain(a: Limb, b: Limb, c: Limb)
    requires
        same(a, b),
        same(b, c),
    ensures
        same(a, c),
{
}

} // verus!
