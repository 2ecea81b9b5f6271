//! The exactness of the error-free transformations: the two limbs that come
//! out stand for exactly what went in.

use crate::eft::{quick_two_sum_of, two_prod_of, two_sum_of};
use crate::limb::{zero_limb, Limb};
use crate::limb_add::{difference, lemma_align, negated, sum};
use crate::limb_laws::{lemma_bits_ascend, lemma_negated, lemma_zero_value};
use crate::limb_mul::product;
use crate::power::{bit_len, lemma_bit_len_bounds, lemma_pow2_monotone, lemma_pow2_sum, lemma_pow2_wide};
use crate::round_laws::{
    fits, lemma_quantum_monotone, lemma_quantum_of_limb, lemma_representable,
    lemma_round_nearest, lemma_round_shape,
};
use crate::rounding::round;
use vstd::arithmetic::div_mod::lemma_fundamental_div_mod_converse;
use vstd::arithmetic::power2::{lemma2_to64, lemma_pow2_pos, lemma_pow2_unfold, pow2};
use vstd::prelude::*;

verus! {

/// The distance between two numbers.
pub open spec fn dist(x: int, y: int) -> int {
    if x >= y {
        x - y
    } else {
        y - x
    }
}

/// A multiple of `2^j` by less than 2^53, with `j` no more than the largest
/// scale, fits a limb.
pub proof fn lemma_fits(v: nat, w: nat, j: nat)
    requires
        v == w * pow2(j),
        w < 0x20_0000_0000_0000,
        j <= 2045,
    ensures
        fits(v, w, j),
{
    lemma_pow2_wide();
    lemma_bit_len_bounds(w);
    if bit_len(w) > 53 {
        lemma_pow2_monotone(53, (bit_len(w) - 1) as nat);
    }
}

/// Where the exact sum of two finite limbs fits a limb, their sum is that
/// number.
pub proof fn lemma_sum_exact(x: Limb, y: Limb, w: nat, j: nat)
    requires
        x.finite(),
        y.finite(),
        fits(dist(x.value() + y.value(), 0) as nat, w, j),
    ensures
        sum(x, y).finite(),
        sum(x, y).value() == x.value() + y.value(),
{
    let v = x.value() + y.value();
    if v == 0 {
        lemma_zero_value(zero_limb(x.negative() && y.negative()));
    } else if v < 0 {
        lemma_representable(true, (-v) as nat, w, j);
    } else {
        lemma_representable(false, v as nat, w, j);
    }
}

/// Where the exact difference of two finite limbs is `w * 2^j` in
/// magnitude, for a `w` below 2^53, their difference is that number.
pub proof fn lemma_difference_exact(x: Limb, y: Limb, w: int, j: nat)
    requires
        x.finite(),
        y.finite(),
        dist(x.value(), y.value()) == w * pow2(j),
        0 <= w < 0x20_0000_0000_0000,
        j <= 2045,
    ensures
        difference(x, y).finite(),
        difference(x, y).value() == x.value() - y.value(),
{
    lemma_negated(y);
    lemma_fits(dist(x.value(), y.value()) as nat, w as nat, j);
    lemma_sum_exact(x, negated(y), w as nat, j);
}

/// The magnitudes of two finite limbs, the second not above the first, in
/// the unit of the second.
proof fn lemma_limb_units(a: Limb, b: Limb) -> (wa: int)
    requires
        a.finite(),
        b.finite(),
        b.abs_bits() <= a.abs_bits(),
    ensures
        b.scale() <= a.scale() <= 2045,
        b.magnitude() <= a.magnitude(),
        a.magnitude() == wa * pow2(b.scale()),
        wa >= 0,
{
    lemma_bits_ascend(a, b);
    lemma_align(a.significand(), a.scale(), b.scale());
    (a.significand() * pow2((a.scale() - b.scale()) as nat)) as int
}

/// How many units of size `2^lo` a multiple of `2^hi` comes to.
proof fn lemma_units(m: int, hi: nat, lo: nat) -> (w: int)
    requires
        hi >= lo,
        m >= 0,
    ensures
        m * pow2(hi) == w * pow2(lo),
        w >= 0,
{
    lemma_align(m as nat, hi, lo);
    m * pow2((hi - lo) as nat)
}

/// A number that is a multiple of the unit `p` and lies within `bound`
/// units of zero is that many units or fewer.
proof fn lemma_count(v: int, w: int, p: int, bound: int)
    by (nonlinear_arith)
    requires
        v == w * p,
        p > 0,
        0 <= v <= bound * p,
    ensures
        0 <= w <= bound,
{
}

/// The sum of two finite limbs of the same sign is at most twice the larger.
proof fn lemma_at_most_twice(a: Limb, negative: bool, nn: nat)
    requires
        a.finite(),
        nn <= 2 * a.magnitude(),
        round(negative, nn, 1).finite(),
    ensures
        round(negative, nn, 1).magnitude() <= 2 * a.magnitude(),
{
    lemma_pow2_wide();
    lemma2_to64();
    let ma = a.significand();
    let sa = a.scale();
    let am = a.magnitude();
    let pa = pow2(sa);
    lemma_pow2_pos(sa);
    let (m, t) = lemma_round_shape(negative, nn);
    let r = round(negative, nn, 1).magnitude();
    if sa < 2045 || ma < 0x10_0000_0000_0000 {
        lemma_pow2_unfold(sa + 1);
        assert(2 * am == ma * pow2(sa + 1)) by (nonlinear_arith)
            requires
                am == ma * pa,
                pow2(sa + 1) == 2 * pa,
        ;
        lemma_bit_len_bounds(ma);
        if bit_len(ma) > 53 {
            lemma_pow2_monotone(53, (bit_len(ma) - 1) as nat);
        }
        if bit_len(ma) == 53 {
            lemma_pow2_monotone(52, (bit_len(ma) - 1) as nat);
        }
        lemma_representable(false, 2 * am, ma, sa + 1);
        lemma_round_nearest(negative, nn, round(false, 2 * am, 1));
    } else {
        let p = pow2(t);
        lemma_pow2_pos(t);
        lemma_pow2_monotone(t, 2045);
        if t < 2045 {
            lemma_pow2_sum(1, t, t + 1);
            lemma_pow2_monotone(t + 1, 2045);
        }
        assert(r <= 2 * am) by (nonlinear_arith)
            requires
                r == m * p,
                am == ma * pa,
                ma >= 0x10_0000_0000_0000,
                (m < 0x20_0000_0000_0000 && 0 < p <= pa) || (m <= 0x20_0000_0000_0000 && 0 < 2
                    * p <= pa),
        ;
    }
}

/// The quick exact sum on limbs of the same sign.
proof fn lemma_quick_same_sign(a: Limb, b: Limb) -> (w: int)
    requires
        a.finite(),
        b.finite(),
        b.abs_bits() <= a.abs_bits(),
        sum(a, b).finite(),
        a.negative() == b.negative(),
        a.value() + b.value() != 0,
    ensures
        difference(sum(a, b), a).finite(),
        difference(sum(a, b), a).value() == sum(a, b).value() - a.value(),
        dist(a.value() + b.value(), sum(a, b).value()) <= b.magnitude(),
        dist(a.value() + b.value(), sum(a, b).value()) == w * pow2(b.scale()),
{
    let wa = lemma_limb_units(a, b);
    let s = sum(a, b);
    let am = a.magnitude() as int;
    let bm = b.magnitude() as int;
    let sa = a.scale();
    let sb = b.scale();
    let nn = (am + bm) as nat;
    let sigma = a.negative();
    assert(s == round(sigma, nn, 1));
    let (m, t) = lemma_round_shape(sigma, nn);
    let r = s.magnitude() as int;
    lemma_round_nearest(sigma, nn, a);
    lemma_quantum_of_limb(a);
    lemma_quantum_monotone(am as nat, nn);
    lemma_at_most_twice(a, sigma, nn);
    lemma_pow2_pos(sa);
    lemma_pow2_pos(sb);
    let wr = lemma_units(m as int, t, sa);
    let ma = a.significand() as int;
    let k = wr - ma;
    assert(r - am == k * pow2(sa)) by (nonlinear_arith)
        requires
            r == wr * pow2(sa),
            am == ma * pow2(sa),
            k == wr - ma,
    ;
    lemma_count(r - am, k, pow2(sa) as int, ma);
    assert(dist(s.value(), a.value()) == r - am);
    lemma_difference_exact(s, a, k, sa);
    let ur = lemma_units(m as int, t, sb);
    let mb = b.significand() as int;
    let ke = if r >= nn {
        ur - wa - mb
    } else {
        wa + mb - ur
    };
    let err = dist(a.value() + b.value(), s.value());
    assert(err == dist(nn as int, r));
    assert(err == ke * pow2(sb)) by (nonlinear_arith)
        requires
            r == ur * pow2(sb),
            nn == am + bm,
            am == wa * pow2(sb),
            bm == mb * pow2(sb),
            err == (if r >= nn {
                r - nn
            } else {
                nn - r
            }),
            ke == (if r >= nn {
                ur - wa - mb
            } else {
                wa + mb - ur
            }),
    ;
    ke
}

/// The quick exact sum on limbs of opposite sign.
proof fn lemma_quick_opposite_sign(a: Limb, b: Limb) -> (w: int)
    requires
        a.finite(),
        b.finite(),
        b.abs_bits() <= a.abs_bits(),
        sum(a, b).finite(),
        a.negative() != b.negative(),
        a.value() + b.value() != 0,
    ensures
        difference(sum(a, b), a).finite(),
        difference(sum(a, b), a).value() == sum(a, b).value() - a.value(),
        dist(a.value() + b.value(), sum(a, b).value()) <= b.magnitude(),
        dist(a.value() + b.value(), sum(a, b).value()) == w * pow2(b.scale()),
{
    lemma_pow2_wide();
    let wa = lemma_limb_units(a, b);
    let s = sum(a, b);
    let am = a.magnitude() as int;
    let bm = b.magnitude() as int;
    let ma = a.significand() as int;
    let mb = b.significand() as int;
    let sa = a.scale();
    let sb = b.scale();
    let nn = (am - bm) as nat;
    let sigma = a.negative();
    assert(s == round(sigma, nn, 1));
    let (m, t) = lemma_round_shape(sigma, nn);
    let p = pow2(t) as int;
    let r = s.magnitude() as int;
    lemma_round_nearest(sigma, nn, a);
    lemma_quantum_of_limb(a);
    lemma_quantum_monotone(nn, am as nat);
    lemma_pow2_pos(sa);
    lemma_pow2_pos(sb);
    lemma_pow2_pos(t);
    let va = lemma_units(ma, sa, t);
    let err = dist(a.value() + b.value(), s.value());
    assert(err == dist(nn as int, r));
    assert(dist(s.value(), a.value()) == am - r);
    if t <= sb {
        // The exact sum is a multiple of its own quantum, so it is not
        // rounded.
        let vb = lemma_units(mb, sb, t);
        assert(nn == (va - vb) * p) by (nonlinear_arith)
            requires
                nn == am - bm,
                am == va * p,
                bm == vb * p,
        ;
        lemma_fundamental_div_mod_converse(nn as int, p, va - vb, 0);
        assert(m == va - vb);
        assert(r == nn);
        lemma_difference_exact(s, a, mb, sb);
        assert(err == 0 * pow2(sb));
        0
    } else {
        let k = va - m;
        assert(am - r == k * p) by (nonlinear_arith)
            requires
                am == va * p,
                r == m * p,
                k == va - m,
        ;
        lemma_pow2_sum(53, sb, 53 + sb);
        lemma_pow2_monotone(53 + sb, 52 + t);
        lemma_pow2_sum(52, t, 52 + t);
        let pb = pow2(sb) as int;
        assert(bm < 0x20_0000_0000_0000 * pb) by (nonlinear_arith)
            requires
                bm == mb * pb,
                mb < 0x20_0000_0000_0000,
                pb > 0,
        ;
        assert(am - r <= 0x1F_FFFF_FFFF_FFFF * p) by (nonlinear_arith)
            requires
                am - r <= bm + err,
                bm < 0x10_0000_0000_0000 * p,
                2 * err <= p,
                p > 0,
        ;
        lemma_count(am - r, k, p, 0x1F_FFFF_FFFF_FFFF);
        lemma_difference_exact(s, a, k, t);
        let ur = lemma_units(m as int, t, sb);
        let ke = if r >= nn {
            ur - wa + mb
        } else {
            wa - mb - ur
        };
        assert(err == ke * pb) by (nonlinear_arith)
            requires
                r == ur * pb,
                nn == am - bm,
                am == wa * pb,
                bm == mb * pb,
                err == (if r >= nn {
                    r - nn
                } else {
                    nn - r
                }),
                ke == (if r >= nn {
                    ur - wa + mb
                } else {
                    wa - mb - ur
                }),
        ;
        ke
    }
}

/// The quick exact sum is exact. For two finite limbs, the second not above
/// the first in magnitude, whose sum does not overflow, the rounded sum and
/// the error that come out add up to exactly the two limbs that went in.
pub proof fn law_quick_two_sum_exact(a: Limb, b: Limb)
    requires
        a.finite(),
        b.finite(),
        b.abs_bits() <= a.abs_bits(),
        sum(a, b).finite(),
    ensures
        quick_two_sum_of(a, b).0 == sum(a, b),
        quick_two_sum_of(a, b).1.finite(),
        quick_two_sum_of(a, b).0.value() + quick_two_sum_of(a, b).1.value() == a.value()
            + b.value(),
{
    let s = sum(a, b);
    let z = difference(s, a);
    let n = a.value() + b.value();
    lemma_pow2_wide();
    let wa = lemma_limb_units(a, b);
    if n == 0 {
        lemma_zero_value(s);
        assert(dist(s.value(), a.value()) == a.significand() * pow2(a.scale()));
        lemma_difference_exact(s, a, a.significand() as int, a.scale());
        assert(dist(b.value(), z.value()) == 0 * pow2(0));
        lemma_difference_exact(b, z, 0, 0);
    } else {
        let w = if a.negative() == b.negative() {
            lemma_quick_same_sign(a, b)
        } else {
            lemma_quick_opposite_sign(a, b)
        };
        let err = dist(n, s.value());
        lemma_pow2_pos(b.scale());
        lemma_count(err, w, pow2(b.scale()) as int, b.significand() as int);
        assert(dist(b.value(), z.value()) == err);
        lemma_difference_exact(b, z, w, b.scale());
    }
}

/// The sum does not depend on the order of the two limbs.
pub proof fn lemma_sum_commutes(a: Limb, b: Limb)
    ensures
        sum(a, b) == sum(b, a),
{
}

/// The exact sum is exact. For two finite limbs whose sum does not
/// overflow, the rounded sum and the error that come out add up to exactly
/// the two limbs that went in.
pub proof fn law_two_sum_exact(a: Limb, b: Limb)
    requires
        a.finite(),
        b.finite(),
        sum(a, b).finite(),
    ensures
        two_sum_of(a, b).0 == sum(a, b),
        two_sum_of(a, b).1.finite(),
        two_sum_of(a, b).0.value() + two_sum_of(a, b).1.value() == a.value() + b.value(),
{
    lemma_sum_commutes(a, b);
    if b.abs_bits() <= a.abs_bits() {
        law_quick_two_sum_exact(a, b);
    } else {
        law_quick_two_sum_exact(b, a);
    }
}

/// The product of the values of two limbs, from their magnitudes.
proof fn lemma_signed_product(a: Limb, b: Limb)
    ensures
        a.value() * b.value() == if a.negative() != b.negative() {
            -(a.magnitude() * b.magnitude())
        } else {
            (a.magnitude() * b.magnitude()) as int
        },
{
    let x = a.magnitude() as int;
    let y = b.magnitude() as int;
    assert((-x) * y == -(x * y) && x * (-y) == -(x * y) && (-x) * (-y) == x * y)
        by (nonlinear_arith);
}

/// What rounding a product leaves over fits a limb. The product is
/// `k * 2^1074` for a whole `k`, and is `ma * mb * 2^s` for two significands.
proof fn lemma_product_error_fits(ma: nat, mb: nat, s: nat, k: nat, negative: bool) -> (r: (
    nat,
    nat,
))
    requires
        ma < 0x20_0000_0000_0000,
        mb < 0x20_0000_0000_0000,
        k * pow2(1074) == (ma * mb) * pow2(s),
        k > 0,
        round(negative, k, 1).finite(),
    ensures
        dist(k as int, round(negative, k, 1).magnitude() as int) == r.0 * pow2(r.1),
        r.0 < 0x20_0000_0000_0000,
        r.1 <= 2045,
{
    lemma_pow2_wide();
    lemma2_to64();
    let (m, t) = lemma_round_shape(negative, k);
    let p = pow2(t) as int;
    lemma_pow2_pos(t);
    let q = (k / pow2(t)) as int;
    let rem = (k % pow2(t)) as int;
    let big = round(negative, k, 1).magnitude() as int;
    let err = dist(k as int, big);
    let pp = (ma * mb) as int;
    assert(pp < 0x400_0000_0000_0000_0000_0000_0000) by (nonlinear_arith)
        requires
            pp == ma * mb,
            ma < 0x20_0000_0000_0000,
            mb < 0x20_0000_0000_0000,
    ;
    lemma_pow2_pos(1074);
    lemma_pow2_pos(s);
    let d = pow2(1074) as int;
    assert(k >= q * p) by (nonlinear_arith)
        requires
            k == p * q + rem,
            rem >= 0,
    ;
    if s >= 1074 {
        let g = (s - 1074) as nat;
        let pg = pow2(g) as int;
        lemma_pow2_sum(g, 1074, s);
        lemma_pow2_pos(g);
        assert(k == pp * pg) by (nonlinear_arith)
            requires
                k * d == pp * pow2(s),
                pow2(s) == pg * d,
                d > 0,
        ;
        if t <= g {
            let w = lemma_units(pp, g, t);
            lemma_fundamental_div_mod_converse(k as int, p, w, 0);
            assert(m == q);
            assert(big == k) by (nonlinear_arith)
                requires
                    big == m * p,
                    m == q,
                    k == p * q + rem,
                    rem == 0,
            ;
            assert(err == 0 * pow2(0));
            (0, 0)
        } else {
            let u = lemma_units(m as int, t, g);
            let c = dist(pp, u);
            if pp >= u {
                assert(k >= big && k - big == (pp - u) * pg) by (nonlinear_arith)
                    requires
                        k == pp * pg,
                        big == u * pg,
                        pp >= u,
                        pg > 0,
                ;
            } else {
                assert(k < big && big - k == (u - pp) * pg) by (nonlinear_arith)
                    requires
                        k == pp * pg,
                        big == u * pg,
                        pp < u,
                        pg > 0,
                ;
            }
            assert(err == c * pg);
            // The quantum lies at most 53 places above the unit of the
            // product.
            lemma_pow2_sum(106, g, 106 + g);
            lemma_pow2_sum(52, t, 52 + t);
            assert(k < pow2(106 + g)) by (nonlinear_arith)
                requires
                    k == pp * pg,
                    pp < pow2(106),
                    pg > 0,
                    pow2(106 + g) == pow2(106) * pg,
            ;
            assert(k >= pow2(52 + t)) by (nonlinear_arith)
                requires
                    k >= q * p,
                    q >= 0x10_0000_0000_0000,
                    pow2(52 + t) == pow2(52) * p,
                    pow2(52) == 0x10_0000_0000_0000,
                    p > 0,
            ;
            if t - g >= 54 {
                lemma_pow2_monotone(106 + g, 52 + t);
            }
            lemma_pow2_sum((t - g) as nat, g, t);
            lemma_pow2_monotone((t - g) as nat, 53);
            assert(c <= 0x10_0000_0000_0000) by (nonlinear_arith)
                requires
                    err == c * pg,
                    2 * err <= p,
                    p == pow2((t - g) as nat) * pg,
                    pow2((t - g) as nat) <= 0x20_0000_0000_0000,
                    pg > 0,
            ;
            (c as nat, g)
        }
    } else {
        let f = (1074 - s) as nat;
        lemma_pow2_sum(f, s, 1074);
        lemma_pow2_pos(f);
        assert(k <= pp) by (nonlinear_arith)
            requires
                k * d == pp * pow2(s),
                d == pow2(f) * pow2(s),
                pow2(f) >= 1,
                pow2(s) > 0,
                k >= 0,
        ;
        if t >= 54 {
            lemma_pow2_sum(52, t, 52 + t);
            lemma_pow2_monotone(106, 52 + t);
            assert(k >= pow2(52 + t)) by (nonlinear_arith)
                requires
                    k >= q * p,
                    q >= 0x10_0000_0000_0000,
                    pow2(52 + t) == pow2(52) * p,
                    pow2(52) == 0x10_0000_0000_0000,
                    p > 0,
            ;
        }
        lemma_pow2_monotone(t, 53);
        assert(err == err * pow2(0)) by (nonlinear_arith)
            requires
                pow2(0) == 1,
        ;
        (err as nat, 0)
    }
}

/// The exact product is exact. For two finite limbs whose product does not
/// overflow and is a whole number of units, the rounded product and the
/// error that come out add up to exactly the product of the two limbs. A
/// product that is no whole number of units has bits below the smallest
/// limb, which no error limb can hold.
pub proof fn law_two_prod_exact(a: Limb, b: Limb)
    requires
        a.finite(),
        b.finite(),
        product(a, b).finite(),
        (a.magnitude() * b.magnitude()) % pow2(1074) == 0,
    ensures
        two_prod_of(a, b).0 == product(a, b),
        two_prod_of(a, b).1.finite(),
        (two_prod_of(a, b).0.value() + two_prod_of(a, b).1.value()) * pow2(1074) == a.value()
            * b.value(),
{
    lemma_pow2_wide();
    lemma2_to64();
    let negative = a.negative() != b.negative();
    let d = pow2(1074);
    lemma_pow2_pos(1074);
    let n = a.magnitude() * b.magnitude();
    let k = n / d;
    vstd::arithmetic::div_mod::lemma_fundamental_div_mod(n as int, d as int);
    assert(n == k * d) by (nonlinear_arith)
        requires
            n == d * k + 0,
    ;
    assert(1 * d == d);
    crate::rounding::lemma_round_scale(negative, k, 1, d);
    let p = product(a, b);
    assert(p == round(negative, k, 1));
    let c = negated(p);
    lemma_negated(p);
    lemma_signed_product(a, b);
    let e = two_prod_of(a, b).1;
    let big = p.magnitude() as int;
    let cd = c.value() * d;
    assert(cd == (if p.negative() {
        big * d
    } else {
        -(big * d)
    })) by (nonlinear_arith)
        requires
            cd == c.value() * d,
            c.value() == (if p.negative() {
                big
            } else {
                -big
            }),
    ;
    if k == 0 {
        crate::rounding::lemma_round_zero(negative, 1);
        lemma_zero_value(p);
        assert(big * d == 0) by (nonlinear_arith)
            requires
                big == 0,
        ;
        lemma_zero_value(e);
        assert((p.value() + e.value()) * d == 0) by (nonlinear_arith)
            requires
                p.value() == 0,
                e.value() == 0,
        ;
    } else {
        let ma = a.significand();
        let mb = b.significand();
        let s = a.scale() + b.scale();
        lemma_pow2_sum(a.scale(), b.scale(), s);
        let pa = pow2(a.scale());
        let pb = pow2(b.scale());
        assert(n == (ma * mb) * pow2(s)) by (nonlinear_arith)
            requires
                n == (ma * pa) * (mb * pb),
                pow2(s) == pa * pb,
        ;
        let (w, j) = lemma_product_error_fits(ma, mb, s, k, negative);
        let (m, t) = lemma_round_shape(negative, k);
        assert(p.negative() == negative);
        let err = dist(k as int, big);
        let v = (if negative {
            -(n as int)
        } else {
            n as int
        }) + cd;
        assert(v == (if negative {
            -(k - big) * d
        } else {
            (k - big) * d
        })) by (nonlinear_arith)
            requires
                n == k * d,
                v == (if negative {
                    -(n as int)
                } else {
                    n as int
                }) + cd,
                cd == (if negative {
                    big * d
                } else {
                    -(big * d)
                }),
        ;
        assert(err == 0 ==> v == 0) by (nonlinear_arith)
            requires
                err == 0 ==> k - big == 0,
                v == (if negative {
                    -(k - big) * d
                } else {
                    (k - big) * d
                }),
        ;
        if err == 0 {
            lemma_zero_value(e);
            assert((p.value() + e.value()) * d == a.value() * b.value()) by (nonlinear_arith)
                requires
                    e.value() == 0,
                    p.value() == (if negative {
                        -big
                    } else {
                        big
                    }),
                    big == k,
                    n == k * d,
                    a.value() * b.value() == (if negative {
                        -(n as int)
                    } else {
                        n as int
                    }),
            ;
        } else {
            let vm: nat = (if v < 0 {
                -v
            } else {
                v
            }) as nat;
            assert(vm == err * d && v != 0 && (v < 0 <==> (negative <==> k > big)))
                by (nonlinear_arith)
                requires
                    v == (if negative {
                        -(k - big) * d
                    } else {
                        (k - big) * d
                    }),
                    vm == (if v < 0 {
                        -v
                    } else {
                        v
                    }),
                    err == dist(k as int, big),
                    err > 0,
                    d > 0,
            ;
            crate::rounding::lemma_round_scale(v < 0, err as nat, 1, d);
            lemma_fits(err as nat, w, j);
            lemma_representable(v < 0, err as nat, w, j);
            assert(e == round(v < 0, err as nat, 1));
            assert((p.value() + e.value()) * d == a.value() * b.value()) by (nonlinear_arith)
                requires
                    e.value() == (if v < 0 {
                        -err
                    } else {
                        err
                    }),
                    v < 0 <==> (negative <==> k > big),
                    err == dist(k as int, big),
                    p.value() == (if negative {
                        -big
                    } else {
                        big
                    }),
                    n == k * d,
                    a.value() * b.value() == (if negative {
                        -(n as int)
                    } else {
                        n as int
                    }),
            ;
        }
    }
}

/// What the quick exact sum gives is normalized: the rounded sum absorbs
/// the error.
pub proof fn law_quick_two_sum_normalizes(a: Limb, b: Limb)
    requires
        a.finite(),
        b.finite(),
        b.abs_bits() <= a.abs_bits(),
        sum(a, b).finite(),
    ensures
        sum(quick_two_sum_of(a, b).0, quick_two_sum_of(a, b).1) == quick_two_sum_of(a, b).0,
{
    law_quick_two_sum_exact(a, b);
    let s = sum(a, b);
    let e = quick_two_sum_of(a, b).1;
    if a.value() + b.value() == 0 {
        lemma_zero_value(s);
        lemma_zero_value(e);
        lemma_zero_value(a);
        lemma_zero_value(b);
        lemma_negated(a);
        let d = difference(s, a);
        if a.zero() {
            crate::limb_laws::lemma_zero_closed(s, a);
            crate::limb_laws::lemma_zero_closed(b, d);
        } else {
            lemma_negated(b);
        }
    }
}

/// What the exact sum gives is normalized: the rounded sum absorbs the
/// error.
pub proof fn law_two_sum_normalizes(a: Limb, b: Limb)
    requires
        sum(a, b).finite(),
    ensures
        a.finite(),
        b.finite(),
        two_sum_of(a, b).1.finite(),
        sum(two_sum_of(a, b).0, two_sum_of(a, b).1) == two_sum_of(a, b).0,
        two_sum_of(a, b).0.value() + two_sum_of(a, b).1.value() == a.value() + b.value(),
{
    lemma_sum_commutes(a, b);
    law_two_sum_exact(a, b);
    if b.abs_bits() <= a.abs_bits() {
        law_quick_two_sum_normalizes(a, b);
    } else {
        law_quick_two_sum_normalizes(b, a);
    }
}

} // verus!
