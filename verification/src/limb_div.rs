//! Division of limbs.

use crate::limb::{inf_limb, nan_limb, with_sign, zero_limb, Limb, HIDDEN_BIT, INF_BITS, NAN_BITS};
use crate::power::{
    bit_length, lemma_bit_len_bounds, lemma_pow2_monotone, lemma_pow2_sum, lemma_pow2_wide,
    pow2_u128,
};
use crate::rounding::{
    lemma_nearest_even_scale, lemma_quantum_is, lemma_round_ratio, lemma_round_zero,
    nearest_even, pack, quantum, round,
};
use vstd::arithmetic::div_mod::{lemma_basic_div, lemma_multiply_divide_lt, lemma_small_mod};
use vstd::arithmetic::power2::{lemma2_to64, lemma_pow2_pos, lemma_pow2_unfold, pow2};
use vstd::prelude::*;

verus! {

/// The quotient of two limbs: the limb nearest to the exact quotient, with
/// the special values of binary64 arithmetic.
pub open spec fn quotient(a: Limb, b: Limb) -> Limb {
    let negative = a.negative() != b.negative();
    if a.nan() || b.nan() {
        nan_limb()
    } else if a.infinite() {
        if b.infinite() {
            nan_limb()
        } else {
            inf_limb(negative)
        }
    } else if b.infinite() {
        zero_limb(negative)
    } else if b.zero() {
        if a.zero() {
            nan_limb()
        } else {
            inf_limb(negative)
        }
    } else {
        round(negative, a.magnitude() * pow2(1074), b.magnitude())
    }
}

/// The quantum of `(x / y) * 2^e` for significands `x` and `y` that both
/// have their highest bit at 2^52.
pub open spec fn ratio_quantum(x: nat, y: nat, e: int) -> nat {
    let top = if x >= y {
        e - 52
    } else {
        e - 53
    };
    if top > 0 {
        top as nat
    } else {
        0
    }
}

/// The integer nearest to `(x / y) * 2^g`.
pub open spec fn ratio_nearest(x: nat, y: nat, g: int) -> nat {
    if g >= 0 {
        nearest_even(x * pow2(g as nat), y)
    } else {
        nearest_even(x, y * pow2((-g) as nat))
    }
}

/// A product with a power of two, regrouped.
proof fn lemma_mul_pow2_sum(x: nat, a: nat, b: nat, c: nat)
    requires
        c == a + b,
    ensures
        x * pow2(c) == (x * pow2(a)) * pow2(b),
        x * pow2(c) == (x * pow2(b)) * pow2(a),
{
    lemma_pow2_sum(a, b, c);
    let pa = pow2(a);
    let pb = pow2(b);
    assert(x * (pa * pb) == (x * pa) * pb) by (nonlinear_arith);
    assert(x * (pa * pb) == (x * pb) * pa) by (nonlinear_arith);
}

/// A product with a power of two grows with the exponent.
proof fn lemma_mul_pow2_monotone(x: nat, a: nat, b: nat)
    requires
        a <= b,
    ensures
        x * pow2(a) <= x * pow2(b),
{
    lemma_pow2_monotone(a, b);
    let pa = pow2(a);
    let pb = pow2(b);
    assert(x * pa <= x * pb) by (nonlinear_arith)
        requires
            pa <= pb,
    ;
}

/// Rounding the ratio of two aligned significands, scaled by a power of two.
pub proof fn lemma_ratio_round(negative: bool, x: nat, y: nat, e: int, big: nat)
    requires
        0x10_0000_0000_0000 <= x < 0x20_0000_0000_0000,
        0x10_0000_0000_0000 <= y < 0x20_0000_0000_0000,
        big + e >= 1,
    ensures
        round(negative, x * pow2((big + e) as nat), y * pow2(big)) == pack(
            negative,
            ratio_nearest(x, y, e - ratio_quantum(x, y, e)),
            ratio_quantum(x, y, e),
        ),
{
    let t = ratio_quantum(x, y, e);
    let f = (big + e) as nat;
    let n = x * pow2(f);
    let d = y * pow2(big);
    lemma_pow2_pos(f);
    lemma_pow2_pos(big);
    assert(d > 0) by (nonlinear_arith)
        requires
            d == y * pow2(big),
            y > 0,
            pow2(big) > 0,
    ;
    // The quantum.
    lemma_mul_pow2_sum(y, big, 53 + t, big + 53 + t);
    let hi = y * pow2(big + 53 + t);
    assert(d * pow2(53 + t) == hi);
    if x >= y {
        lemma_mul_pow2_sum(y, f, 1, f + 1);
        lemma2_to64();
        lemma_mul_pow2_monotone(y, f + 1, big + 53 + t);
        assert(x * pow2(f) < (y * pow2(f)) * 2) by (nonlinear_arith)
            requires
                x < 2 * y,
                pow2(f) > 0,
        ;
        if t > 0 {
            lemma_mul_pow2_sum(y, big, 52 + t, f);
            assert(x * pow2(f) >= y * pow2(f)) by (nonlinear_arith)
                requires
                    x >= y,
            ;
        }
    } else {
        lemma_mul_pow2_monotone(y, f, big + 53 + t);
        assert(x * pow2(f) < y * pow2(f)) by (nonlinear_arith)
            requires
                x < y,
                pow2(f) > 0,
        ;
        if t > 0 {
            let f1 = (f - 1) as nat;
            lemma_mul_pow2_sum(y, big, 52 + t, f1);
            lemma_pow2_unfold(f);
            assert(x * pow2(f) >= y * pow2(f1)) by (nonlinear_arith)
                requires
                    2 * x >= y,
                    pow2(f) == 2 * pow2(f1),
            ;
        }
    }
    lemma_quantum_is(n, d, t);
    // The nearest multiple.
    let g = e - t;
    let w = big + t;
    lemma_mul_pow2_sum(y, big, t, w);
    lemma_pow2_pos(w);
    assert(d * pow2(t) == y * pow2(w));
    if g >= 0 {
        lemma_mul_pow2_sum(x, g as nat, w, f);
        lemma_nearest_even_scale(x * pow2(g as nat), y, pow2(w));
    } else {
        lemma_mul_pow2_sum(y, (-g) as nat, f, w);
        lemma_pow2_pos((-g) as nat);
        assert(y * pow2((-g) as nat) > 0) by (nonlinear_arith)
            requires
                y > 0,
                pow2((-g) as nat) > 0,
        ;
        lemma_nearest_even_scale(x, y * pow2((-g) as nat), pow2(f));
    }
}

/// A positive significand shifted up until its highest bit is at 2^52, and
/// the number of places it was shifted by.
pub fn normalize(m: u64) -> (r: (u64, u32))
    requires
        0 < m < 0x20_0000_0000_0000,
    ensures
        r.0 == m * pow2(r.1 as nat),
        0x10_0000_0000_0000 <= r.0 < 0x20_0000_0000_0000,
        r.1 <= 52,
        m >= 0x10_0000_0000_0000 ==> r.1 == 0,
{
    let l: u32 = bit_length(m as u128);
    proof {
        lemma_pow2_wide();
        lemma2_to64();
        lemma_bit_len_bounds(m as nat);
        if l > 53 {
            lemma_pow2_monotone(53, (l - 1) as nat);
        }
        if m >= 0x10_0000_0000_0000 && l < 53 {
            lemma_pow2_monotone(l as nat, 52);
        }
    }
    let z: u32 = 53 - l;
    let p: u128 = pow2_u128(z);
    proof {
        lemma_pow2_sum(l as nat, z as nat, 53);
        lemma_pow2_sum((l - 1) as nat, z as nat, 52);
        assert(m * p < pow2(l as nat) * p) by (nonlinear_arith)
            requires
                m < pow2(l as nat),
                p > 0,
        ;
        assert(m * p >= pow2((l - 1) as nat) * p) by (nonlinear_arith)
            requires
                m >= pow2((l - 1) as nat),
                p > 0,
        ;
    }
    (((m as u128) * p) as u64, z)
}

impl Limb {
    /// The quotient, rounded to nearest.
    pub fn div(self, other: Limb) -> (r: Limb)
        ensures
            r == quotient(self, other),
    {
        let negative: bool = self.is_sign_negative() != other.is_sign_negative();
        if self.is_nan() || other.is_nan() {
            return Limb { bits: NAN_BITS };
        }
        if self.is_infinite() {
            if other.is_infinite() {
                return Limb { bits: NAN_BITS };
            }
            return with_sign(negative, INF_BITS);
        }
        if other.is_infinite() {
            return with_sign(negative, 0);
        }
        if other.is_zero() {
            if self.is_zero() {
                return Limb { bits: NAN_BITS };
            }
            return with_sign(negative, INF_BITS);
        }
        let (ma, ea) = self.unpack();
        let (mb, eb) = other.unpack();
        proof {
            lemma_pow2_wide();
            lemma2_to64();
            lemma_pow2_pos(eb as nat);
            assert(mb * pow2(eb as nat) > 0) by (nonlinear_arith)
                requires
                    mb > 0,
                    pow2(eb as nat) > 0,
            ;
        }
        if ma == 0 {
            proof {
                assert(self.magnitude() * pow2(1074) == 0) by (nonlinear_arith)
                    requires
                        self.magnitude() == 0 * pow2(ea as nat),
                ;
                lemma_round_zero(negative, other.magnitude());
            }
            return with_sign(negative, 0);
        }
        let (x, za) = normalize(ma);
        let (y, zb) = normalize(mb);
        let e: i32 = (ea as i32 - za as i32) - (eb as i32 - zb as i32) + 1074;
        let t: i32 = if x >= y {
            if e > 52 {
                e - 52
            } else {
                0
            }
        } else {
            if e > 53 {
                e - 53
            } else {
                0
            }
        };
        let g: i32 = e - t;
        proof {
            let big: nat = 1200;
            lemma_ratio_round(negative, x as nat, y as nat, e as int, big);
            // The quotient of the limbs is the quotient of the aligned significands.
            let n1 = self.magnitude() * pow2(1074);
            let d1 = other.magnitude();
            let n2: nat = (x * pow2((big + e) as nat)) as nat;
            let d2: nat = (y * pow2(big)) as nat;
            let pa = pow2(ea as nat);
            let pb = pow2(eb as nat);
            let pza = pow2(za as nat);
            let pzb = pow2(zb as nat);
            let pu = pow2(1074);
            let pn = pow2((big + e) as nat);
            let pd = pow2(big);
            let all = pow2((ea + 1074 + zb + big) as nat);
            lemma_pow2_sum(ea as nat, 1074, (ea + 1074) as nat);
            lemma_pow2_sum(zb as nat, big, (zb + big) as nat);
            lemma_pow2_sum((ea + 1074) as nat, (zb + big) as nat, (ea + 1074 + zb + big) as nat);
            lemma_pow2_sum(za as nat, (big + e) as nat, (za + big + e) as nat);
            lemma_pow2_sum((za + big + e) as nat, eb as nat, (ea + 1074 + zb + big) as nat);
            lemma_pow2_pos(big);
            assert(n1 * d2 == (ma * mb) * all) by (nonlinear_arith)
                requires
                    n1 == (ma * pa) * pu,
                    d2 == (mb * pzb) * pd,
                    all == (pa * pu) * (pzb * pd),
            ;
            assert(n2 * d1 == (ma * mb) * all) by (nonlinear_arith)
                requires
                    n2 == (ma * pza) * pn,
                    d1 == mb * pb,
                    all == (pza * pn) * pb,
            ;
            assert(d2 > 0) by (nonlinear_arith)
                requires
                    d2 == y * pd,
                    y > 0,
                    pd > 0,
            ;
            lemma_round_ratio(negative, n1, d1, n2, d2);
        }
        if t >= 2047 {
            proof {
                let m = ratio_nearest(x as nat, y as nat, g as int);
                assert(t * HIDDEN_BIT + m >= INF_BITS) by (nonlinear_arith)
                    requires
                        t >= 2047,
                        m >= 0,
                        HIDDEN_BIT == 0x10_0000_0000_0000,
                        INF_BITS == 0x7FF0_0000_0000_0000,
                ;
            }
            return with_sign(negative, INF_BITS);
        }
        let m: u64;
        if g >= 0 {
            let p: u128 = pow2_u128(g as u32);
            proof {
                lemma_pow2_monotone(g as nat, 53);
                assert(x * p < 0x20_0000_0000_0000 * 0x20_0000_0000_0000) by (nonlinear_arith)
                    requires
                        x < 0x20_0000_0000_0000,
                        0 < p <= 0x20_0000_0000_0000,
                ;
                if x >= y {
                    lemma_pow2_monotone(g as nat, 52);
                    assert(x * p < y * pow2(53)) by (nonlinear_arith)
                        requires
                            x < 2 * y,
                            0 < p <= pow2(52),
                            pow2(53) == 2 * pow2(52),
                    ;
                } else {
                    assert(x * p < y * pow2(53)) by (nonlinear_arith)
                        requires
                            x < y,
                            0 < p <= pow2(53),
                    ;
                }
                lemma_multiply_divide_lt((x * p) as int, y as int, pow2(53) as int);
            }
            let n: u128 = (x as u128) * p;
            let q: u128 = n / (y as u128);
            let r: u128 = n % (y as u128);
            let up: bool = 2 * r > (y as u128) || (2 * r == (y as u128) && q % 2 == 1);
            m = if up {
                (q + 1) as u64
            } else {
                q as u64
            };
        } else {
            proof {
                let pg = pow2((-g) as nat);
                lemma_pow2_monotone(1, (-g) as nat);
                if g <= -2 {
                    lemma_pow2_monotone(2, (-g) as nat);
                }
                let dg: nat = (y * pg) as nat;
                assert(dg >= 2 * y && (g <= -2 ==> dg >= 4 * y) && (g == -1 ==> dg == 2 * y))
                    by (nonlinear_arith)
                    requires
                        dg == y * pg,
                        pg >= 2,
                        g <= -2 ==> pg >= 4,
                        g == -1 ==> pg == 2,
                ;
                lemma_basic_div(x as int, dg as int);
                lemma_small_mod(x as nat, dg);
            }
            m = if g == -1 && x > y {
                1
            } else {
                0
            };
        }
        let bits: u64 = (t as u64) * HIDDEN_BIT + m;
        if bits >= INF_BITS {
            with_sign(negative, INF_BITS)
        } else {
            with_sign(negative, bits)
        }
    }
}

} // verus!
