//! Rounding to nearest, ties to even.
//!
//! A nonnegative rational `n / d`, counted in units of 2^-1074, is rounded to a
//! limb in two steps. Its quantum is the spacing of the limbs around it, a power
//! of two that is never below one unit. The limb is then the multiple of the
//! quantum nearest to `n / d`, the even multiple where two are equally near.

use crate::limb::{signed, with_sign, Limb, HIDDEN_BIT, INF_BITS};
use crate::power::{
    bit_len, bit_length, lemma_bit_len_bounds, lemma_pow2_monotone, lemma_pow2_sum,
    lemma_pow2_wide, pow2_u128,
};
use vstd::arithmetic::div_mod::{
    lemma_basic_div, lemma_div_multiples_vanish_quotient, lemma_fundamental_div_mod,
    lemma_multiply_divide_lt, lemma_small_mod, lemma_truncate_middle,
};
use vstd::arithmetic::mul::{lemma_mul_is_commutative, lemma_mul_left_inequality};
use vstd::arithmetic::power2::{lemma_pow2_pos, lemma_pow2_unfold, pow2};
use vstd::prelude::*;

verus! {

/// The exponent of the quantum of `n / d`: the least `t` for which
/// `n / (d * 2^t)` is below 2^53.
pub open spec fn quantum(n: nat, d: nat) -> nat
    decreases n,
{
    if d == 0 || n < d * 0x20_0000_0000_0000 {
        0
    } else {
        1 + quantum(n / 2, d)
    }
}

/// The integer nearest to `n / d`, the even one of two that are equally near.
pub open spec fn nearest_even(n: nat, d: nat) -> nat {
    let q = n / d;
    let r = n % d;
    if 2 * r > d || (2 * r == d && q % 2 == 1) {
        q + 1
    } else {
        q
    }
}

/// The limb of magnitude `m * 2^t`, for `m` up to 2^53 and with `t` zero where
/// `m` is below 2^52; infinity where that magnitude is beyond the largest limb.
///
/// In the pattern the exponent field stands directly above the fraction, so
/// adding `m` to `t * 2^52` sets both, whether `m` has its implicit bit or has
/// just been rounded up to 2^53.
pub open spec fn pack(negative: bool, m: nat, t: nat) -> Limb {
    let b = t * HIDDEN_BIT + m;
    signed(
        negative,
        if b >= INF_BITS {
            INF_BITS
        } else {
            b as u64
        },
    )
}

/// The limb nearest to `n / d` units, with the given sign.
pub open spec fn round(negative: bool, n: nat, d: nat) -> Limb {
    let t = quantum(n, d);
    pack(negative, nearest_even(n, d * pow2(t)), t)
}

/// The numerator of `sig * 2^e` written as a ratio of naturals.
pub open spec fn dyadic_num(sig: nat, e: int) -> nat {
    if e >= 0 {
        sig * pow2(e as nat)
    } else {
        sig
    }
}

/// The denominator of `sig * 2^e` written as a ratio of naturals.
pub open spec fn dyadic_den(e: int) -> nat {
    if e >= 0 {
        1
    } else {
        pow2((-e) as nat)
    }
}

/// The limb nearest to `sig * 2^e` units, with the given sign.
pub open spec fn round_dyadic(negative: bool, sig: nat, e: int) -> Limb {
    round(negative, dyadic_num(sig, e), dyadic_den(e))
}

/// The quantum brackets the ratio.
pub proof fn lemma_quantum_bounds(n: nat, d: nat)
    requires
        d > 0,
    ensures
        n < d * pow2(53 + quantum(n, d)),
        quantum(n, d) > 0 ==> n >= d * pow2(52 + quantum(n, d)),
    decreases n,
{
    lemma_pow2_wide();
    if n < d * 0x20_0000_0000_0000 {
    } else {
        let t1 = quantum(n / 2, d);
        lemma_quantum_bounds(n / 2, d);
        lemma_pow2_unfold(54 + t1);
        lemma_pow2_unfold(53 + t1);
        let x = d * pow2(53 + t1);
        assert(d * pow2(54 + t1) == 2 * x) by (nonlinear_arith)
            requires
                x == d * pow2(53 + t1),
                pow2(54 + t1) == 2 * pow2(53 + t1),
        ;
        if t1 > 0 {
            let y = d * pow2(52 + t1);
            assert(d * pow2(53 + t1) == 2 * y) by (nonlinear_arith)
                requires
                    y == d * pow2(52 + t1),
                    pow2(53 + t1) == 2 * pow2(52 + t1),
            ;
        }
    }
}

/// The one exponent that brackets the ratio is its quantum.
pub proof fn lemma_quantum_is(n: nat, d: nat, t: nat)
    requires
        d > 0,
        n < d * pow2(53 + t),
        t > 0 ==> n >= d * pow2(52 + t),
    ensures
        quantum(n, d) == t,
    decreases t,
{
    lemma_pow2_wide();
    if t > 0 {
        lemma_pow2_monotone(53, 52 + t);
        lemma_mul_left_inequality(d as int, pow2(53) as int, pow2(52 + t) as int);
        lemma_pow2_unfold(53 + t);
        lemma_pow2_unfold(52 + t);
        let x = d * pow2(52 + t);
        assert(d * pow2(53 + t) == 2 * x) by (nonlinear_arith)
            requires
                x == d * pow2(52 + t),
                pow2(53 + t) == 2 * pow2(52 + t),
        ;
        assert(n / 2 < d * pow2(53 + (t - 1) as nat));
        if t > 1 {
            let y = d * pow2(51 + t);
            assert(d * pow2(52 + t) == 2 * y) by (nonlinear_arith)
                requires
                    y == d * pow2(51 + t),
                    pow2(52 + t) == 2 * pow2((51 + t) as nat),
            ;
            assert(n / 2 >= d * pow2(52 + (t - 1) as nat));
        }
        lemma_quantum_is(n / 2, d, (t - 1) as nat);
    }
}

/// Rounding to an integer sees only the ratio.
pub proof fn lemma_nearest_even_scale(n: nat, d: nat, c: nat)
    requires
        d > 0,
        c > 0,
    ensures
        nearest_even(n * c, d * c) == nearest_even(n, d),
{
    lemma_div_multiples_vanish_quotient(c as int, n as int, d as int);
    lemma_truncate_middle(n as int, c as int, d as int);
    lemma_mul_is_commutative(n as int, c as int);
    lemma_mul_is_commutative(d as int, c as int);
    let r = n % d;
    let rc = (n * c) % (d * c);
    assert(rc == c * r);
    assert(2 * rc > d * c <==> 2 * r > d) by (nonlinear_arith)
        requires
            rc == c * r,
            c > 0,
    ;
    assert(2 * rc == d * c <==> 2 * r == d) by (nonlinear_arith)
        requires
            rc == c * r,
            c > 0,
    ;
}

/// The quantum sees only the ratio.
pub proof fn lemma_quantum_scale(n: nat, d: nat, c: nat)
    requires
        d > 0,
        c > 0,
    ensures
        quantum(n * c, d * c) == quantum(n, d),
{
    let t = quantum(n, d);
    lemma_quantum_bounds(n, d);
    let hi = pow2(53 + t);
    assert(n * c < (d * c) * hi) by (nonlinear_arith)
        requires
            n < d * hi,
            c > 0,
    ;
    if t > 0 {
        let lo = pow2(52 + t);
        assert(n * c >= (d * c) * lo) by (nonlinear_arith)
            requires
                n >= d * lo,
                c > 0,
        ;
    }
    assert(d * c > 0) by (nonlinear_arith)
        requires
            d > 0,
            c > 0,
    ;
    lemma_quantum_is(n * c, d * c, t);
}

/// Rounding sees only the ratio.
pub proof fn lemma_round_scale(negative: bool, n: nat, d: nat, c: nat)
    requires
        d > 0,
        c > 0,
    ensures
        round(negative, n * c, d * c) == round(negative, n, d),
{
    lemma_quantum_scale(n, d, c);
    let t = quantum(n, d);
    lemma_pow2_pos(t);
    let p = pow2(t);
    assert((d * c) * p == (d * p) * c) by (nonlinear_arith);
    assert(d * p > 0) by (nonlinear_arith)
        requires
            d > 0,
            p > 0,
    ;
    lemma_nearest_even_scale(n, d * p, c);
}

/// Two ratios that are equal round to the same limb.
pub proof fn lemma_round_ratio(negative: bool, n1: nat, d1: nat, n2: nat, d2: nat)
    requires
        d1 > 0,
        d2 > 0,
        n1 * d2 == n2 * d1,
    ensures
        round(negative, n1, d1) == round(negative, n2, d2),
{
    lemma_round_scale(negative, n1, d1, d2);
    lemma_round_scale(negative, n2, d2, d1);
    assert(d1 * d2 == d2 * d1) by (nonlinear_arith);
}

/// Zero rounds to zero.
pub proof fn lemma_round_zero(negative: bool, d: nat)
    requires
        d > 0,
    ensures
        round(negative, 0, d) == signed(negative, 0),
{
    vstd::arithmetic::power2::lemma2_to64();
    assert(quantum(0, d) == 0);
    assert(d * pow2(0) == d) by (nonlinear_arith)
        requires
            pow2(0) == 1,
    ;
    lemma_basic_div(0, d as int);
    lemma_small_mod(0, d);
    assert(nearest_even(0, d) == 0);
}

/// The quantum of `sig * 2^e`, from the bit length of `sig`.
pub proof fn lemma_dyadic_quantum(sig: nat, e: int, t: nat)
    requires
        sig > 0,
        t == if bit_len(sig) + e > 53 {
            bit_len(sig) + e - 53
        } else {
            0
        },
    ensures
        quantum(dyadic_num(sig, e), dyadic_den(e)) == t,
{
    let l = bit_len(sig);
    lemma_bit_len_bounds(sig);
    let lo = pow2((l - 1) as nat);
    let hi = pow2(l);
    if e >= 0 {
        let pe = pow2(e as nat);
        lemma_pow2_sum(l, e as nat, l + e as nat);
        lemma_pow2_monotone(l + e as nat, 53 + t);
        assert(sig * pe < hi * pe) by (nonlinear_arith)
            requires
                sig < hi,
                pe > 0,
        ;
        if t > 0 {
            lemma_pow2_sum((l - 1) as nat, e as nat, 52 + t);
            assert(sig * pe >= lo * pe) by (nonlinear_arith)
                requires
                    sig >= lo,
                    pe > 0,
            ;
        }
        lemma_quantum_is(sig * pe, 1, t);
    } else {
        let f = (-e) as nat;
        lemma_pow2_sum(f, 53 + t, f + 53 + t);
        lemma_pow2_monotone(l, f + 53 + t);
        if t > 0 {
            lemma_pow2_sum(f, 52 + t, (l - 1) as nat);
        }
        lemma_quantum_is(sig, pow2(f), t);
    }
}

/// What rounding `sig * 2^e` to multiples of `2^t` comes to on `sig` itself.
pub open spec fn dyadic_nearest(sig: nat, e: int, t: nat) -> nat {
    if t >= e {
        nearest_even(sig, pow2((t - e) as nat))
    } else {
        sig * pow2((e - t) as nat)
    }
}

/// Rounding `sig * 2^e` to multiples of `2^t` is done on `sig` itself.
pub proof fn lemma_dyadic_nearest(sig: nat, e: int, t: nat)
    ensures
        nearest_even(dyadic_num(sig, e), dyadic_den(e) * pow2(t)) == dyadic_nearest(sig, e, t),
{
    lemma_pow2_pos(t);
    if e < 0 {
        lemma_pow2_sum((-e) as nat, t, (t - e) as nat);
    } else if t >= e {
        let k = (t - e) as nat;
        lemma_pow2_sum(k, e as nat, t);
        lemma_nearest_even_scale(sig, pow2(k), pow2(e as nat));
    } else {
        let k = (e - t) as nat;
        lemma_pow2_sum(k, t, e as nat);
        let x = sig * pow2(k);
        assert(sig * pow2(e as nat) == x * pow2(t)) by (nonlinear_arith)
            requires
                x == sig * pow2(k),
                pow2(e as nat) == pow2(k) * pow2(t),
        ;
        lemma_nearest_even_scale(x, 1, pow2(t));
        assert(1 * pow2(t) == pow2(t));
        assert(nearest_even(x, 1) == x);
    }
}

/// The magnitude of a packed significand.
pub proof fn lemma_pack_magnitude(negative: bool, m: nat, t: nat)
    requires
        m <= 0x20_0000_0000_0000,
        m < 0x10_0000_0000_0000 ==> t == 0,
        t * HIDDEN_BIT + m < INF_BITS,
    ensures
        pack(negative, m, t).finite(),
        pack(negative, m, t).negative() == negative,
        pack(negative, m, t).magnitude() == m * pow2(t),
{
    lemma_pow2_wide();
    vstd::arithmetic::power2::lemma2_to64();
    let a = pack(negative, m, t);
    let b = t * HIDDEN_BIT + m;
    assert(a.abs_bits() == b);
    if m < 0x10_0000_0000_0000 {
        assert(a.significand() == m);
        assert(a.scale() == 0);
        assert(m * pow2(0) == m) by (nonlinear_arith)
            requires
                pow2(0) == 1,
        ;
    } else if m < 0x20_0000_0000_0000 {
        assert(b == (t + 1) * HIDDEN_BIT + (m - HIDDEN_BIT));
        assert(a.biased_exp() == t + 1);
        assert(a.fraction() == m - HIDDEN_BIT);
    } else {
        assert(b == (t + 2) * HIDDEN_BIT);
        assert(a.biased_exp() == t + 2);
        assert(a.fraction() == 0);
        lemma_pow2_unfold(t + 1);
        let p = pow2(t);
        assert(0x10_0000_0000_0000 * (2 * p) == 0x20_0000_0000_0000 * p) by (nonlinear_arith);
    }
}

/// A rounded limb together with what the rounding left over.
pub struct Rounded {
    /// The limb nearest to the exact value.
    pub limb: Limb,
    /// The distance from the limb to the exact value, counted in the units
    /// that the exact value was given in.
    pub residue: u128,
    /// The limb lies beyond the exact value, away from zero.
    pub over: bool,
}

/// What `round_split` leaves over: the exact value is the magnitude of the
/// limb less the residue where the limb lies beyond it, plus the residue
/// where it does not.
pub open spec fn splits(r: Rounded, sig: nat, e: int) -> bool {
    r.limb.magnitude() * dyadic_den(e) + (if r.over {
        -(dyadic_num(r.residue as nat, e) as int)
    } else {
        dyadic_num(r.residue as nat, e) as int
    }) == dyadic_num(sig, e)
}

/// The limb nearest to `sig * 2^e` units, with the given sign, and the
/// residue of the rounding.
pub fn round_split(negative: bool, sig: u128, e: i32) -> (r: Rounded)
    requires
        sig < 0x100_0000_0000_0000_0000_0000_0000_0000,
        -4000 <= e <= 4000,
    ensures
        r.limb == round_dyadic(negative, sig as nat, e as int),
        r.residue <= sig,
        r.limb.finite() ==> splits(r, sig as nat, e as int),
{
    proof {
        lemma_pow2_wide();
        vstd::arithmetic::power2::lemma2_to64();
        if e < 0 {
            lemma_pow2_pos((-e) as nat);
        } else {
            lemma_pow2_pos(e as nat);
        }
    }
    let ghost den = dyadic_den(e as int);
    if sig == 0 {
        proof {
            assert(e >= 0 ==> 0 * pow2(e as nat) == 0);
            assert(dyadic_num(0, e as int) == 0);
            assert(quantum(0, den) == 0);
            assert(den * pow2(0) == den) by (nonlinear_arith)
                requires
                    pow2(0) == 1,
            ;
            lemma_basic_div(0, den as int);
            lemma_small_mod(0, den);
            assert(nearest_even(0, den) == 0);
            lemma_pack_magnitude(negative, 0, 0);
            assert(0 * pow2(0) == 0);
            assert(0 * den == 0);
        }
        return Rounded { limb: with_sign(negative, 0), residue: 0, over: false };
    }
    let l: i32 = bit_length(sig) as i32;
    let t: i32 = if l + e > 53 {
        l + e - 53
    } else {
        0
    };
    proof {
        lemma_bit_len_bounds(sig as nat);
        if l > 120 {
            lemma_pow2_monotone(120, (l - 1) as nat);
        }
        lemma_dyadic_quantum(sig as nat, e as int, t as nat);
        lemma_dyadic_nearest(sig as nat, e as int, t as nat);
        lemma_pow2_pos(t as nat);
    }
    if t >= 2047 {
        proof {
            let m = dyadic_nearest(sig as nat, e as int, t as nat);
            assert(t * HIDDEN_BIT + m >= INF_BITS) by (nonlinear_arith)
                requires
                    t >= 2047,
                    m >= 0,
                    HIDDEN_BIT == 0x10_0000_0000_0000,
                    INF_BITS == 0x7FF0_0000_0000_0000,
            ;
        }
        return Rounded { limb: with_sign(negative, INF_BITS), residue: 0, over: false };
    }
    let k: i32 = t - e;
    let m: u64;
    let residue: u128;
    let over: bool;
    if k >= 122 {
        proof {
            let p = pow2(k as nat);
            lemma_pow2_monotone(122, k as nat);
            lemma_pow2_sum(120, 2, 122);
            lemma_basic_div(sig as int, p as int);
            lemma_small_mod(sig as nat, p);
            lemma_pack_magnitude(negative, 0, 0);
            assert(0 * pow2(0) == 0);
            assert(0 * den == 0);
        }
        m = 0;
        residue = sig;
        over = false;
    } else if k >= 0 {
        let p: u128 = pow2_u128(k as u32);
        let q: u128 = sig / p;
        let r: u128 = sig % p;
        proof {
            lemma_pow2_monotone(k as nat, 121);
            lemma_pow2_sum(120, 1, 121);
            lemma_pow2_sum(k as nat, 53, (k + 53) as nat);
            lemma_pow2_monotone(l as nat, (k + 53) as nat);
            lemma_multiply_divide_lt(sig as int, p as int, pow2(53) as int);
            lemma_fundamental_div_mod(sig as int, p as int);
            if t > 0 {
                lemma_pow2_sum(k as nat, 52, (l - 1) as nat);
                assert(q >= 0x10_0000_0000_0000) by (nonlinear_arith)
                    requires
                        sig == p * q + r,
                        r < p,
                        sig >= p * 0x10_0000_0000_0000,
                ;
            }
        }
        over = 2 * r > p || (2 * r == p && q % 2 == 1);
        if over {
            m = (q + 1) as u64;
            residue = p - r;
        } else {
            m = q as u64;
            residue = r;
        }
        proof {
            if (t as u64) * HIDDEN_BIT + m < INF_BITS {
                lemma_pack_magnitude(negative, m as nat, t as nat);
                let pt = pow2(t as nat);
                let mag = m * pt;
                if e >= 0 {
                    let pe = pow2(e as nat);
                    lemma_pow2_sum(k as nat, e as nat, t as nat);
                    assert(mag * 1 + (if over {
                        -(residue * pe)
                    } else {
                        residue * pe
                    }) == sig * pe) by (nonlinear_arith)
                        requires
                            mag == m * pt,
                            pt == p * pe,
                            sig == p * q + r,
                            over ==> m == q + 1 && residue == p - r,
                            !over ==> m == q && residue == r,
                    ;
                } else {
                    let pf = pow2((-e) as nat);
                    lemma_pow2_sum(t as nat, (-e) as nat, k as nat);
                    assert(mag * pf + (if over {
                        -residue
                    } else {
                        residue as int
                    }) == sig) by (nonlinear_arith)
                        requires
                            mag == m * pt,
                            p == pt * pf,
                            sig == p * q + r,
                            over ==> m == q + 1 && residue == p - r,
                            !over ==> m == q && residue == r,
                    ;
                }
            }
        }
    } else {
        let p: u128 = pow2_u128((-k) as u32);
        proof {
            lemma_pow2_sum(l as nat, (-k) as nat, (l - k) as nat);
            lemma_pow2_monotone((l - k) as nat, 53);
            assert(sig * p < pow2(l as nat) * p) by (nonlinear_arith)
                requires
                    sig < pow2(l as nat),
                    p > 0,
            ;
            if t > 0 {
                lemma_pow2_sum((l - 1) as nat, (-k) as nat, 52);
                assert(sig * p >= pow2((l - 1) as nat) * p) by (nonlinear_arith)
                    requires
                        sig >= pow2((l - 1) as nat),
                        p > 0,
                ;
            }
        }
        m = (sig * p) as u64;
        residue = 0;
        over = false;
        proof {
            if (t as u64) * HIDDEN_BIT + m < INF_BITS {
                lemma_pack_magnitude(negative, m as nat, t as nat);
                let pt = pow2(t as nat);
                let pe = pow2(e as nat);
                lemma_pow2_sum((-k) as nat, t as nat, e as nat);
                assert(0 * pe == 0);
                assert((m * pt) * 1 + 0 == sig * pe) by (nonlinear_arith)
                    requires
                        m == sig * p,
                        pe == p * pt,
                ;
            }
        }
    }
    let bits: u64 = (t as u64) * HIDDEN_BIT + m;
    if bits >= INF_BITS {
        Rounded { limb: with_sign(negative, INF_BITS), residue, over }
    } else {
        Rounded { limb: with_sign(negative, bits), residue, over }
    }
}

/// The limb nearest to `sig * 2^e` units, with the given sign.
pub fn round_pack(negative: bool, sig: u128, e: i32) -> (r: Limb)
    requires
        sig < 0x100_0000_0000_0000_0000_0000_0000_0000,
        -4000 <= e <= 4000,
    ensures
        r == round_dyadic(negative, sig as nat, e as int),
{
    round_split(negative, sig, e).limb
}

} // verus!
