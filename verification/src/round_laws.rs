//! Laws of rounding: which numbers round to themselves, and that the limb a
//! number rounds to is the nearest of all limbs.

use crate::limb::{Limb, HIDDEN_BIT, INF_BITS};
use crate::power::{
    bit_len, lemma_bit_len_bounds, lemma_pow2_monotone, lemma_pow2_sum, lemma_pow2_wide,
};
use crate::rounding::{
    dyadic_nearest, lemma_dyadic_nearest, lemma_dyadic_quantum, lemma_pack_magnitude,
    lemma_quantum_bounds, lemma_quantum_is, lemma_round_zero, nearest_even, pack, quantum, round,
};
use vstd::arithmetic::div_mod::lemma_fundamental_div_mod;
use vstd::arithmetic::power2::{lemma2_to64, lemma_pow2_pos, pow2};
use vstd::prelude::*;

verus! {

/// `v` is `k * 2^j` for a `k` below 2^53, and is not beyond the largest
/// limb.
pub open spec fn fits(v: nat, k: nat, j: nat) -> bool {
    &&& v == k * pow2(j)
    &&& k < 0x20_0000_0000_0000
    &&& bit_len(k) + j <= 2098
}

/// A number of at most 53 significant bits that is not beyond the largest
/// limb rounds to itself.
pub proof fn lemma_representable(negative: bool, v: nat, k: nat, j: nat)
    requires
        fits(v, k, j),
    ensures
        round(negative, v, 1).finite(),
        round(negative, v, 1).magnitude() == v,
        round(negative, v, 1).negative() == negative,
{
    lemma_pow2_wide();
    lemma2_to64();
    if k == 0 {
        assert(0 * pow2(j) == 0);
        lemma_round_zero(negative, 1);
        lemma_pack_magnitude(negative, 0, 0);
        assert(0 * pow2(0) == 0);
        assert(pack(negative, 0, 0) == round(negative, 0, 1));
    } else {
        let l = bit_len(k);
        lemma_bit_len_bounds(k);
        if l > 53 {
            lemma_pow2_monotone(53, (l - 1) as nat);
        }
        let t: nat = if l + j > 53 {
            (l + j - 53) as nat
        } else {
            0
        };
        lemma_dyadic_quantum(k, j as int, t);
        lemma_dyadic_nearest(k, j as int, t);
        let up = (j - t) as nat;
        let m = k * pow2(up);
        lemma_pow2_pos(up);
        assert(1 * pow2(t) == pow2(t));
        if t == j {
            assert(pow2(up) == 1);
            assert(nearest_even(k, 1) == k);
            assert(m == k) by (nonlinear_arith)
                requires
                    m == k * pow2(up),
                    pow2(up) == 1,
            ;
        }
        assert(dyadic_nearest(k, j as int, t) == m);
        lemma_pow2_sum(l, up, l + up);
        lemma_pow2_monotone(l + up, 53);
        assert(m < pow2(l) * pow2(up)) by (nonlinear_arith)
            requires
                m == k * pow2(up),
                k < pow2(l),
                pow2(up) > 0,
        ;
        if t > 0 {
            lemma_pow2_sum((l - 1) as nat, up, 52);
            assert(m >= pow2((l - 1) as nat) * pow2(up)) by (nonlinear_arith)
                requires
                    m == k * pow2(up),
                    k >= pow2((l - 1) as nat),
                    pow2(up) > 0,
            ;
        }
        assert(t * HIDDEN_BIT + m < INF_BITS) by (nonlinear_arith)
            requires
                t <= 2045,
                m < 0x20_0000_0000_0000,
                HIDDEN_BIT == 0x10_0000_0000_0000,
                INF_BITS == 0x7FF0_0000_0000_0000,
        ;
        lemma_pack_magnitude(negative, m, t);
        lemma_pow2_sum(up, t, j);
        assert(m * pow2(t) == k * pow2(j)) by (nonlinear_arith)
            requires
                m == k * pow2(up),
                pow2(j) == pow2(up) * pow2(t),
        ;
    }
}

/// The quantum of the magnitude of a finite limb is its scale.
pub proof fn lemma_quantum_of_limb(a: Limb)
    requires
        a.finite(),
    ensures
        quantum(a.magnitude(), 1) == a.scale(),
{
    lemma_pow2_wide();
    let m = a.significand();
    let s = a.scale();
    let p = pow2(s);
    lemma_pow2_pos(s);
    lemma_pow2_sum(53, s, 53 + s);
    lemma_pow2_sum(52, s, 52 + s);
    assert(m * p < 0x20_0000_0000_0000 * p) by (nonlinear_arith)
        requires
            m < 0x20_0000_0000_0000,
            p > 0,
    ;
    if s > 0 {
        assert(m * p >= 0x10_0000_0000_0000 * p) by (nonlinear_arith)
            requires
                m >= 0x10_0000_0000_0000,
                p > 0,
        ;
    }
    lemma_quantum_is(m * p, 1, s);
}

/// The quantum does not fall as the number grows.
pub proof fn lemma_quantum_monotone(x: nat, y: nat)
    requires
        x <= y,
    ensures
        quantum(x, 1) <= quantum(y, 1),
{
    let tx = quantum(x, 1);
    let ty = quantum(y, 1);
    lemma_quantum_bounds(x, 1);
    lemma_quantum_bounds(y, 1);
    if tx > ty {
        lemma_pow2_monotone(53 + ty, 52 + tx);
    }
}

/// What a number rounds to, where that is finite: a multiple `m` of its
/// quantum `2^t` that is at most half a quantum away and is one of the two
/// multiples that the number lies between.
pub proof fn lemma_round_shape(negative: bool, n: nat) -> (r: (nat, nat))
    requires
        round(negative, n, 1).finite(),
    ensures
        r.1 == quantum(n, 1),
        round(negative, n, 1).magnitude() == r.0 * pow2(r.1),
        round(negative, n, 1).negative() == negative,
        r.0 == n / pow2(r.1) || r.0 == n / pow2(r.1) + 1,
        r.0 == n / pow2(r.1) ==> 2 * (n % pow2(r.1)) <= pow2(r.1),
        r.0 == n / pow2(r.1) + 1 ==> 2 * (n % pow2(r.1)) >= pow2(r.1),
        r.1 == 0 ==> r.0 == n,
        r.1 > 0 ==> n / pow2(r.1) >= 0x10_0000_0000_0000,
        n == pow2(r.1) * (n / pow2(r.1)) + n % pow2(r.1),
        0 <= n % pow2(r.1) < pow2(r.1),
        2 * (r.0 * pow2(r.1) - n) <= pow2(r.1),
        2 * (n - r.0 * pow2(r.1)) <= pow2(r.1),
        r.1 <= 2045,
        r.0 <= 0x20_0000_0000_0000,
        r.0 < 0x20_0000_0000_0000 || r.1 < 2045,
{
    lemma_pow2_wide();
    lemma2_to64();
    let t = quantum(n, 1);
    let p = pow2(t);
    lemma_pow2_pos(t);
    lemma_quantum_bounds(n, 1);
    assert(1 * p == p);
    let q = n / p;
    let m = nearest_even(n, p);
    lemma_fundamental_div_mod(n as int, p as int);
    lemma_pow2_sum(53, t, 53 + t);
    lemma_pow2_sum(52, t, 52 + t);
    assert(q < 0x20_0000_0000_0000 && (t > 0 ==> q >= 0x10_0000_0000_0000)) by (nonlinear_arith)
        requires
            n == p * q + n % p,
            0 <= n % p < p,
            n < 0x20_0000_0000_0000 * p,
            t > 0 ==> n >= 0x10_0000_0000_0000 * p,
            p > 0,
    ;
    assert(round(negative, n, 1) == pack(negative, m, t));
    assert(t * HIDDEN_BIT + m < INF_BITS);
    lemma_pack_magnitude(negative, m, t);
    if t == 0 {
        assert(p == 1);
        assert(n / 1 == n && n % 1 == 0);
    }
    let rem = n % p;
    assert(m * p - n == (if m == q {
        -(rem as int)
    } else {
        p - rem
    })) by (nonlinear_arith)
        requires
            n == p * q + rem,
            m == q || m == q + 1,
    ;
    (m, t)
}

/// No limb lies nearer to a number than the limb it rounds to.
pub proof fn lemma_round_nearest(negative: bool, n: nat, c: Limb)
    requires
        round(negative, n, 1).finite(),
        c.finite(),
    ensures
        c.magnitude() <= n ==> c.magnitude() <= round(negative, n, 1).magnitude() && round(
            negative,
            n,
            1,
        ).magnitude() - n <= n - c.magnitude(),
        c.magnitude() >= n ==> c.magnitude() >= round(negative, n, 1).magnitude() && n - round(
            negative,
            n,
            1,
        ).magnitude() <= c.magnitude() - n,
{
    lemma_pow2_wide();
    lemma2_to64();
    let (m, t) = lemma_round_shape(negative, n);
    let p = pow2(t) as int;
    let q = (n / pow2(t)) as int;
    let rem = (n % pow2(t)) as int;
    let r = round(negative, n, 1).magnitude() as int;
    let cm = c.magnitude() as int;
    lemma_quantum_of_limb(c);
    let mc = c.significand() as int;
    let sc = c.scale();
    let pc = pow2(sc) as int;
    // A limb that lies above the lower of the two multiples is a multiple
    // of the quantum itself.
    if t > 0 && cm >= q * p {
        assert(q * p >= 0x10_0000_0000_0000 * p) by (nonlinear_arith)
            requires
                q >= 0x10_0000_0000_0000,
                p > 0,
        ;
        lemma_pow2_sum(52, t, 52 + t);
        lemma_pow2_sum(53, t, 53 + t);
        lemma_quantum_bounds(n, 1);
        assert(q * p <= n) by (nonlinear_arith)
            requires
                n == p * q + rem,
                rem >= 0,
        ;
        lemma_quantum_is((q * p) as nat, 1, t);
        lemma_quantum_monotone((q * p) as nat, cm as nat);
        lemma_pow2_sum((sc - t) as nat, t, sc);
        let w = mc * pow2((sc - t) as nat);
        assert(cm == w * p) by (nonlinear_arith)
            requires
                cm == mc * pc,
                pc == pow2((sc - t) as nat) * p,
                w == mc * pow2((sc - t) as nat),
        ;
        assert(w <= q || w >= q + 1);
        assert(w <= q ==> w * p <= q * p) by (nonlinear_arith)
            requires
                p > 0,
        ;
        assert(w >= q + 1 ==> w * p >= (q + 1) * p) by (nonlinear_arith)
            requires
                p > 0,
        ;
    }
    assert(r == m * p);
    assert(m == q ==> r == q * p);
    assert(m == q + 1 ==> r == q * p + p) by (nonlinear_arith)
        requires
            r == m * p,
    ;
    assert(n == q * p + rem) by (nonlinear_arith)
        requires
            n == p * q + rem,
    ;
    assert((q + 1) * p == q * p + p) by (nonlinear_arith);
    if t == 0 {
        assert(r == n) by (nonlinear_arith)
            requires
                r == m * p,
                p == 1,
                m == n,
        ;
    }
}

} // verus!
