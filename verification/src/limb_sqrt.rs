//! The square root of a limb.

use crate::limb::{nan_limb, with_sign, Limb, HIDDEN_BIT, NAN_BITS};
use crate::limb_div::normalize;
use crate::power::{lemma_pow2_monotone, lemma_pow2_sum, lemma_pow2_wide};
use crate::rounding::pack;
use vstd::arithmetic::div_mod::lemma_div_by_multiple;
use vstd::arithmetic::power2::{lemma2_to64, lemma_pow2_pos, pow2};
use vstd::prelude::*;

verus! {

/// The whole part of the square root of `n`.
pub open spec fn isqrt(n: nat) -> nat
    decreases n,
{
    if n == 0 {
        0
    } else {
        let r = 2 * isqrt(n / 4);
        if (r + 1) * (r + 1) <= n {
            r + 1
        } else {
            r
        }
    }
}

/// The exponent of the quantum of the square root of `n`: the least `t` for
/// which `n / 4^t` is below 2^106.
pub open spec fn sqrt_quantum(n: nat) -> nat
    decreases n,
{
    if n < 0x400_0000_0000_0000_0000_0000_0000 {
        0
    } else {
        1 + sqrt_quantum(n / 4)
    }
}

/// The limb nearest to the square root of `n`, for `n` in squares of units.
///
/// The magnitude of a limb, brought to squares of units, is a whole multiple
/// of `4^t`, so the quotient below is exact. A square root of a whole number
/// never lies halfway between two whole numbers, so no tie arises.
pub open spec fn round_sqrt(n: nat) -> Limb {
    let t = sqrt_quantum(n);
    let x = n / pow2(2 * t);
    let q = isqrt(x);
    pack(
        false,
        if x > q * q + q {
            q + 1
        } else {
            q
        },
        t,
    )
}

/// The square root of a limb: the limb nearest to the exact root, with the
/// special values of binary64 arithmetic.
pub open spec fn root(a: Limb) -> Limb {
    if a.nan() {
        nan_limb()
    } else if a.zero() {
        a
    } else if a.negative() {
        nan_limb()
    } else if a.infinite() {
        a
    } else {
        round_sqrt(a.magnitude() * pow2(1074))
    }
}

/// The whole root brackets its argument between two squares.
pub proof fn lemma_isqrt_bounds(n: nat)
    ensures
        isqrt(n) * isqrt(n) <= n < (isqrt(n) + 1) * (isqrt(n) + 1),
    decreases n,
{
    if n > 0 {
        let s = isqrt(n / 4);
        lemma_isqrt_bounds(n / 4);
        let r = 2 * s;
        assert(r * r <= n && n < (r + 2) * (r + 2)) by (nonlinear_arith)
            requires
                r == 2 * s,
                s * s <= n / 4,
                n / 4 < (s + 1) * (s + 1),
        ;
        let q = isqrt(n);
        if (r + 1) * (r + 1) <= n {
            assert(q == r + 1);
            assert((q + 1) * (q + 1) == (r + 2) * (r + 2)) by (nonlinear_arith)
                requires
                    q == r + 1,
            ;
        } else {
            assert(q == r);
        }
    } else {
        let q = isqrt(n);
        assert(q * q <= n < (q + 1) * (q + 1)) by (nonlinear_arith)
            requires
                q == 0,
                n == 0,
        ;
    }
}

/// Only one whole number brackets `n` between its square and the next.
pub proof fn lemma_isqrt_unique(n: nat, q: nat)
    requires
        q * q <= n < (q + 1) * (q + 1),
    ensures
        isqrt(n) == q,
{
    lemma_isqrt_bounds(n);
    let s = isqrt(n);
    assert(s == q) by (nonlinear_arith)
        requires
            s * s <= n < (s + 1) * (s + 1),
            q * q <= n < (q + 1) * (q + 1),
            s >= 0,
            q >= 0,
    ;
}

/// The one exponent that brackets `n` is the quantum of its root.
pub proof fn lemma_sqrt_quantum_is(n: nat, t: nat)
    requires
        n < pow2(2 * t + 106),
        t > 0 ==> n >= pow2(2 * t + 104),
    ensures
        sqrt_quantum(n) == t,
    decreases t,
{
    lemma_pow2_wide();
    lemma2_to64();
    if t > 0 {
        lemma_pow2_sum(2, (2 * t + 104) as nat, 2 * t + 106);
        lemma_pow2_sum(2, (2 * t + 102) as nat, 2 * t + 104);
        lemma_pow2_sum(104, 2, 106);
        lemma_pow2_monotone(106, 2 * t + 104);
        lemma_sqrt_quantum_is(n / 4, (t - 1) as nat);
    }
}

/// The whole root of a number between 2^104 and 2^106 lies between 2^52
/// and 2^53.
pub proof fn lemma_root_range(x: nat, q: nat)
    requires
        q == isqrt(x),
        0x100_0000_0000_0000_0000_0000_0000 <= x < 0x400_0000_0000_0000_0000_0000_0000,
    ensures
        0x10_0000_0000_0000 <= q < 0x20_0000_0000_0000,
        q * q + q < 0x400_0000_0000_0000_0000_0000_0000,
{
    lemma_isqrt_bounds(x);
    assert(0x10_0000_0000_0000 <= q < 0x20_0000_0000_0000) by (nonlinear_arith)
        requires
            q * q <= x < (q + 1) * (q + 1),
            0x100_0000_0000_0000_0000_0000_0000 <= x < 0x400_0000_0000_0000_0000_0000_0000,
            q >= 0,
    ;
    assert(q * q + q < 0x400_0000_0000_0000_0000_0000_0000) by (nonlinear_arith)
        requires
            0 <= q < 0x20_0000_0000_0000,
    ;
}

/// The whole part of the square root of `x`.
pub fn whole_root(x: u128) -> (q: u64)
    requires
        x < 0x400_0000_0000_0000_0000_0000_0000,
    ensures
        q == isqrt(x as nat),
        q < 0x20_0000_0000_0000,
{
    let mut lo: u128 = 0;
    let mut hi: u128 = 0x20_0000_0000_0000;
    assert(0x20_0000_0000_0000u128 * 0x20_0000_0000_0000u128 == 0x400_0000_0000_0000_0000_0000_0000u128)
        by (nonlinear_arith);
    while hi - lo > 1
        invariant
            lo < hi <= 0x20_0000_0000_0000,
            lo * lo <= x < hi * hi,
        decreases hi - lo,
    {
        let mid: u128 = lo + (hi - lo) / 2;
        assert(mid * mid <= 0x20_0000_0000_0000 * 0x20_0000_0000_0000) by (nonlinear_arith)
            requires
                mid <= 0x20_0000_0000_0000,
        ;
        if mid * mid <= x {
            lo = mid;
        } else {
            hi = mid;
        }
    }
    proof {
        lemma_isqrt_unique(x as nat, lo as nat);
    }
    lo as u64
}

impl Limb {
    /// The square root, rounded to nearest.
    pub fn sqrt(self) -> (r: Limb)
        ensures
            r == root(self),
    {
        if self.is_nan() {
            return Limb { bits: NAN_BITS };
        }
        if self.is_zero() {
            return self;
        }
        if self.is_sign_negative() {
            return Limb { bits: NAN_BITS };
        }
        if self.is_infinite() {
            return self;
        }
        let (m, e) = self.unpack();
        let (x, z) = normalize(m);
        let w: u32 = e + 1074 - z;
        let odd: bool = w % 2 == 1;
        let t: u32 = if odd {
            (w - 53) / 2
        } else {
            (w - 52) / 2
        };
        let up: u128 = if odd {
            0x20_0000_0000_0000
        } else {
            0x10_0000_0000_0000
        };
        proof {
            lemma_pow2_wide();
            lemma2_to64();
            assert(x * up < 0x20_0000_0000_0000 * 0x20_0000_0000_0000 && x * up
                >= 0x10_0000_0000_0000 * 0x10_0000_0000_0000) by (nonlinear_arith)
                requires
                    0x10_0000_0000_0000 <= x < 0x20_0000_0000_0000,
                    0x10_0000_0000_0000 <= up <= 0x20_0000_0000_0000,
            ;
        }
        let wide: u128 = (x as u128) * up;
        let q: u64 = whole_root(wide);
        proof {
            // The magnitude in squares of units is `wide * 4^t`.
            let n = self.magnitude() * pow2(1074);
            let pz = pow2(z as nat);
            let pe = pow2(e as nat);
            let pu = pow2(1074);
            let pt = pow2((2 * t) as nat);
            let s: nat = if odd {
                53
            } else {
                52
            };
            lemma_pow2_sum(e as nat, 1074, (e + 1074) as nat);
            lemma_pow2_sum(z as nat, (s + 2 * t) as nat, (e + 1074) as nat);
            lemma_pow2_sum(s, (2 * t) as nat, (s + 2 * t) as nat);
            lemma_pow2_pos((2 * t) as nat);
            lemma_pow2_pos(z as nat);
            assert(n * pz == (wide * pt) * pz) by (nonlinear_arith)
                requires
                    n == (m * pe) * pu,
                    x == m * pz,
                    wide == x * up,
                    up == pow2(s),
                    pe * pu == pz * (pow2(s) * pt),
            ;
            assert(n == wide * pt) by (nonlinear_arith)
                requires
                    n * pz == (wide * pt) * pz,
                    pz > 0,
            ;
            lemma_pow2_sum(106, (2 * t) as nat, (2 * t + 106) as nat);
            lemma_pow2_sum(104, (2 * t) as nat, (2 * t + 104) as nat);
            lemma_pow2_sum(52, 52, 104);
            assert(pow2(104) == 0x100_0000_0000_0000_0000_0000_0000);
            assert(wide * pt < pow2(106) * pt && wide * pt >= pow2(104) * pt) by (nonlinear_arith)
                requires
                    pow2(104) <= wide < pow2(106),
                    pt > 0,
            ;
            lemma_pow2_sum(52, 52, 104);
            lemma_sqrt_quantum_is(n, t as nat);
            lemma_div_by_multiple(wide as int, pt as int);
            lemma_root_range(wide as nat, q as nat);
        }
        let big: u128 = q as u128;
        let m2: u64 = if wide > big * big + big {
            q + 1
        } else {
            q
        };
        with_sign(false, (t as u64) * HIDDEN_BIT + m2)
    }
}

} // verus!
