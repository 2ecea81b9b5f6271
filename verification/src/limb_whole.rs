//! Whole numbers: the floor of a limb, the whole number nearest to it, and
//! its conversion to a machine integer.

use crate::limb::{nan_limb, with_sign, zero_limb, Limb, NAN_BITS};
use crate::limb_add::lemma_round_exact;
use crate::power::{lemma_pow2_monotone, lemma_pow2_sum, lemma_pow2_wide, pow2_u128};
use crate::rounding::{round, round_pack};
use vstd::arithmetic::div_mod::{
    lemma_basic_div, lemma_div_multiples_vanish_quotient, lemma_fundamental_div_mod,
    lemma_fundamental_div_mod_converse,
};
use vstd::arithmetic::power2::{lemma2_to64, lemma_pow2_pos, pow2};
use vstd::prelude::*;

verus! {

/// The limb of the whole number `k`, or the zero of the given sign where `k`
/// is zero.
pub open spec fn whole_limb(k: int, zero_negative: bool) -> Limb {
    if k == 0 {
        zero_limb(zero_negative)
    } else if k < 0 {
        round(true, (-k) as nat * pow2(1074), 1)
    } else {
        round(false, k as nat * pow2(1074), 1)
    }
}

/// The largest whole number that is not above the limb.
pub open spec fn floor_of(a: Limb) -> Limb {
    if a.nan() {
        nan_limb()
    } else if a.infinite() || a.zero() {
        a
    } else {
        whole_limb(a.value() / (pow2(1074) as int), a.negative())
    }
}

/// The whole number nearest to the limb, the one farther from zero of two
/// that are equally near.
pub open spec fn nearest_whole(a: Limb) -> Limb {
    if a.nan() {
        nan_limb()
    } else if a.infinite() || a.zero() {
        a
    } else {
        let k = ((2 * a.magnitude() + pow2(1074)) / (2 * pow2(1074))) as int;
        whole_limb(
            if a.negative() {
                -k
            } else {
                k
            },
            a.negative(),
        )
    }
}

/// The limb cut off toward zero and brought into the range of `i32`; zero
/// for a NaN.
pub open spec fn truncated(a: Limb) -> i32 {
    if a.nan() {
        0
    } else if a.infinite() {
        if a.negative() {
            i32::MIN
        } else {
            i32::MAX
        }
    } else {
        let k = (a.magnitude() / pow2(1074)) as int;
        if a.negative() {
            if k >= 0x8000_0000 {
                i32::MIN
            } else {
                (-k) as i32
            }
        } else {
            if k >= 0x7FFF_FFFF {
                i32::MAX
            } else {
                k as i32
            }
        }
    }
}

/// The floor of `(+/-) m * 2^e / 2^(s + e)`, from the quotient and the
/// remainder of `m` by `2^s`.
proof fn lemma_floor_parts(m: nat, e: nat, s: nat, q: nat, r: nat, negative: bool)
    requires
        m == q * pow2(s) + r,
        r < pow2(s),
    ensures
        (m * pow2(e)) / pow2(s + e) == q,
        negative ==> (-(m * pow2(e))) / (pow2(s + e) as int) == if r == 0 {
            -(q as int)
        } else {
            -(q as int) - 1
        },
{
    let pe = pow2(e) as int;
    let ps = pow2(s) as int;
    let p = pow2(s + e) as int;
    lemma_pow2_sum(s, e, s + e);
    let v = m * pe;
    let low = r * pe;
    assert(v == q * p + low && 0 <= low < p && (r > 0 ==> low > 0)) by (nonlinear_arith)
        requires
            m == q * ps + r,
            0 <= r < ps,
            p == ps * pe,
            v == m * pe,
            low == r * pe,
            pe > 0,
    ;
    lemma_fundamental_div_mod_converse(v, p, q as int, low);
    if negative {
        if r == 0 {
            assert(-v == (-(q as int)) * p + 0) by (nonlinear_arith)
                requires
                    v == q * p + low,
                    low == 0,
            ;
            lemma_fundamental_div_mod_converse(-v, p, -(q as int), 0);
        } else {
            assert(-v == (-(q as int) - 1) * p + (p - low)) by (nonlinear_arith)
                requires
                    v == q * p + low,
            ;
            lemma_fundamental_div_mod_converse(-v, p, -(q as int) - 1, p - low);
        }
    }
}

/// A limb whose scale is at least 1074 is a whole number.
proof fn lemma_whole_already(a: Limb)
    requires
        a.finite(),
        !a.zero(),
        a.scale() >= 1074,
    ensures
        floor_of(a) == a,
        nearest_whole(a) == a,
        a.magnitude() / pow2(1074) >= 0x10_0000_0000_0000,
{
    lemma_pow2_wide();
    lemma2_to64();
    let m = a.significand();
    let e = a.scale();
    let up = (e - 1074) as nat;
    let p = pow2(1074) as int;
    let j = (m * pow2(up)) as int;
    lemma_pow2_sum(up, 1074, e);
    lemma_pow2_pos(up);
    lemma_pow2_pos(1074);
    let mag = a.magnitude() as int;
    assert(mag == j * p && j >= m) by (nonlinear_arith)
        requires
            mag == m * pow2(e),
            pow2(e) == pow2(up) * p,
            j == m * pow2(up),
            pow2(up) > 0,
    ;
    lemma_round_exact(a);
    lemma_fundamental_div_mod_converse(mag, p, j, 0);
    assert(-mag == (-j) * p + 0) by (nonlinear_arith)
        requires
            mag == j * p,
    ;
    lemma_fundamental_div_mod_converse(-mag, p, -j, 0);
    assert(2 * mag + p == j * (2 * p) + p) by (nonlinear_arith)
        requires
            mag == j * p,
    ;
    lemma_fundamental_div_mod_converse(2 * mag + p, 2 * p, j, p);
}

impl Limb {
    /// The largest whole number that is not above the limb.
    pub fn floor(self) -> (r: Limb)
        ensures
            r == floor_of(self),
    {
        if self.is_nan() {
            return Limb { bits: NAN_BITS };
        }
        if self.is_infinite() || self.is_zero() {
            return self;
        }
        let (m, e) = self.unpack();
        let negative: bool = self.is_sign_negative();
        if e >= 1074 {
            proof {
                lemma_whole_already(self);
            }
            return self;
        }
        let s: u32 = 1074 - e;
        let q: u64;
        let r: u64;
        proof {
            lemma_pow2_wide();
            lemma2_to64();
        }
        if s >= 53 {
            proof {
                lemma_pow2_monotone(53, s as nat);
                assert(m == 0 * pow2(s as nat) + m);
            }
            q = 0;
            r = m;
        } else {
            proof {
                lemma_pow2_monotone(s as nat, 52);
            }
            let p: u64 = pow2_u128(s) as u64;
            proof {
                lemma_fundamental_div_mod(m as int, p as int);
                assert(p * (m / p) == (m / p) * p) by (nonlinear_arith);
            }
            q = m / p;
            r = m % p;
        }
        proof {
            lemma_floor_parts(m as nat, e as nat, s as nat, q as nat, r as nat, negative);
        }
        let k: u64 = if negative && r != 0 {
            q + 1
        } else {
            q
        };
        if k == 0 {
            with_sign(negative, 0)
        } else {
            round_pack(negative, k as u128, 1074)
        }
    }

    /// The whole number nearest to the limb, the one farther from zero of
    /// two that are equally near.
    pub fn round(self) -> (r: Limb)
        ensures
            r == nearest_whole(self),
    {
        if self.is_nan() {
            return Limb { bits: NAN_BITS };
        }
        if self.is_infinite() || self.is_zero() {
            return self;
        }
        let (m, e) = self.unpack();
        let negative: bool = self.is_sign_negative();
        if e >= 1074 {
            proof {
                lemma_whole_already(self);
            }
            return self;
        }
        let s: u32 = 1074 - e;
        let k: u64;
        proof {
            lemma_pow2_wide();
            lemma2_to64();
        }
        let ghost pe = pow2(e as nat) as int;
        let ghost p = pow2(1074) as int;
        let ghost mag = self.magnitude() as int;
        proof {
            lemma_pow2_pos(e as nat);
            lemma_pow2_pos(1074);
        }
        if s >= 54 {
            proof {
                lemma_pow2_sum(53, e as nat, (53 + e) as nat);
                lemma_pow2_monotone((53 + e) as nat, 1073);
                lemma_pow2_sum(1073, 1, 1074);
                assert(mag < pow2(53) * pe) by (nonlinear_arith)
                    requires
                        mag == m * pe,
                        m < pow2(53),
                        pe > 0,
                ;
                lemma_basic_div(2 * mag + p, 2 * p);
            }
            k = 0;
        } else {
            proof {
                lemma_pow2_monotone((s - 1) as nat, 52);
            }
            let half: u64 = pow2_u128(s - 1) as u64;
            let ps: u64 = 2 * half;
            proof {
                lemma_pow2_sum((s - 1) as nat, 1, s as nat);
                lemma_pow2_sum(s as nat, e as nat, 1074);
                let x = m + half;
                assert(2 * mag + p == pe * (2 * x) && 2 * p == pe * (2 * ps)) by (nonlinear_arith)
                    requires
                        mag == m * pe,
                        p == ps * pe,
                        ps == 2 * half,
                        x == m + half,
                ;
                lemma_div_multiples_vanish_quotient(pe, 2 * x, 2 * ps);
                lemma_div_multiples_vanish_quotient(2, x as int, ps as int);
            }
            k = (m + half) / ps;
        }
        if k == 0 {
            with_sign(negative, 0)
        } else {
            round_pack(negative, k as u128, 1074)
        }
    }

    /// The limb cut off toward zero, as an `i32` that stops at the ends of
    /// its range; zero for a NaN.
    pub fn to_i32(self) -> (r: i32)
        ensures
            r == truncated(self),
    {
        if self.is_nan() {
            return 0;
        }
        let negative: bool = self.is_sign_negative();
        if self.is_infinite() {
            return if negative {
                i32::MIN
            } else {
                i32::MAX
            };
        }
        let (m, e) = self.unpack();
        proof {
            lemma_pow2_wide();
            lemma2_to64();
        }
        let k: u64;
        if m == 0 {
            proof {
                lemma_pow2_pos(1074);
                assert(0 * pow2(e as nat) == 0);
                lemma_basic_div(0, pow2(1074) as int);
            }
            k = 0;
        } else if e >= 1074 {
            proof {
                lemma_whole_already(self);
            }
            k = 0x10_0000_0000_0000;
        } else {
            let s: u32 = 1074 - e;
            if s >= 53 {
                proof {
                    lemma_pow2_monotone(53, s as nat);
                    assert(m == 0 * pow2(s as nat) + m);
                    lemma_floor_parts(m as nat, e as nat, s as nat, 0, m as nat, false);
                }
                k = 0;
            } else {
                proof {
                    lemma_pow2_monotone(s as nat, 52);
                }
                let p: u64 = pow2_u128(s) as u64;
                proof {
                    lemma_fundamental_div_mod(m as int, p as int);
                    assert(p * (m / p) == (m / p) * p) by (nonlinear_arith);
                    lemma_floor_parts(
                        m as nat,
                        e as nat,
                        s as nat,
                        (m / p) as nat,
                        (m % p) as nat,
                        false,
                    );
                }
                k = m / p;
            }
        }
        if negative {
            if k >= 0x8000_0000 {
                i32::MIN
            } else {
                -(k as i32)
            }
        } else {
            if k >= 0x7FFF_FFFF {
                i32::MAX
            } else {
                k as i32
            }
        }
    }
}

} // verus!
