//! Multiplication of limbs, with the rounding error of the product.

use crate::limb::{inf_limb, nan_limb, with_sign, zero_limb, Limb, INF_BITS, NAN_BITS};
use crate::limb_add::negated;
use crate::power::{lemma_pow2_sum, lemma_pow2_wide};
use crate::rounding::{
    lemma_round_scale, round, round_dyadic, round_pack, round_split, splits, Rounded,
};
use vstd::arithmetic::power2::{lemma2_to64, lemma_pow2_pos, pow2};
use vstd::prelude::*;

verus! {

/// The product of two limbs: the limb nearest to the exact product, with the
/// special values of binary64 arithmetic.
pub open spec fn product(a: Limb, b: Limb) -> Limb {
    let negative = a.negative() != b.negative();
    if a.nan() || b.nan() {
        nan_limb()
    } else if a.infinite() || b.infinite() {
        if a.zero() || b.zero() {
            nan_limb()
        } else {
            inf_limb(negative)
        }
    } else {
        round(negative, a.magnitude() * b.magnitude(), pow2(1074))
    }
}

/// The fused product and sum `a * b + c`, rounded once.
pub open spec fn fused(a: Limb, b: Limb, c: Limb) -> Limb {
    let negative = a.negative() != b.negative();
    if a.nan() || b.nan() || c.nan() {
        nan_limb()
    } else if a.infinite() || b.infinite() {
        if a.zero() || b.zero() || (c.infinite() && c.negative() != negative) {
            nan_limb()
        } else {
            inf_limb(negative)
        }
    } else if c.infinite() {
        inf_limb(c.negative())
    } else {
        let p = (a.magnitude() * b.magnitude()) as int;
        let v = (if negative {
            -p
        } else {
            p
        }) + c.value() * pow2(1074);
        if v == 0 {
            zero_limb(negative && c.negative())
        } else if v < 0 {
            round(true, (-v) as nat, pow2(1074))
        } else {
            round(false, v as nat, pow2(1074))
        }
    }
}

/// Rounding `sig * 2^(s - u)` is rounding the ratio of `sig * 2^s` to `2^u`.
pub proof fn lemma_round_dyadic_ratio(negative: bool, sig: nat, s: nat, u: nat)
    ensures
        round_dyadic(negative, sig, s - u) == round(negative, sig * pow2(s), pow2(u)),
{
    lemma_pow2_pos(s);
    lemma_pow2_pos(u);
    if s >= u {
        let e = (s - u) as nat;
        lemma_pow2_sum(e, u, s);
        assert(sig * pow2(s) == (sig * pow2(e)) * pow2(u)) by (nonlinear_arith)
            requires
                pow2(s) == pow2(e) * pow2(u),
        ;
        assert(1 * pow2(u) == pow2(u));
        lemma_round_scale(negative, sig * pow2(e), 1, pow2(u));
    } else {
        let f = (u - s) as nat;
        lemma_pow2_sum(f, s, u);
        lemma_pow2_pos(f);
        lemma_round_scale(negative, sig, pow2(f), pow2(s));
    }
}

/// What a rounded product of significands leaves over, in units of 2^-2148.
pub proof fn lemma_split_residue(r: Rounded, sig: nat, s: nat, u: nat)
    requires
        splits(r, sig, s - u),
    ensures
        sig * pow2(s) - r.limb.magnitude() * pow2(u) == if r.over {
            -(r.residue * pow2(s))
        } else {
            r.residue * pow2(s)
        },
{
    let mag = r.limb.magnitude() as int;
    let res = r.residue as int;
    let ps = pow2(s) as int;
    let pu = pow2(u) as int;
    if s >= u {
        let pe = pow2((s - u) as nat) as int;
        lemma_pow2_sum((s - u) as nat, u, s);
        assert(sig * ps - mag * pu == (if r.over {
            -(res * ps)
        } else {
            res * ps
        })) by (nonlinear_arith)
            requires
                ps == pe * pu,
                mag * 1 + (if r.over {
                    -(res * pe)
                } else {
                    res * pe
                }) == sig * pe,
        ;
    } else {
        let pf = pow2((u - s) as nat) as int;
        lemma_pow2_sum((u - s) as nat, s, u);
        assert(sig * ps - mag * pu == (if r.over {
            -(res * ps)
        } else {
            res * ps
        })) by (nonlinear_arith)
            requires
                pu == pf * ps,
                mag * pf + (if r.over {
                    -res
                } else {
                    res
                }) == sig,
        ;
    }
}

impl Limb {
    /// The product, rounded to nearest, and the fused difference between the
    /// exact product and the rounded one.
    pub fn mul_split(self, other: Limb) -> (r: (Limb, Limb))
        ensures
            r.0 == product(self, other),
            r.1 == fused(self, other, negated(r.0)),
    {
        let negative: bool = self.is_sign_negative() != other.is_sign_negative();
        if self.is_nan() || other.is_nan() {
            return (Limb { bits: NAN_BITS }, Limb { bits: NAN_BITS });
        }
        if self.is_infinite() || other.is_infinite() {
            if self.is_zero() || other.is_zero() {
                return (Limb { bits: NAN_BITS }, Limb { bits: NAN_BITS });
            }
            return (with_sign(negative, INF_BITS), Limb { bits: NAN_BITS });
        }
        let (ma, ea) = self.unpack();
        let (mb, eb) = other.unpack();
        proof {
            lemma_pow2_wide();
            lemma2_to64();
            assert(ma * mb < 0x20_0000_0000_0000 * 0x20_0000_0000_0000) by (nonlinear_arith)
                requires
                    ma < 0x20_0000_0000_0000,
                    mb < 0x20_0000_0000_0000,
            ;
        }
        let sig: u128 = (ma as u128) * (mb as u128);
        let e: i32 = (ea + eb) as i32 - 1074;
        let rs = round_split(negative, sig, e);
        let ghost s = (ea + eb) as nat;
        proof {
            let pa = pow2(ea as nat);
            let pb = pow2(eb as nat);
            lemma_pow2_sum(ea as nat, eb as nat, s);
            assert((ma * pa) * (mb * pb) == (ma * mb) * pow2(s)) by (nonlinear_arith)
                requires
                    pow2(s) == pa * pb,
            ;
            lemma_round_dyadic_ratio(negative, sig as nat, s, 1074);
        }
        if !rs.limb.is_finite() {
            return (rs.limb, with_sign(!negative, INF_BITS));
        }
        proof {
            lemma_split_residue(rs, sig as nat, s, 1074);
            lemma_round_dyadic_ratio(negative != rs.over, rs.residue as nat, s, 1074);
            lemma_pow2_pos(s);
            assert(rs.residue > 0 ==> rs.residue * pow2(s) > 0) by (nonlinear_arith)
                requires
                    pow2(s) > 0,
            ;
            assert(rs.residue == 0 ==> rs.residue * pow2(s) == 0) by (nonlinear_arith);
            let c = negated(rs.limb);
            let mag = rs.limb.magnitude() as int;
            let pu = pow2(1074) as int;
            assert(c.magnitude() == mag);
            assert(c.negative() == !negative);
            assert(rs.limb.negative() == negative);
            assert((-mag) * pu == -(mag * pu)) by (nonlinear_arith);
            assert(c.value() * pu == if negative {
                mag * pu
            } else {
                -(mag * pu)
            });
            assert(self.magnitude() * other.magnitude() == sig * pow2(s));
        }
        if rs.residue == 0 {
            return (rs.limb, with_sign(false, 0));
        }
        let err = round_pack(negative != rs.over, rs.residue, e);
        (rs.limb, err)
    }

    /// The product, rounded to nearest.
    pub fn mul(self, other: Limb) -> (r: Limb)
        ensures
            r == product(self, other),
    {
        self.mul_split(other).0
    }
}

} // verus!
