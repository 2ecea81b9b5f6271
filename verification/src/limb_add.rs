//! Negation, addition and subtraction of limbs.

use crate::limb::{inf_limb, nan_limb, signed, with_sign, zero_limb, Limb, NAN_BITS, SIGN_BIT};
use crate::power::{
    bit_len, lemma_bit_len_bounds, lemma_bit_len_unique, lemma_pow2_monotone, lemma_pow2_sum,
    lemma_pow2_wide, pow2_u128,
};
use crate::rounding::{
    lemma_dyadic_nearest, lemma_dyadic_quantum, lemma_quantum_is, nearest_even, pack, quantum,
    round, round_dyadic, round_pack,
};
use vstd::arithmetic::div_mod::lemma_fundamental_div_mod_converse;
use vstd::arithmetic::power2::{lemma2_to64, lemma_pow2_pos, lemma_pow2_unfold, pow2};
use vstd::prelude::*;

verus! {

/// The limb with the other sign bit.
pub open spec fn negated(a: Limb) -> Limb {
    signed(!a.negative(), a.abs_bits())
}

/// The limb with its sign bit cleared.
pub open spec fn absolute(a: Limb) -> Limb {
    signed(false, a.abs_bits())
}

/// The sum of two limbs: the limb nearest to the exact sum, with the
/// special values of binary64 arithmetic.
pub open spec fn sum(a: Limb, b: Limb) -> Limb {
    if a.nan() || b.nan() {
        nan_limb()
    } else if a.infinite() {
        if b.infinite() && a.negative() != b.negative() {
            nan_limb()
        } else {
            inf_limb(a.negative())
        }
    } else if b.infinite() {
        inf_limb(b.negative())
    } else {
        let v = a.value() + b.value();
        if v == 0 {
            zero_limb(a.negative() && b.negative())
        } else if v < 0 {
            round(true, (-v) as nat, 1)
        } else {
            round(false, v as nat, 1)
        }
    }
}

/// The difference of two limbs.
pub open spec fn difference(a: Limb, b: Limb) -> Limb {
    sum(a, negated(b))
}

/// `a` absorbs `b`: `b` is zero, or so small beside `a` that adding it to
/// `a` gives `a` back.
pub open spec fn absorbs(a: Limb, b: Limb) -> bool {
    b.zero() || sum(a, b) == a
}

/// A significand with its scale rounds to the limb that holds them.
pub proof fn lemma_round_dyadic_exact(negative: bool, m: nat, e: nat)
    requires
        m < 0x20_0000_0000_0000,
        e > 0 ==> m >= 0x10_0000_0000_0000,
    ensures
        round_dyadic(negative, m, e as int) == pack(negative, m, e),
        round(negative, m * pow2(e), 1) == pack(negative, m, e),
{
    lemma_pow2_wide();
    lemma2_to64();
    if m == 0 {
        assert(0 * pow2(0) == 0);
        assert(quantum(0, 1) == 0);
        assert(1 * pow2(0) == 1);
        assert(nearest_even(0, 1) == 0);
    } else {
        lemma_bit_len_bounds(m);
        let l = bit_len(m);
        if l > 53 {
            lemma_pow2_monotone(53, (l - 1) as nat);
        }
        if e > 0 {
            lemma_bit_len_unique(m, 53);
        }
        lemma_dyadic_quantum(m, e as int, e);
        lemma_dyadic_nearest(m, e as int, e);
        assert(nearest_even(m, 1) == m);
    }
}

/// A finite limb is the packing of its significand and scale.
pub proof fn lemma_limb_is_pack(a: Limb)
    requires
        a.finite(),
    ensures
        a == pack(a.negative(), a.significand(), a.scale()),
        a.significand() < 0x20_0000_0000_0000,
        a.scale() > 0 ==> a.significand() >= 0x10_0000_0000_0000,
        a.scale() <= 2045,
{
}

/// Rounding the value of a finite limb gives the limb back.
pub proof fn lemma_round_exact(a: Limb)
    requires
        a.finite(),
    ensures
        round(a.negative(), a.magnitude(), 1) == a,
{
    lemma_limb_is_pack(a);
    lemma_round_dyadic_exact(a.negative(), a.significand(), a.scale());
}

/// A normal magnitude absorbs a magnitude that lies more than twelve binary
/// places below its last place, whether added or taken away.
pub proof fn lemma_round_absorbs(negative: bool, m: nat, e: nat, beta: nat, plus: bool)
    requires
        0x10_0000_0000_0000 <= m < 0x20_0000_0000_0000,
        e >= 12,
        0 < beta < pow2((e - 12) as nat),
    ensures
        m * pow2(e) > beta,
        round(
            negative,
            if plus {
                m * pow2(e) + beta
            } else {
                (m * pow2(e) - beta) as nat
            },
            1,
        ) == pack(negative, m, e),
{
    lemma_pow2_wide();
    lemma2_to64();
    let p = pow2(e);
    let p1 = pow2((e - 1) as nat);
    lemma_pow2_sum((e - 12) as nat, 12, e);
    lemma_pow2_sum(53, e, 53 + e);
    lemma_pow2_sum(52, e, 52 + e);
    lemma_pow2_sum(53, (e - 1) as nat, 52 + e);
    lemma_pow2_sum(52, (e - 1) as nat, 51 + e);
    lemma_pow2_unfold(e);
    assert(p == 2 * p1);
    assert(beta * 4096 < p);
    let big = m * p;
    assert(big >= 0x10_0000_0000_0000 * p && big + p <= 0x20_0000_0000_0000 * p)
        by (nonlinear_arith)
        requires
            big == m * p,
            0x10_0000_0000_0000 <= m < 0x20_0000_0000_0000,
            p > 0,
    ;
    if plus {
        let n = big + beta;
        lemma_quantum_is(n, 1, e);
        assert(1 * pow2(e) == p);
        lemma_fundamental_div_mod_converse(n as int, p as int, m as int, beta as int);
        assert(nearest_even(n, p) == m);
    } else if m > 0x10_0000_0000_0000 {
        let n = (big - beta) as nat;
        assert(big >= 0x10_0000_0000_0001 * p) by (nonlinear_arith)
            requires
                big == m * p,
                m > 0x10_0000_0000_0000,
                p > 0,
        ;
        lemma_quantum_is(n, 1, e);
        assert(1 * pow2(e) == p);
        assert(n == (m - 1) * p + (p - beta)) by (nonlinear_arith)
            requires
                n == m * p - beta,
        ;
        lemma_fundamental_div_mod_converse(n as int, p as int, m - 1, p - beta);
        assert(nearest_even(n, p) == m);
    } else {
        let n = (big - beta) as nat;
        assert(big == 0x20_0000_0000_0000 * p1) by (nonlinear_arith)
            requires
                big == m * p,
                m == 0x10_0000_0000_0000,
                p == 2 * p1,
        ;
        lemma_quantum_is(n, 1, (e - 1) as nat);
        assert(1 * p1 == p1);
        assert(n == 0x1F_FFFF_FFFF_FFFF * p1 + (p1 - beta)) by (nonlinear_arith)
            requires
                n == 0x20_0000_0000_0000 * p1 - beta,
        ;
        lemma_fundamental_div_mod_converse(
            n as int,
            p1 as int,
            0x1F_FFFF_FFFF_FFFF,
            p1 - beta,
        );
        assert(nearest_even(n, p1) == 0x20_0000_0000_0000);
        assert(pack(negative, 0x20_0000_0000_0000, (e - 1) as nat) == pack(negative, m, e));
    }
}

/// A magnitude written over a lower scale.
pub proof fn lemma_align(m: nat, hi: nat, lo: nat)
    requires
        hi >= lo,
    ensures
        m * pow2(hi) == (m * pow2((hi - lo) as nat)) * pow2(lo),
{
    lemma_pow2_sum((hi - lo) as nat, lo, hi);
    let a = pow2((hi - lo) as nat);
    let b = pow2(lo);
    assert(m * (a * b) == (m * a) * b) by (nonlinear_arith);
}

impl Limb {
    /// The limb with the other sign.
    pub fn neg(self) -> (r: Limb)
        ensures
            r == negated(self),
    {
        if self.bits >= SIGN_BIT {
            Limb { bits: self.bits - SIGN_BIT }
        } else {
            Limb { bits: self.bits + SIGN_BIT }
        }
    }

    /// The limb with its sign cleared.
    pub fn abs(self) -> (r: Limb)
        ensures
            r == absolute(self),
    {
        Limb { bits: self.magnitude_bits() }
    }

    /// The sum of two finite limbs of which `self` has the scale that is
    /// not the lower.
    fn add_ordered(self, other: Limb) -> (r: Limb)
        requires
            self.finite(),
            other.finite(),
            self.scale() >= other.scale(),
        ensures
            r == sum(self, other),
    {
        let (ma, ea) = self.unpack();
        let (mb, eb) = other.unpack();
        let na: bool = self.is_sign_negative();
        let nb: bool = other.is_sign_negative();
        let ghost pa = pow2(ea as nat);
        let ghost pb = pow2(eb as nat);
        proof {
            lemma_pow2_wide();
            lemma2_to64();
            lemma_pow2_pos(ea as nat);
            lemma_pow2_pos(eb as nat);
            lemma_round_exact(self);
            lemma_round_exact(other);
            lemma_limb_is_pack(self);
        }
        if mb == 0 {
            proof {
                assert(0 * pb == 0);
                assert(ma == 0 ==> 0 * pa == 0);
                assert(ma > 0 ==> ma * pa > 0) by (nonlinear_arith)
                    requires
                        pa > 0,
                ;
            }
            if ma == 0 {
                return with_sign(na && nb, 0);
            }
            return self;
        }
        let diff: u32 = ea - eb;
        if diff > 64 {
            proof {
                let beta: nat = (mb * pb) as nat;
                lemma_pow2_sum(53, eb as nat, (53 + eb) as nat);
                lemma_pow2_monotone((53 + eb) as nat, (ea - 12) as nat);
                assert(0 < beta < pow2(53) * pb) by (nonlinear_arith)
                    requires
                        beta == mb * pb,
                        0 < mb < pow2(53),
                        pb > 0,
                ;
                lemma_round_absorbs(na, ma as nat, ea as nat, beta, na == nb);
            }
            return self;
        }
        let shift: u128 = pow2_u128(diff);
        proof {
            lemma_pow2_monotone(diff as nat, 64);
            lemma_align(ma as nat, ea as nat, eb as nat);
            assert(ma * shift < 0x20_0000_0000_0000 * 0x1_0000_0000_0000_0000) by (nonlinear_arith)
                requires
                    ma < 0x20_0000_0000_0000,
                    0 < shift <= 0x1_0000_0000_0000_0000,
            ;
        }
        let wide: u128 = (ma as u128) * shift;
        let low: u128 = mb as u128;
        proof {
            assert((wide + low) * pb == wide * pb + low * pb) by (nonlinear_arith);
            assert((wide - low) * pb == wide * pb - low * pb) by (nonlinear_arith);
            assert((low - wide) * pb == low * pb - wide * pb) by (nonlinear_arith);
            assert(wide > low ==> wide * pb > low * pb) by (nonlinear_arith)
                requires
                    pb > 0,
            ;
            assert(wide < low ==> wide * pb < low * pb) by (nonlinear_arith)
                requires
                    pb > 0,
            ;
            assert((wide + low) * pb > 0) by (nonlinear_arith)
                requires
                    low > 0,
                    pb > 0,
            ;
        }
        if na == nb {
            round_pack(na, wide + low, eb as i32)
        } else if wide > low {
            round_pack(na, wide - low, eb as i32)
        } else if wide < low {
            round_pack(nb, low - wide, eb as i32)
        } else {
            with_sign(false, 0)
        }
    }

    /// The sum, rounded to nearest.
    pub fn add(self, other: Limb) -> (r: Limb)
        ensures
            r == sum(self, other),
    {
        if self.is_nan() || other.is_nan() {
            return Limb { bits: NAN_BITS };
        }
        if self.is_infinite() {
            if other.is_infinite() && self.is_sign_negative() != other.is_sign_negative() {
                return Limb { bits: NAN_BITS };
            }
            return self;
        }
        if other.is_infinite() {
            return other;
        }
        let (_, ea) = self.unpack();
        let (_, eb) = other.unpack();
        if ea >= eb {
            self.add_ordered(other)
        } else {
            other.add_ordered(self)
        }
    }

    /// The difference, rounded to nearest.
    pub fn sub(self, other: Limb) -> (r: Limb)
        ensures
            r == difference(self, other),
    {
        self.add(other.neg())
    }
}

} // verus!
