//! Sine, cosine and tangent of two-limb numbers.
//!
//! The angle is reduced in three steps: by whole turns, then by quarter
//! turns, which gives the quadrant `j`, then by sixteenths of pi, which gives
//! the index `k` and leaves an angle of at most about pi / 32. The sine of
//! what is left comes from its Taylor series and the cosine from the sine;
//! the two are put together with the sine and cosine of `k` sixteenths of pi
//! by the addition theorems, and swapped and negated as the quadrant asks.

use crate::double::{double_abs, double_bits, double_equal, double_less, double_negated, single, Double};
use crate::double_arith::{
    double_difference, double_nearest_whole, double_product, double_quotient, double_root,
    double_sum, half, limbwise_product, unit,
};
use crate::double_tables::{
    cosine, cosine_of, inv_fact, inv_fact_of, sine, sine_of, EPSILON_BITS, FRAC_PI_16, FRAC_PI_2,
    INV_FACT_COUNT, TWO_PI,
};
use crate::limb::{nan_limb, zero_limb, Limb, HALF_BITS};
use crate::limb_add::sum;
use crate::limb_div::quotient;
use crate::limb_whole::{floor_of, truncated};
use vstd::prelude::*;

verus! {

/// The smallest step between one and the next number.
pub open spec fn epsilon() -> Double {
    single(Limb { bits: EPSILON_BITS })
}

/// The sum of a Taylor series from its term at place `i` of the inverse
/// factorials on, taking every second one. `r` is the power of the angle
/// that the last term held and `x` the negated square of the angle. The
/// series ends with the first term that is not above the threshold, or with
/// the table.
pub open spec fn series(s: Double, r: Double, x: Double, threshold: Double, i: nat) -> Double
    decreases INV_FACT_COUNT - i,
{
    if i >= INV_FACT_COUNT {
        s
    } else {
        let r = double_product(r, x);
        let t = double_product(r, inv_fact_of(i as int));
        let s = double_sum(s, t);
        let at = double_abs(t);
        if i + 2 >= INV_FACT_COUNT || double_less(at, threshold) || double_equal(at, threshold) {
            s
        } else {
            series(s, r, x, threshold, i + 2)
        }
    }
}

/// The sine of a small angle by its Taylor series.
pub open spec fn sin_taylor_of(a: Double) -> Double {
    if a.zero() {
        single(zero_limb(false))
    } else {
        let threshold = limbwise_product(double_product(double_abs(a), epsilon()), half());
        let x = double_negated(double_product(a, a));
        series(a, a, x, threshold, 0)
    }
}

/// The cosine of a small angle by its Taylor series.
pub open spec fn cos_taylor_of(a: Double) -> Double {
    if a.zero() {
        single(unit())
    } else {
        let threshold = limbwise_product(epsilon(), half());
        let x = double_negated(double_product(a, a));
        let s = double_sum(single(unit()), limbwise_product(x, half()));
        series(s, x, x, threshold, 1)
    }
}

/// The sine of a small angle by its Taylor series, and the cosine as the
/// root of one less the square of the sine.
pub open spec fn sincos_taylor_of(a: Double) -> (Double, Double) {
    if a.zero() {
        (single(zero_limb(false)), single(unit()))
    } else {
        let s = sin_taylor_of(a);
        (s, double_root(double_difference(single(unit()), double_product(s, s))))
    }
}

/// The whole number of times that `step` goes into `lead`, to the nearest.
pub open spec fn steps_of(lead: Limb, step: Limb) -> Limb {
    floor_of(sum(quotient(lead, step), half()))
}

/// The quadrant `j`, the index `k` and the reduced angle.
pub open spec fn reduce_of(a: Double) -> (i32, i32, Double) {
    let two_pi = double_bits(TWO_PI);
    let z = double_nearest_whole(double_quotient(a, two_pi));
    let r = double_difference(a, double_product(z, two_pi));
    let q = steps_of(r.0, Limb { bits: FRAC_PI_2[0] });
    let t = double_difference(r, double_product(single(q), double_bits(FRAC_PI_2)));
    let p = steps_of(t.0, Limb { bits: FRAC_PI_16[0] });
    let t = double_difference(t, double_product(single(p), double_bits(FRAC_PI_16)));
    (truncated(q), truncated(p), t)
}

/// The sine and cosine of the reduced angle `(s, c)` put together with
/// those of `k` sixteenths of pi.
pub open spec fn with_sixteenths(k: int, s: Double, c: Double) -> (Double, Double) {
    if k == 0 {
        (s, c)
    } else if k > 0 {
        let u = cosine_of(k - 1);
        let v = sine_of(k - 1);
        (
            double_sum(double_product(u, s), double_product(v, c)),
            double_difference(double_product(u, c), double_product(v, s)),
        )
    } else {
        let u = cosine_of(-k - 1);
        let v = sine_of(-k - 1);
        (
            double_difference(double_product(u, s), double_product(v, c)),
            double_sum(double_product(u, c), double_product(v, s)),
        )
    }
}

/// The sine and cosine `(s, c)` turned by `j` quarter turns.
pub open spec fn with_quadrant(j: int, s: Double, c: Double) -> (Double, Double) {
    if j == 0 {
        (s, c)
    } else if j == 1 {
        (c, double_negated(s))
    } else if j == -1 {
        (double_negated(c), s)
    } else {
        (double_negated(s), double_negated(c))
    }
}

/// The sine and the cosine of a number. Those of zero are zero and one;
/// those of a NaN or an infinity are NaN.
pub open spec fn sin_cos_of(a: Double) -> (Double, Double) {
    if a.zero() {
        (single(zero_limb(false)), single(unit()))
    } else if !a.finite() {
        (single(nan_limb()), single(nan_limb()))
    } else {
        let (j, k, t) = reduce_of(a);
        if j < -2 || j > 2 || k < -4 || k > 4 {
            (single(nan_limb()), single(nan_limb()))
        } else {
            let (st, ct) = sincos_taylor_of(t);
            let (s, c) = with_sixteenths(k as int, st, ct);
            with_quadrant(j as int, s, c)
        }
    }
}

/// The tangent of a number: its sine divided by its cosine.
pub open spec fn tan_of(a: Double) -> Double {
    double_quotient(sin_cos_of(a).0, sin_cos_of(a).1)
}

/// The sum of a Taylor series from its term at place `i` on.
fn sum_series(s: Double, r: Double, x: Double, threshold: Double, i: usize) -> (out: Double)
    requires
        i < INV_FACT_COUNT,
    ensures
        out == series(s, r, x, threshold, i as nat),
{
    let mut s = s;
    let mut r = r;
    let mut i = i;
    let mut done = false;
    let ghost goal = series(s, r, x, threshold, i as nat);
    while !done
        invariant
            done ==> s == goal,
            !done ==> i < INV_FACT_COUNT && series(s, r, x, threshold, i as nat) == goal,
        decreases INV_FACT_COUNT + 2 - i,
    {
        r = r.mul(x);
        let t = r.mul(inv_fact(i));
        s = s.add(t);
        i = i + 2;
        done = i >= INV_FACT_COUNT || t.abs().le(threshold);
    }
    s
}

/// The sine of a small angle by its Taylor series.
pub fn sin_taylor(a: Double) -> (r: Double)
    ensures
        r == sin_taylor_of(a),
{
    if a.is_zero() {
        Double::zero_value(false)
    } else {
        let eps = Double::from_limb(Limb { bits: EPSILON_BITS });
        let threshold = a.abs().mul(eps).mul_pwr2(Limb { bits: HALF_BITS });
        let x = a.sqr().neg();
        sum_series(a, a, x, threshold, 0)
    }
}

/// The cosine of a small angle by its Taylor series.
pub fn cos_taylor(a: Double) -> (r: Double)
    ensures
        r == cos_taylor_of(a),
{
    if a.is_zero() {
        Double::one()
    } else {
        let half_limb = Limb { bits: HALF_BITS };
        let threshold = Double::from_limb(Limb { bits: EPSILON_BITS }).mul_pwr2(half_limb);
        let x = a.sqr().neg();
        let s = Double::one().add(x.mul_pwr2(half_limb));
        sum_series(s, x, x, threshold, 1)
    }
}

/// The sine and the cosine of a small angle.
pub fn sincos_taylor(a: Double) -> (r: (Double, Double))
    ensures
        r == sincos_taylor_of(a),
{
    if a.is_zero() {
        (Double::zero_value(false), Double::one())
    } else {
        let s = sin_taylor(a);
        (s, Double::one().sub(s.sqr()).sqrt())
    }
}

/// The quadrant `j`, the index `k` and the reduced angle.
pub fn reduce(a: Double) -> (r: (i32, i32, Double))
    ensures
        r == reduce_of(a),
{
    let half_limb = Limb { bits: HALF_BITS };
    let two_pi = Double::two_pi();
    let z = a.div(two_pi).round();
    let r = a.sub(z.mul(two_pi));
    let q = r.0.div(Limb { bits: FRAC_PI_2[0] }).add(half_limb).floor();
    let t = r.sub(Double::from_limb(q).mul(Double::frac_pi_2()));
    let p = t.0.div(Limb { bits: FRAC_PI_16[0] }).add(half_limb).floor();
    let t = t.sub(Double::from_limb(p).mul(Double::frac_pi_16()));
    (q.to_i32(), p.to_i32(), t)
}

impl Double {
    /// The sine and the cosine of the number.
    pub fn sin_cos(self) -> (r: (Double, Double))
        ensures
            r == sin_cos_of(self),
    {
        if self.is_zero() {
            return (Double::zero_value(false), Double::one());
        }
        if !self.is_finite() {
            return (Double::nan_value(), Double::nan_value());
        }
        let (j, k, t) = reduce(self);
        if j < -2 || j > 2 || k < -4 || k > 4 {
            return (Double::nan_value(), Double::nan_value());
        }
        let (st, ct) = sincos_taylor(t);
        let (s, c) = if k == 0 {
            (st, ct)
        } else if k > 0 {
            let u = cosine((k - 1) as usize);
            let v = sine((k - 1) as usize);
            (u.mul(st).add(v.mul(ct)), u.mul(ct).sub(v.mul(st)))
        } else {
            let u = cosine((-k - 1) as usize);
            let v = sine((-k - 1) as usize);
            (u.mul(st).sub(v.mul(ct)), u.mul(ct).add(v.mul(st)))
        };
        if j == 0 {
            (s, c)
        } else if j == 1 {
            (c, s.neg())
        } else if j == -1 {
            (c.neg(), s)
        } else {
            (s.neg(), c.neg())
        }
    }

    /// The sine of the number.
    pub fn sin(self) -> (r: Double)
        ensures
            r == sin_cos_of(self).0,
    {
        self.sin_cos().0
    }

    /// The cosine of the number.
    pub fn cos(self) -> (r: Double)
        ensures
            r == sin_cos_of(self).1,
    {
        self.sin_cos().1
    }

    /// The tangent of the number: its sine divided by its cosine. The
    /// tangent of a NaN or of an infinity is a NaN, the tangent of a zero
    /// is the positive zero, and where the cosine comes out as zero the
    /// tangent is an infinity.
    pub fn tan(self) -> (r: Double)
        ensures
            r == tan_of(self),
            self.nan() || self.infinite() ==> r == single(nan_limb()),
            self.zero() ==> r == single(zero_limb(false)),
    {
        proof {
            crate::double_laws::law_zero_over_one();
        }
        let (s, c) = self.sin_cos();
        s.div(c)
    }
}

} // verus!
