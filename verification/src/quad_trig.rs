//! Sine, cosine and tangent of four-limb numbers.
//!
//! The angle is reduced in three steps: by whole turns, then by quarter
//! turns, which gives the quadrant `j`, then by sixteenths of pi, which gives
//! the index `k` and leaves an angle of at most about pi / 32. The sine of
//! what is left comes from its Taylor series and the cosine from the sine;
//! the two are put together with the sine and cosine of `k` sixteenths of pi
//! by the addition theorems, and swapped and negated as the quadrant asks.

use crate::limb::{nan_limb, zero_limb, Limb, HALF_BITS};
use crate::limb_add::sum;
use crate::limb_div::quotient;
use crate::limb_whole::{floor_of, truncated};
use crate::quad::{lead, quad_abs, quad_bits, quad_equal, quad_less, quad_negated, Quad};
use crate::quad_add::{quad_difference, quad_sum};
use crate::quad_div::quad_quotient;
use crate::quad_mul::{limbwise_product, quad_product};
use crate::quad_root::{half, quad_nearest_whole, quad_root, unit};
use crate::quad_tables::{
    cosine, cosine_of, inv_fact, inv_fact_of, sine, sine_of, EPSILON_BITS, FRAC_PI_16, FRAC_PI_2,
    INV_FACT_COUNT, TWO_PI,
};
use vstd::prelude::*;

verus! {

/// The smallest step between one and the next number.
pub open spec fn epsilon() -> Quad {
    lead(Limb { bits: EPSILON_BITS })
}

/// The sum of a Taylor series from its term at place `i` of the inverse
/// factorials on, taking every second one. `r` is the power of the angle
/// that the last term held and `x` the negated square of the angle. The
/// series ends with the first term that is not above the threshold, or with
/// the table.
pub open spec fn series(s: Quad, r: Quad, x: Quad, threshold: Quad, i: nat) -> Quad
    decreases INV_FACT_COUNT - i,
{
    if i >= INV_FACT_COUNT {
        s
    } else {
        let r = quad_product(r, x);
        let t = quad_product(r, inv_fact_of(i as int));
        let s = quad_sum(s, t);
        let at = quad_abs(t);
        if i + 2 >= INV_FACT_COUNT || quad_less(at, threshold) || quad_equal(at, threshold) {
            s
        } else {
            series(s, r, x, threshold, i + 2)
        }
    }
}

/// The sine of a small angle by its Taylor series.
pub open spec fn sin_taylor_of(a: Quad) -> Quad {
    if a.zero() {
        lead(zero_limb(false))
    } else {
        let threshold = limbwise_product(quad_product(quad_abs(a), epsilon()), half());
        let x = quad_negated(quad_product(a, a));
        series(a, a, x, threshold, 0)
    }
}

/// The cosine of a small angle by its Taylor series.
pub open spec fn cos_taylor_of(a: Quad) -> Quad {
    if a.zero() {
        lead(unit())
    } else {
        let threshold = limbwise_product(epsilon(), half());
        let x = quad_negated(quad_product(a, a));
        let s = quad_sum(lead(unit()), limbwise_product(x, half()));
        series(s, x, x, threshold, 1)
    }
}

/// The sine of a small angle by its Taylor series, and the cosine as the
/// root of one less the square of the sine.
pub open spec fn sincos_taylor_of(a: Quad) -> (Quad, Quad) {
    if a.zero() {
        (lead(zero_limb(false)), lead(unit()))
    } else {
        let s = sin_taylor_of(a);
        (s, quad_root(quad_difference(lead(unit()), quad_product(s, s))))
    }
}

/// The whole number of times that `step` goes into `lead`, to the nearest.
pub open spec fn steps_of(lead: Limb, step: Limb) -> Limb {
    floor_of(sum(quotient(lead, step), half()))
}

/// The quadrant `j`, the index `k` and the reduced angle.
pub open spec fn reduce_of(a: Quad) -> (i32, i32, Quad) {
    let two_pi = quad_bits(TWO_PI);
    let z = quad_nearest_whole(quad_quotient(a, two_pi));
    let r = quad_difference(a, quad_product(z, two_pi));
    let q = steps_of(r.0, Limb { bits: FRAC_PI_2[0] });
    let t = quad_difference(r, quad_product(lead(q), quad_bits(FRAC_PI_2)));
    let p = steps_of(t.0, Limb { bits: FRAC_PI_16[0] });
    let t = quad_difference(t, quad_product(lead(p), quad_bits(FRAC_PI_16)));
    (truncated(q), truncated(p), t)
}

/// The sine and cosine of the reduced angle `(s, c)` put together with
/// those of `k` sixteenths of pi.
pub open spec fn with_sixteenths(k: int, s: Quad, c: Quad) -> (Quad, Quad) {
    if k == 0 {
        (s, c)
    } else if k > 0 {
        let u = cosine_of(k - 1);
        let v = sine_of(k - 1);
        (
            quad_sum(quad_product(u, s), quad_product(v, c)),
            quad_difference(quad_product(u, c), quad_product(v, s)),
        )
    } else {
        let u = cosine_of(-k - 1);
        let v = sine_of(-k - 1);
        (
            quad_difference(quad_product(u, s), quad_product(v, c)),
            quad_sum(quad_product(u, c), quad_product(v, s)),
        )
    }
}

/// The sine and cosine `(s, c)` turned by `j` quarter turns.
pub open spec fn with_quadrant(j: int, s: Quad, c: Quad) -> (Quad, Quad) {
    if j == 0 {
        (s, c)
    } else if j == 1 {
        (c, quad_negated(s))
    } else if j == -1 {
        (quad_negated(c), s)
    } else {
        (quad_negated(s), quad_negated(c))
    }
}

/// The sine and the cosine of a number. Those of zero are zero and one;
/// those of a NaN or an infinity are NaN.
pub open spec fn sin_cos_of(a: Quad) -> (Quad, Quad) {
    if a.zero() {
        (lead(zero_limb(false)), lead(unit()))
    } else if !a.finite() {
        (lead(nan_limb()), lead(nan_limb()))
    } else {
        let (j, k, t) = reduce_of(a);
        if j < -2 || j > 2 || k < -4 || k > 4 {
            (lead(nan_limb()), lead(nan_limb()))
        } else {
            let (st, ct) = sincos_taylor_of(t);
            let (s, c) = with_sixteenths(k as int, st, ct);
            with_quadrant(j as int, s, c)
        }
    }
}

/// The tangent of a number: its sine divided by its cosine.
pub open spec fn tan_of(a: Quad) -> Quad {
    quad_quotient(sin_cos_of(a).0, sin_cos_of(a).1)
}

/// The sum of a Taylor series from its term at place `i` on.
fn sum_series(s: Quad, r: Quad, x: Quad, threshold: Quad, i: usize) -> (out: Quad)
    requires
        i < INV_FACT_COUNT,
    ensures
        out == series(s, r, x, threshold, i as nat),
{
    let mut s = s;
    let mut r = r;
    let mut i = i;
    let mut done = false;
    let ghost goal = series(s, r, x, threshold, i as nat);
    while !done
        invariant
            done ==> s == goal,
            !done ==> i < INV_FACT_COUNT && series(s, r, x, threshold, i as nat) == goal,
        decreases INV_FACT_COUNT + 2 - i,
    {
        r = r.mul(x);
        let t = r.mul(inv_fact(i));
        s = s.add(t);
        i = i + 2;
        done = i >= INV_FACT_COUNT || t.abs().le(threshold);
    }
    s
}

/// The sine of a small angle by its Taylor series.
pub fn sin_taylor(a: Quad) -> (r: Quad)
    ensures
        r == sin_taylor_of(a),
{
    if a.is_zero() {
        Quad::zero_value(false)
    } else {
        let eps = Quad::from_limb(Limb { bits: EPSILON_BITS });
        let threshold = a.abs().mul(eps).mul_pwr2(Limb { bits: HALF_BITS });
        let x = a.sqr().neg();
        sum_series(a, a, x, threshold, 0)
    }
}

/// The cosine of a small angle by its Taylor series.
pub fn cos_taylor(a: Quad) -> (r: Quad)
    ensures
        r == cos_taylor_of(a),
{
    if a.is_zero() {
        Quad::one()
    } else {
        let half_limb = Limb { bits: HALF_BITS };
        let threshold = Quad::from_limb(Limb { bits: EPSILON_BITS }).mul_pwr2(half_limb);
        let x = a.sqr().neg();
        let s = Quad::one().add(x.mul_pwr2(half_limb));
        sum_series(s, x, x, threshold, 1)
    }
}

/// The sine and the cosine of a small angle.
pub fn sincos_taylor(a: Quad) -> (r: (Quad, Quad))
    ensures
        r == sincos_taylor_of(a),
{
    if a.is_zero() {
        (Quad::zero_value(false), Quad::one())
    } else {
        let s = sin_taylor(a);
        (s, Quad::one().sub(s.sqr()).sqrt())
    }
}

/// The quadrant `j`, the index `k` and the reduced angle.
pub fn reduce(a: Quad) -> (r: (i32, i32, Quad))
    ensures
        r == reduce_of(a),
{
    let half_limb = Limb { bits: HALF_BITS };
    let two_pi = Quad::two_pi();
    let z = a.div(two_pi).round();
    let r = a.sub(z.mul(two_pi));
    let q = r.0.div(Limb { bits: FRAC_PI_2[0] }).add(half_limb).floor();
    let t = r.sub(Quad::from_limb(q).mul(Quad::frac_pi_2()));
    let p = t.0.div(Limb { bits: FRAC_PI_16[0] }).add(half_limb).floor();
    let t = t.sub(Quad::from_limb(p).mul(Quad::frac_pi_16()));
    (q.to_i32(), p.to_i32(), t)
}

impl Quad {
    /// The sine and the cosine of the number.
    pub fn sin_cos(self) -> (r: (Quad, Quad))
        ensures
            r == sin_cos_of(self),
    {
        if self.is_zero() {
            return (Quad::zero_value(false), Quad::one());
        }
        if !self.is_finite() {
            return (Quad::nan_value(), Quad::nan_value());
        }
        let (j, k, t) = reduce(self);
        if j < -2 || j > 2 || k < -4 || k > 4 {
            return (Quad::nan_value(), Quad::nan_value());
        }
        let (st, ct) = sincos_taylor(t);
        let (s, c) = if k == 0 {
            (st, ct)
        } else if k > 0 {
            let u = cosine((k - 1) as usize);
            let v = sine((k - 1) as usize);
            (u.mul(st).add(v.mul(ct)), u.mul(ct).sub(v.mul(st)))
        } else {
            let u = cosine((-k - 1) as usize);
            let v = sine((-k - 1) as usize);
            (u.mul(st).sub(v.mul(ct)), u.mul(ct).add(v.mul(st)))
        };
        if j == 0 {
            (s, c)
        } else if j == 1 {
            (c, s.neg())
        } else if j == -1 {
            (c.neg(), s)
        } else {
            (s.neg(), c.neg())
        }
    }

    /// The sine of the number.
    pub fn sin(self) -> (r: Quad)
        ensures
            r == sin_cos_of(self).0,
    {
        self.sin_cos().0
    }

    /// The cosine of the number.
    pub fn cos(self) -> (r: Quad)
        ensures
            r == sin_cos_of(self).1,
    {
        self.sin_cos().1
    }

    /// The tangent of the number: its sine divided by its cosine. The
    /// tangent of a NaN or of an infinity is a NaN, the tangent of a zero
    /// is the positive zero, and where the cosine comes out as zero the
    /// tangent is an infinity.
    pub fn tan(self) -> (r: Quad)
        ensures
            r == tan_of(self),
            self.nan() || self.infinite() ==> r == lead(nan_limb()),
            self.zero() ==> r == lead(zero_limb(false)),
    {
        proof {
            crate::quad_laws::law_zero_over_one();
        }
        let (s, c) = self.sin_cos();
        s.div(c)
    }
}

} // verus!
