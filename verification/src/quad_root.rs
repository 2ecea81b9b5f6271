//! The square root of a four-limb number, and the whole number nearest to
//! one.

use crate::limb::{inf_limb, nan_limb, Limb, HALF_BITS, ONE_BITS};
use crate::limb_add::{absolute, difference};
use crate::limb_order::{equal, less};
use crate::limb_sqrt::root;
use crate::limb_whole::nearest_whole;
use crate::quad::{lead, quad_of, Quad};
use crate::quad_add::{quad_difference, quad_sum};
use crate::quad_div::quad_quotient;
use crate::quad_mul::{limbwise_product, quad_product};
use crate::renorm::{pz, renorm4, renorm4_of};
use vstd::prelude::*;

verus! {

/// One half, as a limb.
pub open spec fn half() -> Limb {
    Limb { bits: HALF_BITS }
}

/// One, as a limb.
pub open spec fn unit() -> Limb {
    Limb { bits: ONE_BITS }
}

/// One step of Newton's iteration toward the inverse root of the number
/// whose half is `h`.
pub open spec fn newton_step(r: Quad, h: Quad) -> Quad {
    quad_sum(r, quad_product(quad_difference(lead(half()), quad_product(h, quad_product(r, r))), r))
}

/// The square root. A NaN and a negative number give a NaN, a zero gives
/// itself, infinity gives infinity. Otherwise the inverse root of the
/// leading limb is refined by three steps of Newton's iteration and
/// multiplied by the number.
pub open spec fn quad_root(a: Quad) -> Quad {
    if a.nan() {
        lead(nan_limb())
    } else if a.zero() {
        a
    } else if a.negative() {
        lead(nan_limb())
    } else if a.infinite() {
        lead(inf_limb(false))
    } else {
        let r = quad_quotient(lead(unit()), lead(root(a.0)));
        let h = limbwise_product(a, half());
        quad_product(newton_step(newton_step(newton_step(r, h), h), h), a)
    }
}

/// The rounded limb `x` of `a`, stepped back by one where `a` lay halfway
/// and the limb after it is negative.
pub open spec fn settle_half(x: Limb, a: Limb, next: Limb) -> Limb {
    if equal(absolute(difference(x, a)), half()) && less(next, pz()) {
        difference(x, unit())
    } else {
        x
    }
}

/// The whole number nearest to a number: the limbs are rounded from the
/// leading one down to the first that is no whole number.
pub open spec fn quad_nearest_whole(a: Quad) -> Quad {
    let x0 = nearest_whole(a.0);
    if equal(x0, a.0) {
        let x1 = nearest_whole(a.1);
        if equal(x1, a.1) {
            let x2 = nearest_whole(a.2);
            if equal(x2, a.2) {
                quad_of(renorm4_of(x0, x1, x2, nearest_whole(a.3)))
            } else {
                quad_of(renorm4_of(x0, x1, settle_half(x2, a.2, a.3), pz()))
            }
        } else {
            quad_of(renorm4_of(x0, settle_half(x1, a.1, a.2), pz(), pz()))
        }
    } else {
        quad_of(renorm4_of(settle_half(x0, a.0, a.1), pz(), pz(), pz()))
    }
}

/// The rounded limb `x` of `a`, stepped back by one where `a` lay halfway.
fn settle(x: Limb, a: Limb, next: Limb) -> (r: Limb)
    ensures
        r == settle_half(x, a, next),
{
    if x.sub(a).abs().equals(Limb { bits: HALF_BITS }) && next.lt(Limb { bits: 0 }) {
        x.sub(Limb { bits: ONE_BITS })
    } else {
        x
    }
}

impl Quad {
    /// The square root.
    pub fn sqrt(self) -> (r: Quad)
        ensures
            r == quad_root(self),
    {
        if self.is_nan() {
            return Quad::nan_value();
        }
        if self.is_zero() {
            return self;
        }
        if self.is_sign_negative() {
            return Quad::nan_value();
        }
        if self.is_infinite() {
            return Quad::infinity(false);
        }
        let half_limb = Limb { bits: HALF_BITS };
        let k = Quad::from_limb(half_limb);
        let h = self.mul_pwr2(half_limb);
        let mut r = Quad::one().div(Quad::from_limb(self.0.sqrt()));
        r = r.add(k.sub(h.mul(r.mul(r))).mul(r));
        r = r.add(k.sub(h.mul(r.mul(r))).mul(r));
        r = r.add(k.sub(h.mul(r.mul(r))).mul(r));
        r.mul(self)
    }

    /// The whole number nearest to the number.
    pub fn round(self) -> (r: Quad)
        ensures
            r == quad_nearest_whole(self),
    {
        let z = Limb { bits: 0 };
        let x0 = self.0.round();
        let t = if x0.equals(self.0) {
            let x1 = self.1.round();
            if x1.equals(self.1) {
                let x2 = self.2.round();
                if x2.equals(self.2) {
                    renorm4(x0, x1, x2, self.3.round())
                } else {
                    renorm4(x0, x1, settle(x2, self.2, self.3), z)
                }
            } else {
                renorm4(x0, settle(x1, self.1, self.2), z, z)
            }
        } else {
            renorm4(settle(x0, self.0, self.1), z, z, z)
        };
        Quad(t.0, t.1, t.2, t.3)
    }
}

} // verus!
