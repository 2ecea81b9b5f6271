//! The operators on four-limb numbers: `-`, `+`, `*` and `/`, the division
//! with one side taken by reference, the division in place, and the reading
//! of a limb by its place.

use crate::limb::Limb;
use crate::quad::{quad_negated, Quad};
use crate::quad_add::{quad_difference, quad_sum};
use crate::quad_div::quad_quotient;
use crate::quad_mul::quad_product;
use core::ops::{Add, Div, DivAssign, Index, Mul, Neg, Sub};
use vstd::prelude::*;
use vstd::std_specs::ops::{AddSpecImpl, DivSpecImpl, MulSpecImpl, NegSpecImpl, SubSpecImpl};

verus! {

impl NegSpecImpl for Quad {
    open spec fn obeys_neg_spec() -> bool {
        true
    }

    open spec fn neg_req(self) -> bool {
        true
    }

    open spec fn neg_spec(self) -> Quad {
        quad_negated(self)
    }
}

impl Neg for Quad {
    type Output = Quad;

    /// The negation, as `-a`.
    fn neg(self) -> (r: Quad) {
        Quad::neg(self)
    }
}

impl AddSpecImpl for Quad {
    open spec fn obeys_add_spec() -> bool {
        true
    }

    open spec fn add_req(self, rhs: Quad) -> bool {
        true
    }

    open spec fn add_spec(self, rhs: Quad) -> Quad {
        quad_sum(self, rhs)
    }
}

impl Add for Quad {
    type Output = Quad;

    /// The sum, as `a + b`.
    fn add(self, rhs: Quad) -> (r: Quad) {
        Quad::add(self, rhs)
    }
}

impl SubSpecImpl for Quad {
    open spec fn obeys_sub_spec() -> bool {
        true
    }

    open spec fn sub_req(self, rhs: Quad) -> bool {
        true
    }

    open spec fn sub_spec(self, rhs: Quad) -> Quad {
        quad_difference(self, rhs)
    }
}

impl Sub for Quad {
    type Output = Quad;

    /// The difference, as `a - b`.
    fn sub(self, rhs: Quad) -> (r: Quad) {
        Quad::sub(self, rhs)
    }
}

impl MulSpecImpl for Quad {
    open spec fn obeys_mul_spec() -> bool {
        true
    }

    open spec fn mul_req(self, rhs: Quad) -> bool {
        true
    }

    open spec fn mul_spec(self, rhs: Quad) -> Quad {
        quad_product(self, rhs)
    }
}

impl Mul for Quad {
    type Output = Quad;

    /// The product, as `a * b`.
    fn mul(self, rhs: Quad) -> (r: Quad) {
        Quad::mul(self, rhs)
    }
}

impl DivSpecImpl for Quad {
    open spec fn obeys_div_spec() -> bool {
        true
    }

    open spec fn div_req(self, rhs: Quad) -> bool {
        true
    }

    open spec fn div_spec(self, rhs: Quad) -> Quad {
        quad_quotient(self, rhs)
    }
}

impl Div for Quad {
    type Output = Quad;

    /// The quotient, as `a / b`.
    fn div(self, rhs: Quad) -> (r: Quad) {
        Quad::div(self, rhs)
    }
}

impl<'a> DivSpecImpl<&'a Quad> for Quad {
    open spec fn obeys_div_spec() -> bool {
        true
    }

    open spec fn div_req(self, rhs: &'a Quad) -> bool {
        true
    }

    open spec fn div_spec(self, rhs: &'a Quad) -> Quad {
        quad_quotient(self, *rhs)
    }
}

impl<'a> Div<&'a Quad> for Quad {
    type Output = Quad;

    /// The quotient, as `a / b`.
    fn div(self, rhs: &'a Quad) -> (r: Quad) {
        Quad::div(self, *rhs)
    }
}

impl<'a> DivSpecImpl<Quad> for &'a Quad {
    open spec fn obeys_div_spec() -> bool {
        true
    }

    open spec fn div_req(self, rhs: Quad) -> bool {
        true
    }

    open spec fn div_spec(self, rhs: Quad) -> Quad {
        quad_quotient(*self, rhs)
    }
}

impl<'a> Div<Quad> for &'a Quad {
    type Output = Quad;

    /// The quotient, as `a / b`.
    fn div(self, rhs: Quad) -> (r: Quad) {
        Quad::div(*self, rhs)
    }
}

impl DivAssign for Quad {
    /// The division in place, as `a /= b`.
    fn div_assign(&mut self, rhs: Quad)
        ensures
            *final(self) == quad_quotient(*old(self), rhs),
    {
        *self = Quad::div(*self, rhs);
    }
}

impl<'a> DivAssign<&'a Quad> for Quad {
    /// The division in place, as `a /= b`.
    fn div_assign(&mut self, rhs: &'a Quad)
        ensures
            *final(self) == quad_quotient(*old(self), *rhs),
    {
        *self = Quad::div(*self, *rhs);
    }
}

/// The limb of `a` at place `idx`.
pub open spec fn limb_at(a: Quad, idx: int) -> Limb {
    if idx == 0 {
        a.0
    } else if idx == 1 {
        a.1
    } else if idx == 2 {
        a.2
    } else {
        a.3
    }
}

impl vstd::std_specs::core::IndexSpecImpl<usize> for Quad {
    open spec fn index_req(&self, index: &usize) -> bool {
        *index < 4
    }
}

impl Index<usize> for Quad {
    type Output = Limb;

    /// The limb at the given place, the leading limb at place zero. Limbs
    /// are only read by their place, never written; a place beyond the
    /// fourth limb is no input of this function.
    fn index(&self, idx: usize) -> (r: &Limb)
        ensures
            *r == limb_at(*self, idx as int),
    {
        if idx == 0 {
            &self.0
        } else if idx == 1 {
            &self.1
        } else if idx == 2 {
            &self.2
        } else {
            &self.3
        }
    }
}

} // verus!
