//! The operators on two-limb numbers: `-`, `+`, `*` and `/`, the division
//! with one side taken by reference, the division in place, and the reading
//! of a limb by its place.

use crate::double::{double_negated, Double};
use crate::double_arith::{double_difference, double_product, double_quotient, double_sum};
use crate::limb::Limb;
use core::ops::{Add, Div, DivAssign, Index, Mul, Neg, Sub};
use vstd::prelude::*;
use vstd::std_specs::ops::{AddSpecImpl, DivSpecImpl, MulSpecImpl, NegSpecImpl, SubSpecImpl};

verus! {

impl NegSpecImpl for Double {
    open spec fn obeys_neg_spec() -> bool {
        true
    }

    open spec fn neg_req(self) -> bool {
        true
    }

    open spec fn neg_spec(self) -> Double {
        double_negated(self)
    }
}

impl Neg for Double {
    type Output = Double;

    /// The negation, as `-a`.
    fn neg(self) -> (r: Double) {
        Double::neg(self)
    }
}

impl AddSpecImpl for Double {
    open spec fn obeys_add_spec() -> bool {
        true
    }

    open spec fn add_req(self, rhs: Double) -> bool {
        true
    }

    open spec fn add_spec(self, rhs: Double) -> Double {
        double_sum(self, rhs)
    }
}

impl Add for Double {
    type Output = Double;

    /// The sum, as `a + b`.
    fn add(self, rhs: Double) -> (r: Double) {
        Double::add(self, rhs)
    }
}

impl SubSpecImpl for Double {
    open spec fn obeys_sub_spec() -> bool {
        true
    }

    open spec fn sub_req(self, rhs: Double) -> bool {
        true
    }

    open spec fn sub_spec(self, rhs: Double) -> Double {
        double_difference(self, rhs)
    }
}

impl Sub for Double {
    type Output = Double;

    /// The difference, as `a - b`.
    fn sub(self, rhs: Double) -> (r: Double) {
        Double::sub(self, rhs)
    }
}

impl MulSpecImpl for Double {
    open spec fn obeys_mul_spec() -> bool {
        true
    }

    open spec fn mul_req(self, rhs: Double) -> bool {
        true
    }

    open spec fn mul_spec(self, rhs: Double) -> Double {
        double_product(self, rhs)
    }
}

impl Mul for Double {
    type Output = Double;

    /// The product, as `a * b`.
    fn mul(self, rhs: Double) -> (r: Double) {
        Double::mul(self, rhs)
    }
}

impl DivSpecImpl for Double {
    open spec fn obeys_div_spec() -> bool {
        true
    }

    open spec fn div_req(self, rhs: Double) -> bool {
        true
    }

    open spec fn div_spec(self, rhs: Double) -> Double {
        double_quotient(self, rhs)
    }
}

impl Div for Double {
    type Output = Double;

    /// The quotient, as `a / b`.
    fn div(self, rhs: Double) -> (r: Double) {
        Double::div(self, rhs)
    }
}

impl<'a> DivSpecImpl<&'a Double> for Double {
    open spec fn obeys_div_spec() -> bool {
        true
    }

    open spec fn div_req(self, rhs: &'a Double) -> bool {
        true
    }

    open spec fn div_spec(self, rhs: &'a Double) -> Double {
        double_quotient(self, *rhs)
    }
}

impl<'a> Div<&'a Double> for Double {
    type Output = Double;

    /// The quotient, as `a / b`.
    fn div(self, rhs: &'a Double) -> (r: Double) {
        Double::div(self, *rhs)
    }
}

impl<'a> DivSpecImpl<Double> for &'a Double {
    open spec fn obeys_div_spec() -> bool {
        true
    }

    open spec fn div_req(self, rhs: Double) -> bool {
        true
    }

    open spec fn div_spec(self, rhs: Double) -> Double {
        double_quotient(*self, rhs)
    }
}

impl<'a> Div<Double> for &'a Double {
    type Output = Double;

    /// The quotient, as `a / b`.
    fn div(self, rhs: Double) -> (r: Double) {
        Double::div(*self, rhs)
    }
}

impl DivAssign for Double {
    /// The division in place, as `a /= b`.
    fn div_assign(&mut self, rhs: Double)
        ensures
            *final(self) == double_quotient(*old(self), rhs),
    {
        *self = Double::div(*self, rhs);
    }
}

impl<'a> DivAssign<&'a Double> for Double {
    /// The division in place, as `a /= b`.
    fn div_assign(&mut self, rhs: &'a Double)
        ensures
            *final(self) == double_quotient(*old(self), *rhs),
    {
        *self = Double::div(*self, *rhs);
    }
}

/// The limb of `a` at place `idx`.
pub open spec fn limb_at(a: Double, idx: int) -> Limb {
    if idx == 0 {
        a.0
    } else {
        a.1
    }
}

impl vstd::std_specs::core::IndexSpecImpl<usize> for Double {
    open spec fn index_req(&self, index: &usize) -> bool {
        *index < 2
    }
}

impl Index<usize> for Double {
    type Output = Limb;

    /// The limb at the given place, the leading limb at place zero. Limbs
    /// are only read by their place, never written; a place beyond the
    /// second limb is no input of this function.
    fn index(&self, idx: usize) -> (r: &Limb)
        ensures
            *r == limb_at(*self, idx as int),
    {
        if idx == 0 {
            &self.0
        } else {
            &self.1
        }
    }
}

} // verus!
