//! The order of limbs.
//!
//! Below the sign bit the patterns of the limbs that are no NaN ascend with
//! their magnitudes, so the order is read off the patterns. The two zeros are
//! equal, and a NaN is neither below, above nor equal to anything.

use crate::limb::Limb;
use vstd::prelude::*;

verus! {

/// The place of a limb that is no NaN in the order of all such limbs.
pub open spec fn ordinal(a: Limb) -> int {
    if a.negative() {
        -(a.abs_bits() as int)
    } else {
        a.abs_bits() as int
    }
}

/// `a` is below `b`.
pub open spec fn less(a: Limb, b: Limb) -> bool {
    !a.nan() && !b.nan() && ordinal(a) < ordinal(b)
}

/// `a` is below or equal to `b`.
pub open spec fn less_eq(a: Limb, b: Limb) -> bool {
    !a.nan() && !b.nan() && ordinal(a) <= ordinal(b)
}

/// `a` and `b` are the same number.
pub open spec fn equal(a: Limb, b: Limb) -> bool {
    !a.nan() && !b.nan() && ordinal(a) == ordinal(b)
}

impl Limb {
    /// The place of a limb in the order, for a limb that is no NaN.
    fn rank(self) -> (r: i128)
        ensures
            r == ordinal(self),
    {
        let m: u64 = self.magnitude_bits();
        if self.is_sign_negative() {
            -(m as i128)
        } else {
            m as i128
        }
    }

    /// The limb is below `other`. Nothing is below or above a NaN.
    pub fn lt(self, other: Limb) -> (r: bool)
        ensures
            r == less(self, other),
    {
        !self.is_nan() && !other.is_nan() && self.rank() < other.rank()
    }

    /// The limb is below `other` or equal to it.
    pub fn le(self, other: Limb) -> (r: bool)
        ensures
            r == less_eq(self, other),
    {
        !self.is_nan() && !other.is_nan() && self.rank() <= other.rank()
    }

    /// The limb is above `other`. Nothing is below or above a NaN.
    pub fn gt(self, other: Limb) -> (r: bool)
        ensures
            r == less(other, self),
    {
        other.lt(self)
    }

    /// The limb is above `other` or equal to it.
    pub fn ge(self, other: Limb) -> (r: bool)
        ensures
            r == less_eq(other, self),
    {
        other.le(self)
    }

    /// The two limbs are the same number.
    pub fn equals(self, other: Limb) -> (r: bool)
        ensures
            r == equal(self, other),
    {
        !self.is_nan() && !other.is_nan() && self.rank() == other.rank()
    }
}

} // verus!
