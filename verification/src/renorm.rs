//! Renormalization: raw limbs of roughly falling weight are brought into
//! limbs that do not overlap.
//!
//! The limbs are first summed from the lightest upward, each step keeping
//! the rounded sum and passing the error down. Where the leading limb is not
//! finite, or comes out of that pass as an infinity or a NaN, or as a zero
//! with nothing but zeros below it, it alone is the result. Otherwise a
//! second pass from the top takes up the errors again, skipping those that
//! are zero, until the limbs of the result are filled; what is left over is
//! zero.

use crate::eft::{quick_two_sum, quick_two_sum_of};
use crate::limb::{zero_limb, Limb};
use crate::limb_add::sum;
use vstd::prelude::*;

verus! {

/// The first pass has left nothing but its leading limb: that limb is not
/// finite, or it is zero and so are the errors below it.
pub open spec fn spent(c0: Limb, c1: Limb, c2: Limb, c3: Limb, c4: Limb) -> bool {
    !c0.finite() || (c0.zero() && c1.zero() && c2.zero() && c3.zero() && c4.zero())
}

/// Positive zero.
pub open spec fn pz() -> Limb {
    zero_limb(false)
}

/// The second pass over four limbs, the first of which is final.
pub open spec fn settle4_of(c0: Limb, c1: Limb, c2: Limb, c3: Limb) -> (Limb, Limb, Limb, Limb) {
    if !c1.zero() {
        let (s1, s2) = quick_two_sum_of(c1, c2);
        if !s2.zero() {
            let (s2, s3) = quick_two_sum_of(s2, c3);
            (c0, s1, s2, s3)
        } else {
            let (s1, s2) = quick_two_sum_of(s1, c3);
            (c0, s1, s2, pz())
        }
    } else {
        let (s0, s1) = quick_two_sum_of(c0, c2);
        if !s1.zero() {
            let (s1, s2) = quick_two_sum_of(s1, c3);
            (s0, s1, s2, pz())
        } else {
            let (s0, s1) = quick_two_sum_of(s0, c3);
            (s0, s1, pz(), pz())
        }
    }
}

/// Four raw limbs brought into four limbs that do not overlap.
pub open spec fn renorm4_of(c0: Limb, c1: Limb, c2: Limb, c3: Limb) -> (Limb, Limb, Limb, Limb) {
    if !c0.finite() {
        (c0, pz(), pz(), pz())
    } else {
        let (x, c3) = quick_two_sum_of(c2, c3);
        let (x, c2) = quick_two_sum_of(c1, x);
        let (c0, c1) = quick_two_sum_of(c0, x);
        if spent(c0, c1, c2, c3, pz()) {
            (c0, pz(), pz(), pz())
        } else {
            settle4_of(c0, c1, c2, c3)
        }
    }
}

/// The end of the second pass over five limbs: two limbs are final, and
/// `s2` with the last two raw limbs fills the other two.
pub open spec fn settle5_tail_of(s2: Limb, c3: Limb, c4: Limb) -> (Limb, Limb) {
    let (s2, s3) = quick_two_sum_of(s2, c3);
    if !s3.zero() {
        (s2, sum(s3, c4))
    } else {
        quick_two_sum_of(s2, c4)
    }
}

/// The second pass over five limbs from the point where `s0` is final and
/// `s1` has taken up nothing yet.
pub open spec fn settle5_mid_of(s0: Limb, s1: Limb, c3: Limb, c4: Limb) -> (
    Limb,
    Limb,
    Limb,
    Limb,
) {
    let (s1, s2) = quick_two_sum_of(s1, c3);
    if !s2.zero() {
        let (s2, s3) = quick_two_sum_of(s2, c4);
        (s0, s1, s2, s3)
    } else {
        let (s1, s2) = quick_two_sum_of(s1, c4);
        (s0, s1, s2, pz())
    }
}

/// The second pass over five limbs, the first of which is final.
pub open spec fn settle5_of(c0: Limb, c1: Limb, c2: Limb, c3: Limb, c4: Limb) -> (
    Limb,
    Limb,
    Limb,
    Limb,
) {
    if !c1.zero() {
        let (s1, s2) = quick_two_sum_of(c1, c2);
        if !s2.zero() {
            let (s2, s3) = settle5_tail_of(s2, c3, c4);
            (c0, s1, s2, s3)
        } else {
            settle5_mid_of(c0, s1, c3, c4)
        }
    } else {
        let (s0, s1) = quick_two_sum_of(c0, c2);
        if !s1.zero() {
            settle5_mid_of(s0, s1, c3, c4)
        } else {
            let (s0, s1) = quick_two_sum_of(s0, c3);
            if !s1.zero() {
                let (s1, s2) = quick_two_sum_of(s1, c4);
                (s0, s1, s2, pz())
            } else {
                let (s0, s1) = quick_two_sum_of(s0, c4);
                (s0, s1, pz(), pz())
            }
        }
    }
}

/// Five raw limbs brought into four limbs that do not overlap.
pub open spec fn renorm5_of(c0: Limb, c1: Limb, c2: Limb, c3: Limb, c4: Limb) -> (
    Limb,
    Limb,
    Limb,
    Limb,
) {
    if !c0.finite() {
        (c0, pz(), pz(), pz())
    } else {
        let (x, c4) = quick_two_sum_of(c3, c4);
        let (x, c3) = quick_two_sum_of(c2, x);
        let (x, c2) = quick_two_sum_of(c1, x);
        let (c0, c1) = quick_two_sum_of(c0, x);
        if spent(c0, c1, c2, c3, c4) {
            (c0, pz(), pz(), pz())
        } else {
            settle5_of(c0, c1, c2, c3, c4)
        }
    }
}

/// The first pass has left nothing but its leading limb.
pub fn is_spent(c0: Limb, c1: Limb, c2: Limb, c3: Limb, c4: Limb) -> (r: bool)
    ensures
        r == spent(c0, c1, c2, c3, c4),
{
    !c0.is_finite() || (c0.is_zero() && c1.is_zero() && c2.is_zero() && c3.is_zero()
        && c4.is_zero())
}

/// The second pass over four limbs.
fn settle4(c0: Limb, c1: Limb, c2: Limb, c3: Limb) -> (r: (Limb, Limb, Limb, Limb))
    ensures
        r == settle4_of(c0, c1, c2, c3),
{
    let z = Limb { bits: 0 };
    if !c1.is_zero() {
        let (s1, s2) = quick_two_sum(c1, c2);
        if !s2.is_zero() {
            let (s2, s3) = quick_two_sum(s2, c3);
            (c0, s1, s2, s3)
        } else {
            let (s1, s2) = quick_two_sum(s1, c3);
            (c0, s1, s2, z)
        }
    } else {
        let (s0, s1) = quick_two_sum(c0, c2);
        if !s1.is_zero() {
            let (s1, s2) = quick_two_sum(s1, c3);
            (s0, s1, s2, z)
        } else {
            let (s0, s1) = quick_two_sum(s0, c3);
            (s0, s1, z, z)
        }
    }
}

/// Four raw limbs brought into four limbs that do not overlap.
pub fn renorm4(c0: Limb, c1: Limb, c2: Limb, c3: Limb) -> (r: (Limb, Limb, Limb, Limb))
    ensures
        r == renorm4_of(c0, c1, c2, c3),
{
    let z = Limb { bits: 0 };
    if !c0.is_finite() {
        return (c0, z, z, z);
    }
    let (x, c3) = quick_two_sum(c2, c3);
    let (x, c2) = quick_two_sum(c1, x);
    let (c0, c1) = quick_two_sum(c0, x);
    if is_spent(c0, c1, c2, c3, z) {
        return (c0, z, z, z);
    }
    settle4(c0, c1, c2, c3)
}

/// The end of the second pass over five limbs.
fn settle5_tail(s2: Limb, c3: Limb, c4: Limb) -> (r: (Limb, Limb))
    ensures
        r == settle5_tail_of(s2, c3, c4),
{
    let (s2, s3) = quick_two_sum(s2, c3);
    if !s3.is_zero() {
        (s2, s3.add(c4))
    } else {
        quick_two_sum(s2, c4)
    }
}

/// The second pass over five limbs from its second limb on.
fn settle5_mid(s0: Limb, s1: Limb, c3: Limb, c4: Limb) -> (r: (Limb, Limb, Limb, Limb))
    ensures
        r == settle5_mid_of(s0, s1, c3, c4),
{
    let (s1, s2) = quick_two_sum(s1, c3);
    if !s2.is_zero() {
        let (s2, s3) = quick_two_sum(s2, c4);
        (s0, s1, s2, s3)
    } else {
        let (s1, s2) = quick_two_sum(s1, c4);
        (s0, s1, s2, Limb { bits: 0 })
    }
}

/// The second pass over five limbs.
fn settle5(c0: Limb, c1: Limb, c2: Limb, c3: Limb, c4: Limb) -> (r: (Limb, Limb, Limb, Limb))
    ensures
        r == settle5_of(c0, c1, c2, c3, c4),
{
    let z = Limb { bits: 0 };
    if !c1.is_zero() {
        let (s1, s2) = quick_two_sum(c1, c2);
        if !s2.is_zero() {
            let (s2, s3) = settle5_tail(s2, c3, c4);
            (c0, s1, s2, s3)
        } else {
            settle5_mid(c0, s1, c3, c4)
        }
    } else {
        let (s0, s1) = quick_two_sum(c0, c2);
        if !s1.is_zero() {
            settle5_mid(s0, s1, c3, c4)
        } else {
            let (s0, s1) = quick_two_sum(s0, c3);
            if !s1.is_zero() {
                let (s1, s2) = quick_two_sum(s1, c4);
                (s0, s1, s2, z)
            } else {
                let (s0, s1) = quick_two_sum(s0, c4);
                (s0, s1, z, z)
            }
        }
    }
}

/// Five raw limbs brought into four limbs that do not overlap.
pub fn renorm5(c0: Limb, c1: Limb, c2: Limb, c3: Limb, c4: Limb) -> (r: (
    Limb,
    Limb,
    Limb,
    Limb,
))
    ensures
        r == renorm5_of(c0, c1, c2, c3, c4),
{
    let z = Limb { bits: 0 };
    if !c0.is_finite() {
        return (c0, z, z, z);
    }
    let (x, c4) = quick_two_sum(c3, c4);
    let (x, c3) = quick_two_sum(c2, x);
    let (x, c2) = quick_two_sum(c1, x);
    let (c0, c1) = quick_two_sum(c0, x);
    if is_spent(c0, c1, c2, c3, c4) {
        return (c0, z, z, z);
    }
    settle5(c0, c1, c2, c3, c4)
}

} // verus!
