//! Error-free transformations.
//!
//! Each takes two or three limbs and returns a rounded result together with
//! what the rounding lost, so that, where nothing overflows, the limbs that
//! come out add up to exactly what went in. They are plain sequences of limb
//! operations: on infinite and NaN inputs they return whatever those
//! operations give, with no case of their own.

use crate::eft_laws::{law_quick_two_sum_exact, law_two_prod_exact, law_two_sum_exact};
use crate::limb::Limb;
use crate::limb_add::{difference, negated, sum};
use crate::limb_mul::{fused, product};
use vstd::arithmetic::power2::pow2;
use vstd::prelude::*;

verus! {

/// Where `a` and `b` are finite and their rounded sum `r.0` is too, the
/// error `r.1` is finite and the two add up to exactly `a + b`.
pub open spec fn exact_sum(a: Limb, b: Limb, r: (Limb, Limb)) -> bool {
    a.finite() && b.finite() && r.0.finite() ==> r.1.finite() && r.0.value() + r.1.value()
        == a.value() + b.value()
}

/// Where `a` and `b` are finite, their rounded product `r.0` is too, and
/// the exact product is a whole number of units of 2^-1074, the error `r.1`
/// is finite and the two add up to exactly `a * b`. The values are counted
/// in units, so the sum is scaled by the number of units in one.
pub open spec fn exact_product(a: Limb, b: Limb, r: (Limb, Limb)) -> bool {
    a.finite() && b.finite() && r.0.finite() && (a.magnitude() * b.magnitude()) % pow2(1074) == 0
        ==> r.1.finite() && (r.0.value() + r.1.value()) * pow2(1074) == a.value() * b.value()
}

/// The rounded sum of two limbs and its rounding error: the quick exact
/// sum, with the limb that is not the smaller in magnitude taken first.
pub open spec fn two_sum_of(a: Limb, b: Limb) -> (Limb, Limb) {
    if b.abs_bits() <= a.abs_bits() {
        quick_two_sum_of(a, b)
    } else {
        quick_two_sum_of(b, a)
    }
}

/// The rounded sum and its rounding error, for `a` not below `b` in
/// magnitude.
pub open spec fn quick_two_sum_of(a: Limb, b: Limb) -> (Limb, Limb) {
    let s = sum(a, b);
    (s, difference(b, difference(s, a)))
}

/// The rounded product of two limbs and its rounding error.
pub open spec fn two_prod_of(a: Limb, b: Limb) -> (Limb, Limb) {
    let p = product(a, b);
    (p, fused(a, b, negated(p)))
}

/// Three limbs brought into three limbs of falling weight with the same sum.
pub open spec fn three_three_sum_of(a: Limb, b: Limb, c: Limb) -> (Limb, Limb, Limb) {
    let (t1, t2) = two_sum_of(a, b);
    let (x, t3) = two_sum_of(c, t1);
    let (y, z) = two_sum_of(t2, t3);
    (x, y, z)
}

/// Three limbs brought into two limbs, the second one rounded.
pub open spec fn three_two_sum_of(a: Limb, b: Limb, c: Limb) -> (Limb, Limb) {
    let (t1, t2) = two_sum_of(a, b);
    let (x, t3) = two_sum_of(c, t1);
    (x, sum(t2, t3))
}

/// The rounded sum of two limbs and its rounding error.
pub fn two_sum(a: Limb, b: Limb) -> (r: (Limb, Limb))
    ensures
        r == two_sum_of(a, b),
        r.0 == sum(a, b),
        exact_sum(a, b, r),
{
    proof {
        crate::eft_laws::lemma_sum_commutes(a, b);
        if a.finite() && b.finite() && sum(a, b).finite() {
            law_two_sum_exact(a, b);
        }
    }
    if b.magnitude_bits() <= a.magnitude_bits() {
        quick_two_sum(a, b)
    } else {
        quick_two_sum(b, a)
    }
}

/// The rounded sum and its rounding error, for `a` not below `b` in
/// magnitude. For other inputs the second limb may miss the error.
pub fn quick_two_sum(a: Limb, b: Limb) -> (r: (Limb, Limb))
    ensures
        r == quick_two_sum_of(a, b),
        r.0 == sum(a, b),
        b.abs_bits() <= a.abs_bits() ==> exact_sum(a, b, r),
{
    proof {
        if a.finite() && b.finite() && sum(a, b).finite() && b.abs_bits() <= a.abs_bits() {
            law_quick_two_sum_exact(a, b);
        }
    }
    let s = a.add(b);
    let e = b.sub(s.sub(a));
    (s, e)
}

/// The rounded product of two limbs and its rounding error.
pub fn two_prod(a: Limb, b: Limb) -> (r: (Limb, Limb))
    ensures
        r == two_prod_of(a, b),
        r.0 == product(a, b),
        exact_product(a, b, r),
{
    proof {
        if a.finite() && b.finite() && product(a, b).finite() && (a.magnitude() * b.magnitude())
            % pow2(1074) == 0 {
            law_two_prod_exact(a, b);
        }
    }
    a.mul_split(b)
}

/// Three limbs brought into three limbs of falling weight with the same sum.
pub fn three_three_sum(a: Limb, b: Limb, c: Limb) -> (r: (Limb, Limb, Limb))
    ensures
        r == three_three_sum_of(a, b, c),
        c.finite() && sum(a, b).finite() && r.0.finite() && r.1.finite() ==> r.2.finite()
            && r.0.value() + r.1.value() + r.2.value() == a.value() + b.value() + c.value(),
{
    let (t1, t2) = two_sum(a, b);
    let (x, t3) = two_sum(c, t1);
    let (y, z) = two_sum(t2, t3);
    (x, y, z)
}

/// Three limbs brought into two limbs, the second one rounded.
pub fn three_two_sum(a: Limb, b: Limb, c: Limb) -> (r: (Limb, Limb))
    ensures
        r == three_two_sum_of(a, b, c),
{
    let (t1, t2) = two_sum(a, b);
    let (x, t3) = two_sum(c, t1);
    (x, t2.add(t3))
}

} // verus!
