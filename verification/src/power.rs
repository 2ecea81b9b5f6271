//! Powers of two in executable code, and the bit length of an integer.

use vstd::arithmetic::power2::{
    lemma2_to64, lemma2_to64_rest, lemma_pow2_adds, lemma_pow2_pos, lemma_pow2_strictly_increases,
    lemma_pow2_unfold, pow2,
};
use vstd::prelude::*;

verus! {

/// Concrete values of the powers of two that bound the 128-bit integers.
pub proof fn lemma_pow2_wide()
    ensures
        pow2(52) == 0x10_0000_0000_0000,
        pow2(53) == 0x20_0000_0000_0000,
        pow2(64) == 0x1_0000_0000_0000_0000,
        pow2(106) == 0x400_0000_0000_0000_0000_0000_0000,
        pow2(120) == 0x100_0000_0000_0000_0000_0000_0000_0000,
        pow2(126) == 0x4000_0000_0000_0000_0000_0000_0000_0000,
        pow2(127) == 0x8000_0000_0000_0000_0000_0000_0000_0000,
        pow2(128) == 0x1_0000_0000_0000_0000_0000_0000_0000_0000,
{
    lemma2_to64();
    lemma2_to64_rest();
    lemma_pow2_adds(53, 53);
    lemma_pow2_adds(60, 60);
    lemma_pow2_adds(63, 63);
    lemma_pow2_adds(63, 64);
    lemma_pow2_adds(64, 64);
}

/// `pow2` is monotone.
pub proof fn lemma_pow2_monotone(a: nat, b: nat)
    requires
        a <= b,
    ensures
        pow2(a) <= pow2(b),
        pow2(a) > 0,
{
    lemma_pow2_pos(a);
    if a < b {
        lemma_pow2_strictly_increases(a, b);
    }
}

/// The product of two powers of two, with the exponents written as a sum.
pub proof fn lemma_pow2_sum(a: nat, b: nat, c: nat)
    requires
        c == a + b,
    ensures
        pow2(c) == pow2(a) * pow2(b),
        pow2(a) > 0,
        pow2(b) > 0,
{
    lemma_pow2_adds(a, b);
    lemma_pow2_pos(a);
    lemma_pow2_pos(b);
}

/// Two to the power `k`.
pub fn pow2_u128(k: u32) -> (p: u128)
    requires
        k < 128,
    ensures
        p == pow2(k as nat),
        p > 0,
{
    let mut p: u128 = 1;
    let mut i: u32 = 0;
    proof {
        lemma2_to64();
    }
    while i < k
        invariant
            i <= k,
            k < 128,
            p == pow2(i as nat),
        decreases k - i,
    {
        proof {
            lemma_pow2_unfold((i + 1) as nat);
            lemma_pow2_monotone((i + 1) as nat, 127);
            lemma_pow2_wide();
        }
        p = p * 2;
        i = i + 1;
    }
    proof {
        lemma_pow2_pos(k as nat);
    }
    p
}

/// The number of bits needed to write `x`: zero for zero, else the position
/// of the highest set bit counted from one.
pub open spec fn bit_len(x: nat) -> nat
    decreases x,
{
    if x == 0 {
        0
    } else {
        1 + bit_len(x / 2)
    }
}

/// The bit length brackets its argument between two powers of two.
pub proof fn lemma_bit_len_bounds(x: nat)
    ensures
        x < pow2(bit_len(x)),
        x > 0 ==> bit_len(x) > 0 && x >= pow2((bit_len(x) - 1) as nat),
    decreases x,
{
    lemma2_to64();
    if x > 0 {
        lemma_bit_len_bounds(x / 2);
        lemma_pow2_unfold(bit_len(x));
        if x / 2 > 0 {
            lemma_pow2_unfold((bit_len(x) - 1) as nat);
        }
    }
}

/// Only one length brackets a positive integer.
pub proof fn lemma_bit_len_unique(x: nat, l: nat)
    requires
        l > 0,
        pow2((l - 1) as nat) <= x < pow2(l),
    ensures
        bit_len(x) == l,
{
    lemma_bit_len_bounds(x);
    lemma_pow2_pos((l - 1) as nat);
    let b = bit_len(x);
    if b < l {
        lemma_pow2_monotone(b, (l - 1) as nat);
    } else if b > l {
        lemma_pow2_monotone(l, (b - 1) as nat);
    }
}

/// The bit length of `x`.
pub fn bit_length(x: u128) -> (l: u32)
    ensures
        l == bit_len(x as nat),
        l <= 128,
{
    let mut y: u128 = x;
    let mut l: u32 = 0;
    proof {
        lemma_bit_len_bounds(x as nat);
        lemma_pow2_wide();
        if bit_len(x as nat) > 128 {
            lemma_pow2_monotone(128, (bit_len(x as nat) - 1) as nat);
        }
    }
    while y > 0
        invariant
            l + bit_len(y as nat) == bit_len(x as nat),
            bit_len(x as nat) <= 128,
        decreases y,
    {
        y = y / 2;
        l = l + 1;
    }
    l
}

} // verus!
