//! A binary64 number held by its bit pattern.
//!
//! Every finite binary64 number is a whole multiple of 2^-1074. The model of a
//! finite limb is that multiple, its `value`, so sums of limbs are plain integers
//! and products and quotients are ratios of integers.

use vstd::arithmetic::power2::pow2;
use vstd::prelude::*;

verus! {

/// The sign bit of a pattern.
pub const SIGN_BIT: u64 = 0x8000_0000_0000_0000;

/// The pattern of positive infinity; the patterns above it, sign aside, are NaN.
pub const INF_BITS: u64 = 0x7FF0_0000_0000_0000;

/// The pattern of the one NaN that operations return.
pub const NAN_BITS: u64 = 0x7FF8_0000_0000_0000;

/// The implicit leading bit of a normal significand, 2^52.
pub const HIDDEN_BIT: u64 = 0x0010_0000_0000_0000;

/// The pattern of one.
pub const ONE_BITS: u64 = 0x3FF0_0000_0000_0000;

/// The pattern of one half.
pub const HALF_BITS: u64 = 0x3FE0_0000_0000_0000;

/// One native-precision component of a multi-limb number.
#[derive(Clone, Copy, Debug, PartialEq, Eq, Structural)]
pub struct Limb {
    pub bits: u64,
}

impl Limb {
    /// The pattern without its sign bit.
    pub open spec fn abs_bits(self) -> u64 {
        if self.bits >= SIGN_BIT {
            (self.bits - SIGN_BIT) as u64
        } else {
            self.bits
        }
    }

    /// The sign bit is set. This holds of negative zero and may hold of a NaN.
    pub open spec fn negative(self) -> bool {
        self.bits >= SIGN_BIT
    }

    /// The limb is a NaN: its pattern lies above that of infinity.
    pub open spec fn nan(self) -> bool {
        self.abs_bits() > INF_BITS
    }

    /// The limb is an infinity.
    pub open spec fn infinite(self) -> bool {
        self.abs_bits() == INF_BITS
    }

    /// The limb is neither a NaN nor an infinity.
    pub open spec fn finite(self) -> bool {
        self.abs_bits() < INF_BITS
    }

    /// The limb is a zero of either sign.
    pub open spec fn zero(self) -> bool {
        self.abs_bits() == 0
    }

    /// The exponent field.
    pub open spec fn biased_exp(self) -> nat {
        (self.abs_bits() / HIDDEN_BIT) as nat
    }

    /// The fraction field.
    pub open spec fn fraction(self) -> nat {
        (self.abs_bits() % HIDDEN_BIT) as nat
    }

    /// The integer significand of a finite limb: the fraction, with the
    /// implicit bit where the limb is normal.
    pub open spec fn significand(self) -> nat {
        if self.biased_exp() == 0 {
            self.fraction()
        } else {
            (HIDDEN_BIT + self.fraction()) as nat
        }
    }

    /// The power of two that the significand of a finite limb is multiplied
    /// by to give its magnitude in units of 2^-1074.
    pub open spec fn scale(self) -> nat {
        if self.biased_exp() == 0 {
            0
        } else {
            (self.biased_exp() - 1) as nat
        }
    }

    /// The magnitude of a finite limb in units of 2^-1074.
    pub open spec fn magnitude(self) -> nat {
        self.significand() * pow2(self.scale())
    }

    /// The number that a finite limb stands for, in units of 2^-1074.
    pub open spec fn value(self) -> int {
        if self.negative() {
            -(self.magnitude() as int)
        } else {
            self.magnitude() as int
        }
    }

    /// The limb with the given pattern.
    pub fn from_bits(bits: u64) -> (r: Limb)
        ensures
            r.bits == bits,
    {
        Limb { bits }
    }

    /// The pattern of the limb.
    pub fn to_bits(self) -> (r: u64)
        ensures
            r == self.bits,
    {
        self.bits
    }

    /// The pattern without its sign bit.
    pub fn magnitude_bits(self) -> (r: u64)
        ensures
            r == self.abs_bits(),
    {
        if self.bits >= SIGN_BIT {
            self.bits - SIGN_BIT
        } else {
            self.bits
        }
    }

    /// The limb is a NaN.
    pub fn is_nan(self) -> (r: bool)
        ensures
            r == self.nan(),
    {
        self.magnitude_bits() > INF_BITS
    }

    /// The limb is an infinity.
    pub fn is_infinite(self) -> (r: bool)
        ensures
            r == self.infinite(),
    {
        self.magnitude_bits() == INF_BITS
    }

    /// The limb is neither a NaN nor an infinity.
    pub fn is_finite(self) -> (r: bool)
        ensures
            r == self.finite(),
    {
        self.magnitude_bits() < INF_BITS
    }

    /// The limb is a zero of either sign.
    pub fn is_zero(self) -> (r: bool)
        ensures
            r == self.zero(),
    {
        self.magnitude_bits() == 0
    }

    /// The sign bit is set, as it is of the negative zero too.
    pub fn is_sign_negative(self) -> (r: bool)
        ensures
            r == self.negative(),
    {
        self.bits >= SIGN_BIT
    }

    /// The integer significand and the scale of a finite limb.
    pub fn unpack(self) -> (r: (u64, u32))
        requires
            self.finite(),
        ensures
            r.0 == self.significand(),
            r.1 == self.scale(),
            r.0 < 0x20_0000_0000_0000,
            r.1 <= 2045,
            r.1 > 0 ==> r.0 >= HIDDEN_BIT,
    {
        let a: u64 = self.magnitude_bits();
        let e: u64 = a / HIDDEN_BIT;
        let f: u64 = a % HIDDEN_BIT;
        if e == 0 {
            (f, 0)
        } else {
            (HIDDEN_BIT + f, (e - 1) as u32)
        }
    }
}

/// The limb with the given sign and the given pattern below the sign bit.
pub open spec fn signed(negative: bool, abs_bits: u64) -> Limb
    recommends
        abs_bits < SIGN_BIT,
{
    Limb {
        bits: if negative {
            (abs_bits + SIGN_BIT) as u64
        } else {
            abs_bits
        },
    }
}

/// The limb with the given sign and the given pattern below the sign bit.
pub fn with_sign(negative: bool, abs_bits: u64) -> (r: Limb)
    requires
        abs_bits < SIGN_BIT,
    ensures
        r == signed(negative, abs_bits),
        r.abs_bits() == abs_bits,
        r.negative() == negative,
{
    if negative {
        Limb { bits: abs_bits + SIGN_BIT }
    } else {
        Limb { bits: abs_bits }
    }
}

/// The NaN that operations return.
pub open spec fn nan_limb() -> Limb {
    Limb { bits: NAN_BITS }
}

/// Infinity of the given sign.
pub open spec fn inf_limb(negative: bool) -> Limb {
    signed(negative, INF_BITS)
}

/// Zero of the given sign.
pub open spec fn zero_limb(negative: bool) -> Limb {
    signed(negative, 0)
}

} // verus!
