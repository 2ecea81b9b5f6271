//! The constants of the two-limb numbers: pi and its fractions, Euler's
//! number, the inverse factorials that the Taylor series use, and the sines
//! and cosines of the multiples of a sixteenth of pi that the reduced angle
//! is put together with. Each is held as the patterns of its limbs.

use crate::double::{double_bits, Double};
use crate::limb::Limb;
use vstd::prelude::*;

verus! {

/// The limbs of pi.
pub const PI: [u64; 2] = [
    0x4009_21FB_5444_2D18, 0x3CA1_A626_3314_5C07,
];

/// The limbs of Euler's number.
pub const E: [u64; 2] = [
    0x4005_BF0A_8B14_5769, 0x3CA4_D57E_E2B1_013A,
];

/// The limbs of twice pi.
pub const TWO_PI: [u64; 2] = [
    0x4019_21FB_5444_2D18, 0x3CB1_A626_3314_5C07,
];

/// The limbs of half of pi.
pub const FRAC_PI_2: [u64; 2] = [
    0x3FF9_21FB_5444_2D18, 0x3C91_A626_3314_5C07,
];

/// The limbs of a quarter of pi.
pub const FRAC_PI_4: [u64; 2] = [
    0x3FE9_21FB_5444_2D18, 0x3C81_A626_3314_5C07,
];

/// The limbs of a sixteenth of pi.
pub const FRAC_PI_16: [u64; 2] = [
    0x3FC9_21FB_5444_2D18, 0x3C61_A626_3314_5C07,
];

/// The limbs of the inverse factorials from 1/3! on, one after the other.
pub const INV_FACTS: [u64; 30] = [
    0x3FC5_5555_5555_5555, 0x3C65_5555_5555_5555,
    0x3FA5_5555_5555_5555, 0x3C45_5555_5555_5555,
    0x3F81_1111_1111_1111, 0x3C01_1111_1111_1111,
    0x3F56_C16C_16C1_6C17, 0xBBEF_49F4_9F49_F49F,
    0x3F2A_01A0_1A01_A01A, 0x3B6A_01A0_1A01_A01A,
    0x3EFA_01A0_1A01_A01A, 0x3B3A_01A0_1A01_A01A,
    0x3EC7_1DE3_A556_C734, 0xBB6C_154F_8DDC_6C00,
    0x3E92_7E4F_B778_9F5C, 0x3B3C_BBC0_5B4F_A99A,
    0x3E5A_E645_67F5_44E4, 0xBAFC_062E_06D1_F209,
    0x3E21_EED8_EFF8_D898, 0xBAC2_AEC9_59E1_4C06,
    0x3DE6_1246_13A8_6D09, 0x3A8F_28E0_CC74_8EBE,
    0x3DA9_3974_A8C0_7C9D, 0x3A30_5D6F_8A2E_FD1F,
    0x3D6A_E7F3_E733_B81F, 0x39E1_D865_6B0E_E8CB,
    0x3D2A_E7F3_E733_B81F, 0x39A1_D865_6B0E_E8CB,
    0x3CE9_52C7_7030_AD4A, 0x398A_C981_465D_DC6C,
];

/// The limbs of the sines of one to four sixteenths of pi.
pub const SINES: [u64; 8] = [
    0x3FC8_F8B8_3C69_A60B, 0xBC62_6D19_B9FF_8D82,
    0x3FD8_7DE2_A6AE_A963, 0xBC67_2CED_D3D5_A610,
    0x3FE1_C73B_39AE_68C8, 0x3C8B_25DD_267F_6600,
    0x3FE6_A09E_667F_3BCD, 0xBC8B_DD34_13B2_6456,
];

/// The limbs of the cosines of one to four sixteenths of pi.
pub const COSINES: [u64; 8] = [
    0x3FEF_6297_CFF7_5CB0, 0x3C75_6217_2A36_1FD3,
    0x3FED_906B_CF32_8D46, 0x3C74_57E6_1023_1AC2,
    0x3FEA_9B66_290E_A1A3, 0x3C39_F630_E8B6_DAC8,
    0x3FE6_A09E_667F_3BCD, 0xBC8B_DD34_13B2_6456,
];

/// The number of inverse factorials held.
pub const INV_FACT_COUNT: usize = 15;

/// The pattern of the smallest step between one and the next number, 2^-104.
pub const EPSILON_BITS: u64 = 0x3970_0000_0000_0000;

/// The number whose limbs stand at place `i` of a table of two-limb
/// numbers.
pub open spec fn entry_of(table: Seq<u64>, i: int) -> Double {
    Double(Limb { bits: table[2 * i] }, Limb { bits: table[2 * i + 1] })
}

/// The inverse of the factorial of `i + 3`.
pub open spec fn inv_fact_of(i: int) -> Double {
    entry_of(INV_FACTS@, i)
}

/// The sine of `k + 1` sixteenths of pi.
pub open spec fn sine_of(k: int) -> Double {
    entry_of(SINES@, k)
}

/// The cosine of `k + 1` sixteenths of pi.
pub open spec fn cosine_of(k: int) -> Double {
    entry_of(COSINES@, k)
}

/// The inverse of the factorial of `i + 3`.
pub fn inv_fact(i: usize) -> (r: Double)
    requires
        i < INV_FACT_COUNT,
    ensures
        r == inv_fact_of(i as int),
{
    Double(Limb { bits: INV_FACTS[2 * i] }, Limb { bits: INV_FACTS[2 * i + 1] })
}

/// The sine of `k + 1` sixteenths of pi.
pub fn sine(k: usize) -> (r: Double)
    requires
        k < 4,
    ensures
        r == sine_of(k as int),
{
    Double(Limb { bits: SINES[2 * k] }, Limb { bits: SINES[2 * k + 1] })
}

/// The cosine of `k + 1` sixteenths of pi.
pub fn cosine(k: usize) -> (r: Double)
    requires
        k < 4,
    ensures
        r == cosine_of(k as int),
{
    Double(Limb { bits: COSINES[2 * k] }, Limb { bits: COSINES[2 * k + 1] })
}

impl Double {
    /// Pi.
    pub fn pi() -> (r: Double)
        ensures
            r == double_bits(PI),
    {
        Double::from_bits(PI)
    }

    /// Euler's number.
    pub fn e() -> (r: Double)
        ensures
            r == double_bits(E),
    {
        Double::from_bits(E)
    }

    /// Twice pi.
    pub fn two_pi() -> (r: Double)
        ensures
            r == double_bits(TWO_PI),
    {
        Double::from_bits(TWO_PI)
    }

    /// Half of pi.
    pub fn frac_pi_2() -> (r: Double)
        ensures
            r == double_bits(FRAC_PI_2),
    {
        Double::from_bits(FRAC_PI_2)
    }

    /// A quarter of pi.
    pub fn frac_pi_4() -> (r: Double)
        ensures
            r == double_bits(FRAC_PI_4),
    {
        Double::from_bits(FRAC_PI_4)
    }

    /// A sixteenth of pi.
    pub fn frac_pi_16() -> (r: Double)
        ensures
            r == double_bits(FRAC_PI_16),
    {
        Double::from_bits(FRAC_PI_16)
    }
}

} // verus!
