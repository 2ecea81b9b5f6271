//! The constants of the four-limb numbers: pi and its fractions, Euler's
//! number, the inverse factorials that the Taylor series use, and the sines
//! and cosines of the multiples of a sixteenth of pi that the reduced angle
//! is put together with. Each is held as the patterns of its limbs.

use crate::limb::Limb;
use crate::quad::{quad_bits, Quad};
use vstd::prelude::*;

verus! {

/// The limbs of pi.
pub const PI: [u64; 4] = [
    0x4009_21FB_5444_2D18, 0x3CA1_A626_3314_5C07, 0xB92F_1976_B7ED_8FBC, 0x35C4_CF98_E804_177D,
];

/// The limbs of Euler's number.
pub const E: [u64; 4] = [
    0x4005_BF0A_8B14_5769, 0x3CA4_D57E_E2B1_013A, 0xB926_1871_3A31_D3E2, 0x35CC_5A6D_2B53_C26D,
];

/// The limbs of twice pi.
pub const TWO_PI: [u64; 4] = [
    0x4019_21FB_5444_2D18, 0x3CB1_A626_3314_5C07, 0xB93F_1976_B7ED_8FBC, 0x35D4_CF98_E804_177D,
];

/// The limbs of half of pi.
pub const FRAC_PI_2: [u64; 4] = [
    0x3FF9_21FB_5444_2D18, 0x3C91_A626_3314_5C07, 0xB91F_1976_B7ED_8FBC, 0x35B4_CF98_E804_177D,
];

/// The limbs of a quarter of pi.
pub const FRAC_PI_4: [u64; 4] = [
    0x3FE9_21FB_5444_2D18, 0x3C81_A626_3314_5C07, 0xB90F_1976_B7ED_8FBC, 0x35A4_CF98_E804_177D,
];

/// The limbs of a sixteenth of pi.
pub const FRAC_PI_16: [u64; 4] = [
    0x3FC9_21FB_5444_2D18, 0x3C61_A626_3314_5C07, 0xB8EF_1976_B7ED_8FBC, 0x3584_CF98_E804_177D,
];

/// The limbs of the inverse factorials from 1/3! on, one after the other.
pub const INV_FACTS: [u64; 120] = [
    0x3FC5_5555_5555_5555, 0x3C65_5555_5555_5555, 0x3905_5555_5555_5555, 0x35A5_5555_5555_5555,
    0x3FA5_5555_5555_5555, 0x3C45_5555_5555_5555, 0x38E5_5555_5555_5555, 0x3585_5555_5555_5555,
    0x3F81_1111_1111_1111, 0x3C01_1111_1111_1111, 0x3881_1111_1111_1111, 0x3501_1111_1111_1111,
    0x3F56_C16C_16C1_6C17, 0xBBEF_49F4_9F49_F49F, 0xB882_7D27_D27D_27D2, 0xB52F_49F4_9F49_F49F,
    0x3F2A_01A0_1A01_A01A, 0x3B6A_01A0_1A01_A01A, 0x37AA_01A0_1A01_A01A, 0x33EA_01A0_1A01_A01A,
    0x3EFA_01A0_1A01_A01A, 0x3B3A_01A0_1A01_A01A, 0x377A_01A0_1A01_A01A, 0x33BA_01A0_1A01_A01A,
    0x3EC7_1DE3_A556_C734, 0xBB6C_154F_8DDC_6C00, 0x3807_1DE3_A556_C734, 0xB4AC_154F_8DDC_6C00,
    0x3E92_7E4F_B778_9F5C, 0x3B3C_BBC0_5B4F_A99A, 0xB7BC_6D27_8883_E8F5, 0x3459_5567_D3A5_0CCE,
    0x3E5A_E645_67F5_44E4, 0xBAFC_062E_06D1_F209, 0x377C_7880_ADCB_C46E, 0xB415_553A_6F0F_ED60,
    0x3E21_EED8_EFF8_D898, 0xBAC2_AEC9_59E1_4C06, 0x3742_FB00_73DD_2D9E, 0x33EC_71D9_0B4A_B715,
    0x3DE6_1246_13A8_6D09, 0x3A8F_28E0_CC74_8EBE, 0xB727_B2C4_C8A8_40BC, 0x33CC_71CC_A103_4C07,
    0x3DA9_3974_A8C0_7C9D, 0x3A30_5D6F_8A2E_FD1F, 0x36C3_AA33_4623_6A5D, 0x336D_75F0_96EA_801E,
    0x3D6A_E7F3_E733_B81F, 0x39E1_D865_6B0E_E8CB, 0xB626_E142_A138_F825, 0x32B4_3C0C_38CC_DCC6,
    0x3D2A_E7F3_E733_B81F, 0x39A1_D865_6B0E_E8CB, 0xB5E6_E142_A138_F825, 0x3274_3C0C_38CC_DCC6,
    0x3CE9_52C7_7030_AD4A, 0x398A_C981_465D_DC6C, 0xB5A5_88B7_2E53_BC5F, 0x3227_079E_8909_271A,
    0x3CA6_8278_63B9_7D97, 0x394E_EC01_221A_8B0B, 0xB5E5_6879_8662_118B, 0x321F_00D8_B9E4_9291,
    0x3C62_F49B_4681_4157, 0x38F2_650F_61DB_DCB4, 0xB596_9502_917C_BF3B, 0x320E_35FB_DDAC_4553,
    0x3C1E_542B_A402_0225, 0x387E_A72B_4AFE_3C2F, 0xB514_4020_DFD6_5C8C, 0xB186_E69B_50FC_88AB,
    0x3BD7_1B8E_F6DC_F572, 0xB87D_043A_E40C_4647, 0x34F4_8612_1E81_D5FE, 0xB192_D4BA_8E1E_64C7,
    0x3B90_CE39_6DB7_F853, 0xB83A_EBCD_BD20_331C, 0xB4D3_8A88_578B_4D75, 0x316C_0FBC_2969_4FB8,
    0x3B47_61B4_1316_381A, 0xB7D3_423C_7D91_404F, 0x346E_6135_BFC1_194A, 0xB10B_A7B1_A307_7B39,
    0x3AFF_2CF0_1972_F578, 0xB789_ADA5_FCC1_AB14, 0x3424_40CE_7FD6_10DC, 0xB0C2_6FCB_C204_FCD1,
    0x3AB3_F3CC_DD16_5FA9, 0xB745_8DDA_DF34_4487, 0xB3EE_8ED8_001A_D67E, 0x3088_0A5E_DFFC_CED7,
    0x3A68_8E85_FC6A_4E5A, 0xB707_1C37_EBD1_6540, 0x33A4_9467_6265_A364, 0xB023_97B4_0007_DB79,
    0x3A1D_1AB1_C2DC_CEA3, 0x36A0_54D0_C78A_EA14, 0xB341_96BF_16C3_3A56, 0x2FEF_0E65_ED04_D346,
    0x39D0_A18A_2635_085D, 0x366B_9E2E_28E1_AA54, 0x330A_8549_A9D9_9586, 0xAF51_41DC_C8CC_5668,
    0x3982_59F9_8B43_58AD, 0x362E_AF8C_39DD_9BC5, 0xB2C6_E299_90A2_6FB6, 0xAF42_D867_809B_5568,
    0x3933_932C_5047_D60E, 0x35D8_32B7_B530_A627, 0x3255_D2C6_1F6D_124C, 0x2EFF_192B_328D_82C4,
    0x38E4_34D2_E783_F5BC, 0x3580_B87B_91BE_9AFF, 0x31FC_89DB_1796_DB75, 0xAE98_923B_7699_C8BE,
    0x3894_34D2_E783_F5BC, 0x3530_B87B_91BE_9AFF, 0x31AC_89DB_1796_DB75, 0xAE48_923B_7699_C8BE,
];

/// The limbs of the sines of one to four sixteenths of pi.
pub const SINES: [u64; 16] = [
    0x3FC8_F8B8_3C69_A60B, 0xBC62_6D19_B9FF_8D82, 0x3909_B09F_9CA7_2C69, 0xB5AA_D1A1_C58D_78F1,
    0x3FD8_7DE2_A6AE_A963, 0xBC67_2CED_D3D5_A610, 0xB8F1_1E44_20E0_A4B5, 0xB593_0876_CF17_0FAA,
    0x3FE1_C73B_39AE_68C8, 0x3C8B_25DD_267F_6600, 0xB925_6F31_06B0_516D, 0x35C6_FDD1_9F65_4CB0,
    0x3FE6_A09E_667F_3BCD, 0xBC8B_DD34_13B2_6456, 0x3925_7D3E_3ADE_C175, 0x35A2_7750_99DA_2F59,
];

/// The limbs of the cosines of one to four sixteenths of pi.
pub const COSINES: [u64; 16] = [
    0x3FEF_6297_CFF7_5CB0, 0x3C75_6217_2A36_1FD3, 0xB916_3744_E82F_C701, 0x35B8_F18A_E1B1_9973,
    0x3FED_906B_CF32_8D46, 0x3C74_57E6_1023_1AC2, 0xB904_F3F8_7ABE_1619, 0xB5AE_4A2C_9448_ED08,
    0x3FEA_9B66_290E_A1A3, 0x3C39_F630_E8B6_DAC8, 0x38CF_345A_348E_97CD, 0xB533_6155_53F7_1A76,
    0x3FE6_A09E_667F_3BCD, 0xBC8B_DD34_13B2_6456, 0x3925_7D3E_3ADE_C175, 0x35A2_7750_99DA_2F59,
];

/// The number of inverse factorials held.
pub const INV_FACT_COUNT: usize = 30;

/// The pattern of the smallest step between one and the next number, 2^-209.
pub const EPSILON_BITS: u64 = 0x32E0_0000_0000_0000;

/// The number whose limbs stand at place `i` of a table of four-limb
/// numbers.
pub open spec fn entry_of(table: Seq<u64>, i: int) -> Quad {
    Quad(
        Limb { bits: table[4 * i] },
        Limb { bits: table[4 * i + 1] },
        Limb { bits: table[4 * i + 2] },
        Limb { bits: table[4 * i + 3] },
    )
}

/// The inverse of the factorial of `i + 3`.
pub open spec fn inv_fact_of(i: int) -> Quad {
    entry_of(INV_FACTS@, i)
}

/// The sine of `k + 1` sixteenths of pi.
pub open spec fn sine_of(k: int) -> Quad {
    entry_of(SINES@, k)
}

/// The cosine of `k + 1` sixteenths of pi.
pub open spec fn cosine_of(k: int) -> Quad {
    entry_of(COSINES@, k)
}

/// The inverse of the factorial of `i + 3`.
pub fn inv_fact(i: usize) -> (r: Quad)
    requires
        i < INV_FACT_COUNT,
    ensures
        r == inv_fact_of(i as int),
{
    Quad(
        Limb { bits: INV_FACTS[4 * i] },
        Limb { bits: INV_FACTS[4 * i + 1] },
        Limb { bits: INV_FACTS[4 * i + 2] },
        Limb { bits: INV_FACTS[4 * i + 3] },
    )
}

/// The sine of `k + 1` sixteenths of pi.
pub fn sine(k: usize) -> (r: Quad)
    requires
        k < 4,
    ensures
        r == sine_of(k as int),
{
    Quad(
        Limb { bits: SINES[4 * k] },
        Limb { bits: SINES[4 * k + 1] },
        Limb { bits: SINES[4 * k + 2] },
        Limb { bits: SINES[4 * k + 3] },
    )
}

/// The cosine of `k + 1` sixteenths of pi.
pub fn cosine(k: usize) -> (r: Quad)
    requires
        k < 4,
    ensures
        r == cosine_of(k as int),
{
    Quad(
        Limb { bits: COSINES[4 * k] },
        Limb { bits: COSINES[4 * k + 1] },
        Limb { bits: COSINES[4 * k + 2] },
        Limb { bits: COSINES[4 * k + 3] },
    )
}

impl Quad {
    /// Pi.
    pub fn pi() -> (r: Quad)
        ensures
            r == quad_bits(PI),
    {
        Quad::from_bits(PI)
    }

    /// Euler's number.
    pub fn e() -> (r: Quad)
        ensures
            r == quad_bits(E),
    {
        Quad::from_bits(E)
    }

    /// Twice pi.
    pub fn two_pi() -> (r: Quad)
        ensures
            r == quad_bits(TWO_PI),
    {
        Quad::from_bits(TWO_PI)
    }

    /// Half of pi.
    pub fn frac_pi_2() -> (r: Quad)
        ensures
            r == quad_bits(FRAC_PI_2),
    {
        Quad::from_bits(FRAC_PI_2)
    }

    /// A quarter of pi.
    pub fn frac_pi_4() -> (r: Quad)
        ensures
            r == quad_bits(FRAC_PI_4),
    {
        Quad::from_bits(FRAC_PI_4)
    }

    /// A sixteenth of pi.
    pub fn frac_pi_16() -> (r: Quad)
        ensures
            r == quad_bits(FRAC_PI_16),
    {
        Quad::from_bits(FRAC_PI_16)
    }
}

} // verus!
