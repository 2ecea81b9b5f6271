use qd::quad::Quad;

/// 1.557407724654902230506974807458360173087250772381520038383946606, which
/// is tan(1), as limbs.
const TAN_ONE: [u64; 4] =
    [0x3FF8_EB24_5CBE_E3A6, 0xBC91_D4CE_0AFB_373B, 0x38E6_76AA_44AF_D199, 0xB573_3566_D422_C876];

/// 10^-60, as limbs.
const TEN_POW_MINUS_60: [u64; 4] =
    [0x3379_B604_AAAC_A626, 0x300B_6379_2F41_2CB0, 0x2CA9_E534_95AF_E959, 0xA947_0E7A_069E_525D];

/// The two numbers agree to sixty digits. Both expected values here lie
/// between one and ten, so the bound is 10^-60.
fn assert_close(expected: Quad, actual: Quad) {
    let diff = expected.sub(actual).abs();
    assert!(
        diff.lt(Quad::from_bits(TEN_POW_MINUS_60)),
        "expected {:?}, actual {:?}, delta {:?}",
        expected,
        actual,
        diff
    );
}

fn assert_exact(expected: Quad, actual: Quad) {
    if expected.is_nan() {
        assert!(actual.is_nan(), "expected NaN, actual {:?}", actual);
    } else {
        assert!(expected.equals(actual), "expected {:?}, actual {:?}", expected, actual);
    }
}

#[test]
fn tan() {
    assert_close(Quad::from_bits(TAN_ONE), Quad::one().tan());
    assert_close(Quad::one(), Quad::frac_pi_4().tan());
    assert!(Quad::frac_pi_2().tan().is_infinite());
}

#[test]
fn tan_zero() {
    assert_exact(Quad::zero_value(false), Quad::zero_value(false).tan());
}

#[test]
fn tan_infinity() {
    assert_exact(Quad::nan_value(), Quad::infinity(false).tan());
    assert_exact(Quad::nan_value(), Quad::infinity(true).tan());
}

#[test]
fn tan_nan() {
    assert_exact(Quad::nan_value(), Quad::nan_value().tan());
}

#[test]
fn sin_and_cos_of_zero_are_exact() {
    let (s, c) = Quad::zero_value(false).sin_cos();
    assert_exact(Quad::zero_value(false), s);
    assert_exact(Quad::one(), c);
}

#[test]
fn sin_squared_plus_cos_squared_is_near_one() {
    for x in [Quad::one(), Quad::e(), Quad::pi().neg(), Quad::frac_pi_16(), Quad::e().mul(Quad::e())] {
        let (s, c) = x.sin_cos();
        assert_close(Quad::one(), s.sqr().add(c.sqr()));
    }
}

#[test]
fn sqrt_squared_is_near_the_number() {
    let two = Quad::one().add(Quad::one());
    assert_close(two, two.sqrt().sqr());
    assert_close(Quad::pi(), Quad::pi().sqrt().sqr());
}
