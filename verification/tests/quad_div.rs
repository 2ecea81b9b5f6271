use qd::quad::Quad;

/// 1.155727349790921717910093183312696299120851023164415820499706535, which
/// is pi / e, as limbs.
const PI_OVER_E: [u64; 4] =
    [0x3FF2_7DDB_F627_1DBE, 0xBC70_23C4_76CC_3361, 0x38F2_2B56_C115_E82C, 0x359F_D5E8_89EA_C866];

/// 10^-60, as limbs.
const TEN_POW_MINUS_60: [u64; 4] =
    [0x3379_B604_AAAC_A626, 0x300B_6379_2F41_2CB0, 0x2CA9_E534_95AF_E959, 0xA947_0E7A_069E_525D];

/// The two numbers agree to sixty digits. Both expected values here lie
/// between one and ten, so the bound is 10^-60.
fn assert_close(expected: Quad, actual: Quad) {
    let diff = expected.sub(actual).abs();
    assert!(
        diff.lt(Quad::from_bits(TEN_POW_MINUS_60)),
        "expected {:?}, actual {:?}, delta {:?}",
        expected,
        actual,
        diff
    );
}

fn assert_exact(expected: Quad, actual: Quad) {
    if expected.is_nan() {
        assert!(actual.is_nan(), "expected NaN, actual {:?}", actual);
    } else {
        assert!(expected.equals(actual), "expected {:?}, actual {:?}", expected, actual);
    }
}

fn zero() -> Quad {
    Quad::zero_value(false)
}

fn neg_zero() -> Quad {
    Quad::zero_value(true)
}

fn inf() -> Quad {
    Quad::infinity(false)
}

fn neg_inf() -> Quad {
    Quad::infinity(true)
}

fn nan() -> Quad {
    Quad::nan_value()
}

#[test]
fn num_num() {
    let expected = Quad::from_bits(PI_OVER_E);
    assert_close(expected, Quad::pi() / Quad::e());
}

#[test]
fn num_ref() {
    let expected = Quad::from_bits(PI_OVER_E);
    assert_close(expected, Quad::pi() / &Quad::e());
}

#[test]
fn ref_num() {
    let expected = Quad::from_bits(PI_OVER_E);
    assert_close(expected, &Quad::pi() / Quad::e());
}

#[test]
fn assign_num() {
    let expected = Quad::from_bits(PI_OVER_E);
    let mut a = Quad::pi();
    a /= Quad::e();
    assert_close(expected, a);
}

#[test]
fn assign_ref() {
    let expected = Quad::from_bits(PI_OVER_E);
    let mut b = Quad::pi();
    b /= &Quad::e();
    assert_close(expected, b);
}

#[test]
fn div_zero() {
    assert_exact(zero(), zero() / inf());
    assert_exact(neg_zero(), zero() / neg_inf());
    assert_exact(inf(), inf() / zero());
    assert_exact(neg_inf(), neg_inf() / zero());
    assert_exact(nan(), nan() / zero());
    assert_exact(nan(), zero() / nan());
    assert_exact(nan(), zero() / zero());
}

#[test]
fn div_infinity() {
    assert_exact(zero(), Quad::one() / inf());
    assert_exact(neg_zero(), Quad::one() / neg_inf());
    assert_exact(inf(), inf() / Quad::one());
    assert_exact(neg_inf(), neg_inf() / Quad::one());
    assert_exact(nan(), inf() / inf());
    assert_exact(nan(), inf() / neg_inf());
    assert_exact(nan(), neg_inf() / inf());
    assert_exact(nan(), neg_inf() / neg_inf());
    assert_exact(inf(), Quad::one() / zero());
    assert_exact(neg_inf(), -Quad::one() / zero());
}

#[test]
fn div_nan() {
    assert_exact(nan(), nan() / Quad::one());
    assert_exact(nan(), Quad::one() / nan());
}

#[test]
fn div_signs_of_special_results() {
    assert!(zero().div(neg_inf()).is_sign_negative());
    assert!(!zero().div(inf()).is_sign_negative());
    assert!(Quad::one().div(neg_zero()).is_sign_negative());
    assert!(Quad::one().div(neg_zero()).is_infinite());
    assert!(Quad::one().neg().div(neg_zero()).is_sign_positive());
}

#[test]
fn div_one_by_itself_is_one() {
    assert_exact(Quad::one(), Quad::one().div(Quad::one()));
    assert_exact(Quad::one(), Quad::pi().div(Quad::pi()));
}

#[test]
fn recip_times_self_is_near_one() {
    for x in [Quad::pi(), Quad::e(), Quad::from_bits(PI_OVER_E), Quad::pi().neg()] {
        assert_close(Quad::one(), x.mul(x.recip()));
    }
}
