use qd::double::Double;
use qd::limb::Limb;

/// 0.31830988618379067153776752674503, which is 1 / pi, as limbs.
const RECIP_PI: [u64; 2] = [0x3FD4_5F30_6DC9_C883, 0xBC76_B01E_C541_7056];

/// 0.36787944117144232159552377016146, which is 1 / e, as limbs.
const RECIP_E: [u64; 2] = [0x3FD7_8B56_362C_EF38, 0xBC6C_A8A4_270F_ADF6];

/// 1.5574077246549022305069748074584, which is tan(1), as limbs.
const TAN_ONE: [u64; 2] = [0x3FF8_EB24_5CBE_E3A6, 0xBC91_D4CE_0AFB_3738];

/// 10^-30 and 10^-31, as limbs.
const TEN_POW_MINUS_30: [u64; 2] = [0x39B4_484B_FEEB_C2A0, 0xB65E_72F6_D3E4_32B6];
const TEN_POW_MINUS_31: [u64; 2] = [0x3980_39D6_6589_6880, 0xB628_5BF8_A983_5BC4];

fn limb(x: f64) -> Limb {
    Limb::from_bits(x.to_bits())
}

/// The two numbers agree to thirty digits: their difference is below
/// 10^(m - 30), where 10^m is the power of ten at or below the expected
/// value.
fn assert_close(expected: Double, actual: Double) {
    let one_tenth = Double::new(limb(0.1), limb(0.0));
    let bound = if expected.abs().lt(Double::one()) {
        assert!(expected.abs().ge(one_tenth));
        Double::from_bits(TEN_POW_MINUS_31)
    } else {
        assert!(expected.abs().lt(Double::new(limb(10.0), limb(0.0))));
        Double::from_bits(TEN_POW_MINUS_30)
    };
    let diff = expected.sub(actual).abs();
    assert!(diff.lt(bound), "expected {:?}, actual {:?}, delta {:?}", expected, actual, diff);
}

fn assert_exact(expected: Double, actual: Double) {
    if expected.is_nan() {
        assert!(actual.is_nan(), "expected NaN, actual {:?}", actual);
    } else {
        assert!(expected.equals(actual), "expected {:?}, actual {:?}", expected, actual);
    }
}

#[test]
fn basic() {
    assert_close(Double::from_bits(RECIP_PI), Double::pi().recip());
    assert_close(Double::from_bits(RECIP_E), Double::e().recip());
}

#[test]
fn special() {
    assert_exact(Double::infinity(false), Double::from_limb(limb(0.0)).recip());
    assert_exact(Double::infinity(true), Double::from_limb(limb(-0.0)).recip());
    assert_exact(Double::zero_value(false), Double::infinity(false).recip());
    assert_exact(Double::zero_value(true), Double::infinity(true).recip());
    assert!(Double::from_limb(limb(-0.0)).recip().is_sign_negative());
    assert!(Double::infinity(true).recip().is_sign_negative());
    assert!(!Double::infinity(false).recip().is_sign_negative());
}

#[test]
fn calc() {
    assert_close(Double::from_bits(TAN_ONE), Double::one().tan());
    assert_close(Double::one(), Double::frac_pi_4().tan());
}

#[test]
fn edge() {
    assert_exact(Double::zero_value(false), Double::zero_value(false).tan());
    assert!(Double::frac_pi_2().tan().is_infinite());
    assert_exact(Double::nan_value(), Double::infinity(false).tan());
    assert_exact(Double::nan_value(), Double::infinity(true).tan());
    assert_exact(Double::nan_value(), Double::nan_value().tan());
}

#[test]
fn raw_keeps_its_limbs() {
    let d = Double::raw(limb(0.0), limb(0.0));
    assert!(d.is_zero());
    let d = Double::raw(limb(10.0), limb(0.0));
    assert_eq!(d[0].to_bits(), 10.0f64.to_bits());
    assert_eq!(d[1].to_bits(), 0.0f64.to_bits());
}

#[test]
fn new_normalizes_its_limbs() {
    let d = Double::new(limb(2.0), limb(1.0));
    assert!(d.equals(Double::from_limb(limb(3.0))));
    let d = Double::new(limb(1.0), limb(2.0));
    assert!(d.equals(Double::from_limb(limb(3.0))));
    let d = Double::new(limb(1.1), limb(0.0));
    assert_eq!(d[0].to_bits(), 1.1f64.to_bits());
    assert_eq!(d[1].to_bits(), 0.0f64.to_bits());
    // The limbs of a normalized number come back as they went in.
    let d = Double::new(limb(1.0), limb(1e-20));
    assert_eq!(d[0].to_bits(), 1.0f64.to_bits());
    assert_eq!(d[1].to_bits(), 1e-20f64.to_bits());
    let d = Double::new(limb(1e-20), limb(1.0));
    assert_eq!(d[0].to_bits(), 1.0f64.to_bits());
    assert_eq!(d[1].to_bits(), 1e-20f64.to_bits());
    // Limbs that overlap are summed into a leading limb and an error.
    let d = Double::new(limb(1.0), limb(1.5 * f64::EPSILON));
    assert_eq!(d[0].to_bits(), (1.0f64 + 2.0 * f64::EPSILON).to_bits());
    assert_eq!(d[1].to_bits(), (-0.5 * f64::EPSILON).to_bits());
}

#[test]
fn index_reads_both_limbs_of_one() {
    let d = Double::one();
    assert!(d[0].equals(limb(1.0)));
    assert!(d[1].equals(limb(0.0)));
}

#[test]
fn double_special_value_table() {
    let (zero, nzero) = (Double::zero_value(false), Double::zero_value(true));
    let (inf, ninf, nan, one) =
        (Double::infinity(false), Double::infinity(true), Double::nan_value(), Double::one());
    assert!(zero.div(zero).is_nan());
    assert_exact(inf, one.div(zero));
    assert_exact(ninf, one.div(nzero));
    assert!(inf.div(inf).is_nan());
    assert!(inf.sub(inf).is_nan());
    assert!(nan.add(one).is_nan());
    assert!(nan.sub(one).is_nan());
    assert!(nan.mul(one).is_nan());
    assert!(nan.div(one).is_nan());
    assert!(one.add(nan).is_nan());
    let s = nzero.add(nzero);
    assert!(s.is_zero() && s.is_sign_negative());
    let s = zero.add(nzero);
    assert!(s.is_zero() && !s.is_sign_negative());
    assert!(inf.mul(zero).is_nan());
    assert_exact(ninf, inf.mul(one.neg()));
}

#[test]
fn double_identities() {
    for x in [Double::pi(), Double::e().neg(), Double::one(), Double::from_bits(RECIP_PI)] {
        assert_exact(x, x.add(Double::zero_value(false)));
        assert_exact(x, x.mul(Double::one()));
        let d = x.sub(x);
        assert!(d.is_zero());
        assert_close(Double::one(), x.mul(x.recip()));
    }
}

#[test]
fn double_sqrt_and_round() {
    let two = Double::from_limb(limb(2.0));
    assert_close(two, two.sqrt().sqr());
    assert!(Double::one().neg().sqrt().is_nan());
    assert!(Double::infinity(false).sqrt().is_infinite());
    assert_exact(Double::from_limb(limb(3.0)), Double::pi().round());
    assert_exact(Double::from_limb(limb(-3.0)), Double::pi().neg().round());
    assert_exact(Double::from_limb(limb(3.0)), Double::e().round());
    // Halfway in the leading limb, pulled back by a negative second limb.
    assert_exact(Double::from_limb(limb(2.0)), Double::raw(limb(2.5), limb(-1e-20)).round());
    assert_exact(Double::from_limb(limb(3.0)), Double::raw(limb(2.5), limb(1e-20)).round());
}

#[test]
fn double_order() {
    let (a, b) = (Double::raw(limb(1.0), limb(1e-20)), Double::raw(limb(1.0), limb(2e-20)));
    assert!(a.lt(b) && b.gt(a) && a.le(b) && b.ge(a) && !a.equals(b));
    assert!(a.le(a) && a.ge(a) && a.equals(a) && !a.lt(a));
    let nan = Double::nan_value();
    assert!(!nan.lt(a) && !nan.gt(a) && !nan.le(a) && !nan.ge(a) && !nan.equals(nan));
    assert!(Double::zero_value(true).equals(Double::zero_value(false)));
    assert!(Double::infinity(true).lt(a) && a.lt(Double::infinity(false)));
}

#[test]
fn double_sin_cos() {
    let (s, c) = Double::zero_value(false).sin_cos();
    assert_exact(Double::zero_value(false), s);
    assert_exact(Double::one(), c);
    for x in [Double::one(), Double::e(), Double::pi().neg(), Double::frac_pi_16()] {
        let (s, c) = x.sin_cos();
        assert_close(Double::one(), s.sqr().add(c.sqr()));
    }
}

#[test]
fn double_from_a_limb_and_back() {
    for x in [0.0f64, -0.0, 1.0, -2.5, 1e300, 5e-324, f64::MAX, f64::INFINITY] {
        assert_eq!(Double::from_limb(limb(x)).to_limb().to_bits(), x.to_bits());
    }
}

#[test]
fn double_limbs_of_results_fall_in_magnitude() {
    let results = [
        Double::pi().div(Double::e()),
        Double::pi().mul(Double::e()),
        Double::pi().add(Double::e()),
        Double::pi().sub(Double::e()),
        Double::one().tan(),
        Double::pi().sqrt(),
        Double::new(limb(1e10), limb(3.0)),
        Double::new(limb(3.0), limb(1e10)),
    ];
    for r in results {
        if !r[1].is_zero() {
            assert!(r[1].abs().lt(r[0].abs()), "{:?}", r);
            assert_eq!(r[0].add(r[1]).to_bits(), r[0].to_bits());
        }
        let again = Double::new(r[0], r[1]);
        assert_eq!((again[0].to_bits(), again[1].to_bits()), (r[0].to_bits(), r[1].to_bits()));
    }
}

#[test]
fn double_sub_self_is_positive_zero() {
    for x in [Double::pi(), Double::pi().neg(), Double::one().neg(), Double::zero_value(true)] {
        let d = x.sub(x);
        assert!(d.is_zero());
        assert!(!d.is_sign_negative());
    }
}

#[test]
fn double_overflow_is_infinity() {
    let big = Double::from_limb(limb(f64::MAX));
    assert_exact(Double::infinity(false), big.mul(big));
    assert_exact(Double::infinity(true), big.mul(big.neg()));
    assert_exact(Double::infinity(false), big.add(big));
    assert_exact(Double::infinity(true), big.neg().sub(big));
}

#[test]
fn double_assign_forms() {
    let whole = |x: f64| Double::from_limb(limb(x));
    let mut a = whole(2.0);
    a.add_assign(whole(3.0));
    assert_exact(whole(5.0), a);
    a.sub_assign(whole(1.0));
    assert_exact(whole(4.0), a);
    a.mul_assign(whole(3.0));
    assert_exact(whole(12.0), a);
    a.div_assign(whole(4.0));
    assert_exact(whole(3.0), a);
    assert_exact(whole(3.0), whole(12.0) / whole(4.0));
    assert_exact(whole(7.0), whole(3.0) + whole(4.0));
    assert_exact(whole(-1.0), whole(3.0) - whole(4.0));
    assert_exact(whole(12.0), whole(3.0) * whole(4.0));
    assert_exact(whole(-3.0), -whole(3.0));
    assert_exact(whole(6.0), whole(3.0).mul_limb(limb(2.0)));
    assert_exact(whole(1.5), whole(3.0).mul_pwr2(limb(0.5)));
}

struct Gen(u64);

impl Gen {
    fn next(&mut self) -> u64 {
        self.0 ^= self.0 << 13;
        self.0 ^= self.0 >> 7;
        self.0 ^= self.0 << 17;
        self.0
    }

    /// A native float between one and two.
    fn unit(&mut self) -> f64 {
        f64::from_bits(0x3FF0_0000_0000_0000 | (self.next() >> 12))
    }

    /// A number of two random limbs with an exponent between -160 and 160.
    fn double(&mut self) -> Double {
        let scale = 2f64.powi((self.next() % 321) as i32 - 160);
        let sign = if self.next() % 2 == 0 { 1.0 } else { -1.0 };
        let x0 = sign * scale * self.unit();
        let x1 = (self.unit() - 1.5) * x0 * 2f64.powi(-53);
        Double::new(limb(x0), limb(x1))
    }
}

#[test]
fn double_operations_undo_each_other_on_random_numbers() {
    let mut g = Gen(0x5DEE_CE66_D123_4567);
    let slack = limb(2f64.powi(-98));
    for _ in 0..5000 {
        let (a, b) = (g.double(), g.double());
        let tol = a.abs().add(b.abs()).mul_pwr2(slack);
        assert!(a.add(b).sub(b).sub(a).abs().le(tol), "{:?} {:?}", a, b);
        assert!(a.sub(b).add(b).sub(a).abs().le(tol), "{:?} {:?}", a, b);
        let tol = a.abs().mul_pwr2(slack);
        assert!(a.mul(b).div(b).sub(a).abs().le(tol), "{:?} {:?}", a, b);
        assert!(a.div(b).mul(b).sub(a).abs().le(tol), "{:?} {:?}", a, b);
        assert!(a.abs().sqrt().sqr().sub(a.abs()).abs().le(tol), "{:?}", a);
        for r in [a, a.add(b), a.sub(b), a.mul(b), a.div(b), a.abs().sqrt(), a.neg(), a.round()] {
            // Every result is normalized: its first limb absorbs the second.
            assert!(r[1].is_zero() || r[0].add(r[1]).to_bits() == r[0].to_bits(), "{:?}", r);
        }
    }
}

#[test]
fn double_sine_and_cosine_on_random_angles() {
    let mut g = Gen(0x0F1E_2D3C_4B5A_6978);
    let slack = Double::from_limb(limb(2f64.powi(-95)));
    for _ in 0..1000 {
        let x = Double::new(limb((g.unit() - 1.5) * 40.0), limb((g.unit() - 1.5) * 1e-17));
        let (s, c) = x.sin_cos();
        assert!(s.sqr().add(c.sqr()).sub(Double::one()).abs().le(slack), "{:?}", x);
        let (s2, _) = x.add(x).sin_cos();
        assert!(s2.sub(s.mul(c).mul_pwr2(limb(2.0))).abs().le(slack), "{:?}", x);
        assert!(s.equals(x.sin()) && c.equals(x.cos()));
    }
}
