use qd::limb::Limb;
use qd::quad::Quad;

/// 10^-60, as limbs.
const TEN_POW_MINUS_60: [u64; 4] =
    [0x3379_B604_AAAC_A626, 0x300B_6379_2F41_2CB0, 0x2CA9_E534_95AF_E959, 0xA947_0E7A_069E_525D];

fn limb(x: f64) -> Limb {
    Limb::from_bits(x.to_bits())
}

fn whole(x: f64) -> Quad {
    Quad::from_limb(limb(x))
}

fn assert_exact(expected: Quad, actual: Quad) {
    if expected.is_nan() {
        assert!(actual.is_nan(), "expected NaN, actual {:?}", actual);
    } else {
        assert!(expected.equals(actual), "expected {:?}, actual {:?}", expected, actual);
    }
}

#[test]
fn quad_special_value_table() {
    let (zero, nzero) = (Quad::zero_value(false), Quad::zero_value(true));
    let (inf, ninf, nan, one) =
        (Quad::infinity(false), Quad::infinity(true), Quad::nan_value(), Quad::one());
    assert!(zero.div(zero).is_nan());
    assert_exact(inf, one.div(zero));
    assert_exact(ninf, one.div(nzero));
    assert!(inf.div(inf).is_nan());
    assert!(inf.sub(inf).is_nan());
    assert!(ninf.add(inf).is_nan());
    assert!(nan.add(one).is_nan());
    assert!(nan.sub(one).is_nan());
    assert!(nan.mul(one).is_nan());
    assert!(nan.div(one).is_nan());
    assert!(one.mul(nan).is_nan());
    let s = nzero.add(nzero);
    assert!(s.is_zero() && s.is_sign_negative());
    let s = zero.add(nzero);
    assert!(s.is_zero() && !s.is_sign_negative());
    assert!(inf.mul(zero).is_nan());
    assert_exact(ninf, inf.mul(one.neg()));
    assert_exact(inf, inf.add(one));
}

#[test]
fn quad_identities() {
    for x in [Quad::pi(), Quad::e().neg(), Quad::one(), Quad::frac_pi_16()] {
        assert_exact(x, x.add(Quad::zero_value(false)));
        assert_exact(x, x.mul(Quad::one()));
        assert!(x.sub(x).is_zero());
    }
    assert!(!Quad::pi().sub(Quad::pi()).is_sign_negative());
}

#[test]
fn quad_small_whole_numbers() {
    assert_exact(whole(5.0), whole(2.0).add(whole(3.0)));
    assert_exact(whole(-1.0), whole(2.0).sub(whole(3.0)));
    assert_exact(whole(6.0), whole(2.0).mul(whole(3.0)));
    assert_exact(whole(6.0), whole(3.0).mul_limb(limb(2.0)));
    assert_exact(whole(4.0), whole(12.0).div(whole(3.0)));
    assert!(whole(3.0).sub(whole(9.0).sqrt()).abs().lt(Quad::from_bits(TEN_POW_MINUS_60)));
    assert_exact(whole(9.0), whole(3.0).sqr());
    assert_exact(whole(1.5), whole(3.0).mul_pwr2(limb(0.5)));
}

#[test]
fn quad_new_normalizes_its_limbs() {
    let q = Quad::new(limb(1.0), limb(2.0), limb(4.0), limb(8.0));
    assert_exact(whole(15.0), q);
    let pi = Quad::pi();
    let q = Quad::new(pi[0], pi[1], pi[2], pi[3]);
    for i in 0..4 {
        assert_eq!(q[i].to_bits(), pi[i].to_bits());
    }
    let q = Quad::raw(limb(1.0), limb(2.0), limb(4.0), limb(8.0));
    assert_eq!(q[3].to_bits(), 8.0f64.to_bits());
    assert!(Quad::new(limb(f64::INFINITY), limb(1.0), limb(0.0), limb(0.0)).is_infinite());
    assert!(Quad::new(limb(f64::NAN), limb(1.0), limb(0.0), limb(0.0)).is_nan());
}

#[test]
fn quad_round_and_order() {
    assert_exact(whole(3.0), Quad::pi().round());
    assert_exact(whole(-3.0), Quad::pi().neg().round());
    assert_exact(whole(2.0), Quad::raw(limb(2.5), limb(-1e-20), limb(0.0), limb(0.0)).round());
    assert_exact(whole(3.0), Quad::raw(limb(2.5), limb(1e-20), limb(0.0), limb(0.0)).round());
    let (a, b) = (Quad::e(), Quad::pi());
    assert!(a.lt(b) && b.gt(a) && a.le(b) && b.ge(a) && !a.equals(b));
    assert!(a.le(a) && a.ge(a) && a.equals(a) && !a.lt(a));
    let nan = Quad::nan_value();
    assert!(!nan.lt(a) && !nan.gt(a) && !nan.le(a) && !nan.ge(a) && !nan.equals(nan));
    assert!(a.abs().equals(a) && a.neg().abs().equals(a));
}

#[test]
fn quad_assign_forms() {
    let mut a = whole(2.0);
    a.add_assign(whole(3.0));
    assert_exact(whole(5.0), a);
    a.sub_assign(whole(1.0));
    assert_exact(whole(4.0), a);
    a.mul_assign(whole(3.0));
    assert_exact(whole(12.0), a);
    a.div_assign(whole(4.0));
    assert_exact(whole(3.0), a);
}

#[test]
fn quad_overflow_is_infinity() {
    let big = whole(f64::MAX);
    assert_exact(Quad::infinity(false), big.mul(big));
    assert_exact(Quad::infinity(true), big.mul(big.neg()));
    assert_exact(Quad::infinity(false), big.add(big));
}

#[test]
fn quad_limbs_of_results_fall_in_magnitude() {
    let results = [
        Quad::pi().div(Quad::e()),
        Quad::pi().mul(Quad::e()),
        Quad::pi().add(Quad::e()),
        Quad::pi().sub(Quad::e()),
        Quad::one().tan(),
        Quad::pi().sqrt(),
    ];
    for r in results {
        for i in 1..4 {
            if !r[i].is_zero() {
                assert!(r[i].abs().lt(r[i - 1].abs()), "{:?}", r);
                assert_eq!(r[i - 1].add(r[i]).to_bits(), r[i - 1].to_bits());
            }
        }
    }
    let eps = Quad::from_bits(TEN_POW_MINUS_60);
    assert!(eps[1].abs().lt(eps[0].abs()));
}

#[test]
fn quad_recip_of_pi_to_sixty_digits() {
    // 0.3183098861837906715377675267450287240689192914809128974953346881
    let expected = Quad::from_bits([
        0x3FD4_5F30_6DC9_C883,
        0xBC76_B01E_C541_7056,
        0xB916_447E_493A_D4CE,
        0x35BE_21C8_20FF_28B0,
    ]);
    // 10^-61
    let bound = Quad::from_bits([
        0x3344_919D_5556_EB52,
        0xAFDD_4A05_73CB_DC40,
        0x2C74_B75D_448C_BAAD,
        0x2913_F46B_2DE7_BE1C,
    ]);
    let diff = expected.sub(Quad::pi().recip()).abs();
    assert!(diff.lt(bound), "delta {:?}", diff);
}

#[test]
fn quad_from_a_limb_and_back() {
    for x in [0.0f64, -0.0, 1.0, -2.5, 1e300, 5e-324, f64::MAX, f64::INFINITY] {
        assert_eq!(Quad::from_limb(limb(x))[0].to_bits(), x.to_bits());
    }
}

struct Gen(u64);

impl Gen {
    fn next(&mut self) -> u64 {
        self.0 ^= self.0 << 13;
        self.0 ^= self.0 >> 7;
        self.0 ^= self.0 << 17;
        self.0
    }

    /// A native float between one and two.
    fn unit(&mut self) -> f64 {
        f64::from_bits(0x3FF0_0000_0000_0000 | (self.next() >> 12))
    }

    /// A number of four random limbs, each some 53 binary places below the
    /// one before it, with an exponent between -160 and 160.
    fn quad(&mut self) -> Quad {
        let scale = 2f64.powi((self.next() % 321) as i32 - 160);
        let sign = if self.next() % 2 == 0 { 1.0 } else { -1.0 };
        let x0 = sign * scale * self.unit();
        let x1 = (self.unit() - 1.5) * x0 * 2f64.powi(-53);
        let x2 = (self.unit() - 1.5) * x0 * 2f64.powi(-106);
        let x3 = (self.unit() - 1.5) * x0 * 2f64.powi(-159);
        Quad::new(limb(x0), limb(x1), limb(x2), limb(x3))
    }
}

#[test]
fn quad_operations_undo_each_other_on_random_numbers() {
    let mut g = Gen(0x5DEE_CE66_D123_4567);
    let slack = limb(2f64.powi(-200));
    for _ in 0..1500 {
        let (a, b) = (g.quad(), g.quad());
        let tol = a.abs().add(b.abs()).mul_pwr2(slack);
        assert!(a.add(b).sub(b).sub(a).abs().le(tol), "{:?} {:?}", a, b);
        assert!(a.sub(b).add(b).sub(a).abs().le(tol), "{:?} {:?}", a, b);
        let tol = a.abs().mul_pwr2(slack);
        assert!(a.mul(b).div(b).sub(a).abs().le(tol), "{:?} {:?}", a, b);
        assert!(a.div(b).mul(b).sub(a).abs().le(tol), "{:?} {:?}", a, b);
        assert!(a.abs().sqrt().sqr().sub(a.abs()).abs().le(tol), "{:?}", a);
        assert!(a.mul(b).equals(b.mul(a)) || a.mul(b).sub(b.mul(a)).abs().le(a.mul(b).abs().mul_pwr2(slack)));
        for r in [a.add(b), a.sub(b), a.mul(b), a.div(b)] {
            for i in 1..4 {
                if !r[i].is_zero() {
                    assert!(r[i].abs().lt(r[i - 1].abs()), "{:?}", r);
                }
            }
        }
    }
}

#[test]
fn quad_sine_and_cosine_on_random_angles() {
    let mut g = Gen(0x0F1E_2D3C_4B5A_6978);
    let slack = Quad::from_limb(limb(2f64.powi(-195)));
    for _ in 0..150 {
        let x = Quad::from_limb(limb((g.unit() - 1.5) * 40.0)).add(Quad::pi().mul_pwr2(limb(2f64.powi(-60))));
        let (s, c) = x.sin_cos();
        assert!(s.sqr().add(c.sqr()).sub(Quad::one()).abs().le(slack), "{:?}", x);
        // The addition theorem: sin(2x) = 2 sin(x) cos(x).
        let (s2, _) = x.add(x).sin_cos();
        assert!(s2.sub(s.mul(c).mul_pwr2(limb(2.0))).abs().le(slack), "{:?}", x);
        assert!(s.equals(x.sin()) && c.equals(x.cos()));
    }
}
