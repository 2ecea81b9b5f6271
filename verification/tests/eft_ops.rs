use qd::double_arith::renorm3;
use qd::eft::{quick_two_sum, three_three_sum, three_two_sum, two_prod, two_sum};
use qd::limb::Limb;
use qd::renorm::{renorm4, renorm5};

struct Gen(u64);

impl Gen {
    fn next(&mut self) -> u64 {
        self.0 ^= self.0 << 13;
        self.0 ^= self.0 >> 7;
        self.0 ^= self.0 << 17;
        self.0
    }

    /// A finite number whose exponent is drawn from a narrow band, so that
    /// sums cancel and round often, or from the whole range.
    fn finite(&mut self) -> f64 {
        let frac = match self.next() % 4 {
            0 => 0,
            1 => 0x000F_FFFF_FFFF_FFFF,
            _ => self.next() & 0x000F_FFFF_FFFF_FFFF,
        };
        let exp = match self.next() % 4 {
            0 => 1023 + (self.next() % 4),
            1 => 990 + (self.next() % 70),
            2 => self.next() % 3,
            _ => 1 + self.next() % 2045,
        };
        let sign = self.next() & 0x8000_0000_0000_0000;
        f64::from_bits(sign | (exp << 52) | frac)
    }
}

fn limb(x: f64) -> Limb {
    Limb::from_bits(x.to_bits())
}

fn native(l: Limb) -> f64 {
    f64::from_bits(l.to_bits())
}

/// The sum of two native floats and its error by the branch-free sequence
/// of six native operations.
fn native_two_sum(a: f64, b: f64) -> (f64, f64) {
    let s = a + b;
    let v = s - a;
    (s, (a - (s - v)) + (b - v))
}

/// The exact value of a finite native float as a whole multiple of 2^-1074,
/// for floats below 2^-950, whose multiples fit 128 bits.
fn units(x: f64) -> i128 {
    let bits = x.to_bits();
    let exp = ((bits >> 52) & 0x7FF) as i128;
    let frac = (bits & 0x000F_FFFF_FFFF_FFFF) as i128;
    let (m, e) = if exp == 0 { (frac, 0) } else { (frac + (1 << 52), exp - 1) };
    let v = m << e;
    if bits >> 63 == 1 {
        -v
    } else {
        v
    }
}

#[test]
fn two_sum_is_exact_on_given_values() {
    let (s, e) = two_sum(limb(1.0), limb(f64::EPSILON / 4.0));
    assert_eq!(native(s), 1.0);
    assert_eq!(native(e), f64::EPSILON / 4.0);
    let (s, e) = two_sum(limb(f64::EPSILON / 4.0), limb(1.0));
    assert_eq!(native(s), 1.0);
    assert_eq!(native(e), f64::EPSILON / 4.0);
    // 2^53 + 1 is no native float: the sum rounds to 2^53 and the error is 1.
    let (s, e) = two_sum(limb(9007199254740992.0), limb(1.0));
    assert_eq!(native(s), 9007199254740992.0);
    assert_eq!(native(e), 1.0);
    // 2^53 + 3 rounds up to 2^53 + 4, and the error is -1.
    let (s, e) = two_sum(limb(9007199254740992.0), limb(3.0));
    assert_eq!(native(s), 9007199254740996.0);
    assert_eq!(native(e), -1.0);
    let (s, e) = two_sum(limb(0.1), limb(0.2));
    assert_eq!(native(s), 0.1 + 0.2);
    assert_eq!(native(e), -2.7755575615628914e-17);
}

#[test]
fn two_sum_adds_up_exactly_in_units() {
    let mut g = Gen(0xA5A5_5A5A_1234_8765);
    let mut seen = 0;
    while seen < 20000 {
        let (a, b) = (g.finite(), g.finite());
        if a.abs() >= 1e-286 || b.abs() >= 1e-286 {
            continue;
        }
        seen += 1;
        let (s, e) = two_sum(limb(a), limb(b));
        assert_eq!(native(s), a + b);
        assert_eq!(units(native(s)) + units(native(e)), units(a) + units(b), "{:e} + {:e}", a, b);
    }
}

#[test]
fn two_sum_matches_the_native_sequence() {
    let mut g = Gen(0x0BAD_CAFE_DEAD_BEEF);
    for _ in 0..200000 {
        let (a, b) = (g.finite(), g.finite());
        let (ns, ne) = native_two_sum(a, b);
        if !ns.is_finite() {
            continue;
        }
        let (s, e) = two_sum(limb(a), limb(b));
        assert_eq!(s.to_bits(), ns.to_bits(), "{:e} + {:e}", a, b);
        assert_eq!(native(e), ne, "{:e} + {:e}", a, b);
    }
}

#[test]
fn quick_two_sum_matches_the_native_sequence() {
    let mut g = Gen(0x1357_9BDF_0246_8ACE);
    for _ in 0..200000 {
        let (a, b) = (g.finite(), g.finite());
        let (a, b) = if a.abs() >= b.abs() { (a, b) } else { (b, a) };
        let ns = a + b;
        let ne = b - (ns - a);
        let (s, e) = quick_two_sum(limb(a), limb(b));
        assert_eq!(s.to_bits(), ns.to_bits());
        if ns.is_finite() {
            assert_eq!(native(e), ne);
            assert_eq!(native(e), native_two_sum(a, b).1);
        }
    }
}

#[test]
fn two_prod_matches_the_fused_native_operation() {
    let mut g = Gen(0x2222_4444_6666_8888);
    for _ in 0..200000 {
        let (a, b) = (g.finite(), g.finite());
        let np = a * b;
        let ne = a.mul_add(b, -np);
        let (p, e) = two_prod(limb(a), limb(b));
        assert_eq!(p.to_bits(), np.to_bits());
        if ne.is_nan() {
            assert!(e.is_nan());
        } else {
            assert_eq!(e.to_bits(), ne.to_bits(), "{:e} * {:e}", a, b);
        }
    }
}

#[test]
fn two_prod_is_exact_on_given_values() {
    // (2^27 + 1)^2 = 2^54 + 2^28 + 1: the product rounds to 2^54 + 2^28,
    // and the error is 1.
    let x = 134217729.0;
    let (p, e) = two_prod(limb(x), limb(x));
    assert_eq!(native(p), 18014398777917440.0);
    assert_eq!(native(e), 1.0);
    let (p, e) = two_prod(limb(3.0), limb(5.0));
    assert_eq!(native(p), 15.0);
    assert_eq!(native(e), 0.0);
    // A product below the smallest limb: nothing is left for the error.
    let tiny = f64::from_bits(1 << 52);
    let (p, e) = two_prod(limb(tiny), limb(tiny));
    assert_eq!(native(p), 0.0);
    assert_eq!(native(e), 0.0);
}

#[test]
fn three_limb_sums_match_the_native_sequences() {
    let mut g = Gen(0x9999_AAAA_BBBB_CCCC);
    for _ in 0..100000 {
        let (a, b, c) = (g.finite(), g.finite(), g.finite());
        let (t1, t2) = native_two_sum(a, b);
        let (x, t3) = native_two_sum(c, t1);
        let (y, z) = native_two_sum(t2, t3);
        if !(x.is_finite() && t1.is_finite() && y.is_finite()) {
            continue;
        }
        let (rx, ry, rz) = three_three_sum(limb(a), limb(b), limb(c));
        assert_eq!((native(rx), native(ry), native(rz)), (x, y, z));
        let (rx, ry) = three_two_sum(limb(a), limb(b), limb(c));
        assert_eq!((native(rx), native(ry)), (x, t2 + t3));
    }
}

#[test]
fn renorm_gives_limbs_that_do_not_overlap() {
    let (a, b, c, d) = renorm4(limb(1.0), limb(2.0), limb(4.0), limb(8.0));
    assert_eq!((native(a), native(b), native(c), native(d)), (15.0, 0.0, 0.0, 0.0));
    let (a, b, c, d) = renorm5(limb(1.0), limb(1e-17), limb(1e-34), limb(1e-51), limb(1e-68));
    let limbs = [native(a), native(b), native(c), native(d)];
    assert_eq!(limbs[0], 1.0);
    for i in 1..4 {
        assert!(limbs[i] != 0.0);
        assert_eq!(limbs[i - 1] + limbs[i], limbs[i - 1]);
        assert!(limbs[i].abs() < limbs[i - 1].abs());
    }
    // Limbs that cancel from the top leave the lower ones.
    let (a, b, c, d) = renorm5(limb(1.0), limb(-1.0), limb(1e-20), limb(0.0), limb(0.0));
    assert_eq!((native(a), native(b), native(c), native(d)), (1e-20, 0.0, 0.0, 0.0));
    let r = renorm3(limb(1.0), limb(1e-17), limb(1e-34));
    let (a, b) = (r[0], r[1]);
    assert_eq!(native(a), 1.0);
    assert_eq!(native(a) + native(b), 1.0);
    assert!(native(b) > 1e-17 * 0.999 && native(b) < 1e-17 * 1.001);
}

#[test]
fn renorm_ends_early_on_special_leading_limbs() {
    for lead in [f64::INFINITY, f64::NEG_INFINITY] {
        let (a, b, c, d) = renorm5(limb(lead), limb(1.0), limb(f64::NAN), limb(2.0), limb(3.0));
        assert_eq!((native(a), native(b), native(c), native(d)), (lead, 0.0, 0.0, 0.0));
        let (a, b, c, d) = renorm4(limb(lead), limb(f64::NAN), limb(2.0), limb(3.0));
        assert_eq!((native(a), native(b), native(c), native(d)), (lead, 0.0, 0.0, 0.0));
        let r = renorm3(limb(lead), limb(f64::NAN), limb(3.0));
        assert_eq!((native(r[0]), native(r[1])), (lead, 0.0));
    }
    let (a, b, c, d) = renorm5(limb(f64::NAN), limb(1.0), limb(1.0), limb(2.0), limb(3.0));
    assert!(a.is_nan());
    assert_eq!((native(b), native(c), native(d)), (0.0, 0.0, 0.0));
    let (a, b, c, d) = renorm4(limb(0.0), limb(0.0), limb(0.0), limb(0.0));
    assert_eq!((native(a), native(b), native(c), native(d)), (0.0, 0.0, 0.0, 0.0));
    let (a, _, _, _) = renorm4(limb(-0.0), limb(-0.0), limb(-0.0), limb(-0.0));
    assert!(a.is_zero() && a.is_sign_negative());
}
