use qd::limb::Limb;

struct Gen(u64);

impl Gen {
    fn next(&mut self) -> u64 {
        self.0 ^= self.0 << 13;
        self.0 ^= self.0 >> 7;
        self.0 ^= self.0 << 17;
        self.0
    }

    /// A pattern drawn so that special values, subnormals and near-equal
    /// exponents all occur often.
    fn pattern(&mut self) -> u64 {
        let r = self.next();
        let frac = match r % 5 {
            0 => 0,
            1 => 1,
            2 => 0x000F_FFFF_FFFF_FFFF,
            _ => self.next() & 0x000F_FFFF_FFFF_FFFF,
        };
        let r = self.next();
        let exp = match r % 8 {
            0 => 0,
            1 => 1,
            2 => 2047,
            3 => 2046,
            4 => 1023 + (self.next() % 7),
            5 => 1000 + (self.next() % 120),
            6 => self.next() % 60,
            _ => self.next() % 2048,
        };
        let sign = self.next() & 0x8000_0000_0000_0000;
        sign | (exp << 52) | frac
    }
}

fn same(got: Limb, want: f64) -> bool {
    if want.is_nan() {
        got.is_nan()
    } else {
        got.to_bits() == want.to_bits()
    }
}

#[test]
fn limb_add_matches_hardware() {
    let mut g = Gen(0x9E37_79B9_7F4A_7C15);
    for _ in 0..200000 {
        let (a, b) = (g.pattern(), g.pattern());
        let want = f64::from_bits(a) + f64::from_bits(b);
        let got = Limb::from_bits(a).add(Limb::from_bits(b));
        assert!(same(got, want), "{:#x} + {:#x}: {:#x} vs {:#x}", a, b, got.to_bits(), want.to_bits());
    }
}

#[test]
fn limb_sub_matches_hardware() {
    let mut g = Gen(0x1234_5678_9ABC_DEF1);
    for _ in 0..200000 {
        let (a, b) = (g.pattern(), g.pattern());
        let want = f64::from_bits(a) - f64::from_bits(b);
        let got = Limb::from_bits(a).sub(Limb::from_bits(b));
        assert!(same(got, want), "{:#x} - {:#x}: {:#x} vs {:#x}", a, b, got.to_bits(), want.to_bits());
    }
}

#[test]
fn limb_mul_matches_hardware() {
    let mut g = Gen(0x0F0F_1234_4321_F0F0);
    for _ in 0..200000 {
        let (a, b) = (g.pattern(), g.pattern());
        let want = f64::from_bits(a) * f64::from_bits(b);
        let got = Limb::from_bits(a).mul(Limb::from_bits(b));
        assert!(same(got, want), "{:#x} * {:#x}: {:#x} vs {:#x}", a, b, got.to_bits(), want.to_bits());
    }
}

#[test]
fn limb_div_matches_hardware() {
    let mut g = Gen(0x7777_1111_3333_5555);
    for _ in 0..200000 {
        let (a, b) = (g.pattern(), g.pattern());
        let want = f64::from_bits(a) / f64::from_bits(b);
        let got = Limb::from_bits(a).div(Limb::from_bits(b));
        assert!(same(got, want), "{:#x} / {:#x}: {:#x} vs {:#x}", a, b, got.to_bits(), want.to_bits());
    }
}

#[test]
fn limb_mul_split_matches_fused_hardware() {
    let mut g = Gen(0x2468_ACE0_1357_9BDF);
    for _ in 0..200000 {
        let (a, b) = (g.pattern(), g.pattern());
        let (fa, fb) = (f64::from_bits(a), f64::from_bits(b));
        let p = fa * fb;
        let e = fa.mul_add(fb, -p);
        let (gp, ge) = Limb::from_bits(a).mul_split(Limb::from_bits(b));
        assert!(same(gp, p), "{:#x} * {:#x}", a, b);
        assert!(same(ge, e), "{:#x} * {:#x}: error {:#x} vs {:#x}", a, b, ge.to_bits(), e.to_bits());
    }
}

#[test]
fn limb_sqrt_matches_hardware() {
    let mut g = Gen(0xDEAD_BEEF_0BAD_F00D);
    for _ in 0..100000 {
        let a = g.pattern();
        let want = f64::from_bits(a).sqrt();
        let got = Limb::from_bits(a).sqrt();
        assert!(same(got, want), "sqrt {:#x}: {:#x} vs {:#x}", a, got.to_bits(), want.to_bits());
    }
}

#[test]
fn limb_floor_and_round_match_hardware() {
    let mut g = Gen(0x0123_4567_89AB_CDEF);
    for _ in 0..200000 {
        let a = g.pattern();
        let x = f64::from_bits(a);
        let got = Limb::from_bits(a).floor();
        assert!(same(got, x.floor()), "floor {:#x}: {:#x}", a, got.to_bits());
        let got = Limb::from_bits(a).round();
        assert!(same(got, x.round()), "round {:#x}: {:#x}", a, got.to_bits());
        assert_eq!(Limb::from_bits(a).to_i32(), x as i32, "to_i32 {:#x}", a);
    }
    for x in [0.5f64, -0.5, 1.5, -1.5, 2.5, 0.49999999999999994, -0.0, 4503599627370495.5, 2147483647.5, -2147483648.5] {
        let l = Limb::from_bits(x.to_bits());
        assert!(same(l.floor(), x.floor()));
        assert!(same(l.round(), x.round()));
        assert_eq!(l.to_i32(), x as i32);
    }
}

#[test]
fn limb_order_matches_hardware() {
    let mut g = Gen(0xFEDC_BA98_7654_3210);
    for _ in 0..200000 {
        let (a, b) = (g.pattern(), g.pattern());
        let (x, y) = (f64::from_bits(a), f64::from_bits(b));
        let (la, lb) = (Limb::from_bits(a), Limb::from_bits(b));
        assert_eq!(la.lt(lb), x < y);
        assert_eq!(la.le(lb), x <= y);
        assert_eq!(la.gt(lb), x > y);
        assert_eq!(la.ge(lb), x >= y);
        assert_eq!(la.equals(lb), x == y);
        assert_eq!(la.equals(la), x == x);
        assert!(same(la.neg(), -x) || x.is_nan());
        assert!(same(la.abs(), x.abs()) || x.is_nan());
    }
}

#[test]
fn limb_classification_matches_hardware() {
    let mut g = Gen(0x1111_2222_3333_4444);
    for _ in 0..100000 {
        let a = g.pattern();
        let x = f64::from_bits(a);
        let l = Limb::from_bits(a);
        assert_eq!(l.is_nan(), x.is_nan());
        assert_eq!(l.is_infinite(), x.is_infinite());
        assert_eq!(l.is_finite(), x.is_finite());
        assert_eq!(l.is_zero(), x == 0.0);
        assert_eq!(l.is_sign_negative(), x.is_sign_negative());
    }
}
