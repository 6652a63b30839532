use raytracer::binary64::convert::{from_fraction, from_i64, from_u64, to_byte};
use raytracer::binary64::order::{eq, le, lt};
use raytracer::binary64::product::mul;
use raytracer::binary64::quotient::div;
use raytracer::binary64::root::sqrt;
use raytracer::binary64::sum::{add, sub};

/// A small generator of bit patterns, so that the same ones are tried each run.
struct Patterns(u64);

impl Patterns {
    fn word(&mut self) -> u64 {
        self.0 = self.0.wrapping_add(0x9e37_79b9_7f4a_7c15);
        let mut z = self.0;
        z = (z ^ (z >> 30)).wrapping_mul(0xbf58_476d_1ce4_e5b9);
        z = (z ^ (z >> 27)).wrapping_mul(0x94d0_49bb_1331_11eb);
        z ^ (z >> 31)
    }

    /// A pattern whose exponent lies within `spread` of that of one.
    fn near_one(&mut self, spread: u64) -> u64 {
        let w = self.word();
        let sign = w & 0x8000_0000_0000_0000;
        let frac = w & 0x000f_ffff_ffff_ffff;
        let exp = 1023 - spread + (self.word() % (2 * spread + 1));
        sign | (exp << 52) | frac
    }
}

fn special() -> Vec<u64> {
    let mut v = vec![
        0u64,
        0x8000_0000_0000_0000,
        1,
        2,
        3,
        0x8000_0000_0000_0001,
        0x000f_ffff_ffff_ffff,
        0x0010_0000_0000_0000,
        0x0010_0000_0000_0001,
        0x001f_ffff_ffff_ffff,
        0x0020_0000_0000_0000,
        0x7fef_ffff_ffff_ffff,
        0x7fe0_0000_0000_0000,
        0xffef_ffff_ffff_ffff,
        0x7ff0_0000_0000_0000,
        0xfff0_0000_0000_0000,
        0x7ff8_0000_0000_0000,
        0x7ff0_0000_0000_0001,
        0xfff8_0000_0000_0000,
        0x3ca0_0000_0000_0000,
        0x3cb0_0000_0000_0000,
        0x4340_0000_0000_0000,
        0x433f_ffff_ffff_ffff,
    ];
    for x in [
        1.0f64, -1.0, 2.0, 0.5, 3.0, 1.5, 0.1, 0.2, 0.3, 0.4, 1e-8, 0.001, 0.999, 255.99, 256.0,
        1e300, 1e-300, -1e300, 4.0, 9.0, 1e-310, 5e-324, 1.0000000000000002, 0.9999999999999999,
        100.0, 1000.5, 1e16, 9007199254740993.0, 2.5, 3.5, 1e308, 1.7e308, 2e-308,
    ] {
        v.push(x.to_bits());
    }
    v
}

fn same(ours: u64, theirs: f64) -> bool {
    if theirs.is_nan() {
        f64::from_bits(ours).is_nan()
    } else {
        ours == theirs.to_bits()
    }
}

fn check_pair(a: u64, b: u64) {
    let x = f64::from_bits(a);
    let y = f64::from_bits(b);
    assert!(same(add(a, b), x + y), "{:e} + {:e}: {:#x}", x, y, add(a, b));
    assert!(same(sub(a, b), x - y), "{:e} - {:e}: {:#x}", x, y, sub(a, b));
    assert!(same(mul(a, b), x * y), "{:e} * {:e}: {:#x}", x, y, mul(a, b));
    assert!(same(div(a, b), x / y), "{:e} / {:e}: {:#x}", x, y, div(a, b));
    assert_eq!(lt(a, b), x < y, "{:e} < {:e}", x, y);
    assert_eq!(le(a, b), x <= y, "{:e} <= {:e}", x, y);
    assert_eq!(eq(a, b), x == y, "{:e} == {:e}", x, y);
}

#[test]
fn arithmetic_agrees_with_hardware_on_special_values() {
    let v = special();
    for &a in &v {
        assert!(same(sqrt(a), f64::from_bits(a).sqrt()), "sqrt {:#x}", a);
        assert_eq!(to_byte(a), f64::from_bits(a) as u8, "byte of {:#x}", a);
        for &b in &v {
            check_pair(a, b);
        }
    }
}

#[test]
fn arithmetic_agrees_with_hardware_on_random_patterns() {
    let mut p = Patterns(1);
    for _ in 0..20000 {
        let a = p.word();
        let b = p.word();
        check_pair(a, b);
        assert!(same(sqrt(a), f64::from_bits(a).sqrt()), "sqrt {:#x}", a);
        assert_eq!(to_byte(a), f64::from_bits(a) as u8, "byte of {:#x}", a);
    }
}

#[test]
fn arithmetic_agrees_with_hardware_near_one() {
    let mut p = Patterns(7);
    for spread in [0u64, 1, 2, 30, 53, 54, 60, 70, 71, 72, 80, 600] {
        for _ in 0..3000 {
            let a = p.near_one(spread);
            let b = p.near_one(spread);
            check_pair(a, b);
            assert!(same(sqrt(a), f64::from_bits(a).sqrt()), "sqrt {:#x}", a);
            assert_eq!(to_byte(a), f64::from_bits(a) as u8, "byte of {:#x}", a);
        }
    }
}

#[test]
fn arithmetic_agrees_with_hardware_on_subnormals() {
    let mut p = Patterns(11);
    for _ in 0..5000 {
        let a = p.word() & 0x801f_ffff_ffff_ffff;
        let b = p.word() & 0x803f_ffff_ffff_ffff;
        check_pair(a, b);
        check_pair(a, p.near_one(40));
        check_pair(p.near_one(40), b);
        assert!(same(sqrt(a), f64::from_bits(a).sqrt()), "sqrt {:#x}", a);
    }
}

#[test]
fn whole_numbers_convert_as_casts_do() {
    let mut p = Patterns(3);
    for n in [0i64, 1, -1, 2, 180, 256, 1000, i64::MAX, i64::MIN, 9007199254740993, -9007199254740993] {
        assert_eq!(from_i64(n), (n as f64).to_bits());
    }
    for _ in 0..5000 {
        let w = p.word();
        assert_eq!(from_u64(w), (w as f64).to_bits());
        assert_eq!(from_i64(w as i64), ((w as i64) as f64).to_bits());
        let k = w >> 11;
        assert_eq!(from_fraction(k), ((k as f64) * (1.0 / 9007199254740992.0)).to_bits());
    }
    assert_eq!(from_u64(u64::MAX), (u64::MAX as f64).to_bits());
}

#[test]
fn bytes_saturate() {
    assert_eq!(to_byte(255.99f64.to_bits()), 255);
    assert_eq!(to_byte(256.0f64.to_bits()), 255);
    assert_eq!(to_byte(254.999f64.to_bits()), 254);
    assert_eq!(to_byte(0.999f64.to_bits()), 0);
    assert_eq!(to_byte((-3.0f64).to_bits()), 0);
    assert_eq!(to_byte(f64::NAN.to_bits()), 0);
    assert_eq!(to_byte(f64::INFINITY.to_bits()), 255);
    assert_eq!(to_byte(f64::NEG_INFINITY.to_bits()), 0);
    assert_eq!(to_byte(1.0f64.to_bits()), 1);
}
