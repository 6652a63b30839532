use raytracer::binary64::format::{exp_of, frac_of, infinite_of, nan_of, parts_of, sign_of, zero_of};
use raytracer::binary64::order::abs;
use raytracer::binary64::power::{bit_len, pow2_u128};
use raytracer::binary64::quotient::normalise;
use raytracer::binary64::root::whole_root;
use raytracer::binary64::round::{encode, round_pack};
use raytracer::binary64::sum::neg;

#[test]
fn powers_and_bit_lengths() {
    assert_eq!(pow2_u128(0), 1);
    assert_eq!(pow2_u128(63), 1 << 63);
    assert_eq!(pow2_u128(64), 1 << 64);
    assert_eq!(pow2_u128(126), 1 << 126);
    assert_eq!(bit_len(0), 0);
    assert_eq!(bit_len(1), 1);
    assert_eq!(bit_len(255), 8);
    assert_eq!(bit_len(256), 9);
    assert_eq!(bit_len(u128::MAX), 128);
}

#[test]
fn a_pattern_falls_into_its_fields() {
    let x = (-1.5f64).to_bits();
    assert!(sign_of(x));
    assert_eq!(exp_of(x), 1023);
    assert_eq!(frac_of(x), 1 << 51);
    assert_eq!(parts_of(x), ((1 << 52) + (1 << 51), 1022));
    assert_eq!(parts_of(5e-324f64.to_bits()), (1, 0));
    assert_eq!(parts_of(f64::MIN_POSITIVE.to_bits()), (1 << 52, 0));
    assert_eq!(parts_of(f64::MAX.to_bits()), ((1 << 53) - 1, 2045));
    assert!(nan_of(f64::NAN.to_bits()) && !nan_of(f64::INFINITY.to_bits()));
    assert!(infinite_of(f64::NEG_INFINITY.to_bits()) && !infinite_of(f64::MAX.to_bits()));
    assert!(zero_of(0) && zero_of((-0.0f64).to_bits()) && !zero_of(1));
    assert_eq!(neg(1.0f64.to_bits()), (-1.0f64).to_bits());
    assert_eq!(neg((-0.0f64).to_bits()), 0);
    assert_eq!(abs((-2.5f64).to_bits()), 2.5f64.to_bits());
    assert_eq!(abs(2.5f64.to_bits()), 2.5f64.to_bits());
}

#[test]
fn a_significand_is_shifted_to_its_hidden_bit() {
    assert_eq!(normalise(1), (1 << 52, 52));
    assert_eq!(normalise(3), (3 << 51, 51));
    assert_eq!(normalise(1 << 52), (1 << 52, 0));
    assert_eq!(normalise((1 << 53) - 1), ((1 << 53) - 1, 0));
}

#[test]
fn whole_roots() {
    assert_eq!(whole_root(0), 0);
    assert_eq!(whole_root(1), 1);
    assert_eq!(whole_root(3), 1);
    assert_eq!(whole_root(4), 2);
    assert_eq!(whole_root(99), 9);
    assert_eq!(whole_root(100), 10);
    assert_eq!(whole_root((1 << 112) - 1), (1 << 56) - 1);
    let r: u128 = 0x12_3456_789a_bcde;
    assert_eq!(whole_root(r * r), r);
    assert_eq!(whole_root(r * r - 1), r - 1);
    assert_eq!(whole_root(r * r + 2 * r), r);
}

#[test]
fn significands_are_encoded_on_their_grid() {
    assert_eq!(encode(false, 0, 0), 0);
    assert_eq!(encode(true, 0, 0), (-0.0f64).to_bits());
    assert_eq!(encode(false, 1, 0), 5e-324f64.to_bits());
    assert_eq!(encode(false, 1 << 52, 1022), 1.0f64.to_bits());
    assert_eq!(encode(true, 3 << 51, 1023), (-3.0f64).to_bits());
    assert_eq!(encode(false, 1 << 53, 1021), 1.0f64.to_bits());
    assert_eq!(encode(false, (1 << 53) - 1, 2045), f64::MAX.to_bits());
    assert_eq!(encode(false, 1 << 53, 2045), f64::INFINITY.to_bits());
    assert_eq!(encode(true, 1 << 52, 2046), f64::NEG_INFINITY.to_bits());
}

#[test]
fn dyadic_numbers_are_rounded_to_even() {
    // p * 2^e counts units of 2^-1074
    assert_eq!(round_pack(false, 1, 1074), 1.0f64.to_bits());
    assert_eq!(round_pack(true, 5, 1073), (-2.5f64).to_bits());
    assert_eq!(round_pack(false, 1, 0), 5e-324f64.to_bits());
    // halves of the smallest number: to even
    assert_eq!(round_pack(false, 1, -1), 0);
    assert_eq!(round_pack(false, 3, -1), 2);
    assert_eq!(round_pack(false, 5, -1), 2);
    assert_eq!(round_pack(false, 7, -2), 2);
    assert_eq!(round_pack(true, 1, -5000), (-0.0f64).to_bits());
    // fifty-four digits: the last is rounded away, to even
    assert_eq!(round_pack(false, (1 << 53) + 1, 1074 - 53), 1.0f64.to_bits());
    assert_eq!(round_pack(false, (1 << 53) + 3, 1074 - 53), (1.0f64 + 2.0 * f64::EPSILON).to_bits());
    assert_eq!(round_pack(false, (1 << 54) - 1, 1074 - 53), 2.0f64.to_bits());
    // too large to be finite
    assert_eq!(round_pack(false, 1, 2098), f64::INFINITY.to_bits());
    assert_eq!(round_pack(false, (1 << 54) - 1, 2045), f64::INFINITY.to_bits());
    assert_eq!(round_pack(false, (1 << 54) - 2, 2044), f64::MAX.to_bits());
    assert_eq!(round_pack(true, 1, 5000), f64::NEG_INFINITY.to_bits());
}
