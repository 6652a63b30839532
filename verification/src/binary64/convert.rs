//! Conversion between whole numbers and patterns.

use vstd::prelude::*;
use vstd::arithmetic::power2::{pow2, lemma_pow2_pos, lemma2_to64, lemma2_to64_rest};
use vstd::arithmetic::div_mod::{lemma_div_by_multiple, lemma_div_denominator};
use crate::binary64::power::{pow2_u128, lemma_pow2_sum, lemma_pow2_monotone};
use crate::binary64::format::{HIDDEN, is_negative, is_nan, magnitude, sign_of, nan_of, exp_of, parts_of};
use crate::binary64::round::{round_dyadic, pack, round_pack};

verus! {

/// The pattern nearest to the whole number `n`: `n` counts units of
/// `2^1074 * 2^-1074`.
pub open spec fn from_nat_bits(n: nat) -> u64 {
    pack(false, round_dyadic(n, 1074))
}

/// The pattern nearest to the whole number `n`. Zero is positive.
pub open spec fn from_int_bits(n: int) -> u64 {
    if n < 0 {
        pack(true, round_dyadic((-n) as nat, 1074))
    } else {
        pack(false, round_dyadic(n as nat, 1074))
    }
}

/// The pattern of `k / 2^53`.
pub open spec fn fraction_bits(k: nat) -> u64 {
    pack(false, round_dyadic(k, 1021))
}

/// The whole part of a pattern, held to the range of a byte: zero for a NaN
/// and for every negative number, 255 for 255 and all above.
pub open spec fn to_byte_bits(a: u64) -> u8 {
    if is_nan(a) || is_negative(a) {
        0
    } else {
        let whole = magnitude(a) / pow2(1074);
        if whole > 255 {
            255
        } else {
            whole as u8
        }
    }
}

/// The pattern nearest to `n`.
pub fn from_u64(n: u64) -> (r: u64)
    ensures
        r == from_nat_bits(n as nat),
{
    round_pack(false, n as u128, 1074)
}

/// The pattern nearest to `n`.
pub fn from_i64(n: i64) -> (r: u64)
    ensures
        r == from_int_bits(n as int),
{
    if n < 0 {
        let m: u128 = (-(n as i128)) as u128;
        round_pack(true, m, 1074)
    } else {
        round_pack(false, n as u128, 1074)
    }
}

/// The pattern of `k / 2^53`.
pub fn from_fraction(k: u64) -> (r: u64)
    ensures
        r == fraction_bits(k as nat),
{
    round_pack(false, k as u128, 1021)
}

/// The whole part of a pattern, held to the range of a byte.
pub fn to_byte(a: u64) -> (r: u8)
    ensures
        r == to_byte_bits(a),
{
    if nan_of(a) || sign_of(a) {
        return 0;
    }
    proof {
        lemma2_to64();
        lemma2_to64_rest();
        lemma_pow2_pos(1074);
    }
    if exp_of(a) == 2047 {
        proof {
            // an infinity: its magnitude is 2^2098
            lemma_pow2_sum(52, 2046);
            lemma_pow2_sum(1024, 1074);
            lemma_div_by_multiple(pow2(1024) as int, pow2(1074) as int);
            lemma_pow2_monotone(8, 1024);
            assert(magnitude(a) == pow2(1024) * pow2(1074));
        }
        return 255;
    }
    let (m, e) = parts_of(a);
    if e >= 1074 {
        proof {
            let up = (e - 1074) as nat;
            lemma_pow2_sum(up, 1074);
            lemma_pow2_pos(up);
            let whole = m as nat * pow2(up);
            assert(magnitude(a) == whole * pow2(1074)) by (nonlinear_arith)
                requires
                    magnitude(a) == m as nat * pow2(e as nat),
                    pow2(e as nat) == pow2(up) * pow2(1074),
                    whole == m as nat * pow2(up),
            ;
            lemma_div_by_multiple(whole as int, pow2(1074) as int);
            assert(whole >= HIDDEN) by (nonlinear_arith)
                requires
                    whole == m as nat * pow2(up),
                    m >= HIDDEN,
                    pow2(up) >= 1,
            ;
        }
        255
    } else {
        let k: u64 = 1074 - e;
        proof {
            lemma_pow2_sum(e as nat, k as nat);
            lemma_pow2_pos(e as nat);
            lemma_pow2_pos(k as nat);
            // (m * 2^e) / (2^e * 2^k) == m / 2^k
            let w = pow2(e as nat);
            vstd::arithmetic::mul::lemma_mul_is_commutative(m as int, w as int);
            lemma_div_by_multiple(m as int, w as int);
            lemma_div_denominator(magnitude(a) as int, w as int, pow2(k as nat) as int);
            assert(magnitude(a) / pow2(1074) == m as nat / pow2(k as nat));
        }
        if k >= 53 {
            proof {
                lemma_pow2_monotone(53, k as nat);
                assert(m as nat / pow2(k as nat) == 0) by (nonlinear_arith)
                    requires
                        m < pow2(k as nat),
                ;
            }
            0
        } else {
            let whole: u128 = (m as u128) / pow2_u128(k);
            if whole > 255 {
                255
            } else {
                whole as u8
            }
        }
    }
}

} // verus!
