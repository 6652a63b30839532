//! Multiplication.

use vstd::prelude::*;
use vstd::arithmetic::power2::{pow2, lemma_pow2_pos, lemma2_to64, lemma2_to64_rest};
use crate::binary64::power::lemma_pow2_sum;
use crate::binary64::format::{NAN_BITS, is_negative, is_nan, is_infinite, is_zero, magnitude, infinity_bits, sign_of, nan_of, infinite_of, zero_of, parts_of};
use crate::binary64::round::{round_ratio, round_dyadic, pack, round_pack, lemma_round_ratio_scale};

verus! {

/// The product of two patterns.
///
/// A NaN operand, or zero times an infinity, gives the NaN. The sign of any
/// other product is negative where exactly one operand's is. An infinity
/// gives an infinity; two finite numbers give their exact product, rounded.
pub open spec fn mul_bits(a: u64, b: u64) -> u64 {
    let negative = is_negative(a) != is_negative(b);
    if is_nan(a) || is_nan(b) {
        NAN_BITS
    } else if is_infinite(a) || is_infinite(b) {
        if is_zero(a) || is_zero(b) {
            NAN_BITS
        } else {
            infinity_bits(negative)
        }
    } else {
        pack(negative, round_ratio(magnitude(a) * magnitude(b), pow2(1074)))
    }
}

/// The exact product of two scaled significands, as rounding sees it.
pub proof fn lemma_round_product(ma: nat, ea: nat, mb: nat, eb: nat)
    ensures
        round_ratio((ma * pow2(ea)) * (mb * pow2(eb)), pow2(1074)) == round_dyadic(
            ma * mb,
            ea + eb - 1074,
        ),
{
    let p = ma * mb;
    let j = ea + eb;
    lemma_pow2_sum(ea, eb);
    let full = (ma * pow2(ea)) * (mb * pow2(eb));
    assert(full == pow2(j) * p) by (nonlinear_arith)
        requires
            full == (ma * pow2(ea)) * (mb * pow2(eb)),
            pow2(j) == pow2(ea) * pow2(eb),
            p == ma * mb,
    ;
    lemma_pow2_pos(1074);
    if j >= 1074 {
        let e = (j - 1074) as nat;
        lemma_pow2_sum(e, 1074);
        let n = p * pow2(e);
        assert(full == pow2(1074) * n) by (nonlinear_arith)
            requires
                full == pow2(j) * p,
                pow2(j) == pow2(e) * pow2(1074),
                n == p * pow2(e),
        ;
        assert(pow2(1074) * 1 == pow2(1074));
        lemma_round_ratio_scale(n, 1, pow2(1074));
    } else {
        let k = (1074 - j) as nat;
        lemma_pow2_sum(j, k);
        assert(pow2(1074) == pow2(j) * pow2(k));
        lemma_pow2_pos(j);
        lemma_round_ratio_scale(p, pow2(k), pow2(j));
    }
}

/// The product of two patterns.
pub fn mul(a: u64, b: u64) -> (r: u64)
    ensures
        r == mul_bits(a, b),
{
    let negative = sign_of(a) != sign_of(b);
    if nan_of(a) || nan_of(b) {
        NAN_BITS
    } else if infinite_of(a) || infinite_of(b) {
        if zero_of(a) || zero_of(b) {
            NAN_BITS
        } else if negative {
            0xfff0_0000_0000_0000
        } else {
            0x7ff0_0000_0000_0000
        }
    } else {
        let (ma, ea) = parts_of(a);
        let (mb, eb) = parts_of(b);
        proof {
            lemma2_to64();
            lemma2_to64_rest();
            lemma_round_product(ma as nat, ea as nat, mb as nat, eb as nat);
        }
        assert(ma * mb < 0x400_0000_0000_0000_0000_0000_0000) by (nonlinear_arith)
            requires
                ma < 0x20_0000_0000_0000,
                mb < 0x20_0000_0000_0000,
        ;
        let p: u128 = (ma as u128) * (mb as u128);
        let e: i64 = (ea as i64) + (eb as i64) - 1074;
        round_pack(negative, p, e)
    }
}

} // verus!
