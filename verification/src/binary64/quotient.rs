//! Division.

use vstd::prelude::*;
use vstd::arithmetic::power2::{pow2, lemma_pow2_pos, lemma2_to64, lemma2_to64_rest};
use vstd::arithmetic::div_mod::lemma_fundamental_div_mod;
use crate::binary64::power::{bit_len, pow2_u128, lemma_pow2_sum, lemma_bit_length_bounds, lemma_bit_length_shift_up, lemma_bit_length_le};
use crate::binary64::format::{HIDDEN, NAN_BITS, is_negative, is_nan, is_infinite, is_finite, is_zero, magnitude, infinity_bits, zero_bits, sign_of, nan_of, infinite_of, zero_of, parts_of, lemma_zero_magnitude};
use crate::binary64::round::{round_ratio, round_dyadic, between, pack, round_pack, lemma_round_ratio_same, lemma_round_between, lemma_round_ratio_zero, lemma_pack_zero};

verus! {

/// The quotient of two patterns.
///
/// A NaN operand, two infinities or two zeros give the NaN. The sign of any
/// other quotient is negative where exactly one operand's is. An infinite
/// dividend or a zero divisor gives an infinity, an infinite divisor a zero;
/// two finite numbers give their exact quotient, rounded.
pub open spec fn div_bits(a: u64, b: u64) -> u64 {
    let negative = is_negative(a) != is_negative(b);
    if is_nan(a) || is_nan(b) {
        NAN_BITS
    } else if is_infinite(a) {
        if is_infinite(b) {
            NAN_BITS
        } else {
            infinity_bits(negative)
        }
    } else if is_infinite(b) {
        zero_bits(negative)
    } else if is_zero(b) {
        if is_zero(a) {
            NAN_BITS
        } else {
            infinity_bits(negative)
        }
    } else {
        pack(negative, round_ratio(magnitude(a) * pow2(1074), magnitude(b)))
    }
}

/// A significand shifted up until its hidden bit is set, with the shift.
pub fn normalise(m: u64) -> (r: (u64, u64))
    requires
        0 < m < 2 * HIDDEN,
    ensures
        r.0 == m as nat * pow2(r.1 as nat),
        HIDDEN <= r.0 < 2 * HIDDEN,
        r.1 <= 52,
{
    let len = bit_len(m as u128);
    proof {
        lemma2_to64();
        lemma2_to64_rest();
        lemma_bit_length_bounds(m as nat);
        lemma_bit_length_le(m as nat, 53);
    }
    let z: u64 = 53 - len;
    let w: u128 = pow2_u128(z);
    proof {
        lemma_bit_length_shift_up(m as nat, z as nat);
        lemma_bit_length_bounds(m as nat * pow2(z as nat));
    }
    ((m as u128 * w) as u64, z)
}

/// The exact quotient of two scaled significands, as rounding sees it, from
/// the whole quotient `q` and rest `rest` of the normalised significand
/// `ma * 2^za`, shifted up by fifty-seven digits, by `mb * 2^zb`.
pub proof fn lemma_round_quotient(
    ma: nat,
    ea: nat,
    za: nat,
    mb: nat,
    eb: nat,
    zb: nat,
    q: nat,
    rest: nat,
)
    requires
        mb > 0,
        (ma * pow2(za)) * pow2(57) == q * (mb * pow2(zb)) + rest,
        rest < mb * pow2(zb),
        q >= pow2(54),
    ensures
        round_ratio((ma * pow2(ea)) * pow2(1074), mb * pow2(eb)) == (if rest == 0 {
            round_dyadic(q, ea - za - eb + zb + 1017)
        } else {
            round_dyadic(2 * q + 1, ea - za - eb + zb + 1016)
        }),
{
    lemma2_to64();
    let e: int = ea - za - eb + zb + 1017;
    let a: nat = if e >= 0 {
        e as nat
    } else {
        0
    };
    let b: nat = if e >= 0 {
        0
    } else {
        (-e) as nat
    };
    let nb = mb * pow2(zb);
    let big = (ma * pow2(za)) * pow2(57);
    let pa = pow2(a);
    let pb = pow2(b);
    lemma_pow2_pos(a);
    lemma_pow2_pos(b);
    lemma_pow2_pos(zb);
    lemma_pow2_pos(eb);
    let n1 = (ma * pow2(ea)) * pow2(1074);
    let d1 = mb * pow2(eb);
    let n2 = big * pa;
    let d2 = nb * pb;
    assert(nb > 0) by (nonlinear_arith)
        requires
            nb == mb * pow2(zb),
            mb > 0,
            pow2(zb) > 0,
    ;
    assert(d1 > 0) by (nonlinear_arith)
        requires
            d1 == mb * pow2(eb),
            mb > 0,
            pow2(eb) > 0,
    ;
    assert(d2 > 0) by (nonlinear_arith)
        requires
            d2 == nb * pb,
            nb > 0,
            pb > 0,
    ;
    // both fractions have one value
    let total = pow2(ea + 1074 + zb + b);
    lemma_pow2_sum(ea, 1074);
    lemma_pow2_sum(ea + 1074, zb);
    lemma_pow2_sum(ea + 1074 + zb, b);
    lemma_pow2_sum(za, 57);
    lemma_pow2_sum(za + 57, a);
    lemma_pow2_sum(za + 57 + a, eb);
    let left = pow2(ea) * pow2(1074) * pow2(zb) * pb;
    let right = pow2(za) * pow2(57) * pa * pow2(eb);
    assert(left == total);
    assert(right == total);
    assert(n1 * d2 == (ma * mb) * left) by (nonlinear_arith)
        requires
            n1 == (ma * pow2(ea)) * pow2(1074),
            d2 == (mb * pow2(zb)) * pb,
            left == pow2(ea) * pow2(1074) * pow2(zb) * pb,
    ;
    assert(n2 * d1 == (ma * mb) * right) by (nonlinear_arith)
        requires
            n2 == ((ma * pow2(za)) * pow2(57)) * pa,
            d1 == mb * pow2(eb),
            right == pow2(za) * pow2(57) * pa * pow2(eb),
    ;
    lemma_round_ratio_same(n1, d1, n2, d2);
    if rest == 0 {
        let n3 = q * pa;
        assert(n2 * pb == n3 * d2) by (nonlinear_arith)
            requires
                n2 == big * pa,
                big == q * nb,
                n3 == q * pa,
                d2 == nb * pb,
        ;
        lemma_round_ratio_same(n2, d2, n3, pb);
        if e < 0 {
            assert(q * pow2(0) == q);
        }
    } else {
        if e >= 0 {
            assert(pb == 1);
            assert(d2 == nb) by (nonlinear_arith)
                requires
                    d2 == nb * pb,
                    pb == 1,
            ;
            assert(q * pa * d2 < n2) by (nonlinear_arith)
                requires
                    big == q * nb + rest,
                    rest > 0,
                    n2 == big * pa,
                    d2 == nb,
                    pa > 0,
            ;
            assert(n2 < (q + 1) * pa * d2) by (nonlinear_arith)
                requires
                    big == q * nb + rest,
                    rest < nb,
                    n2 == big * pa,
                    d2 == nb,
                    pa > 0,
            ;
        } else {
            assert(pa == 1);
            assert(n2 == big) by (nonlinear_arith)
                requires
                    n2 == big * pa,
                    pa == 1,
            ;
            assert(q * d2 < n2 * pb) by (nonlinear_arith)
                requires
                    big == q * nb + rest,
                    rest > 0,
                    n2 == big,
                    d2 == nb * pb,
                    pb > 0,
            ;
            assert(n2 * pb < (q + 1) * d2) by (nonlinear_arith)
                requires
                    big == q * nb + rest,
                    rest < nb,
                    n2 == big,
                    d2 == nb * pb,
                    pb > 0,
            ;
        }
        assert(between(n2, d2, q, e));
        lemma_round_between(n2, d2, q, e);
    }
}

/// The quotient of two finite patterns, the second of which is no zero.
fn div_finite(a: u64, b: u64) -> (r: u64)
    requires
        is_finite(a),
        is_finite(b),
        !is_zero(b),
    ensures
        r == pack(
            is_negative(a) != is_negative(b),
            round_ratio(magnitude(a) * pow2(1074), magnitude(b)),
        ),
{
    let negative = sign_of(a) != sign_of(b);
    let (ma, ea) = parts_of(a);
    let (mb, eb) = parts_of(b);
    proof {
        lemma2_to64();
        lemma2_to64_rest();
        lemma_zero_magnitude(a);
        lemma_zero_magnitude(b);
    }
    if ma == 0 {
        proof {
            lemma_round_ratio_zero(magnitude(b));
            lemma_pack_zero(negative);
            assert(magnitude(a) * pow2(1074) == 0) by (nonlinear_arith)
                requires
                    magnitude(a) == 0,
            ;
        }
        return if negative {
            0x8000_0000_0000_0000
        } else {
            0
        };
    }
    let (na, za) = normalise(ma);
    let (nb, zb) = normalise(mb);
    let big: u128 = (na as u128) * 0x200_0000_0000_0000u128;
    let q: u128 = big / (nb as u128);
    let rest: u128 = big % (nb as u128);
    proof {
        lemma_fundamental_div_mod(big as int, nb as int);
        assert(q >= 0x100_0000_0000_0000) by (nonlinear_arith)
            requires
                big == nb * q + rest,
                rest < nb,
                nb < 0x20_0000_0000_0000,
                big >= 0x10_0000_0000_0000 * 0x200_0000_0000_0000,
        ;
        assert(q < 0x400_0000_0000_0000) by (nonlinear_arith)
            requires
                big == nb * q + rest,
                rest >= 0,
                nb >= 0x10_0000_0000_0000,
                big < 0x20_0000_0000_0000 * 0x200_0000_0000_0000,
        ;
        assert(big == q * nb + rest) by (nonlinear_arith)
            requires
                big == nb * q + rest,
        ;
        lemma_round_quotient(
            ma as nat,
            ea as nat,
            za as nat,
            mb as nat,
            eb as nat,
            zb as nat,
            q as nat,
            rest as nat,
        );
    }
    let e: i64 = (ea as i64) - (za as i64) - (eb as i64) + (zb as i64) + 1017;
    if rest == 0 {
        round_pack(negative, q, e)
    } else {
        round_pack(negative, 2 * q + 1, e - 1)
    }
}

/// The quotient of two patterns.
pub fn div(a: u64, b: u64) -> (r: u64)
    ensures
        r == div_bits(a, b),
{
    let negative = sign_of(a) != sign_of(b);
    if nan_of(a) || nan_of(b) {
        NAN_BITS
    } else if infinite_of(a) {
        if infinite_of(b) {
            NAN_BITS
        } else if negative {
            0xfff0_0000_0000_0000
        } else {
            0x7ff0_0000_0000_0000
        }
    } else if infinite_of(b) {
        if negative {
            0x8000_0000_0000_0000
        } else {
            0
        }
    } else if zero_of(b) {
        if zero_of(a) {
            NAN_BITS
        } else if negative {
            0xfff0_0000_0000_0000
        } else {
            0x7ff0_0000_0000_0000
        }
    } else {
        div_finite(a, b)
    }
}

} // verus!
