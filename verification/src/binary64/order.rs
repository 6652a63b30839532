//! Comparison.

use vstd::prelude::*;
use vstd::arithmetic::power2::{pow2, lemma_pow2_pos, lemma2_to64, lemma2_to64_rest};
use crate::binary64::power::{lemma_pow2_sum, lemma_pow2_monotone};
use crate::binary64::format::{HIDDEN, SIGN, INFINITY_BITS, is_nan, exp_field, frac_field, significand, scale, magnitude, value, abs_bits, sign_of, nan_of};

verus! {

/// `a < b`: neither is a NaN and the value of `a` is the smaller. The value
/// of an infinity is `2^2098` units with its sign, beyond every finite one.
pub open spec fn lt_bits(a: u64, b: u64) -> bool {
    !is_nan(a) && !is_nan(b) && value(a) < value(b)
}

/// `a <= b`: neither is a NaN and the value of `a` is not the larger.
pub open spec fn le_bits(a: u64, b: u64) -> bool {
    !is_nan(a) && !is_nan(b) && value(a) <= value(b)
}

/// `a == b`: neither is a NaN and the values agree, so the two zeros are equal.
pub open spec fn eq_bits(a: u64, b: u64) -> bool {
    !is_nan(a) && !is_nan(b) && value(a) == value(b)
}

/// A pattern without sign that is no NaN: its magnitude lies in the binade
/// that its exponent bits name.
proof fn lemma_magnitude_binade(x: u64)
    requires
        x <= INFINITY_BITS,
    ensures
        exp_field(x) == x / HIDDEN,
        exp_field(x) == 0 ==> magnitude(x) == frac_field(x) && magnitude(x) < pow2(52),
        exp_field(x) > 0 ==> pow2(51 + exp_field(x)) <= magnitude(x) < pow2(52 + exp_field(x)),
        exp_field(x) > 0 ==> magnitude(x) == pow2(51 + exp_field(x)) + frac_field(x) * pow2(
            scale(x),
        ),
{
    lemma2_to64();
    lemma2_to64_rest();
    let e = exp_field(x);
    let f = frac_field(x);
    if e == 0 {
        assert(f * pow2(0) == f);
    } else {
        let w = pow2((e - 1) as nat);
        lemma_pow2_pos((e - 1) as nat);
        lemma_pow2_sum(52, (e - 1) as nat);
        lemma_pow2_sum(53, (e - 1) as nat);
        let m = significand(x);
        assert(m * w == pow2(52) * w + f * w) by (nonlinear_arith)
            requires
                m == f + pow2(52),
        ;
        assert(f * w < pow2(52) * w) by (nonlinear_arith)
            requires
                f < pow2(52),
                w > 0,
        ;
        assert(pow2(53) == 2 * pow2(52));
        assert(pow2(53) * w == 2 * (pow2(52) * w)) by (nonlinear_arith)
            requires
                pow2(53) == 2 * pow2(52),
        ;
    }
}

/// Among the patterns without sign that are no NaN, the larger pattern has
/// the larger magnitude.
pub proof fn lemma_magnitude_increases(x: u64, y: u64)
    requires
        x < y <= INFINITY_BITS,
    ensures
        magnitude(x) < magnitude(y),
{
    lemma_magnitude_binade(x);
    lemma_magnitude_binade(y);
    let ex = exp_field(x);
    let ey = exp_field(y);
    assert(ex <= ey);
    if ex == ey {
        assert(frac_field(x) < frac_field(y));
        if ex > 0 {
            let w = pow2(scale(x));
            lemma_pow2_pos(scale(x));
            assert(frac_field(x) * w < frac_field(y) * w) by (nonlinear_arith)
                requires
                    frac_field(x) < frac_field(y),
                    w > 0,
            ;
        }
    } else if ex == 0 {
        lemma_pow2_monotone(52, 51 + ey);
    } else {
        lemma_pow2_monotone(52 + ex, 51 + ey);
    }
}

/// Among the patterns without sign that are no NaN, order and equality of
/// patterns are those of magnitudes.
pub proof fn lemma_magnitude_order(x: u64, y: u64)
    requires
        x <= INFINITY_BITS,
        y <= INFINITY_BITS,
    ensures
        (x < y) == (magnitude(x) < magnitude(y)),
        (x == y) == (magnitude(x) == magnitude(y)),
{
    if x < y {
        lemma_magnitude_increases(x, y);
    } else if y < x {
        lemma_magnitude_increases(y, x);
    }
}

/// Clearing the sign bit keeps the magnitude and the kind of a pattern.
pub proof fn lemma_abs_bits(a: u64)
    ensures
        abs_bits(a) < SIGN,
        exp_field(abs_bits(a)) == exp_field(a),
        frac_field(abs_bits(a)) == frac_field(a),
        magnitude(abs_bits(a)) == magnitude(a),
        is_nan(abs_bits(a)) == is_nan(a),
        !is_nan(a) ==> abs_bits(a) <= INFINITY_BITS,
{
    if a >= SIGN {
        let low = (a - SIGN) as u64;
        assert(a / HIDDEN == low / HIDDEN + 2048);
        assert(a % HIDDEN == low % HIDDEN);
    }
    let x = abs_bits(a);
    assert(x / HIDDEN < 2048);
    if !is_nan(a) {
        assert(x == (x / HIDDEN) * HIDDEN + x % HIDDEN);
    }
}

/// The pattern with the sign bit cleared.
pub fn abs(a: u64) -> (r: u64)
    ensures
        r == abs_bits(a),
{
    if a >= SIGN {
        a - SIGN
    } else {
        a
    }
}

/// Whether `a < b`.
pub fn lt(a: u64, b: u64) -> (r: bool)
    ensures
        r == lt_bits(a, b),
{
    if nan_of(a) || nan_of(b) {
        return false;
    }
    let x = abs(a);
    let y = abs(b);
    proof {
        lemma_abs_bits(a);
        lemma_abs_bits(b);
        lemma_magnitude_order(x, y);
        lemma_magnitude_order(x, 0);
        lemma_magnitude_order(y, 0);
        assert(magnitude(0) == 0) by {
            assert(significand(0) == 0);
            assert(0nat * pow2(scale(0)) == 0);
        }
        assert(x <= INFINITY_BITS && y <= INFINITY_BITS);
        assert(magnitude(x) == magnitude(a) && magnitude(y) == magnitude(b));
        lemma_magnitude_order(y, x);
    }
    if sign_of(a) {
        if sign_of(b) {
            y < x
        } else {
            x != 0 || y != 0
        }
    } else {
        if sign_of(b) {
            false
        } else {
            x < y
        }
    }
}

/// Whether `a == b`.
pub fn eq(a: u64, b: u64) -> (r: bool)
    ensures
        r == eq_bits(a, b),
{
    if nan_of(a) || nan_of(b) {
        return false;
    }
    let x = abs(a);
    let y = abs(b);
    proof {
        lemma_abs_bits(a);
        lemma_abs_bits(b);
        lemma_magnitude_order(x, y);
        lemma_magnitude_order(x, 0);
        lemma_magnitude_order(y, 0);
        assert(magnitude(0) == 0) by {
            assert(significand(0) == 0);
            assert(0nat * pow2(scale(0)) == 0);
        }
        assert(x <= INFINITY_BITS && y <= INFINITY_BITS);
        assert(magnitude(x) == magnitude(a) && magnitude(y) == magnitude(b));
    }
    if sign_of(a) == sign_of(b) {
        x == y
    } else {
        x == 0 && y == 0
    }
}

/// Whether `a <= b`.
pub fn le(a: u64, b: u64) -> (r: bool)
    ensures
        r == le_bits(a, b),
{
    lt(a, b) || eq(a, b)
}

} // verus!
