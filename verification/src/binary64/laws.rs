//! What holds of the arithmetic whatever the operands.

use vstd::prelude::*;
use vstd::arithmetic::power2::{pow2, lemma_pow2_pos, lemma2_to64, lemma2_to64_rest};
use vstd::arithmetic::div_mod::{lemma_div_denominator, lemma_fundamental_div_mod, lemma_fundamental_div_mod_converse};
use crate::binary64::power::{bit_length, lemma_pow2_sum, lemma_pow2_monotone, lemma_bit_length_bounds, lemma_bit_length_le, lemma_bit_length_shift_down};
use crate::binary64::format::{HIDDEN, SIGN, INFINITY_BITS, NAN_BITS, LIMIT_EXP, is_negative, is_nan, is_infinite, is_finite, is_zero, exp_field, frac_field, significand, scale, magnitude, value, neg_bits, abs_bits, infinity_bits, lemma_zero_magnitude};
use crate::binary64::round::{grid_shift, nearest, round_ratio, encode_magnitude, pack, lemma_scaled_significand, lemma_round_ratio_zero, lemma_pack_zero, lemma_round_normal, lemma_round_dyadic_exact, dyadic_scale, round_dyadic};
use crate::binary64::sum::{add_bits, sub_bits};
use crate::binary64::product::mul_bits;
use crate::binary64::order::lemma_abs_bits;
use vstd::arithmetic::power2::lemma_pow2_strictly_increases;
use crate::binary64::round::lemma_round_dyadic_zero;
use crate::binary64::convert::{from_int_bits, fraction_bits};
use crate::binary64::quotient::div_bits;
use crate::binary64::root::{floor_sqrt, round_sqrt, sqrt_bits, lemma_floor_sqrt_bounds, lemma_floor_sqrt_exists};

verus! {

/// A rounded fraction is a significand of at most fifty-three digits on its
/// grid: at most `2^53`, and with the hidden bit set where the grid is
/// coarser than the unit.
pub proof fn lemma_round_ratio_form(n: nat, d: nat)
    requires
        d > 0,
    ensures
        ({
            let s = grid_shift(n / d);
            let m = nearest(n, d * pow2(s));
            &&& round_ratio(n, d) == m * pow2(s)
            &&& m <= 2 * HIDDEN
            &&& s > 0 ==> m >= HIDDEN
        }),
{
    lemma2_to64();
    lemma2_to64_rest();
    let f = n / d;
    let s = grid_shift(f);
    let w = pow2(s);
    lemma_pow2_pos(s);
    let g = d * w;
    lemma_div_denominator(n as int, d as int, w as int);
    assert(n / g == f / w);
    lemma_bit_length_shift_down(f, s);
    let q = f / w;
    if q > 0 {
        lemma_bit_length_bounds(q);
    }
    if s > 0 {
        assert(bit_length(q) == 53);
    } else {
        assert(bit_length(q) <= 53);
        lemma_pow2_monotone(bit_length(q), 53);
    }
}

/// The pattern of a significand on its grid: no NaN and without sign; of
/// that magnitude where it is below `2^2098`, positive infinity else.
pub proof fn lemma_encode_value(m: nat, s: nat)
    requires
        m <= 2 * HIDDEN,
        s > 0 ==> m >= HIDDEN,
    ensures
        ({
            let mag = m * pow2(s);
            let bits = encode_magnitude(mag);
            &&& bits <= INFINITY_BITS
            &&& !is_nan(bits)
            &&& mag < pow2(LIMIT_EXP as nat) ==> is_finite(bits) && magnitude(bits) == mag
            &&& mag >= pow2(LIMIT_EXP as nat) ==> bits == INFINITY_BITS
        }),
{
    lemma2_to64();
    lemma2_to64_rest();
    let mag = m * pow2(s);
    let bits = encode_magnitude(mag);
    assert(INFINITY_BITS / HIDDEN == 2047 && INFINITY_BITS % HIDDEN == 0);
    if mag < pow2(LIMIT_EXP as nat) {
        if m < HIDDEN {
            assert(s == 0);
            assert(mag == m) by (nonlinear_arith)
                requires
                    mag == m * pow2(s),
                    pow2(s) == 1,
            ;
            lemma_bit_length_le(m, 52);
            assert(grid_shift(mag) == 0);
            assert(mag / pow2(0) == m);
            assert(bits == m);
            assert(bits / HIDDEN == 0);
            assert(bits % HIDDEN == m);
            assert(significand(bits) * pow2(0) == m);
        } else {
            // the normalised significand `sig` on the grid `2^e`
            let sig: nat = if m == 2 * HIDDEN {
                HIDDEN as nat
            } else {
                m
            };
            let e: nat = if m == 2 * HIDDEN {
                s + 1
            } else {
                s
            };
            lemma_pow2_sum(1, s);
            assert(mag == sig * pow2(e)) by (nonlinear_arith)
                requires
                    mag == m * pow2(s),
                    m == 2 * HIDDEN ==> sig == HIDDEN && pow2(e) == 2 * pow2(s),
                    m != 2 * HIDDEN ==> sig == m && e == s,
            ;
            lemma_scaled_significand(sig, e);
            assert(e <= 2045);
            assert(bits == (e + 1) * HIDDEN + (sig - HIDDEN));
            let low = (sig - HIDDEN) as nat;
            lemma_fundamental_div_mod_converse(
                bits as int,
                HIDDEN as int,
                (e + 1) as int,
                low as int,
            );
            assert(exp_field(bits) == e + 1);
            assert(frac_field(bits) == low);
            assert(bits <= INFINITY_BITS) by (nonlinear_arith)
                requires
                    bits == (e + 1) * HIDDEN + low,
                    e + 1 <= 2046,
                    low < HIDDEN,
                    HIDDEN == 0x10_0000_0000_0000,
                    INFINITY_BITS == 0x7ff0_0000_0000_0000,
            ;
        }
    }
}

/// The pattern that a rounded fraction is packed as: no NaN, of the given
/// sign, and of the rounded magnitude, or an infinity where that is `2^2098`
/// or more.
pub proof fn lemma_pack_rounded(negative: bool, n: nat, d: nat)
    requires
        d > 0,
    ensures
        ({
            let mag = round_ratio(n, d);
            let bits = pack(negative, mag);
            &&& !is_nan(bits)
            &&& is_negative(bits) == negative
            &&& abs_bits(bits) == encode_magnitude(mag)
            &&& mag < pow2(LIMIT_EXP as nat) ==> is_finite(bits) && magnitude(bits) == mag
            &&& mag >= pow2(LIMIT_EXP as nat) ==> bits == infinity_bits(negative)
        }),
{
    lemma_round_ratio_form(n, d);
    let s = grid_shift(n / d);
    let m = nearest(n, d * pow2(s));
    lemma_encode_value(m, s);
    let bits = pack(negative, round_ratio(n, d));
    lemma_abs_bits(bits);
}

/// A finite pattern is that of its own sign and magnitude, and its
/// magnitude rounds to itself.
pub proof fn lemma_pack_unpack(a: u64)
    requires
        is_finite(a),
    ensures
        round_ratio(magnitude(a), 1) == magnitude(a),
        pack(is_negative(a), magnitude(a)) == a,
        magnitude(a) < pow2(LIMIT_EXP as nat),
{
    lemma2_to64();
    lemma2_to64_rest();
    lemma_abs_bits(a);
    let x = abs_bits(a);
    let e = exp_field(a);
    let f = frac_field(a);
    assert(x == (x / HIDDEN) * HIDDEN + x % HIDDEN);
    assert(x / HIDDEN == e);
    lemma_pow2_monotone(52, LIMIT_EXP as nat);
    if e == 0 {
        assert(magnitude(a) == f) by {
            assert(f * pow2(0) == f);
        }
        assert(x == f);
        if f > 0 {
            lemma_bit_length_le(f, 52);
            assert(dyadic_scale(f, 0) == 0);
            lemma_round_dyadic_exact(f, 0);
            assert(f * pow2(0) == f);
        } else {
            lemma_round_ratio_zero(1);
        }
        lemma_bit_length_le(f, 52);
        assert(grid_shift(f) == 0);
        assert(f / pow2(0) == f);
        assert(encode_magnitude(f) == x);
    } else {
        let m = significand(a);
        let s = scale(a);
        lemma_round_normal(m, s);
        lemma_scaled_significand(m, s);
        assert(s <= 2045);
        assert(encode_magnitude(magnitude(a)) == (s + 1) * HIDDEN + (m - HIDDEN));
        assert(encode_magnitude(magnitude(a)) == x) by (nonlinear_arith)
            requires
                encode_magnitude(magnitude(a)) == (s + 1) * HIDDEN + (m - HIDDEN),
                x == e * HIDDEN + f,
                s + 1 == e,
                m == f + HIDDEN,
        ;
    }
}

/// Two patterns stand for one number, or both for none: both are NaNs, or
/// neither is and their values agree.
pub open spec fn alike(x: u64, y: u64) -> bool {
    if is_nan(x) {
        is_nan(y)
    } else {
        !is_nan(y) && value(x) == value(y)
    }
}

/// Two patterns stand for a number and its negative, or both for none.
pub open spec fn opposite(x: u64, y: u64) -> bool {
    if is_nan(x) {
        is_nan(y)
    } else {
        !is_nan(y) && value(x) == -value(y)
    }
}

/// Flipping the sign keeps the kind and the magnitude of a pattern.
pub proof fn lemma_neg_bits(a: u64)
    ensures
        is_nan(neg_bits(a)) == is_nan(a),
        is_infinite(neg_bits(a)) == is_infinite(a),
        is_finite(neg_bits(a)) == is_finite(a),
        is_zero(neg_bits(a)) == is_zero(a),
        magnitude(neg_bits(a)) == magnitude(a),
        is_negative(neg_bits(a)) == !is_negative(a),
        value(neg_bits(a)) == -value(a),
        neg_bits(neg_bits(a)) == a,
        opposite(neg_bits(a), a),
{
    lemma_abs_bits(a);
    lemma_abs_bits(neg_bits(a));
    assert(abs_bits(neg_bits(a)) == abs_bits(a));
}

/// The sum does not depend on the order of its operands.
pub proof fn lemma_add_commutes(a: u64, b: u64)
    ensures
        add_bits(a, b) == add_bits(b, a),
{
    if !is_nan(a) && !is_nan(b) {
        if is_infinite(a) && is_infinite(b) {
            // two infinities of one sign are one pattern
            lemma_abs_bits(a);
            lemma_abs_bits(b);
            let x = abs_bits(a);
            let y = abs_bits(b);
            assert(x == (x / HIDDEN) * HIDDEN + x % HIDDEN);
            assert(y == (y / HIDDEN) * HIDDEN + y % HIDDEN);
        }
    }
}

/// The product does not depend on the order of its operands.
pub proof fn lemma_mul_commutes(a: u64, b: u64)
    ensures
        mul_bits(a, b) == mul_bits(b, a),
{
    assert(magnitude(a) * magnitude(b) == magnitude(b) * magnitude(a)) by (nonlinear_arith);
}

/// A product with a negated factor is the negated product, where it is a
/// number at all.
pub proof fn lemma_mul_neg(a: u64, b: u64)
    ensures
        is_nan(mul_bits(a, b)) ==> mul_bits(a, neg_bits(b)) == NAN_BITS && mul_bits(a, b)
            == NAN_BITS,
        !is_nan(mul_bits(a, b)) ==> mul_bits(a, neg_bits(b)) == neg_bits(mul_bits(a, b)),
        opposite(mul_bits(a, neg_bits(b)), mul_bits(a, b)),
{
    lemma2_to64();
    lemma_neg_bits(b);
    lemma_pow2_pos(1074);
    let negative = is_negative(a) != is_negative(b);
    let mag = round_ratio(magnitude(a) * magnitude(b), pow2(1074));
    lemma_pack_rounded(negative, magnitude(a) * magnitude(b), pow2(1074));
    lemma_pack_rounded(!negative, magnitude(a) * magnitude(b), pow2(1074));
    assert(NAN_BITS / HIDDEN == 2047 && NAN_BITS % HIDDEN == 0x8_0000_0000_0000);
    assert(is_nan(NAN_BITS));
    lemma_neg_bits(mul_bits(a, b));
    if is_nan(a) || is_nan(b) {
    } else if is_infinite(a) || is_infinite(b) {
        assert(INFINITY_BITS / HIDDEN == 2047 && INFINITY_BITS % HIDDEN == 0);
        lemma_abs_bits(infinity_bits(true));
    } else {
        let p = pack(negative, mag);
        let q = pack(!negative, mag);
        assert(abs_bits(p) == abs_bits(q));
    }
}

/// A finite number less itself is positive zero.
pub proof fn lemma_sub_self(p: u64)
    requires
        is_finite(p),
    ensures
        sub_bits(p, p) == 0,
{
    lemma_neg_bits(p);
}

/// Zero times a finite number is a zero.
pub proof fn lemma_mul_zero(z: u64, c: u64)
    requires
        is_zero(z),
        is_finite(c),
    ensures
        is_zero(mul_bits(z, c)),
{
    lemma2_to64();
    lemma_zero_magnitude(z);
    assert(z / HIDDEN % 2048 == 0 && z % HIDDEN == 0);
    lemma_pow2_pos(1074);
    assert(magnitude(z) * magnitude(c) == 0) by (nonlinear_arith)
        requires
            magnitude(z) == 0,
    ;
    lemma_round_ratio_zero(pow2(1074));
    lemma_pack_zero(is_negative(z) != is_negative(c));
}

/// Adding a zero changes no number; only a zero may change its sign.
pub proof fn lemma_add_zero(a: u64, z: u64)
    requires
        is_zero(z),
    ensures
        alike(add_bits(a, z), a),
        !is_nan(a) && !is_zero(a) ==> add_bits(a, z) == a,
{
    lemma2_to64();
    lemma_zero_magnitude(z);
    assert(z / HIDDEN % 2048 == 0 && z % HIDDEN == 0);
    assert(is_finite(z) && !is_nan(z) && !is_infinite(z));
    assert(value(z) == 0);
    assert(NAN_BITS / HIDDEN == 2047 && NAN_BITS % HIDDEN == 0x8_0000_0000_0000);
    if is_nan(a) {
    } else if is_infinite(a) {
    } else {
        lemma_pack_unpack(a);
        lemma_zero_magnitude(a);
        assert(value(0) == 0 && value(SIGN) == 0 && !is_nan(0) && !is_nan(SIGN)) by {
            lemma_zero_magnitude(0);
            lemma_zero_magnitude(SIGN);
            assert(0u64 / HIDDEN % 2048 == 0 && 0u64 % HIDDEN == 0);
            assert(SIGN / HIDDEN % 2048 == 0 && SIGN % HIDDEN == 0);
        }
    }
}

/// The sums of numbers and of their negatives are negatives of each other.
pub proof fn lemma_add_opposite(x1: u64, y1: u64, x2: u64, y2: u64)
    requires
        opposite(x1, x2),
        opposite(y1, y2),
    ensures
        opposite(add_bits(x1, y1), add_bits(x2, y2)),
{
    lemma2_to64();
    assert(NAN_BITS / HIDDEN == 2047 && NAN_BITS % HIDDEN == 0x8_0000_0000_0000);
    assert(is_nan(NAN_BITS));
    lemma_infinite_value(x1);
    lemma_infinite_value(x2);
    lemma_infinite_value(y1);
    lemma_infinite_value(y2);
    lemma_pow2_pos(LIMIT_EXP as nat);
    if is_nan(x1) || is_nan(y1) {
    } else if is_infinite(x1) {
        assert(is_infinite(x2));
        assert(is_negative(x1) != is_negative(x2));
        if is_infinite(y1) {
            assert(is_infinite(y2));
            assert(is_negative(y1) != is_negative(y2));
        } else {
            assert(!is_infinite(y2));
        }
    } else if is_infinite(y1) {
        assert(is_infinite(y2));
        assert(!is_infinite(x2));
    } else {
        assert(is_finite(x2) && is_finite(y2));
        let s1 = value(x1) + value(y1);
        let s2 = value(x2) + value(y2);
        assert(s1 == -s2);
        lemma_value_of_zero();
        lemma_infinity_bits();
        if s1 > 0 {
            lemma_pack_rounded(false, s1 as nat, 1);
            lemma_pack_rounded(true, s1 as nat, 1);
        } else if s1 < 0 {
            lemma_pack_rounded(false, s2 as nat, 1);
            lemma_pack_rounded(true, s2 as nat, 1);
        }
    }
}

/// The two infinities.
pub proof fn lemma_infinity_bits()
    ensures
        is_infinite(infinity_bits(true)),
        is_infinite(infinity_bits(false)),
        is_negative(infinity_bits(true)),
        !is_negative(infinity_bits(false)),
        value(infinity_bits(false)) == pow2(LIMIT_EXP as nat),
        value(infinity_bits(true)) == -(pow2(LIMIT_EXP as nat) as int),
{
    assert(INFINITY_BITS / HIDDEN == 2047 && INFINITY_BITS % HIDDEN == 0);
    assert(((INFINITY_BITS + SIGN) as u64) / HIDDEN % 2048 == 2047 && ((INFINITY_BITS
        + SIGN) as u64) % HIDDEN == 0);
    lemma_infinite_value(infinity_bits(true));
    lemma_infinite_value(infinity_bits(false));
}

/// The value of a pattern tells an infinity from a finite number: an
/// infinity counts `2^2098` units, a finite number fewer.
pub proof fn lemma_infinite_value(a: u64)
    ensures
        is_infinite(a) ==> magnitude(a) == pow2(LIMIT_EXP as nat),
        is_finite(a) ==> magnitude(a) < pow2(LIMIT_EXP as nat),
        is_negative(a) ==> value(a) <= 0,
        !is_negative(a) ==> value(a) >= 0,
        is_infinite(a) ==> a == infinity_bits(is_negative(a)),
{
    lemma2_to64();
    lemma2_to64_rest();
    if is_infinite(a) {
        lemma_pow2_sum(52, 2046);
        lemma_abs_bits(a);
        let x = abs_bits(a);
        assert(x == (x / HIDDEN) * HIDDEN + x % HIDDEN);
    }
    if is_finite(a) {
        lemma_pack_unpack(a);
    }
}

/// Both zeros have the value zero and are no NaNs.
pub proof fn lemma_value_of_zero()
    ensures
        value(0) == 0,
        value(SIGN) == 0,
        !is_nan(0),
        !is_nan(SIGN),
        is_finite(0),
        is_finite(SIGN),
{
    lemma_zero_magnitude(0);
    lemma_zero_magnitude(SIGN);
    assert(0u64 / HIDDEN % 2048 == 0 && 0u64 % HIDDEN == 0);
    assert(SIGN / HIDDEN % 2048 == 0 && SIGN % HIDDEN == 0);
}

/// The patterns of the whole numbers zero and one.
pub proof fn lemma_small_whole_numbers()
    ensures
        from_int_bits(0) == 0,
        is_finite(from_int_bits(1)),
        !is_negative(from_int_bits(1)),
        value(from_int_bits(1)) == pow2(1074),
{
    lemma2_to64();
    lemma_round_dyadic_zero(1074);
    lemma_pack_zero(false);
    assert(bit_length(1) == 1) by {
        assert(bit_length(1) == 1 + bit_length(0));
        assert(bit_length(0) == 0);
    }
    assert(dyadic_scale(1, 1074) == 1022);
    lemma_round_dyadic_exact(1, 1074);
    assert(round_dyadic(1, 1074) == pow2(1074)) by (nonlinear_arith)
        requires
            round_dyadic(1, 1074) == 1 * pow2(1074),
    ;
    assert(round_dyadic(1, 1074) == round_ratio(1 * pow2(1074), 1));
    lemma_pack_rounded(false, 1 * pow2(1074), 1);
    lemma_pow2_monotone(1075, LIMIT_EXP as nat);
    lemma_pow2_strictly_increases(1074, 1075);
}

/// A square is a NaN where its root is, positive infinity where its root is
/// an infinity, and else a number that is not negative.
pub proof fn lemma_square(x: u64)
    ensures
        is_nan(x) ==> is_nan(mul_bits(x, x)),
        is_infinite(x) ==> mul_bits(x, x) == INFINITY_BITS,
        is_finite(x) ==> !is_nan(mul_bits(x, x)) && !is_negative(mul_bits(x, x)),
{
    lemma2_to64();
    assert(NAN_BITS / HIDDEN == 2047 && NAN_BITS % HIDDEN == 0x8_0000_0000_0000);
    lemma_pow2_pos(1074);
    lemma_pack_rounded(false, magnitude(x) * magnitude(x), pow2(1074));
    if is_infinite(x) {
        lemma_zero_magnitude(0);
        assert(!is_zero(x)) by {
            assert(0u64 / HIDDEN % 2048 == 0);
            assert(SIGN / HIDDEN % 2048 == 0);
        }
    }
}

/// The sum of two numbers that are not negative is not negative, and is
/// positive infinity where one of them is.
pub proof fn lemma_add_not_negative(x: u64, y: u64)
    requires
        !is_nan(x),
        !is_nan(y),
        !is_negative(x),
        !is_negative(y),
    ensures
        !is_nan(add_bits(x, y)),
        !is_negative(add_bits(x, y)),
        is_infinite(x) || is_infinite(y) ==> add_bits(x, y) == INFINITY_BITS,
{
    lemma_infinite_value(x);
    lemma_infinite_value(y);
    lemma_infinity_bits();
    if is_finite(x) && is_finite(y) {
        let s = value(x) + value(y);
        if s > 0 {
            lemma_pack_rounded(false, s as nat, 1);
        } else {
            lemma_value_of_zero();
        }
    }
}

/// The whole number nearest to a fraction that is at most `cap` is at most
/// `cap`.
pub proof fn lemma_nearest_le(n: nat, g: nat, cap: nat)
    requires
        g > 0,
        n <= cap * g,
    ensures
        nearest(n, g) <= cap,
{
    let m = n / g;
    let r = n % g;
    lemma_fundamental_div_mod(n as int, g as int);
    assert(m <= cap) by (nonlinear_arith)
        requires
            n == g * m + r,
            r >= 0,
            n <= cap * g,
            g > 0,
    ;
    if m == cap {
        assert(r == 0) by (nonlinear_arith)
            requires
                n == g * m + r,
                r >= 0,
                n <= cap * g,
                m == cap,
        ;
    }
}

/// The grid of a number of at most `2^k` is no coarser than `2^k`.
proof fn lemma_grid_shift_le(f: nat, k: nat)
    requires
        f <= pow2(k),
    ensures
        grid_shift(f) <= k,
{
    lemma_pow2_strictly_increases(k, k + 1);
    lemma_bit_length_le(f, k + 1);
}

/// A fraction of at most `2^k` rounds to at most `2^k`.
pub proof fn lemma_round_ratio_le_pow2(n: nat, d: nat, k: nat)
    requires
        d > 0,
        n <= pow2(k) * d,
    ensures
        round_ratio(n, d) <= pow2(k),
{
    let f = n / d;
    lemma_fundamental_div_mod(n as int, d as int);
    assert(f <= pow2(k)) by (nonlinear_arith)
        requires
            n == d * f + n % d,
            n % d >= 0,
            n <= pow2(k) * d,
            d > 0,
    ;
    lemma_grid_shift_le(f, k);
    let s = grid_shift(f);
    let w = pow2(s);
    let cap = pow2((k - s) as nat);
    lemma_pow2_sum((k - s) as nat, s);
    let g = d * w;
    assert(g > 0) by (nonlinear_arith)
        requires
            g == d * w,
            d > 0,
            w > 0,
    ;
    assert(n <= cap * g) by (nonlinear_arith)
        requires
            n <= pow2(k) * d,
            pow2(k) == cap * w,
            g == d * w,
    ;
    lemma_nearest_le(n, g, cap);
    assert(nearest(n, g) * w <= cap * w) by (nonlinear_arith)
        requires
            nearest(n, g) <= cap,
            w > 0,
    ;
}

/// A rounded root is a significand of at most fifty-three digits on its
/// grid, and the root of a number of at most `4^k` rounds to at most `2^k`.
pub proof fn lemma_round_sqrt_form(n: nat, k: nat)
    requires
        n <= pow2(2 * k),
    ensures
        ({
            let s = grid_shift(floor_sqrt(n));
            exists|m: nat|
                #![trigger m * pow2(s)]
                round_sqrt(n) == m * pow2(s) && m <= 2 * HIDDEN && (s > 0
                    ==> m >= HIDDEN)
        }),
        round_sqrt(n) <= pow2(k),
{
    lemma2_to64();
    lemma2_to64_rest();
    let top = pow2(k);
    lemma_pow2_sum(k, k);
    assert(n < (top + 1) * (top + 1)) by (nonlinear_arith)
        requires
            n <= top * top,
            top > 0,
    ;
    assert(0nat * 0nat <= n) by (nonlinear_arith);
    lemma_floor_sqrt_bounds(n, 0, top + 1);
    let f = floor_sqrt(n);
    lemma_floor_sqrt_exists(n);
    lemma_grid_shift_le(f, k);
    let s = grid_shift(f);
    let w = pow2(s);
    lemma_pow2_pos(s);
    let cap = pow2((k - s) as nat);
    lemma_pow2_sum((k - s) as nat, s);
    let m = f / w;
    lemma_fundamental_div_mod(f as int, w as int);
    assert(m <= cap) by (nonlinear_arith)
        requires
            f == w * m + f % w,
            f % w >= 0,
            f <= cap * w,
            w > 0,
    ;
    lemma_bit_length_shift_down(f, s);
    if m > 0 {
        lemma_bit_length_bounds(m);
    }
    if s > 0 {
        assert(bit_length(m) == 53);
    } else {
        lemma_pow2_monotone(bit_length(m), 53);
    }
    let twice_mid = (2 * m + 1) * w;
    let r = round_sqrt(n);
    if m == cap {
        assert(twice_mid * twice_mid > 4 * n) by (nonlinear_arith)
            requires
                twice_mid == (2 * m + 1) * w,
                m * w == top,
                n <= top * top,
                w > 0,
        ;
        assert(r == m * w);
    } else {
        assert((m + 1) * w <= cap * w) by (nonlinear_arith)
            requires
                m + 1 <= cap,
                w > 0,
        ;
        assert(m * w <= (m + 1) * w) by (nonlinear_arith)
            requires
                w > 0,
        ;
    }
    if r == m * w {
        assert(r == m * pow2(s) && m <= 2 * HIDDEN && (s > 0 ==> m >= HIDDEN));
    } else {
        let m1 = m + 1;
        assert(r == m1 * pow2(s) && m1 <= 2 * HIDDEN && (s > 0 ==> m1 >= HIDDEN));
    }
}

/// One over a number of at least one is a number from zero to one.
pub proof fn lemma_div_one_by(d: u64)
    requires
        !is_nan(d),
        value(d) >= pow2(1074),
    ensures
        ({
            let r = div_bits(
                from_int_bits(1),
                d,
            );
            !is_nan(r) && 0 <= value(r) <= pow2(1074)
        }),
{
    let one = from_int_bits(1);
    lemma_small_whole_numbers();
    lemma_value_of_zero();
    lemma_infinite_value(d);
    lemma_infinite_value(one);
    lemma_pow2_pos(1074);
    lemma_zero_magnitude(one);
    if is_finite(d) {
        lemma_zero_magnitude(d);
        let n = magnitude(one) * pow2(1074);
        assert(n <= pow2(1074) * magnitude(d)) by (nonlinear_arith)
            requires
                n == pow2(1074) * pow2(1074),
                magnitude(d) >= pow2(1074),
        ;
        lemma_round_ratio_le_pow2(n, magnitude(d), 1074);
        lemma_pack_rounded(false, n, magnitude(d));
        lemma_pow2_monotone(1075, LIMIT_EXP as nat);
        lemma_pow2_strictly_increases(1074, 1075);
    }
}

/// The product of two numbers from zero to one is at most one.
pub proof fn lemma_mul_within_one(a: u64, b: u64)
    requires
        !is_nan(a),
        !is_nan(b),
        0 <= value(a) <= pow2(1074),
        0 <= value(b) <= pow2(1074),
    ensures
        !is_nan(mul_bits(a, b)),
        value(mul_bits(a, b)) <= pow2(1074),
{
    lemma_infinite_value(a);
    lemma_infinite_value(b);
    lemma_pow2_pos(1074);
    lemma_pow2_monotone(1075, LIMIT_EXP as nat);
    lemma_pow2_strictly_increases(1074, 1075);
    let n = magnitude(a) * magnitude(b);
    assert(n <= pow2(1074) * pow2(1074)) by (nonlinear_arith)
        requires
            n == magnitude(a) * magnitude(b),
            magnitude(a) <= pow2(1074),
            magnitude(b) <= pow2(1074),
    ;
    lemma_round_ratio_le_pow2(n, pow2(1074), 1074);
    lemma_pack_rounded(true, n, pow2(1074));
    lemma_pack_rounded(false, n, pow2(1074));
}

/// One less a square is a NaN or at most one.
pub proof fn lemma_one_less_square(c: u64)
    ensures
        ({
            let y = sub_bits(from_int_bits(1), mul_bits(c, c));
            is_nan(y) || value(y) <= pow2(1074)
        }),
{
    let one = from_int_bits(1);
    let x = mul_bits(c, c);
    lemma_small_whole_numbers();
    lemma_square(c);
    lemma_neg_bits(x);
    lemma_infinite_value(x);
    lemma_infinite_value(neg_bits(x));
    lemma_infinite_value(one);
    lemma_infinity_bits();
    lemma_value_of_zero();
    lemma_pow2_pos(1074);
    lemma_pow2_pos(LIMIT_EXP as nat);
    assert(NAN_BITS / HIDDEN == 2047 && NAN_BITS % HIDDEN == 0x8_0000_0000_0000);
    if !is_nan(c) && is_finite(x) {
        let s = value(one) + value(neg_bits(x));
        if s > 0 {
            assert(s as nat <= pow2(1074) * 1);
            lemma_round_ratio_le_pow2(s as nat, 1, 1074);
            lemma_pack_rounded(false, s as nat, 1);
            lemma_pow2_monotone(1075, LIMIT_EXP as nat);
            lemma_pow2_strictly_increases(1074, 1075);
        } else if s < 0 {
            lemma_pack_rounded(true, (-s) as nat, 1);
        }
    }
}

/// The root of a number of at most one is a NaN or a number from zero to one.
pub proof fn lemma_sqrt_within_one(y: u64)
    requires
        is_nan(y) || value(y) <= pow2(1074),
    ensures
        ({
            let r = sqrt_bits(y);
            is_nan(r) || (0 <= value(r) <= pow2(1074))
        }),
{
    lemma2_to64();
    assert(NAN_BITS / HIDDEN == 2047 && NAN_BITS % HIDDEN == 0x8_0000_0000_0000);
    lemma_infinite_value(y);
    lemma_value_of_zero();
    lemma_pow2_pos(1074);
    lemma_pow2_monotone(1075, LIMIT_EXP as nat);
    lemma_pow2_strictly_increases(1074, 1075);
    if !is_nan(y) && !is_zero(y) && !is_negative(y) {
        assert(is_finite(y));
        let n = magnitude(y) * pow2(1074);
        lemma_pow2_sum(1074, 1074);
        assert(n <= pow2(2 * 1074)) by (nonlinear_arith)
            requires
                n == magnitude(y) * pow2(1074),
                magnitude(y) <= pow2(1074),
                pow2(2 * 1074) == pow2(1074) * pow2(1074),
        ;
        lemma_round_sqrt_form(n, 1074);
        let s = grid_shift(floor_sqrt(n));
        let m = choose|m: nat|
            #![trigger m * pow2(s)]
            round_sqrt(n) == m * pow2(s) && m <= 2 * HIDDEN && (s > 0
                ==> m >= HIDDEN);
        lemma_encode_value(m, s);
    }
}

/// The pattern of `k / 2^53`, for `k` below `2^53`, is that of a finite number
/// of `k * 2^1021` units, which is below one.
pub proof fn lemma_fraction_value(k: nat)
    requires
        k < pow2(53),
    ensures
        ({
            let bits = fraction_bits(k);
            &&& is_finite(bits)
            &&& !is_negative(bits)
            &&& value(bits) == k * pow2(1021)
            &&& value(bits) < pow2(1074)
        }),
{
    lemma2_to64();
    lemma2_to64_rest();
    lemma_pow2_sum(53, 1021);
    lemma_pow2_pos(1021);
    assert(k * pow2(1021) < pow2(1074)) by (nonlinear_arith)
        requires
            k < pow2(53),
            pow2(1074) == pow2(53) * pow2(1021),
            pow2(1021) > 0,
    ;
    lemma_pow2_monotone(1074, LIMIT_EXP as nat);
    if k == 0 {
        lemma_round_dyadic_zero(1021);
        lemma_pack_zero(false);
        lemma_value_of_zero();
        assert(0 * pow2(1021) == 0);
    } else {
        lemma_bit_length_le(k, 53);
        assert(dyadic_scale(k, 1021) <= 1021);
        lemma_round_dyadic_exact(k, 1021);
        assert(round_dyadic(k, 1021) == round_ratio(k * pow2(1021), 1));
        lemma_pack_rounded(false, k * pow2(1021), 1);
    }
}

/// The sum of two finite patterns loses nothing to rounding: the exact sum
/// is a finite number itself.
pub open spec fn add_is_exact(a: u64, b: u64) -> bool {
    let s = value(a) + value(b);
    let size = if s < 0 {
        (-s) as nat
    } else {
        s as nat
    };
    is_finite(a) && is_finite(b) && round_ratio(size, 1) == size && size < pow2(LIMIT_EXP as nat)
}

/// Where a sum loses nothing to rounding, taking the second operand away
/// again gives the first.
pub proof fn lemma_add_then_sub(a: u64, b: u64)
    requires
        add_is_exact(a, b),
    ensures
        alike(sub_bits(add_bits(a, b), b), a),
{
    let s = value(a) + value(b);
    let sum = add_bits(a, b);
    lemma_value_of_zero();
    lemma_neg_bits(b);
    lemma_pack_unpack(a);
    lemma_infinite_value(a);
    if s > 0 {
        lemma_pack_rounded(false, s as nat, 1);
    } else if s < 0 {
        lemma_pack_rounded(true, (-s) as nat, 1);
    }
    assert(is_finite(sum) && value(sum) == s);
    let back = value(sum) + value(neg_bits(b));
    assert(back == value(a));
    if back > 0 {
        lemma_pack_rounded(false, back as nat, 1);
    } else if back < 0 {
        lemma_pack_rounded(true, (-back) as nat, 1);
    }
}

} // verus!
