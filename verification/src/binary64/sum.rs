//! Addition and subtraction.

use vstd::prelude::*;
use vstd::arithmetic::power2::{pow2, lemma_pow2_pos, lemma2_to64, lemma2_to64_rest};
use vstd::arithmetic::div_mod::lemma_fundamental_div_mod_converse;
use crate::binary64::power::{pow2_u128, lemma_pow2_sum, lemma_pow2_monotone, lemma_bit_length_unique};
use crate::binary64::format::{HIDDEN, SIGN, NAN_BITS, is_negative, is_nan, is_infinite, is_finite, scale, magnitude, value, neg_bits, zero_bits, sign_of, nan_of, infinite_of, parts_of};
use crate::binary64::round::{grid_shift, round_ratio, round_dyadic, pack, encode, round_pack, lemma_round_normal, lemma_pack_zero, lemma_round_dyadic_zero};

verus! {

/// The sum of two finite patterns: their exact sum, rounded. An exact sum of
/// zero is negative only where both operands are.
pub open spec fn add_finite(a: u64, b: u64) -> u64 {
    let s = value(a) + value(b);
    if s == 0 {
        zero_bits(is_negative(a) && is_negative(b))
    } else if s < 0 {
        pack(true, round_ratio((-s) as nat, 1))
    } else {
        pack(false, round_ratio(s as nat, 1))
    }
}

/// The sum of two patterns.
///
/// A NaN operand, or two infinities of opposite sign, give the NaN; an
/// infinity otherwise gives itself. Two finite numbers give their exact sum,
/// rounded; an exact sum of zero is negative only where both operands are.
pub open spec fn add_bits(a: u64, b: u64) -> u64 {
    if is_nan(a) || is_nan(b) {
        NAN_BITS
    } else if is_infinite(a) {
        if is_infinite(b) && is_negative(a) != is_negative(b) {
            NAN_BITS
        } else {
            a
        }
    } else if is_infinite(b) {
        b
    } else {
        add_finite(a, b)
    }
}

/// The difference of two patterns: the sum of the first and the negated second.
pub open spec fn sub_bits(a: u64, b: u64) -> u64 {
    add_bits(a, neg_bits(b))
}

/// A number far below the last digit of a normal number `ua` does not change
/// it, added or taken away.
pub proof fn lemma_round_far(ma: nat, ea: nat, ub: nat)
    requires
        HIDDEN <= ma < 2 * HIDDEN,
        ea >= 2,
        0 < ub < pow2((ea - 2) as nat),
    ensures
        round_ratio(ma * pow2(ea) + ub, 1) == ma * pow2(ea),
        ma * pow2(ea) > ub,
        round_ratio((ma * pow2(ea) - ub) as nat, 1) == ma * pow2(ea),
{
    lemma2_to64();
    lemma2_to64_rest();
    let g = pow2(ea);
    let q = pow2((ea - 2) as nat);
    let ua = ma * g;
    lemma_pow2_sum(2, (ea - 2) as nat);
    assert(g == 4 * q);
    lemma_pow2_sum(52, ea);
    lemma_pow2_sum(53, ea);
    assert(pow2(52) * g <= ua < pow2(53) * g) by (nonlinear_arith)
        requires
            pow2(52) <= ma < pow2(53),
            ua == ma * g,
            g > 0,
    ;
    // the sum
    {
        let n = ua + ub;
        assert(ua + g <= pow2(53) * g) by (nonlinear_arith)
            requires
                ma + 1 <= pow2(53),
                ua == ma * g,
                g > 0,
        ;
        lemma_bit_length_unique(n, 53 + ea);
        assert(n / 1 == n);
        assert(grid_shift(n) == ea);
        assert(1 * g == g);
        lemma_fundamental_div_mod_converse(n as int, g as int, ma as int, ub as int);
        assert(n / g == ma);
        assert(n % g == ub);
    }
    // the difference
    if ma > HIDDEN {
        let n = (ua - ub) as nat;
        assert(ua - g >= pow2(52) * g) by (nonlinear_arith)
            requires
                ma - 1 >= pow2(52),
                ua == ma * g,
                g > 0,
        ;
        lemma_bit_length_unique(n, 53 + ea);
        assert(n / 1 == n);
        assert(grid_shift(n) == ea);
        assert(1 * g == g);
        assert(n == g * (ma - 1) + (g - ub)) by (nonlinear_arith)
            requires
                n == ua - ub,
                ua == ma * g,
        ;
        lemma_fundamental_div_mod_converse(n as int, g as int, (ma - 1) as int, (g - ub) as int);
        assert(n / g == ma - 1);
        assert(n % g == g - ub);
    } else {
        let n = (ua - ub) as nat;
        let h = pow2((ea - 1) as nat);
        lemma_pow2_sum(1, (ea - 1) as nat);
        lemma_pow2_sum(1, (ea - 2) as nat);
        assert(g == 2 * h);
        assert(h == 2 * q);
        lemma_pow2_sum(51, ea);
        lemma_pow2_sum(1, 51);
        assert(pow2(52) == 2 * pow2(51));
        assert(pow2(51) * g <= n) by (nonlinear_arith)
            requires
                n == ua - ub,
                ua == pow2(52) * g,
                pow2(52) == 2 * pow2(51),
                ub < g,
                pow2(51) >= 1,
        ;
        lemma_bit_length_unique(n, 52 + ea);
        assert(n / 1 == n);
        assert(grid_shift(n) == ea - 1);
        assert(1 * h == h);
        let top = (2 * HIDDEN - 1) as nat;
        assert(n == h * top + (h - ub)) by (nonlinear_arith)
            requires
                n == ua - ub,
                ua == ma * g,
                ma == HIDDEN,
                g == 2 * h,
                top == 2 * HIDDEN - 1,
        ;
        lemma_fundamental_div_mod_converse(n as int, h as int, top as int, (h - ub) as int);
        assert(n / h == top);
        assert(n % h == h - ub);
        assert(top % 2 == 1);
        assert((top + 1) * h == ua) by (nonlinear_arith)
            requires
                top + 1 == 2 * HIDDEN,
                ua == ma * g,
                ma == HIDDEN,
                g == 2 * h,
        ;
    }
}

/// The sum of two finite patterns whose scales lie more than seventy apart:
/// the larger in magnitude.
fn add_far(a: u64, b: u64) -> (r: u64)
    requires
        is_finite(a),
        is_finite(b),
        scale(a) > scale(b) + 70,
    ensures
        r == add_finite(a, b),
{
    let sa = sign_of(a);
    let (ma, ea) = parts_of(a);
    let (mb, eb) = parts_of(b);
    proof {
        lemma2_to64();
        lemma2_to64_rest();
        lemma_pow2_pos(eb as nat);
        lemma_pow2_pos(ea as nat);
        let ua = magnitude(a);
        let ub = magnitude(b);
        assert(ua > 0) by (nonlinear_arith)
            requires
                ua == ma as nat * pow2(ea as nat),
                ma >= HIDDEN,
                pow2(ea as nat) > 0,
        ;
        if mb == 0 {
            assert(ub == 0) by (nonlinear_arith)
                requires
                    ub == mb as nat * pow2(eb as nat),
                    mb == 0,
            ;
            lemma_round_normal(ma as nat, ea as nat);
            assert(value(a) + value(b) == value(a));
        } else {
            lemma_pow2_sum(53, eb as nat);
            assert(0 < ub < pow2(53) * pow2(eb as nat)) by (nonlinear_arith)
                requires
                    ub == mb as nat * pow2(eb as nat),
                    0 < mb < pow2(53),
                    pow2(eb as nat) > 0,
            ;
            lemma_pow2_monotone((53 + eb) as nat, (ea - 2) as nat);
            lemma_round_far(ma as nat, ea as nat, ub);
            let s = value(a) + value(b);
            if is_negative(a) == is_negative(b) {
                assert(is_negative(a) ==> s == -(ua + ub));
                assert(!is_negative(a) ==> s == ua + ub);
            } else {
                assert(is_negative(a) ==> s == -(ua - ub));
                assert(!is_negative(a) ==> s == ua - ub);
            }
        }
    }
    encode(sa, ma, ea)
}

/// The sum of two finite patterns whose scales lie at most seventy apart.
fn add_near(a: u64, b: u64) -> (r: u64)
    requires
        is_finite(a),
        is_finite(b),
        scale(b) <= scale(a) <= scale(b) + 70,
    ensures
        r == add_finite(a, b),
{
    let sa = sign_of(a);
    let sb = sign_of(b);
    let (ma, ea) = parts_of(a);
    let (mb, eb) = parts_of(b);
    let d: u64 = ea - eb;
    proof {
        lemma2_to64();
        lemma2_to64_rest();
        lemma_pow2_sum(d as nat, eb as nat);
        lemma_pow2_pos(eb as nat);
        lemma_pow2_monotone(d as nat, 70);
        lemma_pow2_sum(64, 6);
        lemma_pack_zero(sa);
        lemma_round_dyadic_zero(eb as int);
    }
    let shift: u128 = pow2_u128(d);
    assert(shift <= 0x40_0000_0000_0000_0000);
    assert(ma * shift < 0x800_0000_0000_0000_0000_0000_0000_0000) by (nonlinear_arith)
        requires
            ma < 0x20_0000_0000_0000,
            shift <= 0x40_0000_0000_0000_0000,
    ;
    let big: u128 = (ma as u128) * shift;
    let small: u128 = mb as u128;
    let ghost unit = pow2(eb as nat);
    let ghost ua = magnitude(a);
    let ghost ub = magnitude(b);
    proof {
        assert(ua == big * unit) by (nonlinear_arith)
            requires
                ua == ma as nat * pow2(ea as nat),
                pow2(ea as nat) == pow2(d as nat) * unit,
                big == ma * pow2(d as nat),
        ;
        assert(ub == small * unit);
    }
    if sa == sb {
        let total: u128 = big + small;
        proof {
            assert(total * unit == ua + ub) by (nonlinear_arith)
                requires
                    total == big + small,
                    ua == big * unit,
                    ub == small * unit,
            ;
            assert(round_dyadic(total as nat, eb as int) == round_ratio(ua + ub, 1));
            assert(sa ==> value(a) + value(b) == -(ua + ub));
            assert(!sa ==> value(a) + value(b) == ua + ub);
        }
        round_pack(sa, total, eb as i64)
    } else if big == small {
        proof {
            assert(ua == ub);
            assert(value(a) + value(b) == 0);
        }
        0
    } else if big > small {
        let total: u128 = big - small;
        proof {
            assert(total * unit == ua - ub) by (nonlinear_arith)
                requires
                    total == big - small,
                    ua == big * unit,
                    ub == small * unit,
            ;
            assert(total * unit > 0) by (nonlinear_arith)
                requires
                    total > 0,
                    unit > 0,
            ;
            assert(round_dyadic(total as nat, eb as int) == round_ratio((ua - ub) as nat, 1));
            assert(sa ==> value(a) + value(b) == -(ua - ub));
            assert(!sa ==> value(a) + value(b) == ua - ub);
        }
        round_pack(sa, total, eb as i64)
    } else {
        let total: u128 = small - big;
        proof {
            assert(total * unit == ub - ua) by (nonlinear_arith)
                requires
                    total == small - big,
                    ua == big * unit,
                    ub == small * unit,
            ;
            assert(total * unit > 0) by (nonlinear_arith)
                requires
                    total > 0,
                    unit > 0,
            ;
            assert(round_dyadic(total as nat, eb as int) == round_ratio((ub - ua) as nat, 1));
            assert(sb ==> value(a) + value(b) == -(ub - ua));
            assert(!sb ==> value(a) + value(b) == ub - ua);
        }
        round_pack(sb, total, eb as i64)
    }
}

/// The sum of two patterns.
pub fn add(a: u64, b: u64) -> (r: u64)
    ensures
        r == add_bits(a, b),
{
    if nan_of(a) || nan_of(b) {
        NAN_BITS
    } else if infinite_of(a) {
        if infinite_of(b) && sign_of(a) != sign_of(b) {
            NAN_BITS
        } else {
            a
        }
    } else if infinite_of(b) {
        b
    } else {
        let (_ma, ea) = parts_of(a);
        let (_mb, eb) = parts_of(b);
        if ea > eb + 70 {
            add_far(a, b)
        } else if ea >= eb {
            add_near(a, b)
        } else if eb > ea + 70 {
            add_far(b, a)
        } else {
            add_near(b, a)
        }
    }
}

/// The pattern with the sign bit flipped.
pub fn neg(a: u64) -> (r: u64)
    ensures
        r == neg_bits(a),
{
    if a >= SIGN {
        a - SIGN
    } else {
        a + SIGN
    }
}

/// The difference of two patterns.
pub fn sub(a: u64, b: u64) -> (r: u64)
    ensures
        r == sub_bits(a, b),
{
    self::add(a, neg(b))
}

} // verus!
