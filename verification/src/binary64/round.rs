//! Rounding to nearest, ties to even, stated over exact fractions.

use vstd::prelude::*;
use vstd::arithmetic::power2::{pow2, lemma_pow2_pos, lemma_pow2_adds, lemma_pow2_unfold, lemma2_to64, lemma2_to64_rest};
use vstd::arithmetic::div_mod::{lemma_fundamental_div_mod, lemma_fundamental_div_mod_converse, lemma_div_by_multiple, lemma_div_denominator, lemma_mod_multiples_basic, lemma_truncate_middle, lemma_div_multiples_vanish_quotient};
use vstd::arithmetic::mul::lemma_mul_is_commutative;
use crate::binary64::power::{bit_length, bit_len, pow2_u128, lemma_pow2_sum, lemma_pow2_monotone, lemma_bit_length_bounds, lemma_bit_length_unique, lemma_bit_length_le, lemma_bit_length_gt, lemma_bit_length_shift_up, lemma_bit_length_shift_down};
use crate::binary64::format::{HIDDEN, SIGN, INFINITY_BITS, LIMIT_EXP, zero_bits};

verus! {

/// How many low binary digits a number with integer part `f` has to give up
/// so that fifty-three remain.
pub open spec fn grid_shift(f: nat) -> nat {
    if bit_length(f) <= 53 {
        0
    } else {
        (bit_length(f) - 53) as nat
    }
}

/// The whole number nearest to the fraction `n / g`; of two equally near,
/// the even one.
pub open spec fn nearest(n: nat, g: nat) -> nat
    recommends
        g > 0,
{
    let m = n / g;
    let twice_rest = 2 * (n % g);
    if twice_rest > g || (twice_rest == g && m % 2 == 1) {
        m + 1
    } else {
        m
    }
}

/// The multiple of the grid that lies nearest to the fraction `n / d`, the
/// grid being `2^s` where `s` is the grid shift of the fraction's integer
/// part. Of two multiples equally near, the even one.
pub open spec fn round_ratio(n: nat, d: nat) -> nat
    recommends
        d > 0,
{
    let s = grid_shift(n / d);
    nearest(n, d * pow2(s)) * pow2(s)
}

/// The rounding of `p * 2^e`.
pub open spec fn round_dyadic(p: nat, e: int) -> nat {
    if e >= 0 {
        round_ratio(p * pow2(e as nat), 1)
    } else {
        round_ratio(p, pow2((-e) as nat))
    }
}

/// The pattern, sign bit clear, of a magnitude that is a multiple of its own
/// grid; positive infinity where the magnitude is `2^2098` or more.
pub open spec fn encode_magnitude(mag: nat) -> u64 {
    if mag >= pow2(LIMIT_EXP as nat) {
        INFINITY_BITS
    } else {
        let s = grid_shift(mag);
        let m = mag / pow2(s);
        if m < HIDDEN {
            m as u64
        } else {
            ((s + 1) * HIDDEN + (m - HIDDEN)) as u64
        }
    }
}

/// The pattern of the number with the given sign and magnitude.
pub open spec fn pack(negative: bool, mag: nat) -> u64 {
    if negative {
        (encode_magnitude(mag) + SIGN) as u64
    } else {
        encode_magnitude(mag)
    }
}

/// The grid shift of `p * 2^e`, read off the bit length of `p`.
pub open spec fn dyadic_scale(p: nat, e: int) -> nat {
    let top = bit_length(p) + e;
    if top > 53 {
        (top - 53) as nat
    } else {
        0
    }
}

/// Where no digit of `p` lies below the grid, `p * 2^e` rounds to itself.
pub proof fn lemma_round_dyadic_exact(p: nat, e: int)
    requires
        p > 0,
        dyadic_scale(p, e) <= e,
    ensures
        round_dyadic(p, e) == p * pow2(e as nat),
        p * pow2(e as nat) == (p * pow2((e - dyadic_scale(p, e)) as nat)) * pow2(dyadic_scale(p, e)),
{
    let s = dyadic_scale(p, e);
    let n = p * pow2(e as nat);
    let g = 1 * pow2(s);
    let h = pow2((e - s) as nat);
    lemma_pow2_sum((e - s) as nat, s);
    lemma_pow2_pos(e as nat);
    assert(n > 0) by (nonlinear_arith)
        requires
            n == p * pow2(e as nat),
            p > 0,
            pow2(e as nat) > 0,
    ;
    lemma_bit_length_shift_up(p, e as nat);
    assert(n / 1 == n);
    assert(grid_shift(n / 1) == s);
    assert(n == (p * h) * g) by (nonlinear_arith)
        requires
            n == p * pow2(e as nat),
            pow2(e as nat) == h * pow2(s),
            g == 1 * pow2(s),
    ;
    lemma_div_by_multiple((p * h) as int, g as int);
    lemma_mod_multiples_basic((p * h) as int, g as int);
    assert(n / g == p * h);
    assert(n % g == 0);
}

/// Where `t` digits of `p` lie below the grid, `p * 2^e` rounds by them.
pub proof fn lemma_round_dyadic_inexact(p: nat, e: int)
    requires
        p > 0,
        dyadic_scale(p, e) > e,
    ensures
        ({
            let s = dyadic_scale(p, e);
            let t = (s - e) as nat;
            let m = p / pow2(t);
            let rest = p % pow2(t);
            let up = 2 * rest > pow2(t) || (2 * rest == pow2(t) && m % 2 == 1);
            round_dyadic(p, e) == (if up {
                m + 1
            } else {
                m
            }) * pow2(s)
        }),
{
    let s = dyadic_scale(p, e);
    let t = (s - e) as nat;
    lemma_pow2_pos(t);
    lemma_pow2_pos(s);
    if e >= 0 {
        let c = pow2(e as nat);
        let n = p * c;
        lemma_pow2_sum(e as nat, t);
        lemma_bit_length_shift_up(p, e as nat);
        assert(n / 1 == n);
        assert(grid_shift(n / 1) == s);
        let g = 1 * pow2(s);
        assert(g == c * pow2(t));
        lemma_mul_is_commutative(p as int, c as int);
        lemma_div_by_multiple(p as int, c as int);
        assert(n / c == p);
        lemma_div_denominator(n as int, c as int, pow2(t) as int);
        assert(n / g == p / pow2(t));
        lemma_truncate_middle(p as int, c as int, pow2(t) as int);
        assert(n % g == c * (p % pow2(t)));
        let rest = p % pow2(t);
        assert((2 * (c * rest) > c * pow2(t)) == (2 * rest > pow2(t))) by (nonlinear_arith)
            requires
                c > 0,
        ;
        assert((2 * (c * rest) == c * pow2(t)) == (2 * rest == pow2(t))) by (nonlinear_arith)
            requires
                c > 0,
        ;
    } else {
        let k = (-e) as nat;
        lemma_pow2_sum(k, s);
        lemma_bit_length_shift_down(p, k);
        assert(grid_shift(p / pow2(k)) == s);
        assert(pow2(k) * pow2(s) == pow2(t));
    }
}

/// Zero rounds to zero.
pub proof fn lemma_round_dyadic_zero(e: int)
    ensures
        round_dyadic(0, e) == 0,
{
    assert(bit_length(0) == 0);
    if e >= 0 {
        lemma_pow2_pos(e as nat);
        assert(0 * pow2(e as nat) == 0);
        assert(0nat / 1 == 0);
        assert(grid_shift(0) == 0);
        lemma2_to64();
        assert(0nat / (1 * pow2(0)) == 0);
        assert(0nat % (1 * pow2(0)) == 0);
    } else {
        let d = pow2((-e) as nat);
        lemma_pow2_pos((-e) as nat);
        lemma2_to64();
        assert(0nat / d == 0) by (nonlinear_arith)
            requires
                d > 0,
        ;
        assert(grid_shift(0) == 0);
        assert(d * pow2(0) == d);
        assert(0nat % d == 0) by (nonlinear_arith)
            requires
                d > 0,
        ;
    }
}

/// A significand with its hidden bit set, scaled by `2^s`: its bit length,
/// its grid, and when it is too large to be finite.
pub proof fn lemma_scaled_significand(m: nat, s: nat)
    requires
        HIDDEN <= m < 2 * HIDDEN,
    ensures
        bit_length(m * pow2(s)) == 53 + s,
        grid_shift(m * pow2(s)) == s,
        (m * pow2(s)) / pow2(s) == m,
        (m * pow2(s) >= pow2(LIMIT_EXP as nat)) == (s > 2045),
{
    lemma2_to64();
    lemma2_to64_rest();
    lemma_bit_length_unique(m, 53);
    lemma_bit_length_shift_up(m, s);
    lemma_pow2_pos(s);
    lemma_div_by_multiple(m as int, pow2(s) as int);
    let mag = m * pow2(s);
    if mag >= pow2(LIMIT_EXP as nat) {
        lemma_bit_length_gt(mag, LIMIT_EXP as nat);
    } else {
        lemma_bit_length_le(mag, LIMIT_EXP as nat);
    }
}

/// The pattern of the number with the given sign, significand and scale.
pub fn encode(negative: bool, m: u64, s: u64) -> (bits: u64)
    requires
        m <= 2 * HIDDEN,
        s > 0 ==> m >= HIDDEN,
        s <= 0xffff_ffff,
    ensures
        bits == pack(negative, m as nat * pow2(s as nat)),
{
    let sign: u64 = if negative {
        SIGN
    } else {
        0
    };
    proof {
        lemma2_to64();
        lemma2_to64_rest();
    }
    if m < HIDDEN {
        proof {
            assert(m as nat * pow2(0) == m);
            lemma_bit_length_le(m as nat, 52);
            assert(m as nat / pow2(0) == m);
            lemma_pow2_monotone(52, LIMIT_EXP as nat);
        }
        m + sign
    } else if m == 2 * HIDDEN {
        proof {
            lemma_scaled_significand(HIDDEN as nat, (s + 1) as nat);
            lemma_pow2_sum(1, s as nat);
            assert(m as nat * pow2(s as nat) == HIDDEN as nat * pow2((s + 1) as nat)) by (nonlinear_arith)
                requires
                    m == 2 * HIDDEN,
                    pow2((s + 1) as nat) == pow2(1) * pow2(s as nat),
                    pow2(1) == 2,
            ;
        }
        if s + 1 > 2045 {
            INFINITY_BITS + sign
        } else {
            (s + 2) * HIDDEN + sign
        }
    } else {
        proof {
            lemma_scaled_significand(m as nat, s as nat);
        }
        if s > 2045 {
            INFINITY_BITS + sign
        } else {
            (s + 1) * HIDDEN + (m - HIDDEN) + sign
        }
    }
}

/// The pattern of `p * 2^e`, rounded, with the given sign.
pub fn round_pack(negative: bool, p: u128, e: i64) -> (bits: u64)
    requires
        p < 0x4000_0000_0000_0000_0000_0000_0000_0000,
        -0x7fff_ffff <= e <= 0x7fff_ffff,
    ensures
        bits == pack(negative, round_dyadic(p as nat, e as int)),
{
    if p == 0 {
        proof {
            lemma_round_dyadic_zero(e as int);
            lemma2_to64();
            assert(0nat * pow2(0) == 0);
        }
        return encode(negative, 0, 0);
    }
    let len: i64 = bit_len(p) as i64;
    let top: i64 = len + e;
    let s: i64 = if top > 53 {
        top - 53
    } else {
        0
    };
    let t: i64 = s - e;
    proof {
        lemma_bit_length_bounds(p as nat);
        lemma2_to64();
        lemma2_to64_rest();
        lemma_pow2_adds(63, 63);
        lemma_bit_length_le(p as nat, 126);
    }
    if t <= 0 {
        // every digit of `p` stays: the significand is `p * 2^(-t)`
        let up: u64 = (-t) as u64;
        proof {
            lemma_round_dyadic_exact(p as nat, e as int);
            lemma_bit_length_shift_up(p as nat, up as nat);
            let sig = p as nat * pow2(up as nat);
            assert(bit_length(sig) == len + e - s);
            lemma_bit_length_bounds(sig);
            if s > 0 {
                assert(bit_length(sig) == 53);
            } else {
                lemma_pow2_monotone(bit_length(sig), 53);
            }
            lemma_pow2_monotone(up as nat, 53);
        }
        assert(up <= 53);
        let factor: u128 = pow2_u128(up);
        assert(p * factor < 0x20_0000_0000_0000);
        let m: u64 = (p * factor) as u64;
        encode(negative, m, s as u64)
    } else if t >= 127 {
        // `p` lies below half of the grid's first step
        proof {
            lemma_round_dyadic_inexact(p as nat, e as int);
            lemma_pow2_monotone(127, t as nat);
            lemma_pow2_unfold(127);
            let g = pow2(t as nat);
            assert(p < g);
            assert(p as nat / g == 0) by (nonlinear_arith)
                requires
                    p < g,
            ;
            assert(p as nat % g == p as nat) by (nonlinear_arith)
                requires
                    p < g,
            ;
            assert(2 * p < g);
            // the grid shift is zero: the top digit of `p * 2^e` lies below the unit
            assert(s == 0);
            assert(0nat * pow2(0) == 0);
        }
        encode(negative, 0, 0)
    } else {
        let g: u128 = pow2_u128(t as u64);
        let m: u128 = p / g;
        let rest: u128 = p % g;
        proof {
            lemma_round_dyadic_inexact(p as nat, e as int);
            lemma_bit_length_shift_down(p as nat, t as nat);
            lemma_pow2_monotone(t as nat, 126);
            if m > 0 {
                lemma_bit_length_bounds(m as nat);
            }
            if s > 0 {
                assert(bit_length(m as nat) == 53);
            } else {
                lemma_pow2_monotone(bit_length(m as nat), 53);
            }
        }
        assert(m < 0x20_0000_0000_0000);
        let round_up: bool = 2 * rest > g || (2 * rest == g && m % 2 == 1);
        let sig: u64 = if round_up {
            (m + 1) as u64
        } else {
            m as u64
        };
        encode(negative, sig, s as u64)
    }
}

/// A normal number rounds to itself.
pub proof fn lemma_round_normal(m: nat, s: nat)
    requires
        HIDDEN <= m < 2 * HIDDEN,
    ensures
        round_ratio(m * pow2(s), 1) == m * pow2(s),
{
    lemma2_to64();
    lemma2_to64_rest();
    lemma_bit_length_unique(m, 53);
    assert(dyadic_scale(m, s as int) == s);
    lemma_round_dyadic_exact(m, s as int);
}

/// The magnitude zero is packed as a zero.
pub proof fn lemma_pack_zero(negative: bool)
    ensures
        pack(negative, 0) == zero_bits(negative),
{
    lemma2_to64();
    lemma_pow2_pos(LIMIT_EXP as nat);
    assert(bit_length(0) == 0);
    assert(grid_shift(0) == 0);
    assert(0nat / pow2(0) == 0);
}

/// Nearness does not change when numerator and denominator grow by the
/// same factor.
pub proof fn lemma_nearest_scale(n: nat, g: nat, c: nat)
    requires
        g > 0,
        c > 0,
    ensures
        nearest(c * n, c * g) == nearest(n, g),
{
    lemma_div_multiples_vanish_quotient(c as int, n as int, g as int);
    lemma_truncate_middle(n as int, c as int, g as int);
    let r = n % g;
    assert((2 * (c * r) > c * g) == (2 * r > g)) by (nonlinear_arith)
        requires
            c > 0,
    ;
    assert((2 * (c * r) == c * g) == (2 * r == g)) by (nonlinear_arith)
        requires
            c > 0,
    ;
}

/// Rounding does not change when numerator and denominator grow by the same
/// factor.
pub proof fn lemma_round_ratio_scale(n: nat, d: nat, c: nat)
    requires
        d > 0,
        c > 0,
    ensures
        round_ratio(c * n, c * d) == round_ratio(n, d),
{
    lemma_div_multiples_vanish_quotient(c as int, n as int, d as int);
    let s = grid_shift(n / d);
    let w = pow2(s);
    lemma_pow2_pos(s);
    assert((c * d) * w == c * (d * w)) by (nonlinear_arith);
    assert(d * w > 0) by (nonlinear_arith)
        requires
            d > 0,
            w > 0,
    ;
    lemma_nearest_scale(n, d * w, c);
}

/// Two fractions of one value round alike.
pub proof fn lemma_round_ratio_same(n1: nat, d1: nat, n2: nat, d2: nat)
    requires
        d1 > 0,
        d2 > 0,
        n1 * d2 == n2 * d1,
    ensures
        round_ratio(n1, d1) == round_ratio(n2, d2),
{
    lemma_round_ratio_scale(n1, d1, d2);
    lemma_round_ratio_scale(n2, d2, d1);
    assert(d2 * n1 == d1 * n2) by (nonlinear_arith)
        requires
            n1 * d2 == n2 * d1,
    ;
    assert(d2 * d1 == d1 * d2) by (nonlinear_arith);
}

/// The fraction `n / d` lies strictly between `q * 2^e` and `(q + 1) * 2^e`.
pub open spec fn between(n: nat, d: nat, q: nat, e: int) -> bool {
    if e >= 0 {
        q * pow2(e as nat) * d < n && n < (q + 1) * pow2(e as nat) * d
    } else {
        q * d < n * pow2((-e) as nat) && n * pow2((-e) as nat) < (q + 1) * d
    }
}

/// A fraction strictly between `q / 2^t` and `(q + 1) / 2^t` has the same
/// nearest whole number as the point halfway between the two.
pub proof fn lemma_nearest_between(n: nat, g: nat, q: nat, t: nat)
    requires
        g > 0,
        t >= 1,
        q * g < n * pow2(t),
        n * pow2(t) < (q + 1) * g,
    ensures
        nearest(n, g) == nearest(2 * q + 1, pow2(t + 1)),
{
    let w = pow2(t);
    let h = pow2((t - 1) as nat);
    lemma_pow2_sum(1, (t - 1) as nat);
    lemma_pow2_sum(1, t);
    lemma2_to64();
    assert(w == 2 * h);
    assert(pow2(t + 1) == 2 * w);
    let m = q / w;
    let r = q % w;
    lemma_fundamental_div_mod(q as int, w as int);
    assert(q == w * m + r);
    // the whole part of n / g is m
    assert(m * g < n) by (nonlinear_arith)
        requires
            q * g < n * w,
            q == w * m + r,
            r >= 0,
            w > 0,
            g > 0,
    ;
    assert(n < (m + 1) * g) by (nonlinear_arith)
        requires
            n * w < (q + 1) * g,
            q == w * m + r,
            r < w,
            w > 0,
            g > 0,
    ;
    let rho = (n - m * g) as nat;
    assert(n == g * m + rho) by (nonlinear_arith)
        requires
            rho == n - m * g,
    ;
    assert(rho < g) by (nonlinear_arith)
        requires
            n < (m + 1) * g,
            rho == n - m * g,
    ;
    lemma_fundamental_div_mod_converse(n as int, g as int, m as int, rho as int);
    assert(n / g == m);
    assert(n % g == rho);
    // the whole part of (2q + 1) / 2^(t+1) is m
    assert(2 * q + 1 == (2 * w) * m + (2 * r + 1)) by (nonlinear_arith)
        requires
            q == w * m + r,
    ;
    lemma_fundamental_div_mod_converse(
        (2 * q + 1) as int,
        (2 * w) as int,
        m as int,
        (2 * r + 1) as int,
    );
    assert((2 * q + 1) / (2 * w) == m);
    assert((2 * q + 1) % (2 * w) == 2 * r + 1);
    // the rests fall on the same side of the half
    if 2 * r >= w {
        assert(2 * rho > g) by (nonlinear_arith)
            requires
                q * g < n * w,
                q == w * m + r,
                rho == n - m * g,
                2 * r >= w,
                w > 0,
                g > 0,
        ;
    } else {
        assert(2 * r + 2 <= w);
        assert(2 * rho < g) by (nonlinear_arith)
            requires
                n * w < (q + 1) * g,
                q == w * m + r,
                rho == n - m * g,
                2 * r + 2 <= w,
                w > 0,
                g > 0,
        ;
    }
}

/// The whole part of a fraction between `q * 2^e` and `(q + 1) * 2^e` has
/// the grid shift that `q` and `e` name.
proof fn lemma_between_grid(n: nat, d: nat, q: nat, e: int)
    requires
        d > 0,
        q > 0,
        between(n, d, q, e),
    ensures
        grid_shift(n / d) == dyadic_scale(q, e),
{
    let f = n / d;
    lemma_fundamental_div_mod(n as int, d as int);
    let r = n % d;
    lemma_bit_length_bounds(q);
    let b = bit_length(q);
    if e >= 0 {
        let w = pow2(e as nat);
        lemma_pow2_pos(e as nat);
        let lo = q * w;
        let hi = (q + 1) * w;
        assert(lo <= f) by (nonlinear_arith)
            requires
                lo * d < n,
                n == d * f + r,
                r < d,
        ;
        assert(f < hi) by (nonlinear_arith)
            requires
                n < hi * d,
                n == d * f + r,
                r >= 0,
                d > 0,
        ;
        lemma_pow2_sum((b - 1) as nat, e as nat);
        lemma_pow2_sum(b, e as nat);
        assert(pow2((b - 1) as nat) * w <= lo) by (nonlinear_arith)
            requires
                pow2((b - 1) as nat) <= q,
                lo == q * w,
                w > 0,
        ;
        assert(hi <= pow2(b) * w) by (nonlinear_arith)
            requires
                q + 1 <= pow2(b),
                hi == (q + 1) * w,
                w > 0,
        ;
        lemma_bit_length_unique(f, (b + e) as nat);
    } else {
        let k = (-e) as nat;
        let w = pow2(k);
        lemma_pow2_pos(k);
        let a = q / w;
        let x = q % w;
        lemma_fundamental_div_mod(q as int, w as int);
        assert(a * d < n) by (nonlinear_arith)
            requires
                q * d < n * w,
                q == w * a + x,
                x >= 0,
                w > 0,
                d > 0,
        ;
        assert(n < (a + 1) * d) by (nonlinear_arith)
            requires
                n * w < (q + 1) * d,
                q == w * a + x,
                x < w,
                w > 0,
                d > 0,
        ;
        assert(a <= f) by (nonlinear_arith)
            requires
                a * d < n,
                n == d * f + r,
                r < d,
        ;
        assert(f < a + 1) by (nonlinear_arith)
            requires
                n < (a + 1) * d,
                n == d * f + r,
                r >= 0,
                d > 0,
        ;
        lemma_bit_length_shift_down(q, k);
    }
}

/// A fraction strictly between `q * 2^e` and `(q + 1) * 2^e`, where `q` has
/// fifty-five digits or more, rounds as the point halfway between the two.
pub proof fn lemma_round_between(n: nat, d: nat, q: nat, e: int)
    requires
        d > 0,
        q >= pow2(54),
        between(n, d, q, e),
    ensures
        round_ratio(n, d) == round_dyadic(2 * q + 1, e - 1),
{
    lemma2_to64();
    lemma2_to64_rest();
    lemma_bit_length_gt(q, 54);
    lemma_between_grid(n, d, q, e);
    let b = bit_length(q);
    let s = dyadic_scale(q, e);
    let t = (s - e) as nat;
    assert(t >= 2);
    lemma_pow2_pos(s);
    lemma_pow2_pos(t);
    let g = d * pow2(s);
    assert(g > 0) by (nonlinear_arith)
        requires
            g == d * pow2(s),
            d > 0,
            pow2(s) > 0,
    ;
    // the sandwich at the grid
    if e >= 0 {
        lemma_pow2_sum(e as nat, t);
        let w = pow2(e as nat);
        let v = pow2(t);
        assert(q * g < n * v) by (nonlinear_arith)
            requires
                q * w * d < n,
                g == d * (w * v),
                v > 0,
        ;
        assert(n * v < (q + 1) * g) by (nonlinear_arith)
            requires
                n < (q + 1) * w * d,
                g == d * (w * v),
                v > 0,
        ;
    } else {
        let k = (-e) as nat;
        lemma_pow2_sum(k, s);
        let w = pow2(k);
        let v = pow2(s);
        assert(q * g < n * pow2(t)) by (nonlinear_arith)
            requires
                q * d < n * w,
                g == d * v,
                pow2(t) == w * v,
                v > 0,
        ;
        assert(n * pow2(t) < (q + 1) * g) by (nonlinear_arith)
            requires
                n * w < (q + 1) * d,
                g == d * v,
                pow2(t) == w * v,
                v > 0,
        ;
    }
    lemma_nearest_between(n, g, q, t);
    // the halfway point
    let p = 2 * q + 1;
    lemma_bit_length_bounds(q);
    lemma_pow2_unfold(b);
    lemma_pow2_unfold(b + 1);
    lemma_bit_length_unique(p, b + 1);
    assert(dyadic_scale(p, e - 1) == s);
    lemma_round_dyadic_inexact(p, e - 1);
}

/// The fraction zero rounds to zero.
pub proof fn lemma_round_ratio_zero(d: nat)
    requires
        d > 0,
    ensures
        round_ratio(0, d) == 0,
{
    lemma2_to64();
    assert(0nat / d == 0) by (nonlinear_arith)
        requires
            d > 0,
    ;
    assert(bit_length(0) == 0);
    assert(grid_shift(0nat / d) == 0);
    assert(d * pow2(0) == d);
    assert(0nat % d == 0) by (nonlinear_arith)
        requires
            d > 0,
    ;
    assert(nearest(0, d) == 0);
    assert(0nat * pow2(0) == 0);
}

} // verus!
