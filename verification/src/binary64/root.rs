//! Square root.

use vstd::prelude::*;
use vstd::arithmetic::power2::{pow2, lemma_pow2_pos, lemma_pow2_unfold, lemma2_to64, lemma2_to64_rest};
use vstd::arithmetic::div_mod::{lemma_fundamental_div_mod_converse, lemma_div_denominator};
use crate::binary64::power::{lemma_pow2_sum, lemma_bit_length_unique};
use crate::binary64::format::{NAN_BITS, is_negative, is_nan, is_infinite, is_finite, is_zero, magnitude, sign_of, nan_of, infinite_of, zero_of, parts_of, lemma_zero_magnitude};
use crate::binary64::round::{grid_shift, dyadic_scale, round_dyadic, pack, round_pack, lemma_round_dyadic_inexact};
use crate::binary64::quotient::normalise;

verus! {

/// `r` is the whole part of the square root of `n`.
pub open spec fn is_floor_sqrt(r: nat, n: nat) -> bool {
    r * r <= n && n < (r + 1) * (r + 1)
}

/// The whole part of the square root of `n`.
pub open spec fn floor_sqrt(n: nat) -> nat {
    choose|r: nat| is_floor_sqrt(r, n)
}

/// The multiple of the grid that lies nearest to the square root of `n`, the
/// grid being `2^s` where `s` is the grid shift of the root's whole part. The
/// root exceeds the point halfway between two multiples where four times `n`
/// exceeds the square of twice that point.
pub open spec fn round_sqrt(n: nat) -> nat {
    let s = grid_shift(floor_sqrt(n));
    let m = floor_sqrt(n) / pow2(s);
    let twice_mid = (2 * m + 1) * pow2(s);
    let up = 4 * n > twice_mid * twice_mid || (4 * n == twice_mid * twice_mid && m % 2 == 1);
    if up {
        (m + 1) * pow2(s)
    } else {
        m * pow2(s)
    }
}

/// The square root of a pattern.
///
/// A NaN and a negative number other than zero give the NaN; a zero and
/// positive infinity give themselves; a positive finite number gives its
/// exact root, rounded.
pub open spec fn sqrt_bits(a: u64) -> u64 {
    if is_nan(a) {
        NAN_BITS
    } else if is_zero(a) {
        a
    } else if is_negative(a) {
        NAN_BITS
    } else if is_infinite(a) {
        a
    } else {
        pack(false, round_sqrt(magnitude(a) * pow2(1074)))
    }
}

/// Every number has a whole root.
pub proof fn lemma_floor_sqrt_exists(n: nat)
    ensures
        is_floor_sqrt(floor_sqrt(n), n),
    decreases n,
{
    if n == 0 {
        assert(0nat * 0nat == 0 && (0nat + 1) * (0nat + 1) == 1) by (nonlinear_arith);
        assert(is_floor_sqrt(0, 0));
    } else {
        lemma_floor_sqrt_exists((n - 1) as nat);
        let r = floor_sqrt((n - 1) as nat);
        if n == (r + 1) * (r + 1) {
            assert(n < (r + 2) * (r + 2)) by (nonlinear_arith)
                requires
                    n == (r + 1) * (r + 1),
            ;
            assert(is_floor_sqrt(r + 1, n));
        } else {
            assert(is_floor_sqrt(r, n));
        }
    }
}

/// The whole root lies where the squares say.
pub proof fn lemma_floor_sqrt_bounds(n: nat, lo: nat, hi: nat)
    requires
        lo * lo <= n,
        n < hi * hi,
    ensures
        lo <= floor_sqrt(n) < hi,
{
    lemma_floor_sqrt_exists(n);
    let f = floor_sqrt(n);
    if f < lo {
        assert((f + 1) * (f + 1) <= lo * lo) by (nonlinear_arith)
            requires
                f + 1 <= lo,
        ;
    }
    if f >= hi {
        assert(hi * hi <= f * f) by (nonlinear_arith)
            requires
                hi <= f,
        ;
    }
}

/// The root of `big * 4^h`, as rounding sees it, from the whole root `r` of
/// `big`, which has fifty-six digits.
pub proof fn lemma_round_root(big: nat, h: nat, r: nat)
    requires
        pow2(55) <= r < pow2(56),
        is_floor_sqrt(r, big),
    ensures
        round_sqrt(big * pow2(2 * h)) == (if r * r == big {
            round_dyadic(r, h as int)
        } else {
            round_dyadic(2 * r + 1, h - 1)
        }),
{
    lemma2_to64();
    lemma2_to64_rest();
    let w = pow2(h);
    lemma_pow2_pos(h);
    lemma_pow2_sum(h, h);
    let n = big * pow2(2 * h);
    assert(pow2(2 * h) == w * w);
    let lo = r * w;
    let hi = (r + 1) * w;
    assert(lo * lo <= n) by (nonlinear_arith)
        requires
            r * r <= big,
            n == big * (w * w),
            lo == r * w,
    ;
    assert(n < hi * hi) by (nonlinear_arith)
        requires
            big < (r + 1) * (r + 1),
            n == big * (w * w),
            hi == (r + 1) * w,
            w > 0,
    ;
    lemma_floor_sqrt_bounds(n, lo, hi);
    let f = floor_sqrt(n);
    // the grid
    lemma_pow2_sum(55, h);
    lemma_pow2_sum(56, h);
    assert(pow2(55) * w <= lo) by (nonlinear_arith)
        requires
            pow2(55) <= r,
            lo == r * w,
            w > 0,
    ;
    assert(hi <= pow2(56) * w) by (nonlinear_arith)
        requires
            r + 1 <= pow2(56),
            hi == (r + 1) * w,
            w > 0,
    ;
    lemma_bit_length_unique(f, 56 + h);
    let s = 3 + h;
    assert(grid_shift(f) == s);
    lemma_pow2_sum(h, 3);
    assert(pow2(s) == w * 8);
    // the whole part at the grid
    let x = (f - lo) as nat;
    assert(f == w * r + x) by (nonlinear_arith)
        requires
            x == f - lo,
            lo == r * w,
    ;
    assert(x < w) by (nonlinear_arith)
        requires
            x == f - lo,
            f < hi,
            lo == r * w,
            hi == (r + 1) * w,
    ;
    lemma_fundamental_div_mod_converse(f as int, w as int, r as int, x as int);
    lemma_div_denominator(f as int, w as int, 8);
    let m = r / 8;
    let rest = r % 8;
    assert(f / pow2(s) == m);
    let c = 8 * m + 4;
    let twice_mid = (2 * m + 1) * pow2(s);
    assert(twice_mid * twice_mid == 4 * ((c * c) * (w * w))) by (nonlinear_arith)
        requires
            twice_mid == (2 * m + 1) * (w * 8),
            c == 8 * m + 4,
    ;
    assert((4 * n > twice_mid * twice_mid) == (big > c * c)) by (nonlinear_arith)
        requires
            n == big * (w * w),
            twice_mid * twice_mid == 4 * ((c * c) * (w * w)),
            w > 0,
    ;
    assert((4 * n == twice_mid * twice_mid) == (big == c * c)) by (nonlinear_arith)
        requires
            n == big * (w * w),
            twice_mid * twice_mid == 4 * ((c * c) * (w * w)),
            w > 0,
    ;
    lemma_bit_length_unique(r, 56);
    if r * r == big {
        assert(dyadic_scale(r, h as int) == s);
        lemma_round_dyadic_inexact(r, h as int);
        assert(pow2(3) == 8);
        assert((big > c * c) == (rest > 4)) by (nonlinear_arith)
            requires
                big == r * r,
                r == 8 * m + rest,
                c == 8 * m + 4,
        ;
        assert((big == c * c) == (rest == 4)) by (nonlinear_arith)
            requires
                big == r * r,
                r == 8 * m + rest,
                c == 8 * m + 4,
        ;
    } else {
        let p = 2 * r + 1;
        lemma_pow2_unfold(56);
        lemma_pow2_unfold(57);
        lemma_bit_length_unique(p, 57);
        assert(dyadic_scale(p, h - 1) == s);
        lemma_round_dyadic_inexact(p, h - 1);
        assert(pow2(4) == 16);
        assert(p == 16 * m + (2 * rest + 1));
        lemma_fundamental_div_mod_converse(p as int, 16, m as int, (2 * rest + 1) as int);
        if rest >= 4 {
            assert(big > c * c) by (nonlinear_arith)
                requires
                    big > r * r,
                    r >= c,
                    c >= 0,
            ;
        } else {
            assert(big < c * c) by (nonlinear_arith)
                requires
                    big < (r + 1) * (r + 1),
                    r + 1 <= c,
            ;
        }
    }
}

/// The whole part of the square root of a number below `2^112`.
pub fn whole_root(big: u128) -> (r: u128)
    requires
        big < 0x1_0000_0000_0000_0000_0000_0000_0000,
    ensures
        is_floor_sqrt(r as nat, big as nat),
        r < 0x100_0000_0000_0000,
{
    let mut r: u128 = 0;
    let mut span: u128 = 0x100_0000_0000_0000;
    let ghost mut k: nat = 56;
    proof {
        lemma2_to64();
        lemma2_to64_rest();
    }
    while span > 1
        invariant
            span == pow2(k),
            k <= 56,
            r + span <= 0x100_0000_0000_0000,
            r * r <= big,
            big < (r + span) * (r + span),
        decreases span,
    {
        proof {
            lemma2_to64();
            assert(k > 0);
            lemma_pow2_unfold(k);
            lemma_pow2_pos((k - 1) as nat);
            k = (k - 1) as nat;
        }
        let half: u128 = span / 2;
        let cand: u128 = r + half;
        assert(cand * cand <= 0x100_0000_0000_0000 * 0x100_0000_0000_0000) by (nonlinear_arith)
            requires
                cand <= 0x100_0000_0000_0000,
        ;
        if cand * cand <= big {
            r = cand;
        }
        span = half;
    }
    r
}

/// The square root of a finite pattern above zero.
fn sqrt_finite(a: u64) -> (r: u64)
    requires
        is_finite(a),
        !is_zero(a),
    ensures
        r == pack(false, round_sqrt(magnitude(a) * pow2(1074))),
{
    let (ma, ea) = parts_of(a);
    proof {
        lemma2_to64();
        lemma2_to64_rest();
        lemma_zero_magnitude(a);
    }
    let (na, za) = normalise(ma);
    // the magnitude times 2^1074 is `na * 2^full`
    let full: u64 = ea + 1074 - za;
    let c: u64 = if full % 2 == 0 {
        58
    } else {
        59
    };
    let h: u64 = (full - c) / 2;
    let factor: u128 = if c == 58 {
        0x400_0000_0000_0000
    } else {
        0x800_0000_0000_0000
    };
    assert(factor == pow2(c as nat));
    assert(0x10_0000_0000_0000 * 0x400_0000_0000_0000 <= na * factor
        < 0x1_0000_0000_0000_0000_0000_0000_0000) by (nonlinear_arith)
        requires
            0x10_0000_0000_0000 <= na < 0x20_0000_0000_0000,
            0x400_0000_0000_0000 <= factor <= 0x800_0000_0000_0000,
    ;
    let big: u128 = (na as u128) * factor;
    let root: u128 = whole_root(big);
    proof {
        let n = magnitude(a) * pow2(1074);
        lemma_pow2_sum(ea as nat, 1074);
        lemma_pow2_sum(za as nat, full as nat);
        lemma_pow2_sum(c as nat, (2 * h) as nat);
        assert(n * pow2(za as nat) == (na as nat * pow2(c as nat)) * pow2((2 * h) as nat) * pow2(
            za as nat,
        )) by (nonlinear_arith)
            requires
                n == (ma as nat * pow2(ea as nat)) * pow2(1074),
                pow2(ea as nat) * pow2(1074) == pow2(za as nat) * pow2(full as nat),
                pow2(full as nat) == pow2(c as nat) * pow2((2 * h) as nat),
                na as nat == ma as nat * pow2(za as nat),
        ;
        lemma_pow2_pos(za as nat);
        assert(n == big as nat * pow2((2 * h) as nat)) by (nonlinear_arith)
            requires
                n * pow2(za as nat) == (big as nat * pow2((2 * h) as nat)) * pow2(za as nat),
                pow2(za as nat) > 0,
        ;
        // the root has fifty-six digits
        assert(root >= 0x80_0000_0000_0000) by (nonlinear_arith)
            requires
                big < (root + 1) * (root + 1),
                big >= 0x10_0000_0000_0000 * 0x400_0000_0000_0000,
        ;
        lemma_round_root(big as nat, h as nat, root as nat);
    }
    if root * root == big {
        round_pack(false, root, h as i64)
    } else {
        round_pack(false, 2 * root + 1, (h as i64) - 1)
    }
}

/// The square root of a pattern.
pub fn sqrt(a: u64) -> (r: u64)
    ensures
        r == sqrt_bits(a),
{
    if nan_of(a) {
        NAN_BITS
    } else if zero_of(a) {
        a
    } else if sign_of(a) {
        NAN_BITS
    } else if infinite_of(a) {
        a
    } else {
        sqrt_finite(a)
    }
}

} // verus!
