//! The binary64 encoding: how a 64-bit pattern names a number.
//!
//! Every finite binary64 number is a whole multiple of `2^-1074`. The
//! magnitude of a pattern is that multiple, so the finite numbers are read
//! as integers and their arithmetic is stated over `int`.

use vstd::prelude::*;
use vstd::arithmetic::power2::pow2;

verus! {

/// `2^52`: the weight of the hidden bit of a significand.
pub const HIDDEN: u64 = 0x10_0000_0000_0000;

/// `2^63`: the sign bit.
pub const SIGN: u64 = 0x8000_0000_0000_0000;

/// The pattern of positive infinity.
pub const INFINITY_BITS: u64 = 0x7ff0_0000_0000_0000;

/// The one NaN pattern that the arithmetic produces.
pub const NAN_BITS: u64 = 0x7ff8_0000_0000_0000;

/// The pattern of negative zero.
pub const NEG_ZERO_BITS: u64 = 0x8000_0000_0000_0000;

/// The exponent above which a magnitude is too large to be finite: a finite
/// magnitude is below `2^2098`.
pub const LIMIT_EXP: u64 = 2098;

/// The sign bit is set.
pub open spec fn is_negative(bits: u64) -> bool {
    bits >= SIGN
}

/// The eleven exponent bits.
pub open spec fn exp_field(bits: u64) -> nat {
    ((bits / HIDDEN) % 2048) as nat
}

/// The fifty-two fraction bits.
pub open spec fn frac_field(bits: u64) -> nat {
    (bits % HIDDEN) as nat
}

/// The exponent bits are all set and the fraction is not zero.
pub open spec fn is_nan(bits: u64) -> bool {
    exp_field(bits) == 2047 && frac_field(bits) != 0
}

/// The exponent bits are all set and the fraction is zero.
pub open spec fn is_infinite(bits: u64) -> bool {
    exp_field(bits) == 2047 && frac_field(bits) == 0
}

/// Zero, subnormal or normal.
pub open spec fn is_finite(bits: u64) -> bool {
    exp_field(bits) < 2047
}

/// The integer significand of a finite pattern, below `2^53`.
pub open spec fn significand(bits: u64) -> nat {
    if exp_field(bits) == 0 {
        frac_field(bits)
    } else {
        frac_field(bits) + HIDDEN as nat
    }
}

/// The power of two by which the significand of a finite pattern is scaled,
/// counted from `2^-1074`.
pub open spec fn scale(bits: u64) -> nat {
    if exp_field(bits) == 0 {
        0
    } else {
        (exp_field(bits) - 1) as nat
    }
}

/// The absolute value of a finite pattern in units of `2^-1074`.
pub open spec fn magnitude(bits: u64) -> nat {
    significand(bits) * pow2(scale(bits))
}

/// The value of a finite pattern in units of `2^-1074`.
pub open spec fn value(bits: u64) -> int {
    if is_negative(bits) {
        -(magnitude(bits) as int)
    } else {
        magnitude(bits) as int
    }
}

/// The pattern with the sign bit cleared.
pub open spec fn abs_bits(bits: u64) -> u64 {
    if bits >= SIGN {
        (bits - SIGN) as u64
    } else {
        bits
    }
}

/// The pattern with the sign bit flipped.
pub open spec fn neg_bits(bits: u64) -> u64 {
    if bits >= SIGN {
        (bits - SIGN) as u64
    } else {
        (bits + SIGN) as u64
    }
}

/// The pattern of a zero with the given sign.
pub open spec fn zero_bits(negative: bool) -> u64 {
    if negative {
        NEG_ZERO_BITS
    } else {
        0
    }
}

/// The pattern of an infinity with the given sign.
pub open spec fn infinity_bits(negative: bool) -> u64 {
    if negative {
        (INFINITY_BITS + SIGN) as u64
    } else {
        INFINITY_BITS
    }
}

/// The sign bit of a pattern.
pub fn sign_of(bits: u64) -> (negative: bool)
    ensures
        negative == is_negative(bits),
{
    bits >= SIGN
}

/// The exponent bits of a pattern.
pub fn exp_of(bits: u64) -> (e: u64)
    ensures
        e == exp_field(bits),
        e < 2048,
{
    (bits / HIDDEN) % 2048
}

/// The fraction bits of a pattern.
pub fn frac_of(bits: u64) -> (f: u64)
    ensures
        f == frac_field(bits),
        f < HIDDEN,
{
    bits % HIDDEN
}

/// Whether a pattern is a NaN.
pub fn nan_of(bits: u64) -> (r: bool)
    ensures
        r == is_nan(bits),
{
    exp_of(bits) == 2047 && frac_of(bits) != 0
}

/// Whether a pattern is an infinity.
pub fn infinite_of(bits: u64) -> (r: bool)
    ensures
        r == is_infinite(bits),
{
    exp_of(bits) == 2047 && frac_of(bits) == 0
}

/// Significand and scale of a finite pattern.
pub fn parts_of(bits: u64) -> (r: (u64, u64))
    requires
        is_finite(bits),
    ensures
        r.0 == significand(bits),
        r.1 == scale(bits),
        r.0 < 2 * HIDDEN,
        r.1 <= 2045,
        r.1 > 0 ==> r.0 >= HIDDEN,
        magnitude(bits) == r.0 as nat * pow2(r.1 as nat),
{
    let e = exp_of(bits);
    let f = frac_of(bits);
    if e == 0 {
        (f, 0)
    } else {
        (f + HIDDEN, e - 1)
    }
}

/// Positive or negative zero.
pub open spec fn is_zero(bits: u64) -> bool {
    bits == 0 || bits == NEG_ZERO_BITS
}

/// Whether a pattern is a zero.
pub fn zero_of(bits: u64) -> (r: bool)
    ensures
        r == is_zero(bits),
{
    bits == 0 || bits == NEG_ZERO_BITS
}

/// Among the finite patterns the zeros are those of magnitude zero.
pub proof fn lemma_zero_magnitude(bits: u64)
    requires
        is_finite(bits),
    ensures
        is_zero(bits) <==> magnitude(bits) == 0,
        is_zero(bits) <==> significand(bits) == 0,
{
    vstd::arithmetic::power2::lemma_pow2_pos(scale(bits));
    let m = significand(bits);
    let w = pow2(scale(bits));
    assert((m * w == 0) == (m == 0)) by (nonlinear_arith)
        requires
            w > 0,
            m >= 0,
    ;
    assert(is_zero(bits) <==> (exp_field(bits) == 0 && frac_field(bits) == 0)) by {
        if bits >= SIGN {
            let low = (bits - SIGN) as u64;
            assert(bits / HIDDEN == low / HIDDEN + 2048);
            assert(bits % HIDDEN == low % HIDDEN);
        }
    }
}

} // verus!
