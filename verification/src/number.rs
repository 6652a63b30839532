//! Real numbers as the path tracer computes with them: IEEE 754 binary64
//! values, each held as its 64-bit pattern.

use vstd::prelude::*;
use crate::binary64::format::{is_nan, is_finite, value, neg_bits, abs_bits, INFINITY_BITS};
use crate::binary64::sum::{add_bits, sub_bits};
use crate::binary64::product::mul_bits;
use crate::binary64::quotient::div_bits;
use crate::binary64::root::sqrt_bits;
use crate::binary64::order::{lt_bits, le_bits, eq_bits};
use crate::binary64::convert::{from_int_bits, fraction_bits, to_byte_bits};

verus! {

/// A binary64 number, held as its bit pattern.
///
/// A finite number is a whole multiple of `2^-1074`; `value` is that
/// multiple. Arithmetic gives the exact result rounded to the nearest
/// number, the even one of two equally near.
#[derive(Clone, Copy, Debug)]
pub struct Real {
    pub bits: u64,
}

impl Real {
    /// Not a number.
    pub open spec fn is_nan_spec(self) -> bool {
        is_nan(self.bits)
    }

    /// Zero, subnormal or normal.
    pub open spec fn is_finite_spec(self) -> bool {
        is_finite(self.bits)
    }

    /// The number in units of `2^-1074`; an infinity counts `2^2098` units.
    pub open spec fn value(self) -> int {
        value(self.bits)
    }

    /// The number nearest to the whole number `n`.
    #[verifier::opaque]
    pub open spec fn of_int(n: int) -> Real {
        Real { bits: from_int_bits(n) }
    }

    /// The number nearest to the fraction `n / d`.
    pub open spec fn of_ratio(n: int, d: int) -> Real {
        Real::of_int(n).over(Real::of_int(d))
    }

    /// The sum, rounded.
    #[verifier::opaque]
    pub open spec fn plus(self, rhs: Real) -> Real {
        Real { bits: add_bits(self.bits, rhs.bits) }
    }

    /// The difference, rounded.
    #[verifier::opaque]
    pub open spec fn minus(self, rhs: Real) -> Real {
        Real { bits: sub_bits(self.bits, rhs.bits) }
    }

    /// The product, rounded.
    #[verifier::opaque]
    pub open spec fn times(self, rhs: Real) -> Real {
        Real { bits: mul_bits(self.bits, rhs.bits) }
    }

    /// The quotient, rounded.
    #[verifier::opaque]
    pub open spec fn over(self, rhs: Real) -> Real {
        Real { bits: div_bits(self.bits, rhs.bits) }
    }

    /// The number with its sign flipped.
    #[verifier::opaque]
    pub open spec fn negated(self) -> Real {
        Real { bits: neg_bits(self.bits) }
    }

    /// `self == other` as numbers: neither is a NaN and the values agree, so
    /// the two zeros are equal.
    #[verifier::opaque]
    pub open spec fn same(self, other: Real) -> bool {
        eq_bits(self.bits, other.bits)
    }

    /// Both stand for one number, the two zeros being one, or both are NaNs.
    pub open spec fn alike(self, other: Real) -> bool {
        crate::binary64::laws::alike(self.bits, other.bits)
    }

    /// The square root, rounded; a NaN for a negative number other than zero.
    #[verifier::opaque]
    pub open spec fn sqrt_spec(self) -> Real {
        Real { bits: sqrt_bits(self.bits) }
    }

    /// The number with its sign cleared.
    #[verifier::opaque]
    pub open spec fn abs_spec(self) -> Real {
        Real { bits: abs_bits(self.bits) }
    }

    /// `self < other`; false where either is a NaN.
    #[verifier::opaque]
    pub open spec fn lt_spec(self, other: Real) -> bool {
        lt_bits(self.bits, other.bits)
    }

    /// `self <= other`; false where either is a NaN.
    #[verifier::opaque]
    pub open spec fn le_spec(self, other: Real) -> bool {
        le_bits(self.bits, other.bits)
    }

    /// The smaller of two numbers; `self` where they are equal or `other` is
    /// a NaN, `other` where only `self` is a NaN.
    pub open spec fn min_spec(self, other: Real) -> Real {
        if self.lt_spec(other) || other.is_nan_spec() || self.same(other) {
            self
        } else {
            other
        }
    }

    /// The fifth power, multiplied out as `x * ((x * x) * (x * x))`.
    pub open spec fn fifth_power_spec(self) -> Real {
        let square = self.times(self);
        self.times(square.times(square))
    }

    /// The whole part, held to the range of a byte: zero for a NaN and for
    /// every negative number, 255 for 255 and all above.
    #[verifier::opaque]
    pub open spec fn to_byte_spec(self) -> u8 {
        to_byte_bits(self.bits)
    }

    /// The number `k / 2^53`.
    #[verifier::opaque]
    pub open spec fn of_fraction(k: nat) -> Real {
        Real { bits: fraction_bits(k) }
    }

    /// The number of the pattern `bits`.
    pub fn from_bits(bits: u64) -> (r: Real)
        ensures
            r.bits == bits,
    {
        Real { bits }
    }

    /// The pattern of the number.
    pub fn to_bits(self) -> (bits: u64)
        ensures
            bits == self.bits,
    {
        self.bits
    }

    /// The number nearest to `n`.
    pub fn from_i64(n: i64) -> (r: Real)
        ensures
            r == Real::of_int(n as int),
    {
        proof {
            reveal(Real::of_int);
        }
        Real { bits: crate::binary64::convert::from_i64(n) }
    }

    /// The number nearest to `n / d`: zero over zero is a NaN, anything else
    /// over zero an infinity.
    pub fn from_ratio(n: i64, d: i64) -> (r: Real)
        ensures
            r == Real::of_ratio(n as int, d as int),
    {
        Real::from_i64(n) / Real::from_i64(d)
    }

    /// The number `k / 2^53`.
    pub fn from_fraction(k: u64) -> (r: Real)
        ensures
            r == Real::of_fraction(k as nat),
    {
        proof {
            reveal(Real::of_fraction);
        }
        Real { bits: crate::binary64::convert::from_fraction(k) }
    }

    /// Positive infinity.
    pub fn infinity() -> (r: Real)
        ensures
            r.bits == INFINITY_BITS,
    {
        Real { bits: INFINITY_BITS }
    }

    /// Whether this is no number.
    pub fn is_nan(self) -> (r: bool)
        ensures
            r == self.is_nan_spec(),
    {
        crate::binary64::format::nan_of(self.bits)
    }

    /// Whether this is neither an infinity nor a NaN.
    pub fn is_finite(self) -> (r: bool)
        ensures
            r == self.is_finite_spec(),
    {
        crate::binary64::format::exp_of(self.bits) < 2047
    }

    /// The square root.
    pub fn sqrt(self) -> (r: Real)
        ensures
            r == self.sqrt_spec(),
    {
        proof {
            reveal(Real::sqrt_spec);
        }
        Real { bits: crate::binary64::root::sqrt(self.bits) }
    }

    /// The absolute value.
    pub fn abs(self) -> (r: Real)
        ensures
            r == self.abs_spec(),
    {
        proof {
            reveal(Real::abs_spec);
        }
        Real { bits: crate::binary64::order::abs(self.bits) }
    }

    /// `self < other`.
    pub fn lt(self, other: Real) -> (r: bool)
        ensures
            r == self.lt_spec(other),
    {
        proof {
            reveal(Real::lt_spec);
        }
        crate::binary64::order::lt(self.bits, other.bits)
    }

    /// `self <= other`.
    pub fn le(self, other: Real) -> (r: bool)
        ensures
            r == self.le_spec(other),
    {
        proof {
            reveal(Real::le_spec);
        }
        crate::binary64::order::le(self.bits, other.bits)
    }

    /// `self > other`.
    pub fn gt(self, other: Real) -> (r: bool)
        ensures
            r == other.lt_spec(self),
    {
        proof {
            reveal(Real::lt_spec);
        }
        crate::binary64::order::lt(other.bits, self.bits)
    }

    /// `self >= other`.
    pub fn ge(self, other: Real) -> (r: bool)
        ensures
            r == other.le_spec(self),
    {
        proof {
            reveal(Real::le_spec);
        }
        crate::binary64::order::le(other.bits, self.bits)
    }

    /// The smaller of two numbers.
    pub fn min(self, other: Real) -> (r: Real)
        ensures
            r == self.min_spec(other),
    {
        if self.lt(other) || other.is_nan() || self == other {
            self
        } else {
            other
        }
    }

    /// The fifth power.
    pub fn fifth_power(self) -> (r: Real)
        ensures
            r == self.fifth_power_spec(),
    {
        let square = self * self;
        self * (square * square)
    }

    /// The whole part, held to `0..=255`, as a cast to a byte gives it.
    pub fn to_byte(self) -> (r: u8)
        ensures
            r == self.to_byte_spec(),
    {
        proof {
            reveal(Real::to_byte_spec);
        }
        crate::binary64::convert::to_byte(self.bits)
    }
}

impl PartialEq for Real {
    fn eq(&self, other: &Real) -> (r: bool) {
        proof {
            reveal(Real::same);
        }
        crate::binary64::order::eq(self.bits, other.bits)
    }
}

impl vstd::std_specs::cmp::PartialEqSpecImpl for Real {
    open spec fn obeys_eq_spec() -> bool {
        true
    }

    open spec fn eq_spec(&self, other: &Real) -> bool {
        self.same(*other)
    }
}

impl core::ops::Add for Real {
    type Output = Real;

    fn add(self, rhs: Real) -> (r: Real) {
        proof {
            reveal(Real::plus);
        }
        Real { bits: crate::binary64::sum::add(self.bits, rhs.bits) }
    }
}

impl vstd::std_specs::ops::AddSpecImpl for Real {
    open spec fn obeys_add_spec() -> bool {
        true
    }

    open spec fn add_req(self, rhs: Real) -> bool {
        true
    }

    open spec fn add_spec(self, rhs: Real) -> Real {
        self.plus(rhs)
    }
}

impl core::ops::Sub for Real {
    type Output = Real;

    fn sub(self, rhs: Real) -> (r: Real) {
        proof {
            reveal(Real::minus);
        }
        Real { bits: crate::binary64::sum::sub(self.bits, rhs.bits) }
    }
}

impl vstd::std_specs::ops::SubSpecImpl for Real {
    open spec fn obeys_sub_spec() -> bool {
        true
    }

    open spec fn sub_req(self, rhs: Real) -> bool {
        true
    }

    open spec fn sub_spec(self, rhs: Real) -> Real {
        self.minus(rhs)
    }
}

impl core::ops::Mul for Real {
    type Output = Real;

    fn mul(self, rhs: Real) -> (r: Real) {
        proof {
            reveal(Real::times);
        }
        Real { bits: crate::binary64::product::mul(self.bits, rhs.bits) }
    }
}

impl vstd::std_specs::ops::MulSpecImpl for Real {
    open spec fn obeys_mul_spec() -> bool {
        true
    }

    open spec fn mul_req(self, rhs: Real) -> bool {
        true
    }

    open spec fn mul_spec(self, rhs: Real) -> Real {
        self.times(rhs)
    }
}

impl core::ops::Div for Real {
    type Output = Real;

    fn div(self, rhs: Real) -> (r: Real) {
        proof {
            reveal(Real::over);
        }
        Real { bits: crate::binary64::quotient::div(self.bits, rhs.bits) }
    }
}

impl vstd::std_specs::ops::DivSpecImpl for Real {
    open spec fn obeys_div_spec() -> bool {
        true
    }

    open spec fn div_req(self, rhs: Real) -> bool {
        true
    }

    open spec fn div_spec(self, rhs: Real) -> Real {
        self.over(rhs)
    }
}

impl core::ops::Neg for Real {
    type Output = Real;

    fn neg(self) -> (r: Real) {
        proof {
            reveal(Real::negated);
        }
        Real { bits: crate::binary64::sum::neg(self.bits) }
    }
}

impl vstd::std_specs::ops::NegSpecImpl for Real {
    open spec fn obeys_neg_spec() -> bool {
        true
    }

    open spec fn neg_req(self) -> bool {
        true
    }

    open spec fn neg_spec(self) -> Real {
        self.negated()
    }
}

} // verus!
