//! Constants, clamping, and the source of random numbers.

use vstd::prelude::*;
use vstd::arithmetic::power2::pow2;
use rand::rngs::StdRng;
use rand::{RngCore, SeedableRng};
use crate::number::Real;

verus! {

/// The pattern of the number nearest to pi.
pub const PI_BITS: u64 = 0x4009_21fb_5444_2d18;

/// The number nearest to pi.
pub fn pi() -> (r: Real)
    ensures
        r.bits == PI_BITS,
{
    Real::from_bits(PI_BITS)
}

/// An angle in degrees as radians: `degrees * pi / 180`, rounded after the
/// product and after the quotient.
pub open spec fn degrees_to_radians_spec(degrees: Real) -> Real {
    degrees.times(Real { bits: PI_BITS }).over(Real::of_int(180))
}

/// An angle in degrees as radians.
pub fn degrees_to_radians(degrees: Real) -> (r: Real)
    ensures
        r == degrees_to_radians_spec(degrees),
{
    degrees * pi() / Real::from_i64(180)
}

/// `x` held to `[min, max]`: `min` where `x < min`, else `max` where
/// `x > max`, else `x` itself, a NaN too.
pub open spec fn clamp_spec(x: Real, min: Real, max: Real) -> Real {
    if x.lt_spec(min) {
        min
    } else if max.lt_spec(x) {
        max
    } else {
        x
    }
}

/// `x` held to `[min, max]`.
pub fn clamp(x: Real, min: Real, max: Real) -> (r: Real)
    ensures
        r == clamp_spec(x, min, max),
{
    if x.lt(min) {
        return min;
    }
    if x.gt(max) {
        return max;
    }
    x
}

/// The first word that `rand`'s standard generator gives when it is seeded
/// with `seed`.
pub uninterp spec fn seeded_word(seed: u64) -> u64;

/// `rand`'s `StdRng::seed_from_u64` and, on the generator that it gives,
/// `RngCore::next_u64`: the first word of the standard generator seeded with
/// `seed`. The contract claims that this word depends on the seed alone:
/// `rand` documents its seeded generators as deterministic.
#[verifier::external_body]
fn first_word(seed: u64) -> (w: u64)
    ensures
        w == seeded_word(seed),
{
    StdRng::seed_from_u64(seed).next_u64()
}

/// A source of random words, one for each worker.
///
/// The source counts upwards from a state that its seed gives; each word is
/// the first word of `rand`'s standard generator seeded with the state that
/// the source is in. A source is plain data: two sources in one state give
/// the same words.
#[derive(Clone, Copy, Debug)]
pub struct RandomSource {
    pub state: u64,
}

/// The numbers that a draw from `[0, 1)` can give: the multiples of `2^-53`
/// below one.
pub open spec fn is_unit_sample(u: Real) -> bool {
    exists|k: nat| k < pow2(53) && u == #[trigger] Real::of_fraction(k)
}

impl RandomSource {
    /// The source that `seed` gives.
    pub open spec fn of_seed(seed: u64) -> RandomSource {
        RandomSource { state: seeded_word(seed) }
    }

    /// The word that the source gives next.
    pub open spec fn word_spec(self) -> u64 {
        seeded_word(self.state)
    }

    /// The source after it has given a word: its state is one more, or zero
    /// after the largest.
    pub open spec fn next(self) -> RandomSource {
        RandomSource {
            state: if self.state == u64::MAX {
                0
            } else {
                (self.state + 1) as u64
            },
        }
    }

    /// The source that `seed` gives.
    pub fn seeded(seed: u64) -> (source: RandomSource)
        ensures
            source == RandomSource::of_seed(seed),
    {
        RandomSource { state: first_word(seed) }
    }

    /// The next word of the source.
    pub fn word(&mut self) -> (w: u64)
        ensures
            w == old(self).word_spec(),
            *final(self) == old(self).next(),
    {
        let w = first_word(self.state);
        self.state = if self.state == u64::MAX {
            0
        } else {
            self.state + 1
        };
        w
    }
}

/// The number in `[0, 1)` that a random word stands for: its upper
/// fifty-three bits over `2^53`.
pub open spec fn unit_sample_of(word: u64) -> Real {
    Real::of_fraction((word / 2048) as nat)
}

/// The number in `[0, 1)` that a random word stands for.
pub fn unit_sample(word: u64) -> (u: Real)
    ensures
        u == unit_sample_of(word),
        is_unit_sample(u),
{
    proof {
        vstd::arithmetic::power2::lemma2_to64_rest();
    }
    Real::from_fraction(word / 2048)
}

/// What a draw from `[0, 1)` gives, and the source after it.
pub open spec fn draw_unit(source: RandomSource) -> (Real, RandomSource) {
    (unit_sample_of(source.word_spec()), source.next())
}

/// Every draw from `[0, 1)` is one of the numbers that such a draw can give.
pub proof fn lemma_draw_unit(source: RandomSource)
    ensures
        is_unit_sample(draw_unit(source).0),
{
    vstd::arithmetic::power2::lemma2_to64_rest();
    let k = (source.word_spec() / 2048) as nat;
    assert(k < pow2(53));
    assert(draw_unit(source).0 == Real::of_fraction(k));
}

/// A random number in `[0, 1)`.
pub fn random_double(source: &mut RandomSource) -> (u: Real)
    ensures
        (u, *final(source)) == draw_unit(*old(source)),
        is_unit_sample(u),
{
    unit_sample(source.word())
}

/// The point of `[min, max)` that the unit sample `u` names:
/// `min + (max - min) * u`.
pub open spec fn in_range(min: Real, max: Real, u: Real) -> Real {
    min.plus(max.minus(min).times(u))
}

/// The numbers that a draw from `[min, max)` can give.
pub open spec fn is_range_sample(x: Real, min: Real, max: Real) -> bool {
    exists|u: Real| is_unit_sample(u) && x == #[trigger] in_range(min, max, u)
}

/// What a draw from `[min, max)` gives, and the source after it.
pub open spec fn draw_range(source: RandomSource, min: Real, max: Real) -> (Real, RandomSource) {
    (in_range(min, max, draw_unit(source).0), draw_unit(source).1)
}

/// Every draw from `[min, max)` is one of the numbers that such a draw can
/// give.
pub proof fn lemma_draw_range(source: RandomSource, min: Real, max: Real)
    ensures
        is_range_sample(draw_range(source, min, max).0, min, max),
{
    lemma_draw_unit(source);
    let u = draw_unit(source).0;
    assert(draw_range(source, min, max).0 == in_range(min, max, u));
}

/// A random number in `[min, max)`.
pub fn random_double_range(source: &mut RandomSource, min: Real, max: Real) -> (r: Real)
    ensures
        (r, *final(source)) == draw_range(*old(source), min, max),
        is_range_sample(r, min, max),
{
    let u = random_double(source);
    let r = min + (max - min) * u;
    assert(r == in_range(min, max, u));
    r
}

} // verus!
