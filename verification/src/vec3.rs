//! Three-component vectors: points, directions and colours.

use vstd::prelude::*;
use core::ops::Neg;
use crate::number::Real;
use crate::utils::{RandomSource, is_unit_sample, is_range_sample, draw_unit, draw_range, random_double, random_double_range, lemma_draw_range};

verus! {

/// A triple of numbers, used as a point, as a displacement and as a colour.
#[derive(Clone, Copy, Debug)]
pub struct Vec3(pub Real, pub Real, pub Real);

/// A colour: red, green and blue in linear light, not held to a range.
pub type Color = Vec3;

/// A position.
pub type Point3 = Vec3;

impl Vec3 {
    /// Component by component.
    pub open spec fn plus(self, rhs: Vec3) -> Vec3 {
        Vec3(self.0.plus(rhs.0), self.1.plus(rhs.1), self.2.plus(rhs.2))
    }

    /// Component by component.
    pub open spec fn minus(self, rhs: Vec3) -> Vec3 {
        Vec3(self.0.minus(rhs.0), self.1.minus(rhs.1), self.2.minus(rhs.2))
    }

    /// Component by component.
    pub open spec fn times(self, rhs: Vec3) -> Vec3 {
        Vec3(self.0.times(rhs.0), self.1.times(rhs.1), self.2.times(rhs.2))
    }

    /// Component by component.
    pub open spec fn over(self, rhs: Vec3) -> Vec3 {
        Vec3(self.0.over(rhs.0), self.1.over(rhs.1), self.2.over(rhs.2))
    }

    /// Each component with its sign flipped.
    pub open spec fn negated(self) -> Vec3 {
        Vec3(self.0.negated(), self.1.negated(), self.2.negated())
    }

    /// The vector of three equal components.
    pub open spec fn splat(k: Real) -> Vec3 {
        Vec3(k, k, k)
    }

    /// Component by component the same number, or both NaNs.
    pub open spec fn alike(self, other: Vec3) -> bool {
        self.0.alike(other.0) && self.1.alike(other.1) && self.2.alike(other.2)
    }

    /// No component is a NaN or an infinity.
    pub open spec fn is_finite_spec(self) -> bool {
        self.0.is_finite_spec() && self.1.is_finite_spec() && self.2.is_finite_spec()
    }

    /// Equal as numbers, component by component.
    pub open spec fn same(self, other: Vec3) -> bool {
        self.0.same(other.0) && self.1.same(other.1) && self.2.same(other.2)
    }
}

impl PartialEq for Vec3 {
    fn eq(&self, other: &Vec3) -> (r: bool) {
        self.0 == other.0 && self.1 == other.1 && self.2 == other.2
    }
}

impl vstd::std_specs::cmp::PartialEqSpecImpl for Vec3 {
    open spec fn obeys_eq_spec() -> bool {
        true
    }

    open spec fn eq_spec(&self, other: &Vec3) -> bool {
        self.same(*other)
    }
}

impl core::ops::Neg for Vec3 {
    type Output = Vec3;

    fn neg(self) -> (r: Vec3) {
        Vec3(self.0.neg(), self.1.neg(), self.2.neg())
    }
}

impl vstd::std_specs::ops::NegSpecImpl for Vec3 {
    open spec fn obeys_neg_spec() -> bool {
        true
    }

    open spec fn neg_req(self) -> bool {
        true
    }

    open spec fn neg_spec(self) -> Vec3 {
        self.negated()
    }
}

impl core::ops::Add for Vec3 {
    type Output = Vec3;

    fn add(self, rhs: Vec3) -> (r: Vec3) {
        Vec3(self.0 + rhs.0, self.1 + rhs.1, self.2 + rhs.2)
    }
}

impl vstd::std_specs::ops::AddSpecImpl for Vec3 {
    open spec fn obeys_add_spec() -> bool {
        true
    }

    open spec fn add_req(self, rhs: Vec3) -> bool {
        true
    }

    open spec fn add_spec(self, rhs: Vec3) -> Vec3 {
        self.plus(rhs)
    }
}

impl core::ops::Add<Real> for Vec3 {
    type Output = Vec3;

    fn add(self, rhs: Real) -> (r: Vec3) {
        Vec3(self.0 + rhs, self.1 + rhs, self.2 + rhs)
    }
}

impl vstd::std_specs::ops::AddSpecImpl<Real> for Vec3 {
    open spec fn obeys_add_spec() -> bool {
        true
    }

    open spec fn add_req(self, rhs: Real) -> bool {
        true
    }

    open spec fn add_spec(self, rhs: Real) -> Vec3 {
        self.plus(Vec3::splat(rhs))
    }
}

impl core::ops::Add<Vec3> for Real {
    type Output = Vec3;

    fn add(self, rhs: Vec3) -> (r: Vec3) {
        Vec3(self + rhs.0, self + rhs.1, self + rhs.2)
    }
}

impl vstd::std_specs::ops::AddSpecImpl<Vec3> for Real {
    open spec fn obeys_add_spec() -> bool {
        true
    }

    open spec fn add_req(self, rhs: Vec3) -> bool {
        true
    }

    open spec fn add_spec(self, rhs: Vec3) -> Vec3 {
        Vec3::splat(self).plus(rhs)
    }
}

impl core::ops::Sub for Vec3 {
    type Output = Vec3;

    fn sub(self, rhs: Vec3) -> (r: Vec3) {
        Vec3(self.0 - rhs.0, self.1 - rhs.1, self.2 - rhs.2)
    }
}

impl vstd::std_specs::ops::SubSpecImpl for Vec3 {
    open spec fn obeys_sub_spec() -> bool {
        true
    }

    open spec fn sub_req(self, rhs: Vec3) -> bool {
        true
    }

    open spec fn sub_spec(self, rhs: Vec3) -> Vec3 {
        self.minus(rhs)
    }
}

impl core::ops::Sub<Real> for Vec3 {
    type Output = Vec3;

    fn sub(self, rhs: Real) -> (r: Vec3) {
        Vec3(self.0 - rhs, self.1 - rhs, self.2 - rhs)
    }
}

impl vstd::std_specs::ops::SubSpecImpl<Real> for Vec3 {
    open spec fn obeys_sub_spec() -> bool {
        true
    }

    open spec fn sub_req(self, rhs: Real) -> bool {
        true
    }

    open spec fn sub_spec(self, rhs: Real) -> Vec3 {
        self.minus(Vec3::splat(rhs))
    }
}

impl core::ops::Sub<Vec3> for Real {
    type Output = Vec3;

    fn sub(self, rhs: Vec3) -> (r: Vec3) {
        Vec3(self - rhs.0, self - rhs.1, self - rhs.2)
    }
}

impl vstd::std_specs::ops::SubSpecImpl<Vec3> for Real {
    open spec fn obeys_sub_spec() -> bool {
        true
    }

    open spec fn sub_req(self, rhs: Vec3) -> bool {
        true
    }

    open spec fn sub_spec(self, rhs: Vec3) -> Vec3 {
        Vec3::splat(self).minus(rhs)
    }
}

impl core::ops::Mul for Vec3 {
    type Output = Vec3;

    fn mul(self, rhs: Vec3) -> (r: Vec3) {
        Vec3(self.0 * rhs.0, self.1 * rhs.1, self.2 * rhs.2)
    }
}

impl vstd::std_specs::ops::MulSpecImpl for Vec3 {
    open spec fn obeys_mul_spec() -> bool {
        true
    }

    open spec fn mul_req(self, rhs: Vec3) -> bool {
        true
    }

    open spec fn mul_spec(self, rhs: Vec3) -> Vec3 {
        self.times(rhs)
    }
}

impl core::ops::Mul<Real> for Vec3 {
    type Output = Vec3;

    fn mul(self, rhs: Real) -> (r: Vec3) {
        Vec3(self.0 * rhs, self.1 * rhs, self.2 * rhs)
    }
}

impl vstd::std_specs::ops::MulSpecImpl<Real> for Vec3 {
    open spec fn obeys_mul_spec() -> bool {
        true
    }

    open spec fn mul_req(self, rhs: Real) -> bool {
        true
    }

    open spec fn mul_spec(self, rhs: Real) -> Vec3 {
        self.times(Vec3::splat(rhs))
    }
}

impl core::ops::Mul<Vec3> for Real {
    type Output = Vec3;

    fn mul(self, rhs: Vec3) -> (r: Vec3) {
        Vec3(self * rhs.0, self * rhs.1, self * rhs.2)
    }
}

impl vstd::std_specs::ops::MulSpecImpl<Vec3> for Real {
    open spec fn obeys_mul_spec() -> bool {
        true
    }

    open spec fn mul_req(self, rhs: Vec3) -> bool {
        true
    }

    open spec fn mul_spec(self, rhs: Vec3) -> Vec3 {
        Vec3::splat(self).times(rhs)
    }
}

impl core::ops::Div for Vec3 {
    type Output = Vec3;

    fn div(self, rhs: Vec3) -> (r: Vec3) {
        Vec3(self.0 / rhs.0, self.1 / rhs.1, self.2 / rhs.2)
    }
}

impl vstd::std_specs::ops::DivSpecImpl for Vec3 {
    open spec fn obeys_div_spec() -> bool {
        true
    }

    open spec fn div_req(self, rhs: Vec3) -> bool {
        true
    }

    open spec fn div_spec(self, rhs: Vec3) -> Vec3 {
        self.over(rhs)
    }
}

impl core::ops::Div<Real> for Vec3 {
    type Output = Vec3;

    fn div(self, rhs: Real) -> (r: Vec3) {
        Vec3(self.0 / rhs, self.1 / rhs, self.2 / rhs)
    }
}

impl vstd::std_specs::ops::DivSpecImpl<Real> for Vec3 {
    open spec fn obeys_div_spec() -> bool {
        true
    }

    open spec fn div_req(self, rhs: Real) -> bool {
        true
    }

    open spec fn div_spec(self, rhs: Real) -> Vec3 {
        self.over(Vec3::splat(rhs))
    }
}

impl core::ops::Div<Vec3> for Real {
    type Output = Vec3;

    fn div(self, rhs: Vec3) -> (r: Vec3) {
        Vec3(self / rhs.0, self / rhs.1, self / rhs.2)
    }
}

impl vstd::std_specs::ops::DivSpecImpl<Vec3> for Real {
    open spec fn obeys_div_spec() -> bool {
        true
    }

    open spec fn div_req(self, rhs: Vec3) -> bool {
        true
    }

    open spec fn div_spec(self, rhs: Vec3) -> Vec3 {
        Vec3::splat(self).over(rhs)
    }
}

impl Vec3 {
    /// `x*x + y*y + z*z`, summed from the left.
    pub open spec fn length_squared_spec(self) -> Real {
        self.dot_spec(self)
    }

    /// The square root of the squared length.
    pub open spec fn length_spec(self) -> Real {
        self.length_squared_spec().sqrt_spec()
    }

    /// The dot product, summed from the left.
    pub open spec fn dot_spec(self, rhs: Vec3) -> Real {
        self.0.times(rhs.0).plus(self.1.times(rhs.1)).plus(self.2.times(rhs.2))
    }

    /// The cross product.
    pub open spec fn cross_spec(self, rhs: Vec3) -> Vec3 {
        Vec3(
            self.1.times(rhs.2).minus(self.2.times(rhs.1)),
            self.2.times(rhs.0).minus(self.0.times(rhs.2)),
            self.0.times(rhs.1).minus(self.1.times(rhs.0)),
        )
    }

    /// The square root of each component.
    pub open spec fn sqrt_spec(self) -> Vec3 {
        Vec3(self.0.sqrt_spec(), self.1.sqrt_spec(), self.2.sqrt_spec())
    }

    /// The vector over its own length; three NaNs for the zero vector.
    pub open spec fn unit_vector_spec(self) -> Vec3 {
        self.over(Vec3::splat(self.length_spec()))
    }

    /// Each component lies within `1e-8` of zero.
    pub open spec fn near_zero_spec(self) -> bool {
        let s = Real::of_ratio(1, 100_000_000);
        self.0.abs_spec().lt_spec(s) && self.1.abs_spec().lt_spec(s) && self.2.abs_spec().lt_spec(s)
    }

    /// Each component is one that a draw from `[min, max)` can give.
    pub open spec fn is_range_sample(self, min: Real, max: Real) -> bool {
        is_range_sample(self.0, min, max) && is_range_sample(self.1, min, max) && is_range_sample(
            self.2,
            min,
            max,
        )
    }

    /// What three draws from `[0, 1)` give, and the source after them.
    pub open spec fn draw(source: RandomSource) -> (Vec3, RandomSource) {
        let (x, first) = draw_unit(source);
        let (y, second) = draw_unit(first);
        let (z, third) = draw_unit(second);
        (Vec3(x, y, z), third)
    }

    /// What three draws from `[min, max)` give, and the source after them.
    pub open spec fn draw_range(source: RandomSource, min: Real, max: Real) -> (Vec3, RandomSource) {
        let (x, first) = draw_range(source, min, max);
        let (y, second) = draw_range(first, min, max);
        let (z, third) = draw_range(second, min, max);
        (Vec3(x, y, z), third)
    }

    /// The first component.
    pub fn x(&self) -> (r: Real)
        ensures
            r == self.0,
    {
        self.0
    }

    /// The second component.
    pub fn y(&self) -> (r: Real)
        ensures
            r == self.1,
    {
        self.1
    }

    /// The third component.
    pub fn z(&self) -> (r: Real)
        ensures
            r == self.2,
    {
        self.2
    }

    /// The length.
    pub fn length(&self) -> (r: Real)
        ensures
            r == self.length_spec(),
    {
        self.length_squared().sqrt()
    }

    /// The squared length.
    pub fn length_squared(&self) -> (r: Real)
        ensures
            r == self.length_squared_spec(),
    {
        self.0 * self.0 + self.1 * self.1 + self.2 * self.2
    }

    /// The dot product.
    pub fn dot(&self, rhs: &Vec3) -> (r: Real)
        ensures
            r == self.dot_spec(*rhs),
    {
        self.0 * rhs.0 + self.1 * rhs.1 + self.2 * rhs.2
    }

    /// The cross product.
    pub fn cross(&self, rhs: &Vec3) -> (r: Vec3)
        ensures
            r == self.cross_spec(*rhs),
    {
        Vec3(
            self.1 * rhs.2 - self.2 * rhs.1,
            self.2 * rhs.0 - self.0 * rhs.2,
            self.0 * rhs.1 - self.1 * rhs.0,
        )
    }

    /// The square root of each component.
    pub fn sqrt(&self) -> (r: Vec3)
        ensures
            r == self.sqrt_spec(),
    {
        Vec3(self.0.sqrt(), self.1.sqrt(), self.2.sqrt())
    }

    /// The vector of length one in the same direction.
    pub fn unit_vector(self) -> (r: Vec3)
        ensures
            r == self.unit_vector_spec(),
    {
        let l = self.length();
        self / l
    }

    /// A vector whose components are drawn from `[0, 1)`.
    pub fn random(source: &mut RandomSource) -> (r: Vec3)
        ensures
            (r, *final(source)) == Vec3::draw(*old(source)),
            is_unit_sample(r.0),
            is_unit_sample(r.1),
            is_unit_sample(r.2),
    {
        let x = random_double(source);
        let y = random_double(source);
        let z = random_double(source);
        Vec3(x, y, z)
    }

    /// A vector whose components are drawn from `[min, max)`.
    pub fn random_range(source: &mut RandomSource, min: Real, max: Real) -> (r: Vec3)
        ensures
            (r, *final(source)) == Vec3::draw_range(*old(source), min, max),
            r.is_range_sample(min, max),
    {
        let x = random_double_range(source, min, max);
        let y = random_double_range(source, min, max);
        let z = random_double_range(source, min, max);
        Vec3(x, y, z)
    }

    /// Whether each component lies within `1e-8` of zero.
    pub fn near_zero(&self) -> (r: bool)
        ensures
            r == self.near_zero_spec(),
    {
        let s = Real::from_ratio(1, 100_000_000);
        self.0.abs().lt(s) && self.1.abs().lt(s) && self.2.abs().lt(s)
    }
}

/// How many candidates a rejection sampler draws before it gives up.
pub const MAX_CANDIDATES: u32 = 128;

/// The zero vector.
pub open spec fn origin() -> Vec3 {
    Vec3(Real { bits: 0 }, Real { bits: 0 }, Real { bits: 0 })
}

/// A point strictly inside the unit ball: its squared length is below one.
pub open spec fn in_unit_ball(p: Vec3) -> bool {
    p.length_squared_spec().lt_spec(Real::of_int(1))
}

/// What the sampler of the unit ball can give: a point strictly inside the
/// ball whose components are draws from `[-1, 1)`, or the zero vector, which
/// it gives once `MAX_CANDIDATES` candidates in a row fell outside.
pub open spec fn is_ball_sample(p: Vec3) -> bool {
    (in_unit_ball(p) && p.is_range_sample(Real::of_int(-1), Real::of_int(1))) || p == origin()
}

/// What the sampler of the unit disk can give: a point strictly inside the
/// unit circle of the plane `z = 0` whose other components are draws from
/// `[-1, 1)`, or the zero vector, which it gives once `MAX_CANDIDATES`
/// candidates in a row fell outside.
pub open spec fn is_disk_sample(p: Vec3) -> bool {
    ||| {
        &&& in_unit_ball(p)
        &&& p.2 == Real { bits: 0 }
        &&& is_range_sample(p.0, Real::of_int(-1), Real::of_int(1))
        &&& is_range_sample(p.1, Real::of_int(-1), Real::of_int(1))
    }
    ||| p == origin()
}

/// What the sampler of directions can give: a sample of the unit ball over
/// its own length.
pub open spec fn is_unit_vector_sample(v: Vec3) -> bool {
    exists|p: Vec3| is_ball_sample(p) && v == #[trigger] p.unit_vector_spec()
}

/// What the sampler of the unit ball gives when it may still draw `tries`
/// candidates, and the source after it: the first candidate, its components
/// drawn from `[-1, 1)`, that lies strictly inside the ball; the zero vector
/// where none of them does.
pub open spec fn draw_in_ball(source: RandomSource, tries: nat) -> (Vec3, RandomSource)
    decreases tries,
{
    if tries == 0 {
        (origin(), source)
    } else {
        let (p, after) = Vec3::draw_range(source, Real::of_int(-1), Real::of_int(1));
        if in_unit_ball(p) {
            (p, after)
        } else {
            draw_in_ball(after, (tries - 1) as nat)
        }
    }
}

/// The candidate of the unit disk that two draws from `[-1, 1)` give, and
/// the source after them.
pub open spec fn draw_disk_candidate(source: RandomSource) -> (Vec3, RandomSource) {
    let (x, first) = draw_range(source, Real::of_int(-1), Real::of_int(1));
    let (y, second) = draw_range(first, Real::of_int(-1), Real::of_int(1));
    (Vec3(x, y, Real { bits: 0 }), second)
}

/// What the sampler of the unit disk gives when it may still draw `tries`
/// candidates, and the source after it.
pub open spec fn draw_in_disk(source: RandomSource, tries: nat) -> (Vec3, RandomSource)
    decreases tries,
{
    if tries == 0 {
        (origin(), source)
    } else {
        let (p, after) = draw_disk_candidate(source);
        if in_unit_ball(p) {
            (p, after)
        } else {
            draw_in_disk(after, (tries - 1) as nat)
        }
    }
}

/// What the sampler of directions gives, and the source after it.
pub open spec fn draw_unit_vector(source: RandomSource) -> (Vec3, RandomSource) {
    let (p, after) = draw_in_ball(source, MAX_CANDIDATES as nat);
    (p.unit_vector_spec(), after)
}

/// Whatever the source, the sampler of the unit ball gives a sample of the
/// unit ball.
pub proof fn lemma_draw_in_ball(source: RandomSource, tries: nat)
    ensures
        is_ball_sample(draw_in_ball(source, tries).0),
    decreases tries,
{
    if tries > 0 {
        let min = Real::of_int(-1);
        let max = Real::of_int(1);
        let (x, first) = draw_range(source, min, max);
        let (y, second) = draw_range(first, min, max);
        lemma_draw_range(source, min, max);
        lemma_draw_range(first, min, max);
        lemma_draw_range(second, min, max);
        let (p, after) = Vec3::draw_range(source, min, max);
        if !in_unit_ball(p) {
            lemma_draw_in_ball(after, (tries - 1) as nat);
        }
    }
}

/// Whatever the source, the sampler of the unit disk gives a sample of the
/// unit disk.
pub proof fn lemma_draw_in_disk(source: RandomSource, tries: nat)
    ensures
        is_disk_sample(draw_in_disk(source, tries).0),
    decreases tries,
{
    if tries > 0 {
        let min = Real::of_int(-1);
        let max = Real::of_int(1);
        let (x, first) = draw_range(source, min, max);
        lemma_draw_range(source, min, max);
        lemma_draw_range(first, min, max);
        let (p, after) = draw_disk_candidate(source);
        if !in_unit_ball(p) {
            lemma_draw_in_disk(after, (tries - 1) as nat);
        }
    }
}

/// A random point strictly inside the unit ball, by rejection.
pub fn random_in_unit_sphere(source: &mut RandomSource) -> (p: Vec3)
    ensures
        (p, *final(source)) == draw_in_ball(*old(source), MAX_CANDIDATES as nat),
        is_ball_sample(p),
{
    let mut tries: u32 = 0;
    while tries < MAX_CANDIDATES
        invariant
            tries <= MAX_CANDIDATES,
            draw_in_ball(*old(source), MAX_CANDIDATES as nat) == draw_in_ball(
                *source,
                (MAX_CANDIDATES - tries) as nat,
            ),
        decreases MAX_CANDIDATES - tries,
    {
        let p = Vec3::random_range(source, Real::from_i64(-1), Real::from_i64(1));
        if p.length_squared().lt(Real::from_i64(1)) {
            return p;
        }
        tries = tries + 1;
    }
    Vec3(Real::from_bits(0), Real::from_bits(0), Real::from_bits(0))
}

/// A random point strictly inside the unit circle of the plane `z = 0`, by
/// rejection.
pub fn random_in_unit_disk(source: &mut RandomSource) -> (p: Vec3)
    ensures
        (p, *final(source)) == draw_in_disk(*old(source), MAX_CANDIDATES as nat),
        is_disk_sample(p),
{
    let mut tries: u32 = 0;
    while tries < MAX_CANDIDATES
        invariant
            tries <= MAX_CANDIDATES,
            draw_in_disk(*old(source), MAX_CANDIDATES as nat) == draw_in_disk(
                *source,
                (MAX_CANDIDATES - tries) as nat,
            ),
        decreases MAX_CANDIDATES - tries,
    {
        let x = random_double_range(source, Real::from_i64(-1), Real::from_i64(1));
        let y = random_double_range(source, Real::from_i64(-1), Real::from_i64(1));
        let p = Vec3(x, y, Real::from_bits(0));
        if p.length_squared().lt(Real::from_i64(1)) {
            return p;
        }
        tries = tries + 1;
    }
    Vec3(Real::from_bits(0), Real::from_bits(0), Real::from_bits(0))
}

/// A random direction of length one: a sample of the unit ball over its own
/// length.
pub fn random_unit_vector(source: &mut RandomSource) -> (v: Vec3)
    ensures
        (v, *final(source)) == draw_unit_vector(*old(source)),
        is_unit_vector_sample(v),
{
    let p = random_in_unit_sphere(source);
    p.unit_vector()
}

/// The mirror image of `v` at a surface with normal `n`: `v - 2*dot(v,n)*n`.
pub open spec fn reflect_spec(v: Vec3, n: Vec3) -> Vec3 {
    v.minus(Vec3::splat(Real::of_int(2).times(v.dot_spec(n))).times(n))
}

/// The mirror image of `v` at a surface with normal `n`.
pub fn reflect(v: &Vec3, n: &Vec3) -> (r: Vec3)
    ensures
        r == reflect_spec(*v, *n),
{
    *v - Real::from_i64(2) * v.dot(n) * *n
}

/// The direction of the unit vector `uv` after it passes a surface with unit
/// normal `n` into a medium whose index is `1 / etai_over_etat` times that of
/// the one it leaves.
///
/// With `c = min(dot(-uv, n), 1)`, the part across the normal is
/// `etai_over_etat * (uv + c*n)` and the part along it
/// `-sqrt(|1 - |across|^2|) * n`; the result is the second plus the first.
pub open spec fn refract_spec(uv: Vec3, n: Vec3, etai_over_etat: Real) -> Vec3 {
    let cos_theta = uv.negated().dot_spec(n).min_spec(Real::of_int(1));
    let across = Vec3::splat(etai_over_etat).times(uv.plus(Vec3::splat(cos_theta).times(n)));
    let along = Vec3::splat(
        Real::of_int(1).minus(across.length_squared_spec()).abs_spec().sqrt_spec().negated(),
    ).times(n);
    along.plus(across)
}

/// The direction of `uv` after it passes a surface with normal `n`.
pub fn refract(uv: &Vec3, n: &Vec3, etai_over_etat: Real) -> (r: Vec3)
    ensures
        r == refract_spec(*uv, *n, etai_over_etat),
{
    let cos_theta = uv.neg().dot(n).min(Real::from_i64(1));
    let r_out_perp = etai_over_etat * (*uv + cos_theta * *n);
    let r_out_parallel = (Real::from_i64(1) - r_out_perp.length_squared()).abs().sqrt().neg() * *n;
    r_out_parallel + r_out_perp
}

} // verus!
