//! What holds of vectors, hits and materials whatever the numbers.

use vstd::prelude::*;
use vstd::arithmetic::power2::{pow2, lemma_pow2_strictly_increases};
use crate::binary64::format::{is_nan, is_zero, neg_bits, LIMIT_EXP};
use crate::binary64::sum::{add_bits, sub_bits};
use crate::binary64::product::mul_bits;
use crate::binary64::order::lt_bits;
use crate::binary64::laws::{add_is_exact, opposite, lemma_mul_commutes, lemma_mul_neg, lemma_add_opposite, lemma_sub_self, lemma_mul_zero, lemma_add_zero, lemma_small_whole_numbers, lemma_square, lemma_add_not_negative, lemma_infinity_bits, lemma_value_of_zero, lemma_div_one_by, lemma_fraction_value, lemma_mul_within_one, lemma_one_less_square, lemma_sqrt_within_one};
use crate::number::Real;
use crate::vec3::{Vec3, origin, in_unit_ball, is_ball_sample, reflect_spec, draw_in_ball, lemma_draw_in_ball, MAX_CANDIDATES};
use crate::camera::Camera;
use crate::render::{shade, black, picture_text};
use crate::utils::RandomSource;
use crate::ray::Ray;
use crate::material::{Material, Lambertian, Metal, Dielectric};
use crate::hittable::{HitRecord, Hittable, closest_hit, record_of, faces_front};
use crate::sphere::Sphere;
use std::sync::Arc;
use vstd::arithmetic::power2::lemma_pow2_pos;
use crate::binary64::convert::from_int_bits;
use crate::binary64::quotient::div_bits;
use crate::binary64::root::sqrt_bits;
use crate::utils::is_unit_sample;

verus! {

/// Where the sum of two vectors loses nothing to rounding in any component,
/// taking the second away again gives the first: component by component the
/// same number.
pub proof fn lemma_add_then_sub(a: Vec3, b: Vec3)
    requires
        add_is_exact(a.0.bits, b.0.bits),
        add_is_exact(a.1.bits, b.1.bits),
        add_is_exact(a.2.bits, b.2.bits),
    ensures
        a.plus(b).minus(b).alike(a),
{
    reveal(Real::plus);
    reveal(Real::minus);
    crate::binary64::laws::lemma_add_then_sub(a.0.bits, b.0.bits);
    crate::binary64::laws::lemma_add_then_sub(a.1.bits, b.1.bits);
    crate::binary64::laws::lemma_add_then_sub(a.2.bits, b.2.bits);
}

/// The dot product does not depend on the order of its operands.
pub proof fn lemma_dot_commutes(a: Vec3, b: Vec3)
    ensures
        a.dot_spec(b) == b.dot_spec(a),
{
    reveal(Real::times);
    reveal(Real::plus);
    lemma_mul_commutes(a.0.bits, b.0.bits);
    lemma_mul_commutes(a.1.bits, b.1.bits);
    lemma_mul_commutes(a.2.bits, b.2.bits);
}

/// The cross product of a vector with itself is the zero vector, where the
/// products of its components are finite.
pub proof fn lemma_cross_self(a: Vec3)
    requires
        a.1.times(a.2).is_finite_spec(),
        a.2.times(a.0).is_finite_spec(),
        a.0.times(a.1).is_finite_spec(),
    ensures
        a.cross_spec(a) == origin(),
{
    reveal(Real::times);
    reveal(Real::minus);
    lemma_mul_commutes(a.1.bits, a.2.bits);
    lemma_mul_commutes(a.2.bits, a.0.bits);
    lemma_mul_commutes(a.0.bits, a.1.bits);
    lemma_sub_self(mul_bits(a.1.bits, a.2.bits));
    lemma_sub_self(mul_bits(a.2.bits, a.0.bits));
    lemma_sub_self(mul_bits(a.0.bits, a.1.bits));
}

/// The dot products of a vector with another and with its negative are
/// negatives of each other.
pub proof fn lemma_dot_negated(d: Vec3, n: Vec3)
    ensures
        opposite(d.dot_spec(n.negated()).bits, d.dot_spec(n).bits),
{
    reveal(Real::times);
    reveal(Real::plus);
    reveal(Real::negated);
    lemma_mul_neg(d.0.bits, n.0.bits);
    lemma_mul_neg(d.1.bits, n.1.bits);
    lemma_mul_neg(d.2.bits, n.2.bits);
    let left0 = mul_bits(d.0.bits, neg_bits(n.0.bits));
    let left1 = mul_bits(d.1.bits, neg_bits(n.1.bits));
    let left2 = mul_bits(d.2.bits, neg_bits(n.2.bits));
    let right0 = mul_bits(d.0.bits, n.0.bits);
    let right1 = mul_bits(d.1.bits, n.1.bits);
    let right2 = mul_bits(d.2.bits, n.2.bits);
    lemma_add_opposite(left0, left1, right0, right1);
    lemma_add_opposite(add_bits(left0, left1), left2, add_bits(right0, right1), right2);
}

/// The normal of a hit record faces the ray: its dot product with the ray's
/// direction is never above zero, and is at most zero where the dot product
/// of the direction with the surface's outward normal is a number.
pub proof fn lemma_normal_faces_ray(p: Vec3, t: Real, outward: Vec3, r: Ray, material: &Material)
    ensures
        !Real::of_int(0).lt_spec(r.dir.dot_spec(record_of(p, t, outward, r, material).normal)),
        !r.dir.dot_spec(outward).is_nan_spec() ==> r.dir.dot_spec(
            record_of(p, t, outward, r, material).normal,
        ).le_spec(Real::of_int(0)),
{
    reveal(Real::lt_spec);
    reveal(Real::le_spec);
    reveal(Real::of_int);
    lemma_small_whole_numbers();
    lemma_value_of_zero();
    if !faces_front(r.dir, outward) {
        lemma_dot_negated(r.dir, outward);
    }
}

/// The outward normal of a sphere where a ray meets it at parameter `t`.
pub open spec fn outward_normal(sphere: &Sphere, r: Ray, t: Real) -> Vec3 {
    r.at_spec(t).minus(sphere.center).over(Vec3::splat(sphere.radius))
}

/// The normal of every hit that a sphere reports faces the ray.
pub proof fn lemma_sphere_normal_faces_ray(sphere: Sphere, r: Ray, t_min: Real, t_max: Real)
    ensures
        match sphere.hit_spec(r, t_min, t_max) {
            Some(rec) => {
                &&& !Real::of_int(0).lt_spec(r.dir.dot_spec(rec.normal))
                &&& !r.dir.dot_spec(outward_normal(&sphere, r, rec.t)).is_nan_spec()
                    ==> r.dir.dot_spec(rec.normal).le_spec(Real::of_int(0))
            },
            None => true,
        },
{
    match sphere.hit_spec(r, t_min, t_max) {
        Some(rec) => {
            lemma_normal_faces_ray(
                r.at_spec(rec.t),
                rec.t,
                outward_normal(&sphere, r, rec.t),
                r,
                &*sphere.mat_ptr,
            );
        },
        None => {},
    }
}

/// The hit that a scene of spheres reports is the record of one of its
/// spheres at the parameter of the hit.
pub proof fn lemma_closest_is_member(
    objects: Seq<Arc<Sphere>>,
    r: Ray,
    t_min: Real,
    t_max: Real,
    n: nat,
)
    requires
        n <= objects.len(),
    ensures
        closest_hit(objects, r, t_min, t_max, n) matches Some(found) ==> exists|k: int|
            0 <= k < n && found == (#[trigger] objects[k]).record_at(r, found.t),
    decreases n,
{
    if n > 0 {
        lemma_closest_is_member(objects, r, t_min, t_max, (n - 1) as nat);
        let standing = closest_hit(objects, r, t_min, t_max, (n - 1) as nat);
        let limit = match standing {
            Some(rec) => rec.t,
            None => t_max,
        };
        match objects[n - 1].hit_spec(r, t_min, limit) {
            Some(rec) => {
                assert(rec == objects[n - 1].record_at(r, rec.t));
            },
            None => {
                if let Some(found) = standing {
                    let k = choose|k: int|
                        0 <= k < n - 1 && found == (#[trigger] objects[k]).record_at(r, found.t);
                    assert(found == objects[k].record_at(r, found.t));
                }
            },
        }
    }
}

/// The normal of every hit that a scene of spheres reports faces the ray:
/// its dot product with the ray's direction is never above zero.
pub proof fn lemma_scene_normal_faces_ray(
    objects: Seq<Arc<Sphere>>,
    r: Ray,
    t_min: Real,
    t_max: Real,
)
    ensures
        closest_hit(objects, r, t_min, t_max, objects.len()) matches Some(found)
            ==> !Real::of_int(0).lt_spec(r.dir.dot_spec(found.normal)),
{
    lemma_closest_is_member(objects, r, t_min, t_max, objects.len());
    if let Some(found) = closest_hit(objects, r, t_min, t_max, objects.len()) {
        let k = choose|k: int|
            0 <= k < objects.len() && found == (#[trigger] objects[k]).record_at(r, found.t);
        lemma_normal_faces_ray(
            r.at_spec(found.t),
            found.t,
            outward_normal(&*objects[k], r, found.t),
            r,
            &*objects[k].mat_ptr,
        );
    }
}

/// A point strictly inside the unit ball has finite components.
pub proof fn lemma_ball_is_finite(p: Vec3)
    requires
        in_unit_ball(p),
    ensures
        p.is_finite_spec(),
{
    reveal(Real::times);
    reveal(Real::plus);
    reveal(Real::lt_spec);
    reveal(Real::of_int);
    lemma_small_whole_numbers();
    lemma_square(p.0.bits);
    lemma_square(p.1.bits);
    lemma_square(p.2.bits);
    let x = mul_bits(p.0.bits, p.0.bits);
    let y = mul_bits(p.1.bits, p.1.bits);
    let z = mul_bits(p.2.bits, p.2.bits);
    let total = add_bits(add_bits(x, y), z);
    assert(lt_bits(total, from_int_bits(1)));
    lemma_infinity_bits();
    lemma_pow2_strictly_increases(1074, LIMIT_EXP as nat);
    if !is_nan(x) && !is_nan(y) {
        lemma_add_not_negative(x, y);
        if !is_nan(z) {
            lemma_add_not_negative(add_bits(x, y), z);
        }
    }
}

/// Every sample of the unit ball has finite components.
pub proof fn lemma_ball_sample_is_finite(p: Vec3)
    requires
        is_ball_sample(p),
    ensures
        p.is_finite_spec(),
{
    if p == origin() {
        lemma_value_of_zero();
    } else {
        lemma_ball_is_finite(p);
    }
}

/// A diffuse surface attenuates by its albedo and sends the ray on from the
/// hit point, whatever the source gives.
pub proof fn lemma_lambertian_scatter(m: Lambertian, rec: HitRecord, source: RandomSource)
    ensures
        match m.scatter_spec(rec, source).0 {
            Some((attenuation, scattered)) => attenuation == m.albedo && scattered.orig == rec.p,
            None => false,
        },
{
}

/// A metal without fuzz mirrors, whatever the source gives: where it sends
/// the ray on, the direction is the mirror image of the incoming one,
/// component by component the same number. The attenuation is the albedo
/// and the ray leaves from the hit.
pub proof fn lemma_polished_metal_mirrors(m: Metal, r_in: Ray, rec: HitRecord, source: RandomSource)
    requires
        is_zero(m.fuzz.bits),
    ensures
        match m.scatter_spec(r_in, rec, source).0 {
            Some((attenuation, scattered)) => {
                &&& attenuation == m.albedo
                &&& scattered.orig == rec.p
                &&& scattered.dir.alike(Metal::mirrored(r_in, rec))
            },
            None => true,
        },
{
    let offset = draw_in_ball(source, MAX_CANDIDATES as nat).0;
    lemma_draw_in_ball(source, MAX_CANDIDATES as nat);
    lemma_ball_sample_is_finite(offset);
    reveal(Real::times);
    reveal(Real::plus);
    let mirror = Metal::mirrored(r_in, rec);
    lemma_mul_zero(m.fuzz.bits, offset.0.bits);
    lemma_mul_zero(m.fuzz.bits, offset.1.bits);
    lemma_mul_zero(m.fuzz.bits, offset.2.bits);
    lemma_add_zero(mirror.0.bits, mul_bits(m.fuzz.bits, offset.0.bits));
    lemma_add_zero(mirror.1.bits, mul_bits(m.fuzz.bits, offset.1.bits));
    lemma_add_zero(mirror.2.bits, mul_bits(m.fuzz.bits, offset.2.bits));
}

/// Glass absorbs nothing and sends every ray on from the hit; a ray that
/// cannot be refracted is mirrored, whatever the source gives.
pub proof fn lemma_dielectric_scatter(m: Dielectric, r_in: Ray, rec: HitRecord, source: RandomSource)
    ensures
        match m.scatter_spec(r_in, rec, source).0 {
            Some((attenuation, scattered)) => {
                &&& attenuation == Vec3::splat(Real::of_int(1))
                &&& scattered.orig == rec.p
                &&& m.cannot_refract(r_in, rec) ==> scattered.dir == reflect_spec(
                    r_in.dir.unit_vector_spec(),
                    rec.normal,
                )
            },
            None => false,
        },
{
}

/// At depth zero every ray is black, whatever the scene, and nothing is
/// drawn.
pub proof fn lemma_depth_zero_is_black<W: Hittable>(world: &W, ray: Ray, source: RandomSource)
    ensures
        shade(world, ray, 0, source) == (black(), source),
{
}

/// The text of an image depends on the scene, the camera, the measures and
/// the seed alone: where these agree, the texts agree byte for byte.
pub proof fn lemma_same_seed_same_text<W: Hittable>(
    camera: &Camera,
    world: &W,
    width: u32,
    height: u32,
    samples: u32,
    depth: u32,
    first_seed: u64,
    second_seed: u64,
)
    requires
        first_seed == second_seed,
    ensures
        picture_text(camera, world, width, height, samples, depth, first_seed) == picture_text(
            camera,
            world,
            width,
            height,
            samples,
            depth,
            second_seed,
        ),
{
}

/// Zero is below one.
pub proof fn lemma_zero_below_one()
    ensures
        Real::of_int(0).lt_spec(Real::of_int(1)),
        Real::of_int(0).bits == 0,
{
    reveal(Real::lt_spec);
    reveal(Real::of_int);
    lemma_small_whole_numbers();
    lemma_value_of_zero();
    lemma_pow2_pos(1074);
}

/// Light that enters glass from outside, the glass no thinner than what
/// surrounds it, is never wholly mirrored: with an index of at least one, a
/// ray that meets the front of the surface can be refracted whatever its
/// angle.
pub proof fn lemma_entering_glass_refracts(m: Dielectric, r_in: Ray, rec: HitRecord)
    requires
        rec.front_face,
        Real::of_int(1).le_spec(m.ir),
    ensures
        !m.cannot_refract(r_in, rec),
{
    reveal(Real::le_spec);
    reveal(Real::lt_spec);
    reveal(Real::of_int);
    reveal(Real::over);
    reveal(Real::times);
    reveal(Real::minus);
    reveal(Real::sqrt_spec);
    lemma_small_whole_numbers();
    let one = from_int_bits(1);
    let c = Dielectric::cos_theta(r_in, rec).bits;
    let ratio = div_bits(one, m.ir.bits);
    let y = sub_bits(one, mul_bits(c, c));
    let sin = sqrt_bits(y);
    lemma_div_one_by(m.ir.bits);
    lemma_one_less_square(c);
    lemma_sqrt_within_one(y);
    assert(m.refraction_ratio(rec).bits == ratio);
    assert(Dielectric::sin_theta(r_in, rec).bits == sin);
    if !is_nan(sin) {
        lemma_mul_within_one(ratio, sin);
    }
}

/// A draw from `[0, 1)` is a number from zero to below one.
pub proof fn lemma_unit_sample_range(u: Real)
    requires
        is_unit_sample(u),
    ensures
        u.is_finite_spec(),
        Real::of_int(0).le_spec(u),
        u.lt_spec(Real::of_int(1)),
{
    reveal(Real::le_spec);
    reveal(Real::lt_spec);
    reveal(Real::of_int);
    reveal(Real::of_fraction);
    lemma_small_whole_numbers();
    lemma_value_of_zero();
    let k = choose|k: nat| k < pow2(53) && u == #[trigger] Real::of_fraction(k);
    lemma_fraction_value(k);
}

/// Both roots of the quadratic of a sphere and a ray are numbers.
pub open spec fn has_roots(s: Sphere, r: Ray) -> bool {
    !s.near_root(r).is_nan_spec() && !s.far_root(r).is_nan_spec()
}

/// The hit that stands after one more sphere is asked.
pub open spec fn next_standing<'a>(
    s: &'a Sphere,
    r: Ray,
    t_min: Real,
    t_max: Real,
    standing: Option<HitRecord<'a>>,
) -> Option<HitRecord<'a>> {
    let limit = match standing {
        Some(rec) => rec.t,
        None => t_max,
    };
    match s.hit_spec(r, t_min, limit) {
        Some(rec) => Some(rec),
        None => standing,
    }
}

/// One step of the scan of a scene: the hit that stands afterwards is a
/// number not beyond `t_max`, is no farther than the one that stood before,
/// and is no farther than the hit that the sphere reports when it is asked
/// alone.
pub proof fn lemma_scan_step(s: &Sphere, r: Ray, t_min: Real, t_max: Real, standing: Option<HitRecord>)
    requires
        has_roots(*s, r),
        standing matches Some(rec) ==> !rec.t.is_nan_spec() && !t_max.lt_spec(rec.t),
    ensures
        next_standing(s, r, t_min, t_max, standing) matches Some(now) ==> !now.t.is_nan_spec()
            && !t_max.lt_spec(now.t),
        standing matches Some(before) ==> (next_standing(s, r, t_min, t_max, standing) matches Some(
            now,
        ) && now.t.le_spec(before.t)),
        s.hit_spec(r, t_min, t_max) matches Some(alone) ==> (next_standing(
            s,
            r,
            t_min,
            t_max,
            standing,
        ) matches Some(now) && now.t.le_spec(alone.t)),
{
    reveal(Real::lt_spec);
    reveal(Real::le_spec);
}

/// The scene reports a hit no farther than the hit of any of its spheres
/// asked alone, where the roots of every sphere's quadratic are numbers.
pub proof fn lemma_closest_hit(
    objects: Seq<Arc<Sphere>>,
    r: Ray,
    t_min: Real,
    t_max: Real,
    n: nat,
)
    requires
        n <= objects.len(),
        forall|k: int| 0 <= k < n ==> has_roots(#[trigger] *objects[k], r),
    ensures
        closest_hit(objects, r, t_min, t_max, n) matches Some(found)
            ==> !found.t.is_nan_spec() && !t_max.lt_spec(found.t),
        forall|k: int|
            0 <= k < n ==> ((#[trigger] objects[k]).hit_spec(r, t_min, t_max) matches Some(alone)
                ==> (closest_hit(objects, r, t_min, t_max, n) matches Some(found)
                && found.t.le_spec(alone.t))),
    decreases n,
{
    if n > 0 {
        lemma_closest_hit(objects, r, t_min, t_max, (n - 1) as nat);
        let standing = closest_hit(objects, r, t_min, t_max, (n - 1) as nat);
        let s = objects[n - 1];
        assert(has_roots(*objects[n - 1], r));
        lemma_scan_step(&*s, r, t_min, t_max, standing);
        let now = closest_hit(objects, r, t_min, t_max, n);
        assert(now == next_standing(&*s, r, t_min, t_max, standing));
        assert forall|k: int| 0 <= k < n implies ((#[trigger] objects[k]).hit_spec(
            r,
            t_min,
            t_max,
        ) matches Some(alone) ==> (now matches Some(found) && found.t.le_spec(alone.t))) by {
            if k < n - 1 {
                match objects[k].hit_spec(r, t_min, t_max) {
                    Some(alone) => {
                        reveal(Real::le_spec);
                    },
                    None => {},
                }
            }
        }
    }
}

} // verus!
