//! A scene to render: a field of small spheres of random make about three
//! large ones.

use vstd::prelude::*;
use std::sync::Arc;
use crate::number::Real;
use crate::vec3::{Vec3, Color};
use crate::material::{Material, Lambertian, Metal, Dielectric};
use crate::hittable::HittableList;
use crate::sphere::Sphere;
use crate::utils::{RandomSource, random_double, random_double_range, draw_unit, draw_range};

verus! {

/// A sphere as a scene lists it: where it is, how large, and of what.
pub struct Ball {
    pub center: Vec3,
    pub radius: Real,
    pub material: Material,
}

/// The sphere as a scene lists it.
pub open spec fn ball_of(s: Sphere) -> Ball {
    Ball { center: s.center, radius: s.radius, material: *s.mat_ptr }
}

/// The spheres of a scene as it lists them, in their order.
pub open spec fn balls_of(objects: Seq<Arc<Sphere>>) -> Seq<Ball> {
    Seq::new(objects.len(), |i: int| ball_of(*objects[i]))
}

/// The vector of three fractions `x / 10`, `y / 10`, `z / 10`.
pub open spec fn tenths(x: int, y: int, z: int) -> Vec3 {
    Vec3(Real::of_ratio(x, 10), Real::of_ratio(y, 10), Real::of_ratio(z, 10))
}

/// The vector of three whole numbers.
pub open spec fn whole(x: int, y: int, z: int) -> Vec3 {
    Vec3(Real::of_int(x), Real::of_int(y), Real::of_int(z))
}

/// The ground: a grey diffuse sphere of radius 1000 below the field.
pub open spec fn ground() -> Ball {
    Ball {
        center: whole(0, -1000, 0),
        radius: Real::of_int(1000),
        material: Material::Lambertian(Lambertian { albedo: tenths(5, 5, 5) }),
    }
}

/// The large sphere of glass in the middle.
pub open spec fn large_glass() -> Ball {
    Ball {
        center: whole(0, 1, 0),
        radius: Real::of_int(1),
        material: Material::Dielectric(Dielectric { ir: Real::of_ratio(3, 2) }),
    }
}

/// The large brown diffuse sphere behind.
pub open spec fn large_diffuse() -> Ball {
    Ball {
        center: whole(-4, 1, 0),
        radius: Real::of_int(1),
        material: Material::Lambertian(Lambertian { albedo: tenths(4, 2, 1) }),
    }
}

/// The large sphere of polished metal in front.
pub open spec fn large_metal() -> Ball {
    Ball {
        center: whole(4, 1, 0),
        radius: Real::of_int(1),
        material: Material::Metal(Metal { albedo: tenths(7, 6, 5), fuzz: Real::of_int(0) }),
    }
}

/// Where a small sphere of the grid cell `(a, b)` lies when `u` and `w` are
/// drawn: at `(a + 0.9 * u, 0.2, b + 0.9 * w)`.
pub open spec fn small_center(a: int, b: int, u: Real, w: Real) -> Vec3 {
    Vec3(
        Real::of_int(a).plus(Real::of_ratio(9, 10).times(u)),
        Real::of_ratio(2, 10),
        Real::of_int(b).plus(Real::of_ratio(9, 10).times(w)),
    )
}

/// A place is clear of the large metal sphere: farther than `0.9` from
/// `(4, 0.2, 0)`.
pub open spec fn is_clear(center: Vec3) -> bool {
    Real::of_ratio(9, 10).lt_spec(
        center.minus(Vec3(Real::of_int(4), Real::of_ratio(2, 10), Real::of_int(0))).length_spec(),
    )
}

/// The metal of albedo `albedo` and fuzz `fuzz`, the fuzz held to at most one.
pub open spec fn metal_of(albedo: Color, fuzz: Real) -> Material {
    Material::Metal(
        Metal {
            albedo,
            fuzz: if fuzz.lt_spec(Real::of_int(1)) {
                fuzz
            } else {
                Real::of_int(1)
            },
        },
    )
}

/// The material of a small sphere when `choose_mat` was drawn, and the
/// source after it: below `0.8` diffuse, its albedo the product of two random
/// colours; else below `0.95` metal, its albedo drawn from `[0.5, 1)` and its
/// fuzz from `[0, 0.5)`; else glass of index `1.5`, for which nothing is
/// drawn.
pub open spec fn small_material_spec(choose_mat: Real, source: RandomSource) -> (
    Material,
    RandomSource,
) {
    if choose_mat.lt_spec(Real::of_ratio(8, 10)) {
        let (p, first) = Vec3::draw(source);
        let (q, second) = Vec3::draw(first);
        (Material::Lambertian(Lambertian { albedo: p.times(q) }), second)
    } else if choose_mat.lt_spec(Real::of_ratio(95, 100)) {
        let (albedo, first) = Vec3::draw_range(source, Real::of_ratio(5, 10), Real::of_int(1));
        let (fuzz, second) = draw_range(first, Real::of_int(0), Real::of_ratio(5, 10));
        (metal_of(albedo, fuzz), second)
    } else {
        (Material::Dielectric(Dielectric { ir: Real::of_ratio(3, 2) }), source)
    }
}

/// The small sphere of the grid cell `(a, b)`, if the cell gets one, and the
/// source after it: three numbers are drawn, the first for the material and
/// two for the place; where the place is clear of the large metal sphere,
/// a sphere of radius `0.2` stands there.
pub open spec fn cell_spec(a: int, b: int, source: RandomSource) -> (Option<Ball>, RandomSource) {
    let (choose_mat, first) = draw_unit(source);
    let (u, second) = draw_unit(first);
    let (w, third) = draw_unit(second);
    let center = small_center(a, b, u, w);
    if is_clear(center) {
        let (material, last) = small_material_spec(choose_mat, third);
        (Some(Ball { center, radius: Real::of_ratio(2, 10), material }), last)
    } else {
        (None, third)
    }
}

/// The ground and the small spheres of the first `n` cells, and the source
/// after them. The cells run from `(-11, -11)` to `(11, 11)`, the second
/// place running fastest.
pub open spec fn cells_spec(n: nat, source: RandomSource) -> (Seq<Ball>, RandomSource)
    decreases n,
{
    if n == 0 {
        (seq![ground()], source)
    } else {
        let (before, after) = cells_spec((n - 1) as nat, source);
        let (ball, last) = cell_spec((n - 1) / 23 - 11, (n - 1) % 23 - 11, after);
        match ball {
            Some(found) => (before.push(found), last),
            None => (before, last),
        }
    }
}

/// The scene: the ground, the small spheres of all cells, then the three
/// large spheres; and the source after it.
pub open spec fn scene_spec(source: RandomSource) -> (Seq<Ball>, RandomSource) {
    let (small, after) = cells_spec(23 * 23, source);
    (small.push(large_glass()).push(large_diffuse()).push(large_metal()), after)
}

fn tenths_of(x: i64, y: i64, z: i64) -> (v: Vec3)
    ensures
        v == tenths(x as int, y as int, z as int),
{
    Vec3(Real::from_ratio(x, 10), Real::from_ratio(y, 10), Real::from_ratio(z, 10))
}

fn whole_of(x: i64, y: i64, z: i64) -> (v: Vec3)
    ensures
        v == whole(x as int, y as int, z as int),
{
    Vec3(Real::from_i64(x), Real::from_i64(y), Real::from_i64(z))
}

/// The material of a small sphere when `choose_mat` was drawn.
pub fn small_material(choose_mat: Real, source: &mut RandomSource) -> (m: Material)
    ensures
        (m, *final(source)) == small_material_spec(choose_mat, *old(source)),
{
    if choose_mat.lt(Real::from_ratio(8, 10)) {
        let p = Vec3::random(source);
        let q = Vec3::random(source);
        let albedo = p * q;
        Material::Lambertian(Lambertian::new(&albedo))
    } else if choose_mat.lt(Real::from_ratio(95, 100)) {
        let albedo = Vec3::random_range(source, Real::from_ratio(5, 10), Real::from_i64(1));
        let fuzz = random_double_range(source, Real::from_i64(0), Real::from_ratio(5, 10));
        Material::Metal(Metal::new(&albedo, fuzz))
    } else {
        Material::Dielectric(Dielectric::new(Real::from_ratio(3, 2)))
    }
}

/// Puts a sphere at the end of a scene.
fn add_ball(world: &mut HittableList<Sphere>, center: Vec3, radius: Real, material: Material)
    ensures
        balls_of(final(world).objects@) == balls_of(old(world).objects@).push(
            Ball { center, radius, material },
        ),
{
    world.add(Arc::new(Sphere::new(center, radius, Arc::new(material))));
    assert(balls_of(world.objects@) =~= balls_of(old(world).objects@).push(
        Ball { center, radius, material },
    ));
}

/// A random scene.
pub fn random_scene(source: &mut RandomSource) -> (world: HittableList<Sphere>)
    ensures
        (balls_of(world.objects@), *final(source)) == scene_spec(*old(source)),
{
    let mut world: HittableList<Sphere> = HittableList::new();
    assert(balls_of(world.objects@) =~= Seq::empty());
    add_ball(
        &mut world,
        whole_of(0, -1000, 0),
        Real::from_i64(1000),
        Material::Lambertian(Lambertian::new(&tenths_of(5, 5, 5))),
    );
    assert(balls_of(world.objects@) =~= seq![ground()]);

    let mut a: i64 = -11;
    while a <= 11
        invariant
            -11 <= a <= 12,
            (balls_of(world.objects@), *source) == cells_spec(
                ((a + 11) * 23) as nat,
                *old(source),
            ),
        decreases 12 - a,
    {
        let mut b: i64 = -11;
        while b <= 11
            invariant
                -11 <= a <= 11,
                -11 <= b <= 12,
                (balls_of(world.objects@), *source) == cells_spec(
                    ((a + 11) * 23 + (b + 11)) as nat,
                    *old(source),
                ),
            decreases 12 - b,
        {
            let ghost n = ((a + 11) * 23 + (b + 11)) as nat;
            assert(n / 23 - 11 == a && n % 23 - 11 == b);
            let choose_mat = random_double(source);
            let u = random_double(source);
            let w = random_double(source);
            let center = Vec3(
                Real::from_i64(a) + Real::from_ratio(9, 10) * u,
                Real::from_ratio(2, 10),
                Real::from_i64(b) + Real::from_ratio(9, 10) * w,
            );
            if (center - Vec3(Real::from_i64(4), Real::from_ratio(2, 10), Real::from_i64(0)))
                .length().gt(Real::from_ratio(9, 10)) {
                let material = small_material(choose_mat, source);
                add_ball(&mut world, center, Real::from_ratio(2, 10), material);
            }
            b = b + 1;
        }
        a = a + 1;
    }
    add_ball(
        &mut world,
        whole_of(0, 1, 0),
        Real::from_i64(1),
        Material::Dielectric(Dielectric::new(Real::from_ratio(3, 2))),
    );
    add_ball(
        &mut world,
        whole_of(-4, 1, 0),
        Real::from_i64(1),
        Material::Lambertian(Lambertian::new(&tenths_of(4, 2, 1))),
    );
    proof {
        crate::laws::lemma_zero_below_one();
    }
    add_ball(
        &mut world,
        whole_of(4, 1, 0),
        Real::from_i64(1),
        Material::Metal(Metal::new(&tenths_of(7, 6, 5), Real::from_i64(0))),
    );
    world
}

} // verus!
