use std::sync::Arc;

use raytracer::camera::Camera;
use raytracer::hittable::{HitRecord, Hittable, HittableList};
use raytracer::material::{Dielectric, Lambertian, Material, Metal};
use raytracer::number::Real;
use raytracer::ppm::{PPM, RGB};
use raytracer::ray::Ray;
use raytracer::render::{background, ray_color, render, render_row, render_text};
use raytracer::scene::random_scene;
use raytracer::sphere::Sphere;
use raytracer::utils::{
    clamp, degrees_to_radians, pi, random_double, random_double_range, unit_sample, RandomSource,
};
use raytracer::vec3::{
    random_in_unit_disk, random_in_unit_sphere, random_unit_vector, reflect, refract, Vec3,
};

fn num(x: f64) -> Real {
    Real::from_bits(x.to_bits())
}

fn val(x: Real) -> f64 {
    f64::from_bits(x.to_bits())
}

fn v3(x: f64, y: f64, z: f64) -> Vec3 {
    Vec3(num(x), num(y), num(z))
}

fn arr(v: Vec3) -> [f64; 3] {
    [val(v.0), val(v.1), val(v.2)]
}

fn dot(a: [f64; 3], b: [f64; 3]) -> f64 {
    a[0] * b[0] + a[1] * b[1] + a[2] * b[2]
}

fn unit(a: [f64; 3]) -> [f64; 3] {
    let l = dot(a, a).sqrt();
    [a[0] / l, a[1] / l, a[2] / l]
}

fn grey() -> Arc<Material> {
    Arc::new(Material::Lambertian(Lambertian::new(&v3(0.5, 0.5, 0.5))))
}

fn two_spheres() -> HittableList<Sphere> {
    let mut world = HittableList::new();
    world.add(Arc::new(Sphere::new(v3(0., -100.5, -1.), num(100.), grey())));
    world.add(Arc::new(Sphere::new(v3(0., 0., -1.), num(0.5), grey())));
    world
}

fn wide_camera() -> Camera {
    Camera::new(
        v3(0., 0., 0.),
        v3(0., 0., -1.),
        v3(0., 1., 0.),
        num((90.0f64.to_radians() / 2.).tan()),
        num(2.0),
        num(0.0),
        num(1.0),
    )
}

#[test]
fn test_random_double() {
    let mut source = RandomSource::seeded(2024);
    let v1 = random_double(&mut source);
    let v2 = random_double(&mut source);
    assert_ne!(v1, v2);
}

#[test]
fn random_numbers_lie_in_their_range() {
    let mut source = RandomSource::seeded(5);
    for _ in 0..2000 {
        let u = val(random_double(&mut source));
        assert!(0.0 <= u && u < 1.0);
        let r = val(random_double_range(&mut source, num(-3.0), num(7.5)));
        assert!(-3.0 <= r && r < 7.5);
    }
    let v = Vec3::random(&mut source);
    assert!(arr(v).iter().all(|c| 0.0 <= *c && *c < 1.0));
    let w = Vec3::random_range(&mut source, num(2.0), num(3.0));
    assert!(arr(w).iter().all(|c| 2.0 <= *c && *c < 3.0));
}

#[test]
fn a_unit_sample_is_the_upper_bits_of_its_word() {
    assert_eq!(val(unit_sample(0)), 0.0);
    assert_eq!(val(unit_sample(2047)), 0.0);
    assert_eq!(val(unit_sample(2048)), 1.0 / 9007199254740992.0);
    assert_eq!(val(unit_sample(1 << 63)), 0.5);
    assert_eq!(val(unit_sample(u64::MAX)), 1.0 - 1.0 / 9007199254740992.0);
}

#[test]
fn the_same_seed_gives_the_same_numbers() {
    let mut a = RandomSource::seeded(99);
    let mut b = RandomSource::seeded(99);
    let mut c = RandomSource::seeded(100);
    let mut differs = false;
    for _ in 0..50 {
        let x = a.word();
        assert_eq!(x, b.word());
        differs = differs || x != c.word();
    }
    assert!(differs);
}

#[test]
fn samplers_stay_inside() {
    let mut source = RandomSource::seeded(17);
    for _ in 0..500 {
        let p = arr(random_in_unit_sphere(&mut source));
        assert!(dot(p, p) < 1.0);
        let d = arr(random_in_unit_disk(&mut source));
        assert!(dot(d, d) < 1.0);
        assert_eq!(d[2], 0.0);
        let u = arr(random_unit_vector(&mut source));
        assert!((dot(u, u).sqrt() - 1.0).abs() < 1e-12);
    }
}

#[test]
fn vector_algebra_holds_on_examples() {
    let a = v3(1.5, -2.25, 3.0);
    let b = v3(0.5, 4.0, -1.0);
    assert_eq!((a + b) - b, a);
    assert_eq!(a.dot(&b), b.dot(&a));
    assert_eq!(val(a.dot(&b)), 1.5 * 0.5 + -2.25 * 4.0 + 3.0 * -1.0);
    assert_eq!(a.cross(&a), v3(0., 0., 0.));
    assert_eq!(arr(a.cross(&b)), [-2.25 * -1.0 - 3.0 * 4.0, 3.0 * 0.5 - 1.5 * -1.0, 1.5 * 4.0 - -2.25 * 0.5]);
    assert!((val(a.unit_vector().length()) - 1.0).abs() < 1e-15);
    assert_eq!(val(a.length_squared()), 1.5 * 1.5 + 2.25 * 2.25 + 9.0);
    assert_eq!(val(a.length()), (1.5f64 * 1.5 + 2.25 * 2.25 + 9.0).sqrt());
    assert_eq!(arr(-a), [-1.5, 2.25, -3.0]);
    assert_eq!(arr(v3(4., 9., 2.).sqrt()), [2.0, 3.0, 2.0f64.sqrt()]);
    assert_eq!(arr(num(2.) * a), [3.0, -4.5, 6.0]);
    assert_eq!(arr(a / num(2.)), [0.75, -1.125, 1.5]);
    assert_eq!(arr(num(3.) / b), [6.0, 0.75, -3.0]);
    assert_eq!(arr(a + num(1.)), [2.5, -1.25, 4.0]);
    assert_eq!(arr(num(1.) - a), [-0.5, 3.25, -2.0]);
    assert_eq!((val(a.x()), val(a.y()), val(a.z())), (1.5, -2.25, 3.0));
}

#[test]
fn the_zero_vector_has_no_direction() {
    let u = v3(0., 0., 0.).unit_vector();
    assert!(val(u.0).is_nan() && val(u.1).is_nan() && val(u.2).is_nan());
}

#[test]
fn near_zero_is_below_a_hundred_millionth() {
    assert!(v3(9e-9, -9e-9, 0.0).near_zero());
    assert!(!v3(1e-8, 0.0, 0.0).near_zero());
    assert!(!v3(0.0, 0.0, -2e-8).near_zero());
    assert!(!v3(f64::NAN, 0.0, 0.0).near_zero());
}

#[test]
fn reflect_mirrors_and_refract_bends() {
    let v = unit([1.0, -1.0, 0.3]);
    let n = [0.0, 1.0, 0.0];
    let vv = v3(v[0], v[1], v[2]);
    let nn = v3(0., 1., 0.);
    let d = 2. * dot(v, n);
    assert_eq!(arr(reflect(&vv, &nn)), [v[0] - d * n[0], v[1] - d * n[1], v[2] - d * n[2]]);
    let eta = 1.0 / 1.5;
    let cos_theta = dot([-v[0], -v[1], -v[2]], n).min(1.);
    let perp = [eta * (v[0] + cos_theta * n[0]), eta * (v[1] + cos_theta * n[1]), eta * (v[2] + cos_theta * n[2])];
    let k = -((1.0 - dot(perp, perp)).abs().sqrt());
    let expect = [k * n[0] + perp[0], k * n[1] + perp[1], k * n[2] + perp[2]];
    assert_eq!(arr(refract(&vv, &nn, num(eta))), expect);
}

#[test]
fn degrees_turn_into_radians() {
    assert_eq!(val(pi()), std::f64::consts::PI);
    assert_eq!(val(degrees_to_radians(num(20.))), 20. * std::f64::consts::PI / 180.);
    assert_eq!(val(degrees_to_radians(num(90.))), 90.0f64 * std::f64::consts::PI / 180.);
}

#[test]
fn clamp_holds_to_the_range() {
    assert_eq!(val(clamp(num(-1.), num(0.), num(0.999))), 0.0);
    assert_eq!(val(clamp(num(2.), num(0.), num(0.999))), 0.999);
    assert_eq!(val(clamp(num(0.25), num(0.), num(0.999))), 0.25);
    assert!(val(clamp(num(f64::NAN), num(0.), num(0.999))).is_nan());
}

#[test]
fn numbers_from_ratios_are_the_literals() {
    assert_eq!(val(Real::from_ratio(1, 1000)), 0.001);
    assert_eq!(val(Real::from_ratio(999, 1000)), 0.999);
    assert_eq!(val(Real::from_ratio(25599, 100)), 255.99);
    assert_eq!(val(Real::from_ratio(1, 100_000_000)), 1e-8);
    assert_eq!(val(Real::from_ratio(7, 10)), 0.7);
    assert_eq!(val(Real::from_ratio(1, 2)), 0.5);
    assert_eq!(val(Real::from_i64(-11)), -11.0);
    assert_eq!(val(Real::infinity()), f64::INFINITY);
    assert!(val(Real::from_ratio(0, 0)).is_nan());
    assert_eq!(val(num(1.5).fifth_power()), 1.5 * ((1.5 * 1.5) * (1.5 * 1.5)));
    assert_eq!(val(num(3.).min(num(1.))), 1.0);
    assert_eq!(val(num(f64::NAN).min(num(1.))), 1.0);
    assert_eq!(val(num(0.5).min(num(1.))), 0.5);
    assert!(num(1.).lt(num(2.)) && num(2.).gt(num(1.)) && num(1.).le(num(1.)) && num(1.).ge(num(1.)));
    assert!(num(f64::NAN).is_nan() && !num(1.).is_nan() && num(1.).is_finite() && !Real::infinity().is_finite());
    assert_eq!(val(num(-2.5).abs()), 2.5);
    assert_eq!(num(200.7).to_byte(), 200);
}

#[test]
fn a_ray_is_a_line() {
    let r = Ray::new(v3(1., 2., 3.), v3(0.5, 0., -2.));
    assert_eq!(arr(*r.origin()), [1., 2., 3.]);
    assert_eq!(arr(*r.direction()), [0.5, 0., -2.]);
    assert_eq!(arr(r.at(num(2.5))), [1. + 2.5 * 0.5, 2., 3. + 2.5 * -2.]);
}

#[test]
fn a_ray_through_the_centre_hits_at_the_surface() {
    let s = Sphere::new(v3(0., 0., -1.), num(0.5), grey());
    let r = Ray::new(v3(0., 0., 0.), v3(0., 0., -1.));
    let entry = s.hit(&r, num(0.001), num(f64::INFINITY)).unwrap();
    assert_eq!(val(entry.t), 0.5);
    assert_eq!(arr(entry.p), [0., 0., -0.5]);
    assert_eq!(arr(entry.normal), [0., 0., 1.]);
    assert!(entry.front_face);
    let exit = s.hit(&r, num(0.6), num(f64::INFINITY)).unwrap();
    assert_eq!(val(exit.t), 1.5);
    assert_eq!(arr(exit.normal), [0., 0., 1.]);
    assert!(!exit.front_face);
    assert!(s.hit(&r, num(0.6), num(1.4)).is_none());
    assert!(s.hit(&r, num(1.6), num(f64::INFINITY)).is_none());
}

#[test]
fn a_tangent_ray_grazes_and_a_far_ray_misses() {
    let s = Sphere::new(v3(0., 0., -1.), num(0.5), grey());
    let tangent = Ray::new(v3(0.5, 0., 0.), v3(0., 0., -1.));
    let rec = s.hit(&tangent, num(0.001), num(f64::INFINITY)).unwrap();
    assert_eq!(val(rec.t), 1.0);
    assert_eq!(arr(rec.p), [0.5, 0., -1.]);
    let miss = Ray::new(v3(2., 0., 0.), v3(0., 0., -1.));
    assert!(s.hit(&miss, num(0.001), num(f64::INFINITY)).is_none());
    let away = Ray::new(v3(0., 0., 0.), v3(0., 0., 1.));
    assert!(s.hit(&away, num(0.001), num(f64::INFINITY)).is_none());
}

#[test]
fn a_hit_agrees_with_the_formula() {
    let s = Sphere::new(v3(0.3, -0.2, -2.), num(0.7), grey());
    let o = [0.1, 0.05, 0.2];
    let d = [0.07, -0.1, -1.3];
    let r = Ray::new(v3(o[0], o[1], o[2]), v3(d[0], d[1], d[2]));
    let rec = s.hit(&r, num(0.001), num(f64::INFINITY)).unwrap();
    let oc = [o[0] - 0.3, o[1] - -0.2, o[2] - -2.];
    let a = dot(d, d);
    let half_b = dot(oc, d);
    let c = dot(oc, oc) - 0.7 * 0.7;
    let disc = half_b * half_b - a * c;
    let t = (-half_b - disc.sqrt()) / a;
    assert_eq!(val(rec.t), t);
    let p = [o[0] + t * d[0], o[1] + t * d[1], o[2] + t * d[2]];
    assert_eq!(arr(rec.p), p);
    assert_eq!(arr(rec.normal), [(p[0] - 0.3) / 0.7, (p[1] - -0.2) / 0.7, (p[2] - -2.) / 0.7]);
}

#[test]
fn the_normal_faces_the_ray() {
    let mut source = RandomSource::seeded(23);
    let s = Sphere::new(v3(0., 0., 0.), num(1.), grey());
    let hollow = Sphere::new(v3(0., 0., 0.), num(-1.), grey());
    let mut hits = 0;
    for _ in 0..300 {
        let o = Vec3::random_range(&mut source, num(-3.), num(3.));
        let d = Vec3::random_range(&mut source, num(-1.), num(1.)) - o;
        let r = Ray::new(o, d);
        for sphere in [&s, &hollow] {
            if let Some(rec) = sphere.hit(&r, num(0.001), num(f64::INFINITY)) {
                hits += 1;
                assert!(val(d.dot(&rec.normal)) <= 0.0);
                assert!(val(rec.t) >= 0.001);
            }
        }
    }
    assert!(hits > 50);
}

#[test]
fn a_hollow_sphere_turns_its_normal() {
    let hollow = Sphere::new(v3(0., 0., -1.), num(-0.5), grey());
    let r = Ray::new(v3(0., 0., 0.), v3(0., 0., -1.));
    let rec = hollow.hit(&r, num(0.001), num(f64::INFINITY)).unwrap();
    assert_eq!(val(rec.t), 0.5);
    assert!(!rec.front_face);
    assert_eq!(arr(rec.normal), [0., 0., 1.]);
}

#[test]
fn a_record_turns_the_normal_against_the_ray() {
    let m = Material::Dielectric(Dielectric::new(num(1.5)));
    let r = Ray::new(v3(0., 0., 0.), v3(0., 0., -1.));
    let front = HitRecord::new(v3(0., 0., -1.), num(1.), v3(0., 0., 1.), r, &m);
    assert!(front.front_face);
    assert_eq!(arr(front.normal), [0., 0., 1.]);
    let back = HitRecord::new(v3(0., 0., -1.), num(1.), v3(0., 0., -1.), r, &m);
    assert!(!back.front_face);
    assert_eq!(arr(back.normal), [0., 0., 1.]);
    assert_eq!(val(back.t), 1.);
}

#[test]
fn a_list_gives_the_nearest_hit() {
    let mut world: HittableList<Sphere> = HittableList::new();
    let r = Ray::new(v3(0., 0., 0.), v3(0., 0., -1.));
    assert!(world.hit(&r, num(0.001), num(f64::INFINITY)).is_none());
    world.add(Arc::new(Sphere::new(v3(0., 0., -5.), num(1.), grey())));
    world.add(Arc::new(Sphere::new(v3(0., 0., -2.), num(0.5), grey())));
    world.add(Arc::new(Sphere::new(v3(0., 0., -9.), num(1.), grey())));
    let rec = world.hit(&r, num(0.001), num(f64::INFINITY)).unwrap();
    assert_eq!(val(rec.t), 1.5);
    let rec = world.hit(&r, num(3.), num(f64::INFINITY)).unwrap();
    assert_eq!(val(rec.t), 4.0);
    assert!(world.hit(&r, num(3.), num(3.5)).is_none());
    world.clear();
    assert!(world.hit(&r, num(0.001), num(f64::INFINITY)).is_none());
    let mut nested: HittableList<HittableList<Sphere>> = HittableList::new();
    nested.add(Arc::new(two_spheres()));
    assert_eq!(val(nested.hit(&r, num(0.001), num(f64::INFINITY)).unwrap().t), 0.5);
}

#[test]
fn lambertian_keeps_its_albedo_and_leaves_from_the_hit() {
    let m = Lambertian::new(&v3(0.8, 0.3, 0.1));
    let holder = Material::Lambertian(Lambertian::new(&v3(0.8, 0.3, 0.1)));
    let r = Ray::new(v3(0., 0., 0.), v3(0., 0., -1.));
    let rec = HitRecord::new(v3(0., 0., -1.), num(1.), v3(0., 0., 1.), r, &holder);
    let (attenuation, scattered) = m.scatter_along(&rec, v3(0.6, 0., 0.8));
    assert_eq!(arr(attenuation), [0.8, 0.3, 0.1]);
    assert_eq!(arr(scattered.orig), [0., 0., -1.]);
    assert_eq!(arr(scattered.dir), [0.6, 0., 0.8 + 1.0]);
    let (_, degenerate) = m.scatter_along(&rec, v3(0., 0., -1.));
    assert_eq!(arr(degenerate.dir), [0., 0., 1.]);
    let mut source = RandomSource::seeded(3);
    for _ in 0..100 {
        let (a, s) = m.scatter(&rec, &mut source).unwrap();
        assert_eq!(arr(a), [0.8, 0.3, 0.1]);
        assert_eq!(arr(s.orig), [0., 0., -1.]);
        assert!(val(s.dir.dot(&rec.normal)) >= 0.0);
    }
}

#[test]
fn polished_metal_mirrors() {
    let m = Metal::new(&v3(0.7, 0.6, 0.5), num(0.0));
    let holder = Material::Metal(Metal::new(&v3(0.7, 0.6, 0.5), num(0.0)));
    let d = [1.0, -1.0, 0.0];
    let r = Ray::new(v3(-1., 1., 0.), v3(d[0], d[1], d[2]));
    let rec = HitRecord::new(v3(0., 0., 0.), num(1.), v3(0., 1., 0.), r, &holder);
    let mut source = RandomSource::seeded(8);
    let u = unit(d);
    let k = 2. * dot(u, [0., 1., 0.]);
    let mirror = [u[0], u[1] - k, u[2]];
    for _ in 0..50 {
        let (a, s) = m.scatter(&r, &rec, &mut source).unwrap();
        assert_eq!(arr(a), [0.7, 0.6, 0.5]);
        assert_eq!(arr(s.orig), [0., 0., 0.]);
        assert_eq!(arr(s.dir), mirror);
    }
    let (_, s) = m.scatter_along(&r, &rec, v3(0.3, 0.2, -0.1)).unwrap();
    assert_eq!(arr(s.dir), mirror);
}

#[test]
fn fuzz_is_held_to_one_and_drives_rays_into_the_surface() {
    assert_eq!(val(Metal::new(&v3(1., 1., 1.), num(0.3)).fuzz), 0.3);
    assert_eq!(val(Metal::new(&v3(1., 1., 1.), num(7.)).fuzz), 1.0);
    assert_eq!(val(Metal::new(&v3(1., 1., 1.), num(f64::NAN)).fuzz), 1.0);
    let m = Metal::new(&v3(1., 1., 1.), num(1.0));
    let holder = Material::Metal(Metal::new(&v3(1., 1., 1.), num(1.0)));
    let r = Ray::new(v3(-1., 0.1, 0.), v3(1., -0.1, 0.));
    let rec = HitRecord::new(v3(0., 0., 0.), num(1.), v3(0., 1., 0.), r, &holder);
    assert!(m.scatter_along(&r, &rec, v3(0., -0.9, 0.)).is_none());
    let (_, s) = m.scatter_along(&r, &rec, v3(0., 0.5, 0.)).unwrap();
    assert!(val(s.dir.dot(&rec.normal)) > 0.0);
}

#[test]
fn glass_refracts_a_perpendicular_ray_and_mirrors_a_grazing_one() {
    let m = Dielectric::new(num(1.5));
    let holder = Material::Dielectric(Dielectric::new(num(1.5)));
    // straight down onto a flat surface from outside
    let r = Ray::new(v3(0., 1., 0.), v3(0., -1., 0.));
    let rec = HitRecord::new(v3(0., 0., 0.), num(1.), v3(0., 1., 0.), r, &holder);
    assert!(rec.front_face);
    assert!(!m.total_reflection(&r, &rec));
    // the reflectance is 0.04, so a draw of one half refracts
    assert_eq!(val(Dielectric::reflectance(num(1.0), num(1.5))), 0.04000000000000001);
    let (a, s) = m.scatter_along(&r, &rec, num(0.5));
    assert_eq!(arr(a), [1., 1., 1.]);
    assert_eq!(arr(s.orig), [0., 0., 0.]);
    assert_eq!(arr(s.dir), [0., -1., 0.]);
    // a draw below the reflectance mirrors
    let (_, s) = m.scatter_along(&r, &rec, num(0.01));
    assert_eq!(arr(s.dir), [0., 1., 0.]);
    // from inside, far beyond the critical angle of about 41.8 degrees
    let d = unit([1.0, 0.2, 0.0]);
    let inside = Ray::new(v3(-1., -0.2, 0.), v3(d[0], d[1], d[2]));
    let rec = HitRecord::new(v3(0., 0., 0.), num(1.), v3(0., 1., 0.), inside, &holder);
    assert!(!rec.front_face);
    assert_eq!(arr(rec.normal), [0., -1., 0.]);
    assert!(m.total_reflection(&inside, &rec));
    let mut source = RandomSource::seeded(1);
    for _ in 0..50 {
        let (a, s) = m.scatter(&inside, &rec, &mut source).unwrap();
        assert_eq!(arr(a), [1., 1., 1.]);
        let u = unit(d);
        let k = 2. * dot(u, [0., -1., 0.]);
        assert_eq!(arr(s.dir), [u[0] - k * 0., u[1] - k * -1., u[2] - k * 0.]);
    }
    for xi in [0.0, 0.3, 0.999] {
        let (_, s) = m.scatter_along(&inside, &rec, num(xi));
        assert!(val(s.dir.1) < 0.0);
    }
}

#[test]
fn reflectance_follows_schlick() {
    let c = 0.3f64;
    let idx = 1.5f64;
    let r0 = (1. - idx) / (1. + idx);
    let r0 = r0 * r0;
    let x = 1. - c;
    let expect = r0 + (1. - r0) * (x * ((x * x) * (x * x)));
    assert_eq!(val(Dielectric::reflectance(num(c), num(idx))), expect);
}

#[test]
fn the_materials_scatter_through_their_sum() {
    let mut source = RandomSource::seeded(4);
    let r = Ray::new(v3(0., 1., 0.), v3(0., -1., 0.));
    for m in [
        Material::Lambertian(Lambertian::new(&v3(0.1, 0.2, 0.3))),
        Material::Metal(Metal::new(&v3(0.1, 0.2, 0.3), num(0.))),
        Material::Dielectric(Dielectric::new(num(1.5))),
    ] {
        let rec = HitRecord::new(v3(0., 0., 0.), num(1.), v3(0., 1., 0.), r, &m);
        let (a, s) = m.scatter(&r, &rec, &mut source).unwrap();
        assert_eq!(arr(s.orig), [0., 0., 0.]);
        match m {
            Material::Dielectric(_) => assert_eq!(arr(a), [1., 1., 1.]),
            _ => assert_eq!(arr(a), [0.1, 0.2, 0.3]),
        }
    }
}

#[test]
fn the_camera_spans_its_screen() {
    let cam = wide_camera();
    let h = (90.0f64.to_radians() / 2.).tan();
    assert_eq!(arr(cam.origin), [0., 0., 0.]);
    assert_eq!(arr(cam.w), [0., 0., 1.]);
    assert_eq!(arr(cam.u), [1., 0., 0.]);
    assert_eq!(arr(cam.v), [0., 1., 0.]);
    assert_eq!(arr(cam.horizontal), [2. * (2. * h), 0., 0.]);
    assert_eq!(arr(cam.vertical), [0., 2. * h, 0.]);
    assert_eq!(val(cam.lens_radius), 0.);
    let llc = arr(cam.lower_left_corner);
    assert_eq!(llc, [0. - (2. * (2. * h)) / 2. - 0., 0. - 0. - (2. * h) / 2., -1.]);
    let mut source = RandomSource::seeded(1);
    let r = cam.get_ray(num(0.5), num(0.5), &mut source);
    assert_eq!(arr(r.orig), [0., 0., 0.]);
    let d = arr(r.dir);
    assert!(d[0].abs() < 1e-15 && d[1].abs() < 1e-15 && d[2] == -1.);
    let corner = cam.get_ray(num(0.), num(0.), &mut source);
    assert_eq!(arr(corner.dir), llc);
    let beyond = cam.get_ray(num(1.5), num(-0.5), &mut source);
    assert!(val(beyond.dir.0) > val(cam.horizontal.0) / 2. && val(beyond.dir.1) < llc[1]);
}

#[test]
fn a_lens_moves_the_origin_within_its_radius() {
    let cam = Camera::new(
        v3(13., 2., 3.),
        v3(0., 0., 0.),
        v3(0., 1., 0.),
        num((20.0f64.to_radians() / 2.).tan()),
        num(1.5),
        num(0.1),
        num(10.),
    );
    assert_eq!(val(cam.lens_radius), 0.05);
    let mut source = RandomSource::seeded(12);
    let mut moved = false;
    for _ in 0..50 {
        let r = cam.get_ray(num(0.3), num(0.6), &mut source);
        let o = arr(r.orig);
        let off = [o[0] - 13., o[1] - 2., o[2] - 3.];
        assert!(dot(off, off).sqrt() <= 0.05 + 1e-12);
        moved = moved || dot(off, off) > 0.;
        // every ray of one screen point meets the plane of focus in one place
        let target = [o[0] + val(r.dir.0), o[1] + val(r.dir.1), o[2] + val(r.dir.2)];
        let central = cam.ray_through(num(0.3), num(0.6), v3(0., 0., 0.));
        let c = arr(central.dir);
        assert!((target[0] - (13. + c[0])).abs() < 1e-12);
        assert!((target[1] - (2. + c[1])).abs() < 1e-12);
        assert!((target[2] - (3. + c[2])).abs() < 1e-12);
    }
    assert!(moved);
}

#[test]
fn depth_zero_is_black() {
    let world = two_spheres();
    let mut source = RandomSource::seeded(0);
    for d in [v3(0., 0., -1.), v3(0., 1., 0.), v3(0., -1., 0.), v3(1., 2., 3.)] {
        let c = ray_color(&Ray::new(v3(0., 0., 0.), d), &world, 0, &mut source);
        assert_eq!(arr(c), [0., 0., 0.]);
    }
    let empty: HittableList<Sphere> = HittableList::new();
    assert_eq!(arr(ray_color(&Ray::new(v3(0., 0., 0.), v3(0., 1., 0.)), &empty, 0, &mut source)), [0., 0., 0.]);
}

#[test]
fn a_miss_shows_the_sky() {
    let world = two_spheres();
    let mut source = RandomSource::seeded(0);
    let up = Ray::new(v3(0., 0., 0.), v3(0., 1., 0.));
    assert_eq!(arr(ray_color(&up, &world, 5, &mut source)), [0.5, 0.7, 1.0]);
    assert_eq!(arr(background(&up)), [0.5, 0.7, 1.0]);
    let slanted = Ray::new(v3(0., 0., 0.), v3(3., 4., 0.));
    let t = 0.5 * (unit([3., 4., 0.])[1] + 1.);
    let expect = [(1. - t) * 1. + t * 0.5, (1. - t) * 1. + t * 0.7, (1. - t) * 1. + t * 1.0];
    assert_eq!(arr(ray_color(&slanted, &world, 5, &mut source)), expect);
}

#[test]
fn a_hit_at_depth_one_is_black_and_deeper_is_lit() {
    let world = two_spheres();
    let mut source = RandomSource::seeded(6);
    let r = Ray::new(v3(0., 0., 0.), v3(0., 0., -1.));
    assert_eq!(arr(ray_color(&r, &world, 1, &mut source)), [0., 0., 0.]);
    let mut lit = 0;
    for _ in 0..20 {
        let c = arr(ray_color(&r, &world, 50, &mut source));
        assert!(c.iter().all(|x| 0. <= *x && *x <= 1.));
        if c[2] > 0. {
            lit += 1;
        }
    }
    assert!(lit > 10);
}

fn is_sky(p: &RGB) -> bool {
    // the sky runs from white to (0.5, 0.7, 1.0): blue is full, red at least a half
    p.2 >= 250 && p.0 >= 170
}

#[test]
fn two_spheres_show_a_disk_before_the_sky() {
    let world = two_spheres();
    let cam = wide_camera();
    let mut source = RandomSource::seeded(42);
    let image = render(&cam, &world, 20, 10, 1, 1, &mut source);
    assert_eq!((image.width, image.height), (20, 10));
    assert_eq!(image.pixels.len(), 10);
    let black = RGB(0, 0, 0);
    // every pixel is sky or, where a sphere was hit, black
    for row in &image.pixels {
        assert_eq!(row.len(), 20);
        for p in row {
            assert!(is_sky(p) || *p == black, "{:?}", p);
        }
    }
    // the top is all sky
    for row in 0..2 {
        assert!(image.pixels[row].iter().all(is_sky));
    }
    // above the horizon the small sphere shows as one run of pixels about the middle
    let mut widest = 0;
    for row in 0..5 {
        let hit: Vec<usize> = (0..20).filter(|i| image.pixels[row][*i] == black).collect();
        if let (Some(first), Some(last)) = (hit.first(), hit.last()) {
            assert_eq!(hit.len(), last - first + 1);
            assert!(*first >= 6 && *last <= 13);
            assert!(hit.len() >= widest);
            widest = hit.len();
        }
    }
    assert!(widest >= 3);
    assert_eq!(image.pixels[4][9], black);
    assert_eq!(image.pixels[4][10], black);
    // to the sides of the sphere, above the horizon, the sky
    assert!(is_sky(&image.pixels[3][0]) && is_sky(&image.pixels[3][19]));
    // the ground fills the bottom
    assert!(image.pixels[9].iter().all(|p| *p == black));
}

#[test]
fn the_same_seed_gives_the_same_image() {
    let world = two_spheres();
    let cam = Camera::new(
        v3(3., 3., 2.),
        v3(0., 0., -1.),
        v3(0., 1., 0.),
        num((20.0f64.to_radians() / 2.).tan()),
        num(2.0),
        num(2.0),
        num(5.2),
    );
    let first = render(&cam, &world, 16, 8, 4, 8, &mut RandomSource::seeded(7)).encode();
    let second = render(&cam, &world, 16, 8, 4, 8, &mut RandomSource::seeded(7)).encode();
    let other = render(&cam, &world, 16, 8, 4, 8, &mut RandomSource::seeded(8)).encode();
    assert_eq!(first, second);
    assert_ne!(first, other);
    assert!(first.starts_with(b"P3\n16 8\n255\n"));
}

#[test]
fn rows_are_rendered_one_by_one() {
    let world = two_spheres();
    let cam = wide_camera();
    let whole = render(&cam, &world, 12, 6, 2, 3, &mut RandomSource::seeded(5));
    let mut source = RandomSource::seeded(5);
    for row in 0..6u32 {
        let pixels = render_row(&cam, &world, 6 - 1 - row, 12, 6, 2, 3, &mut source);
        assert_eq!(pixels, whole.pixels[row as usize]);
    }
}

#[test]
fn an_image_is_black_at_first() {
    let image = PPM::new(3, 2);
    assert_eq!((image.width, image.height), (3, 2));
    assert_eq!(image.pixels, vec![vec![RGB(0, 0, 0); 3]; 2]);
    assert_eq!(PPM::new(0, 0).encode(), b"P3\n0 0\n255\n".to_vec());
    assert_eq!(PPM::new(2, 0).encode(), b"P3\n2 0\n255\n".to_vec());
    assert_eq!(PPM::new(0, 2).encode(), b"P3\n0 2\n255\n\n\n".to_vec());
}

#[test]
fn an_image_is_written_row_by_row() {
    let mut image = PPM::new(2, 2);
    image.put(0, 0, RGB(255, 0, 7));
    image.put(0, 1, RGB(1, 20, 123));
    image.set(1, 0, v3(0.5, 1.0, 0.0));
    image.set_with_samples(1, 1, v3(1.0, 4.0, 0.25), 4);
    assert_eq!(image.pixels[1][0], RGB(127, 255, 0));
    // means 0.25, 1, 0.0625; roots 0.5, 1 held to 0.999, 0.25
    assert_eq!(image.pixels[1][1], RGB(128, 255, 64));
    let text = String::from_utf8(image.encode()).unwrap();
    assert_eq!(text, "P3\n2 2\n255\n255 0 7 1 20 123 \n127 255 0 128 255 64 \n");
}

#[test]
fn samples_are_averaged_then_rooted_then_held() {
    let mut image = PPM::new(1, 1);
    for (sum, n) in [(0.0f64, 1u32), (3.0, 100), (50.0, 100), (99.9, 100), (250.0, 100), (-4.0, 2), (f64::NAN, 3), (2.0, 0)] {
        image.set_with_samples(0, 0, v3(sum, sum, sum), n);
        let held = {
            let g = (sum / n as f64).sqrt();
            if g < 0. { 0. } else if g > 0.999 { 0.999 } else { g }
        };
        let expect = (256. * held) as u8;
        assert_eq!(image.pixels[0][0], RGB(expect, expect, expect), "{} / {}", sum, n);
    }
}

#[test]
fn test_generate_img() {
    let width = 256;
    let height = 256;
    let mut image = PPM::new(width, height);
    let b = 0.25;
    for j in (0..height).rev() {
        for i in 0..width {
            let r = i as f64 / (width as f64 - 1.);
            let g = j as f64 / (height as f64 - 1.);
            image.set((height - j - 1) as usize, i as usize, v3(r, g, b));
        }
    }
    let mut content = String::new();
    content.push_str("P3\n");
    content.push_str(&format!("{} {}\n", width, height));
    content.push_str("255\n");
    for j in (0..height).rev() {
        for i in 0..width {
            let r = i as f64 / (width as f64 - 1.);
            let g = j as f64 / (height as f64 - 1.);
            content.push_str(&format!(
                "{} {} {} ",
                (r * 255.99) as u8,
                (g * 255.99) as u8,
                (b * 255.99) as u8
            ));
        }
        content.push('\n');
    }
    assert!(image.encode() == content.into_bytes());
}

#[test]
fn a_random_scene_has_its_ground_and_its_three_large_spheres() {
    let world = random_scene(&mut RandomSource::seeded(31));
    let n = world.objects.len();
    assert!(n >= 4 && n <= 4 + 23 * 23);
    assert!(n > 400);
    let ground = &world.objects[0];
    assert_eq!(arr(ground.center), [0., -1000., 0.]);
    assert_eq!(val(ground.radius), 1000.);
    assert!(matches!(&*ground.mat_ptr, Material::Lambertian(m) if arr(m.albedo) == [0.5, 0.5, 0.5]));
    let glass = &world.objects[n - 3];
    assert_eq!((arr(glass.center), val(glass.radius)), ([0., 1., 0.], 1.));
    assert!(matches!(&*glass.mat_ptr, Material::Dielectric(m) if val(m.ir) == 1.5));
    let brown = &world.objects[n - 2];
    assert_eq!((arr(brown.center), val(brown.radius)), ([-4., 1., 0.], 1.));
    assert!(matches!(&*brown.mat_ptr, Material::Lambertian(m) if arr(m.albedo) == [0.4, 0.2, 0.1]));
    let metal = &world.objects[n - 1];
    assert_eq!((arr(metal.center), val(metal.radius)), ([4., 1., 0.], 1.));
    assert!(matches!(&*metal.mat_ptr, Material::Metal(m) if arr(m.albedo) == [0.7, 0.6, 0.5] && val(m.fuzz) == 0.));
    let mut kinds = [0, 0, 0];
    for s in &world.objects[1..n - 3] {
        assert_eq!(val(s.radius), 0.2);
        let c = arr(s.center);
        assert_eq!(c[1], 0.2);
        assert!(-11. <= c[0] && c[0] < 11.9 && -11. <= c[2] && c[2] < 11.9);
        let off = [c[0] - 4., c[1] - 0.2, c[2]];
        assert!(dot(off, off).sqrt() > 0.9);
        match &*s.mat_ptr {
            Material::Lambertian(m) => {
                kinds[0] += 1;
                assert!(arr(m.albedo).iter().all(|x| 0. <= *x && *x < 1.));
            }
            Material::Metal(m) => {
                kinds[1] += 1;
                assert!(arr(m.albedo).iter().all(|x| 0.5 <= *x && *x < 1.));
                assert!(0. <= val(m.fuzz) && val(m.fuzz) < 0.5);
            }
            Material::Dielectric(m) => {
                kinds[2] += 1;
                assert_eq!(val(m.ir), 1.5);
            }
        }
    }
    assert!(kinds[0] > kinds[1] && kinds[1] > kinds[2] && kinds[2] > 0);
}

#[test]
fn a_row_takes_the_place_of_a_row() {
    let mut image = PPM::new(2, 3);
    image.put_row(1, vec![RGB(1, 2, 3), RGB(4, 5, 6)]);
    assert_eq!(image.pixels[0], vec![RGB(0, 0, 0); 2]);
    assert_eq!(image.pixels[1], vec![RGB(1, 2, 3), RGB(4, 5, 6)]);
    assert_eq!(image.pixels[2], vec![RGB(0, 0, 0); 2]);
    assert_eq!(image.encode(), b"P3\n2 3\n255\n0 0 0 0 0 0 \n1 2 3 4 5 6 \n0 0 0 0 0 0 \n".to_vec());
}

#[test]
fn a_list_is_no_farther_than_any_of_its_spheres() {
    let mut source = RandomSource::seeded(77);
    let mut world: HittableList<Sphere> = HittableList::new();
    let mut spheres = Vec::new();
    for _ in 0..12 {
        let c = Vec3::random_range(&mut source, num(-2.), num(2.)) + v3(0., 0., -4.);
        let radius = random_double_range(&mut source, num(0.2), num(1.5));
        spheres.push(Arc::new(Sphere::new(c, radius, grey())));
        world.add(spheres[spheres.len() - 1].clone());
    }
    let mut seen = 0;
    for _ in 0..200 {
        let d = Vec3::random_range(&mut source, num(-0.7), num(0.7)) + v3(0., 0., -1.);
        let r = Ray::new(v3(0., 0., 0.), d);
        let found = world.hit(&r, num(0.001), num(f64::INFINITY));
        let mut nearest = f64::INFINITY;
        for s in &spheres {
            if let Some(alone) = s.hit(&r, num(0.001), num(f64::INFINITY)) {
                nearest = nearest.min(val(alone.t));
            }
        }
        match found {
            Some(rec) => {
                seen += 1;
                assert_eq!(val(rec.t), nearest);
            }
            None => assert_eq!(nearest, f64::INFINITY),
        }
    }
    assert!(seen > 50);
}

#[test]
fn light_that_enters_glass_can_be_refracted() {
    let m = Dielectric::new(num(1.5));
    let holder = Material::Dielectric(Dielectric::new(num(1.5)));
    let mut source = RandomSource::seeded(13);
    for _ in 0..300 {
        // onto the plane y = 0 from above, at any angle
        let d = Vec3::random_range(&mut source, num(-1.), num(1.));
        let d = Vec3(d.0, -d.1.abs(), d.2);
        let r = Ray::new(v3(0., 1., 0.), d);
        let rec = HitRecord::new(v3(0., 0., 0.), num(1.), v3(0., 1., 0.), r, &holder);
        if rec.front_face {
            assert!(!m.total_reflection(&r, &rec));
        }
    }
    let grazing = Ray::new(v3(-1., 1e-9, 0.), v3(1., -1e-9, 0.));
    let rec = HitRecord::new(v3(0., 0., 0.), num(1.), v3(0., 1., 0.), grazing, &holder);
    assert!(rec.front_face && !m.total_reflection(&grazing, &rec));
}

fn first_word_of(seed: u64) -> u64 {
    rand::RngCore::next_u64(&mut <rand::rngs::StdRng as rand::SeedableRng>::seed_from_u64(seed))
}

#[test]
fn a_source_gives_the_first_words_of_seeded_generators() {
    let first = first_word_of;
    for seed in [0u64, 1, 2, 7, u64::MAX] {
        let mut source = RandomSource::seeded(seed);
        assert_eq!(source.state, first(seed));
        let state = source.state;
        assert_ne!(state, seed);
        let w0 = source.word();
        assert_eq!(w0, first(state));
        assert_eq!(source.state, state.wrapping_add(1));
        let w1 = source.word();
        assert_eq!(w1, first(state.wrapping_add(1)));
        assert_ne!(w0, w1);
        assert_ne!(w0, state);
    }
    let mut last = RandomSource { state: u64::MAX };
    assert_eq!(last.word(), first(u64::MAX));
    assert_eq!(last.state, 0);
}

#[test]
fn the_whole_of_the_work_is_a_function_of_the_seed() {
    let world = two_spheres();
    let cam = wide_camera();
    let first = render_text(&cam, &world, 10, 5, 3, 4, 2024);
    let second = render_text(&cam, &world, 10, 5, 3, 4, 2024);
    let other = render_text(&cam, &world, 10, 5, 3, 4, 2025);
    assert_eq!(first, second);
    assert_ne!(first, other);
    let by_hand = render(&cam, &world, 10, 5, 3, 4, &mut RandomSource::seeded(2024)).encode();
    assert_eq!(first, by_hand);
}
