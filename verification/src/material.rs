//! Surface materials: how each sends an incoming ray on.

use vstd::prelude::*;
use core::ops::Neg;
use crate::number::Real;
use crate::vec3::{Color, Vec3, reflect, reflect_spec, refract, refract_spec, random_unit_vector, random_in_unit_sphere, draw_unit_vector, draw_in_ball, MAX_CANDIDATES};
use crate::ray::Ray;
use crate::hittable::HitRecord;
use crate::utils::{RandomSource, random_double, draw_unit};

verus! {

/// A diffuse surface.
pub struct Lambertian {
    pub albedo: Color,
}

/// A mirroring surface; `fuzz` in `[0, 1]` blurs the mirror image.
pub struct Metal {
    pub albedo: Color,
    pub fuzz: Real,
}

/// A clear surface that bends light, with index of refraction `ir`.
pub struct Dielectric {
    pub ir: Real,
}

/// The materials.
pub enum Material {
    Lambertian(Lambertian),
    Metal(Metal),
    Dielectric(Dielectric),
}

impl Lambertian {
    /// Where a ray goes from the hit `rec` when the random direction drawn is
    /// `unit`: along `normal + unit`, or along the normal where that sum is
    /// near zero. The attenuation is the albedo.
    pub open spec fn scattered(&self, rec: HitRecord, unit: Vec3) -> (Color, Ray) {
        let sum = rec.normal.plus(unit);
        let direction = if sum.near_zero_spec() {
            rec.normal
        } else {
            sum
        };
        (self.albedo, Ray { orig: rec.p, dir: direction })
    }

    /// What `scatter` gives, and the source after it.
    pub open spec fn scatter_spec(&self, rec: HitRecord, source: RandomSource) -> (
        Option<(Color, Ray)>,
        RandomSource,
    ) {
        (Some(self.scattered(rec, draw_unit_vector(source).0)), draw_unit_vector(source).1)
    }

    /// A diffuse surface of albedo `c`.
    pub fn new(c: &Color) -> (m: Self)
        ensures
            m.albedo == *c,
    {
        Lambertian { albedo: *c }
    }

    /// Where a ray goes when the random direction drawn is `unit`.
    pub fn scatter_along(&self, rec: &HitRecord, unit: Vec3) -> (res: (Color, Ray))
        ensures
            res == self.scattered(*rec, unit),
    {
        let mut scatter_direction = rec.normal + unit;
        if scatter_direction.near_zero() {
            scatter_direction = rec.normal;
        }
        (self.albedo, Ray::new(rec.p, scatter_direction))
    }

    /// Sends a ray on from the hit `rec` in a random direction about the
    /// normal. Nothing is absorbed.
    pub fn scatter(&self, rec: &HitRecord, source: &mut RandomSource) -> (res: Option<
        (Color, Ray),
    >)
        ensures
            (res, *final(source)) == self.scatter_spec(*rec, *old(source)),
            match res {
                Some((attenuation, scattered)) => attenuation == self.albedo && scattered.orig
                    == rec.p,
                None => false,
            },
    {
        let unit = random_unit_vector(source);
        Some(self.scatter_along(rec, unit))
    }
}

impl Metal {
    /// The mirror image of the incoming direction, made of length one first.
    pub open spec fn mirrored(r_in: Ray, rec: HitRecord) -> Vec3 {
        reflect_spec(r_in.dir.unit_vector_spec(), rec.normal)
    }

    /// Where a ray goes from the hit `rec` when the random point drawn from
    /// the unit ball is `offset`: along the mirror image plus `fuzz * offset`,
    /// unless that direction does not leave the surface, its dot product with
    /// the normal not being above zero. The attenuation is the albedo.
    pub open spec fn scattered(&self, r_in: Ray, rec: HitRecord, offset: Vec3) -> Option<
        (Color, Ray),
    > {
        let direction = Metal::mirrored(r_in, rec).plus(Vec3::splat(self.fuzz).times(offset));
        if Real::of_int(0).lt_spec(direction.dot_spec(rec.normal)) {
            Some((self.albedo, Ray { orig: rec.p, dir: direction }))
        } else {
            None
        }
    }

    /// What `scatter` gives, and the source after it.
    pub open spec fn scatter_spec(&self, r_in: Ray, rec: HitRecord, source: RandomSource) -> (
        Option<(Color, Ray)>,
        RandomSource,
    ) {
        let (offset, after) = draw_in_ball(source, MAX_CANDIDATES as nat);
        (self.scattered(r_in, rec, offset), after)
    }

    /// A metal of fuzz `f`, or of fuzz one where `f` is not below one.
    pub fn new(c: &Color, f: Real) -> (m: Self)
        ensures
            m.albedo == *c,
            m.fuzz == (if f.lt_spec(Real::of_int(1)) {
                f
            } else {
                Real::of_int(1)
            }),
    {
        Metal {
            albedo: *c,
            fuzz: if f.lt(Real::from_i64(1)) {
                f
            } else {
                Real::from_i64(1)
            },
        }
    }

    /// Where a ray goes when the random point drawn is `offset`.
    pub fn scatter_along(&self, r_in: &Ray, rec: &HitRecord, offset: Vec3) -> (res: Option<
        (Color, Ray),
    >)
        ensures
            res == self.scattered(*r_in, *rec, offset),
    {
        let reflected = reflect(&r_in.direction().unit_vector(), &rec.normal);
        let scattered = Ray::new(rec.p, reflected + self.fuzz * offset);
        if scattered.direction().dot(&rec.normal).gt(Real::from_i64(0)) {
            Some((self.albedo, scattered))
        } else {
            None
        }
    }

    /// Mirrors the ray `r_in` at the hit `rec`, blurred by the fuzz; absorbs
    /// it where the blur drives it into the surface.
    pub fn scatter(&self, r_in: &Ray, rec: &HitRecord, source: &mut RandomSource) -> (res: Option<
        (Color, Ray),
    >)
        ensures
            (res, *final(source)) == self.scatter_spec(*r_in, *rec, *old(source)),
            match res {
                Some((attenuation, scattered)) => attenuation == self.albedo && scattered.orig
                    == rec.p,
                None => true,
            },
    {
        let offset = random_in_unit_sphere(source);
        self.scatter_along(r_in, rec, offset)
    }
}

/// Schlick's approximation of the share of light that a surface of index
/// `ref_idx` mirrors at an angle of cosine `cosine`:
/// `r0 + (1 - r0) * (1 - cosine)^5` with `r0 = ((1 - ref_idx) / (1 + ref_idx))^2`.
pub open spec fn reflectance_spec(cosine: Real, ref_idx: Real) -> Real {
    let one = Real::of_int(1);
    let root = one.minus(ref_idx).over(one.plus(ref_idx));
    let r0 = root.times(root);
    r0.plus(one.minus(r0).times(one.minus(cosine).fifth_power_spec()))
}

impl Dielectric {
    /// The ratio of the indices of the medium left and the medium entered:
    /// `1 / ir` into the surface, `ir` out of it.
    pub open spec fn refraction_ratio(&self, rec: HitRecord) -> Real {
        if rec.front_face {
            Real::of_int(1).over(self.ir)
        } else {
            self.ir
        }
    }

    /// The cosine of the angle of incidence: `min(dot(-unit, normal), 1)`.
    pub open spec fn cos_theta(r_in: Ray, rec: HitRecord) -> Real {
        r_in.dir.unit_vector_spec().negated().dot_spec(rec.normal).min_spec(Real::of_int(1))
    }

    /// The sine of the angle of incidence: `sqrt(1 - cos^2)`.
    pub open spec fn sin_theta(r_in: Ray, rec: HitRecord) -> Real {
        let c = Dielectric::cos_theta(r_in, rec);
        Real::of_int(1).minus(c.times(c)).sqrt_spec()
    }

    /// No refracted ray exists: `refraction_ratio * sin_theta > 1`.
    pub open spec fn cannot_refract(&self, r_in: Ray, rec: HitRecord) -> bool {
        Real::of_int(1).lt_spec(self.refraction_ratio(rec).times(Dielectric::sin_theta(r_in, rec)))
    }

    /// Whether the ray is mirrored when the random number drawn is `xi`: it
    /// cannot be refracted, or `xi` is below the reflectance.
    pub open spec fn reflects(&self, r_in: Ray, rec: HitRecord, xi: Real) -> bool {
        self.cannot_refract(r_in, rec) || xi.lt_spec(
            reflectance_spec(Dielectric::cos_theta(r_in, rec), self.ir),
        )
    }

    /// Where a ray goes from the hit `rec` when the random number drawn is
    /// `xi`: mirrored or refracted. Nothing is absorbed.
    pub open spec fn scattered(&self, r_in: Ray, rec: HitRecord, xi: Real) -> (Color, Ray) {
        let unit = r_in.dir.unit_vector_spec();
        let direction = if self.reflects(r_in, rec, xi) {
            reflect_spec(unit, rec.normal)
        } else {
            refract_spec(unit, rec.normal, self.refraction_ratio(rec))
        };
        (Vec3::splat(Real::of_int(1)), Ray { orig: rec.p, dir: direction })
    }

    /// What `scatter` gives, and the source after it: where the ray cannot be
    /// refracted it is mirrored and nothing is drawn; else one number is
    /// drawn from `[0, 1)`.
    pub open spec fn scatter_spec(&self, r_in: Ray, rec: HitRecord, source: RandomSource) -> (
        Option<(Color, Ray)>,
        RandomSource,
    ) {
        if self.cannot_refract(r_in, rec) {
            (Some(self.scattered(r_in, rec, Real::of_fraction(0))), source)
        } else {
            (Some(self.scattered(r_in, rec, draw_unit(source).0)), draw_unit(source).1)
        }
    }

    /// Glass of index `ir`.
    pub fn new(ir: Real) -> (m: Self)
        ensures
            m.ir == ir,
    {
        Dielectric { ir }
    }

    /// Schlick's approximation of the reflectance.
    pub fn reflectance(cosine: Real, ref_idx: Real) -> (r: Real)
        ensures
            r == reflectance_spec(cosine, ref_idx),
    {
        let one = Real::from_i64(1);
        let r0 = (one - ref_idx) / (one + ref_idx);
        let r0 = r0 * r0;
        r0 + (one - r0) * (one - cosine).fifth_power()
    }

    /// Whether the ray cannot be refracted.
    pub fn total_reflection(&self, r_in: &Ray, rec: &HitRecord) -> (r: bool)
        ensures
            r == self.cannot_refract(*r_in, *rec),
    {
        let one = Real::from_i64(1);
        let refraction_ratio = if rec.front_face {
            one / self.ir
        } else {
            self.ir
        };
        let unit_direction = r_in.direction().unit_vector();
        let cos_theta = unit_direction.neg().dot(&rec.normal).min(one);
        let sin_theta = (one - cos_theta * cos_theta).sqrt();
        (refraction_ratio * sin_theta).gt(one)
    }

    /// Where a ray goes when the random number drawn is `xi`.
    pub fn scatter_along(&self, r_in: &Ray, rec: &HitRecord, xi: Real) -> (res: (Color, Ray))
        ensures
            res == self.scattered(*r_in, *rec, xi),
    {
        let one = Real::from_i64(1);
        let attenuation = Vec3(one, one, one);
        let refraction_ratio = if rec.front_face {
            one / self.ir
        } else {
            self.ir
        };
        let unit_direction = r_in.direction().unit_vector();
        let cos_theta = unit_direction.neg().dot(&rec.normal).min(one);
        let cannot_refract = self.total_reflection(r_in, rec);
        let direction = if cannot_refract || Dielectric::reflectance(cos_theta, self.ir).gt(xi) {
            reflect(&unit_direction, &rec.normal)
        } else {
            refract(&unit_direction, &rec.normal, refraction_ratio)
        };
        (attenuation, Ray::new(rec.p, direction))
    }

    /// Mirrors or refracts the ray `r_in` at the hit `rec`: mirrors it where
    /// it cannot be refracted, and else with the probability that the
    /// reflectance gives. Nothing is absorbed.
    pub fn scatter(&self, r_in: &Ray, rec: &HitRecord, source: &mut RandomSource) -> (res: Option<
        (Color, Ray),
    >)
        ensures
            (res, *final(source)) == self.scatter_spec(*r_in, *rec, *old(source)),
            match res {
                Some((attenuation, scattered)) => {
                    &&& attenuation == Vec3::splat(Real::of_int(1))
                    &&& scattered.orig == rec.p
                    &&& self.cannot_refract(*r_in, *rec) ==> scattered.dir == reflect_spec(
                        r_in.dir.unit_vector_spec(),
                        rec.normal,
                    )
                },
                None => false,
            },
    {
        if self.total_reflection(r_in, rec) {
            // the ray is mirrored whatever is drawn, so nothing is
            Some(self.scatter_along(r_in, rec, Real::from_fraction(0)))
        } else {
            let xi = random_double(source);
            Some(self.scatter_along(r_in, rec, xi))
        }
    }
}

impl Material {
    /// What `scatter` gives, and the source after it.
    pub open spec fn scatter_spec(&self, r_in: Ray, rec: HitRecord, source: RandomSource) -> (
        Option<(Color, Ray)>,
        RandomSource,
    ) {
        match self {
            Material::Lambertian(m) => m.scatter_spec(rec, source),
            Material::Metal(m) => m.scatter_spec(r_in, rec, source),
            Material::Dielectric(m) => m.scatter_spec(r_in, rec, source),
        }
    }

    /// Sends the ray `r_in`, which hit at `rec`, on.
    pub fn scatter(&self, r_in: &Ray, rec: &HitRecord, source: &mut RandomSource) -> (res: Option<
        (Color, Ray),
    >)
        ensures
            (res, *final(source)) == self.scatter_spec(*r_in, *rec, *old(source)),
    {
        match self {
            Material::Lambertian(m) => m.scatter(rec, source),
            Material::Metal(m) => m.scatter(r_in, rec, source),
            Material::Dielectric(m) => m.scatter(r_in, rec, source),
        }
    }
}

} // verus!
