//! Spheres.

use vstd::prelude::*;
use std::sync::Arc;
use core::ops::Neg;
use crate::number::Real;
use crate::vec3::{Point3, Vec3};
use crate::ray::Ray;
use crate::material::Material;
use crate::hittable::{HitRecord, Hittable, record_of};

verus! {

/// A sphere. A negative radius turns its normals inward, for the inner
/// surface of a hollow shell.
pub struct Sphere {
    pub center: Point3,
    pub radius: Real,
    pub mat_ptr: Arc<Material>,
}

/// Whether a root of the quadratic is turned down: it lies below `t_min` or
/// above `t_max`.
pub open spec fn out_of_range(root: Real, t_min: Real, t_max: Real) -> bool {
    root.lt_spec(t_min) || t_max.lt_spec(root)
}

impl Sphere {
    /// From the ray's origin to the centre, reversed: `origin - center`.
    pub open spec fn offset(&self, r: Ray) -> Vec3 {
        r.orig.minus(self.center)
    }

    /// `a` of the quadratic `a*t^2 + 2*half_b*t + c = 0`: the squared length
    /// of the direction.
    pub open spec fn quad_a(&self, r: Ray) -> Real {
        r.dir.length_squared_spec()
    }

    /// `half_b` of the quadratic: `dot(origin - center, direction)`.
    pub open spec fn quad_half_b(&self, r: Ray) -> Real {
        self.offset(r).dot_spec(r.dir)
    }

    /// `c` of the quadratic: `|origin - center|^2 - radius^2`.
    pub open spec fn quad_c(&self, r: Ray) -> Real {
        self.offset(r).length_squared_spec().minus(self.radius.times(self.radius))
    }

    /// `half_b^2 - a*c`.
    pub open spec fn discriminant(&self, r: Ray) -> Real {
        self.quad_half_b(r).times(self.quad_half_b(r)).minus(
            self.quad_a(r).times(self.quad_c(r)),
        )
    }

    /// The smaller root: `(-half_b - sqrt(discriminant)) / a`.
    pub open spec fn near_root(&self, r: Ray) -> Real {
        self.quad_half_b(r).negated().minus(self.discriminant(r).sqrt_spec()).over(self.quad_a(r))
    }

    /// The larger root: `(-half_b + sqrt(discriminant)) / a`.
    pub open spec fn far_root(&self, r: Ray) -> Real {
        self.quad_half_b(r).negated().plus(self.discriminant(r).sqrt_spec()).over(self.quad_a(r))
    }

    /// The record of the hit at parameter `t`: the outward normal there is
    /// `(p - center) / radius`.
    pub open spec fn record_at(&self, r: Ray, t: Real) -> HitRecord {
        let p = r.at_spec(t);
        record_of(p, t, p.minus(self.center).over(Vec3::splat(self.radius)), r, &*self.mat_ptr)
    }

    /// The sphere about `cen` of radius `r` and material `m`.
    pub fn new(cen: Point3, r: Real, m: Arc<Material>) -> (s: Self)
        ensures
            s.center == cen,
            s.radius == r,
            s.mat_ptr == m,
    {
        Sphere { center: cen, radius: r, mat_ptr: m }
    }
}

impl Hittable for Sphere {
    /// No hit where the discriminant is below zero. Else the smaller root
    /// where it is not out of range, else the larger where that is not, else
    /// no hit.
    open spec fn hit_spec(&self, r: Ray, t_min: Real, t_max: Real) -> Option<HitRecord> {
        if self.discriminant(r).lt_spec(Real::of_int(0)) {
            None
        } else if !out_of_range(self.near_root(r), t_min, t_max) {
            Some(self.record_at(r, self.near_root(r)))
        } else if !out_of_range(self.far_root(r), t_min, t_max) {
            Some(self.record_at(r, self.far_root(r)))
        } else {
            None
        }
    }

    fn hit(&self, r: &Ray, t_min: Real, t_max: Real) -> (res: Option<HitRecord>) {
        let oc = *r.origin() - self.center;
        let a = r.direction().length_squared();
        let half_b = oc.dot(r.direction());
        let c = oc.length_squared() - self.radius * self.radius;

        let discriminant = half_b * half_b - a * c;
        if discriminant.lt(Real::from_i64(0)) {
            return None;
        }
        let sqrtd = discriminant.sqrt();

        let mut root = (half_b.neg() - sqrtd) / a;
        if root.lt(t_min) || t_max.lt(root) {
            root = (half_b.neg() + sqrtd) / a;
            if root.lt(t_min) || t_max.lt(root) {
                return None;
            }
        }
        let t = root;
        let p = r.at(t);
        let normal = (p - self.center) / self.radius;
        let hit_rec = HitRecord::new(p, t, normal, *r, &*self.mat_ptr);
        Some(hit_rec)
    }
}

} // verus!
