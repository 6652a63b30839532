//! What a ray can hit: the intersection record, the capability of being
//! hit, and the scene as a list of things that can be.

use vstd::prelude::*;
use std::sync::Arc;
use core::ops::Neg;
use crate::number::Real;
use crate::vec3::{Point3, Vec3};
use crate::ray::Ray;
use crate::material::Material;

verus! {

/// Where a ray met a surface.
///
/// The normal is turned against the ray; `front_face` tells whether the
/// surface's own outward normal already was.
#[derive(Clone, Copy)]
pub struct HitRecord<'a> {
    pub p: Point3,
    pub normal: Vec3,
    pub material: &'a Material,
    pub t: Real,
    pub front_face: bool,
}

/// Whether a ray in direction `direction` meets a surface with outward
/// normal `outward` from outside: their dot product is below zero.
pub open spec fn faces_front(direction: Vec3, outward: Vec3) -> bool {
    direction.dot_spec(outward).lt_spec(Real::of_int(0))
}

/// The record of a hit at `p`, parameter `t`, on a surface with outward
/// normal `outward`.
pub open spec fn record_of<'a>(
    p: Vec3,
    t: Real,
    outward: Vec3,
    r: Ray,
    material: &'a Material,
) -> HitRecord<'a> {
    HitRecord {
        p,
        normal: if faces_front(r.dir, outward) {
            outward
        } else {
            outward.negated()
        },
        material,
        t,
        front_face: faces_front(r.dir, outward),
    }
}

impl<'a> HitRecord<'a> {
    /// The record of a hit, its normal turned against the ray.
    pub fn new(p: Vec3, t: Real, normal: Vec3, r: Ray, material: &'a Material) -> (rec: Self)
        ensures
            rec == record_of(p, t, normal, r, material),
    {
        let front_face = r.direction().dot(&normal).lt(Real::from_i64(0));
        let normal = if front_face {
            normal
        } else {
            normal.neg()
        };
        HitRecord { p, normal, material, t, front_face }
    }
}

/// Anything that can tell where a ray meets it first within a range of the
/// ray's parameter.
pub trait Hittable {
    /// The first hit of `r` with parameter in `[t_min, t_max]`, if there is one.
    spec fn hit_spec(&self, r: Ray, t_min: Real, t_max: Real) -> Option<HitRecord>;

    fn hit(&self, r: &Ray, t_min: Real, t_max: Real) -> (res: Option<HitRecord>)
        ensures
            res == self.hit_spec(*r, t_min, t_max),
    ;
}

/// A scene: things that can be hit, some perhaps shared with other scenes.
pub struct HittableList<H: Hittable> {
    pub objects: Vec<Arc<H>>,
}

/// The hit that the first `n` objects leave standing: each object in turn
/// is asked for a hit no farther than the one that stands, and a hit it
/// reports stands in its place.
pub open spec fn closest_hit<'a, H: Hittable>(
    objects: Seq<Arc<H>>,
    r: Ray,
    t_min: Real,
    t_max: Real,
    n: nat,
) -> Option<HitRecord<'a>>
    recommends
        n <= objects.len(),
    decreases n,
{
    if n == 0 {
        None
    } else {
        let standing = closest_hit(objects, r, t_min, t_max, (n - 1) as nat);
        let limit = match standing {
            Some(rec) => rec.t,
            None => t_max,
        };
        match objects[n - 1].hit_spec(r, t_min, limit) {
            Some(rec) => Some(rec),
            None => standing,
        }
    }
}

impl<H: Hittable> HittableList<H> {
    /// The empty scene.
    pub fn new() -> (list: Self)
        ensures
            list.objects@.len() == 0,
    {
        HittableList { objects: Vec::new() }
    }

    /// Takes every object out of the scene.
    pub fn clear(&mut self)
        ensures
            final(self).objects@.len() == 0,
    {
        self.objects.clear();
    }

    /// Puts `object` at the end of the scene.
    pub fn add(&mut self, object: Arc<H>)
        ensures
            final(self).objects@ == old(self).objects@.push(object),
    {
        self.objects.push(object);
    }
}

impl<H: Hittable> Hittable for HittableList<H> {
    open spec fn hit_spec(&self, r: Ray, t_min: Real, t_max: Real) -> Option<HitRecord> {
        closest_hit(self.objects@, r, t_min, t_max, self.objects@.len())
    }

    fn hit(&self, r: &Ray, t_min: Real, t_max: Real) -> (res: Option<HitRecord>) {
        let mut temp_rec: Option<HitRecord> = None;
        let mut closest_so_far = t_max;
        let mut i: usize = 0;
        while i < self.objects.len()
            invariant
                i <= self.objects@.len(),
                temp_rec == closest_hit(self.objects@, *r, t_min, t_max, i as nat),
                closest_so_far == (match temp_rec {
                    Some(rec) => rec.t,
                    None => t_max,
                }),
            decreases self.objects@.len() - i,
        {
            if let Some(hit_rec) = self.objects[i].hit(r, t_min, closest_so_far) {
                closest_so_far = hit_rec.t;
                temp_rec = Some(hit_rec);
            }
            i = i + 1;
        }
        temp_rec
    }
}

} // verus!
