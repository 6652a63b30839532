//! Rays: an origin and a direction.

use vstd::prelude::*;
use crate::number::Real;
use crate::vec3::{Point3, Vec3};

verus! {

/// A ray. The direction need not be of length one.
#[derive(Clone, Copy, Debug)]
pub struct Ray {
    pub orig: Point3,
    pub dir: Vec3,
}

impl Ray {
    /// The point at parameter `t`: `origin + t * direction`.
    pub open spec fn at_spec(self, t: Real) -> Vec3 {
        self.orig.plus(Vec3::splat(t).times(self.dir))
    }

    /// The ray from `origin` along `direction`.
    pub fn new(origin: Vec3, direction: Vec3) -> (r: Ray)
        ensures
            r.orig == origin,
            r.dir == direction,
    {
        Ray { orig: origin, dir: direction }
    }

    /// Where the ray starts.
    pub fn origin(&self) -> (p: &Point3)
        ensures
            *p == self.orig,
    {
        &self.orig
    }

    /// Along which the ray runs.
    pub fn direction(&self) -> (d: &Vec3)
        ensures
            *d == self.dir,
    {
        &self.dir
    }

    /// The point at parameter `t`.
    pub fn at(&self, t: Real) -> (p: Vec3)
        ensures
            p == self.at_spec(t),
    {
        self.orig + t * self.dir
    }
}

} // verus!
