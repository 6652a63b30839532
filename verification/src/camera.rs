//! The camera: from a place on the screen to a ray into the world.

use vstd::prelude::*;
use crate::number::Real;
use crate::vec3::{Point3, Vec3, random_in_unit_disk, draw_in_disk, MAX_CANDIDATES};
use crate::ray::Ray;
use crate::utils::RandomSource;

verus! {

/// A camera with a thin lens.
///
/// `u`, `v`, `w` point right, up and backwards; the screen spans
/// `horizontal` and `vertical` from `lower_left_corner`, at the distance of
/// sharp focus.
pub struct Camera {
    pub origin: Point3,
    pub lower_left_corner: Point3,
    pub horizontal: Vec3,
    pub vertical: Vec3,
    pub u: Vec3,
    pub v: Vec3,
    pub w: Vec3,
    pub lens_radius: Real,
}

impl Camera {
    /// The camera at `lookfrom` that looks at `lookat`, with `vup` upwards.
    ///
    /// `half_height` is the tangent of half the vertical field of view, so
    /// the screen is `2 * half_height` high at distance one and
    /// `aspect_ratio` times as wide. With
    /// `w = unit(lookfrom - lookat)`, `u = unit(cross(vup, w))` and
    /// `v = cross(w, u)`, the screen spans
    /// `focus_dist * width * u` and `focus_dist * height * v`, and its lower
    /// left corner is
    /// `origin - horizontal/2 - vertical/2 - focus_dist * w`. The lens has
    /// radius `aperture / 2`.
    pub open spec fn new_spec(
        lookfrom: Vec3,
        lookat: Vec3,
        vup: Vec3,
        half_height: Real,
        aspect_ratio: Real,
        aperture: Real,
        focus_dist: Real,
    ) -> Camera {
        let two = Real::of_int(2);
        let viewport_height = two.times(half_height);
        let viewport_width = aspect_ratio.times(viewport_height);
        let w = lookfrom.minus(lookat).unit_vector_spec();
        let u = vup.cross_spec(w).unit_vector_spec();
        let v = w.cross_spec(u);
        let horizontal = Vec3::splat(focus_dist.times(viewport_width)).times(u);
        let vertical = Vec3::splat(focus_dist.times(viewport_height)).times(v);
        Camera {
            origin: lookfrom,
            lower_left_corner: lookfrom.minus(horizontal.over(Vec3::splat(two))).minus(
                vertical.over(Vec3::splat(two)),
            ).minus(Vec3::splat(focus_dist).times(w)),
            horizontal,
            vertical,
            u,
            v,
            w,
            lens_radius: aperture.over(two),
        }
    }

    /// The lens has an extent: its radius is above zero.
    pub open spec fn has_lens(&self) -> bool {
        Real::of_int(0).lt_spec(self.lens_radius)
    }

    /// The point of the screen at `s` of its width and `t` of its height.
    pub open spec fn screen_point(&self, s: Real, t: Real) -> Vec3 {
        self.lower_left_corner.plus(Vec3::splat(s).times(self.horizontal)).plus(
            Vec3::splat(t).times(self.vertical),
        )
    }

    /// The ray from the lens's centre through the screen at `(s, t)`.
    pub open spec fn central_ray(&self, s: Real, t: Real) -> Ray {
        Ray { orig: self.origin, dir: self.screen_point(s, t).minus(self.origin) }
    }

    /// The ray through the screen at `(s, t)` from the point of the lens that
    /// the point `disk` of the unit disk names: the origin moved by
    /// `u * rd.x + v * rd.y` with `rd = lens_radius * disk`.
    pub open spec fn lens_ray(&self, s: Real, t: Real, disk: Vec3) -> Ray {
        let rd = Vec3::splat(self.lens_radius).times(disk);
        let offset = self.u.times(Vec3::splat(rd.0)).plus(self.v.times(Vec3::splat(rd.1)));
        Ray {
            orig: self.origin.plus(offset),
            dir: self.screen_point(s, t).minus(self.origin).minus(offset),
        }
    }

    /// What `get_ray` gives, and the source after it: the central ray where
    /// the lens has no extent, and then nothing is drawn; else the ray from
    /// the point of the lens that a sample of the unit disk names.
    pub open spec fn get_ray_spec(&self, s: Real, t: Real, source: RandomSource) -> (
        Ray,
        RandomSource,
    ) {
        if self.has_lens() {
            let (disk, after) = draw_in_disk(source, MAX_CANDIDATES as nat);
            (self.lens_ray(s, t, disk), after)
        } else {
            (self.central_ray(s, t), source)
        }
    }

    /// The camera at `lookfrom` that looks at `lookat`; `half_height` is the
    /// tangent of half the vertical field of view.
    pub fn new(
        lookfrom: Vec3,
        lookat: Vec3,
        vup: Vec3,
        half_height: Real,
        aspect_ratio: Real,
        aperture: Real,
        focus_dist: Real,
    ) -> (camera: Self)
        ensures
            camera == Camera::new_spec(
                lookfrom,
                lookat,
                vup,
                half_height,
                aspect_ratio,
                aperture,
                focus_dist,
            ),
    {
        let two = Real::from_i64(2);
        let viewport_height = two * half_height;
        let viewport_width = aspect_ratio * viewport_height;

        let w = (lookfrom - lookat).unit_vector();
        let u = vup.cross(&w).unit_vector();
        let v = w.cross(&u);

        let origin = lookfrom;
        let horizontal = focus_dist * viewport_width * u;
        let vertical = focus_dist * viewport_height * v;
        let lower_left_corner = origin - horizontal / two - vertical / two - focus_dist * w;
        Camera {
            origin,
            lower_left_corner,
            horizontal,
            vertical,
            u,
            v,
            w,
            lens_radius: aperture / two,
        }
    }

    /// The ray through the screen at `(s, t)` from the point of the lens that
    /// `disk` names.
    pub fn ray_through(&self, s: Real, t: Real, disk: Vec3) -> (ray: Ray)
        ensures
            ray == self.lens_ray(s, t, disk),
    {
        let rd = self.lens_radius * disk;
        let offset = self.u * rd.x() + self.v * rd.y();
        Ray::new(
            self.origin + offset,
            self.lower_left_corner + s * self.horizontal + t * self.vertical - self.origin
                - offset,
        )
    }

    /// A ray through the screen at `(s, t)`; both run from zero to one over
    /// the screen and may lie outside.
    pub fn get_ray(&self, s: Real, t: Real, source: &mut RandomSource) -> (ray: Ray)
        ensures
            (ray, *final(source)) == self.get_ray_spec(s, t, *old(source)),
    {
        if self.lens_radius.gt(Real::from_i64(0)) {
            let disk = random_in_unit_disk(source);
            self.ray_through(s, t, disk)
        } else {
            Ray::new(
                self.origin,
                self.lower_left_corner + s * self.horizontal + t * self.vertical - self.origin,
            )
        }
    }
}

} // verus!
