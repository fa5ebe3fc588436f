//! The camera: which ray belongs to which point of the image.
use vstd::prelude::*;
use crate::random::{get_rand01, is_unit_sample, random_in_unit_disk, spec_spread, spread};
use crate::ray::Ray;
use crate::scalar::{Scalar, SCALE};
use crate::vec3::Vec3;

verus! {

/// A camera with a thin lens and a shutter that is open from `time0` to
/// `time1`.
pub struct Camera {
    pub origin: Vec3,
    pub horizontal: Vec3,
    pub vertical: Vec3,
    pub lower_left_corner: Vec3,
    pub u: Vec3,
    pub v: Vec3,
    pub w: Vec3,
    pub lens_radius: Scalar,
    pub time0: Scalar,
    pub time1: Scalar,
}

/// The angle in radians that is `degrees` degrees.
pub open spec fn spec_degrees_to_radians(degrees: Scalar) -> Scalar {
    degrees.mul(Scalar::pi()).div_int(180)
}

/// The angle in radians that is `degrees` degrees.
#[verifier::when_used_as_spec(spec_degrees_to_radians)]
pub fn degrees_to_radians(degrees: Scalar) -> (r: Scalar)
    ensures
        r == spec_degrees_to_radians(degrees),
{
    degrees.mul(Scalar::pi()).div_int(180)
}

impl Camera {
    /// The camera at `lookfrom` that looks at `lookat` with `vup` upward,
    /// a vertical field of view of `vfov` degrees, an image `aspect_ratio`
    /// times as wide as high, a lens of diameter `aperture`, and its focus
    /// at the distance `focus_dist`.
    pub open spec fn spec_new(
        lookfrom: Vec3,
        lookat: Vec3,
        vup: Vec3,
        vfov: Scalar,
        aspect_ratio: Scalar,
        aperture: Scalar,
        focus_dist: Scalar,
        time0: Scalar,
        time1: Scalar,
    ) -> Camera {
        let theta = degrees_to_radians(vfov);
        let h = theta.div_int(2).tan();
        let viewport_height = Scalar::from_int(2).mul(h);
        let viewport_width = viewport_height.mul(aspect_ratio);
        let w = lookfrom.sub(lookat).unit();
        let u = Vec3::cross(vup, w).unit();
        let v = Vec3::cross(w, u);
        let horizontal = u.scale(focus_dist.mul(viewport_width));
        let vertical = v.scale(focus_dist.mul(viewport_height));
        Camera {
            origin: lookfrom,
            horizontal,
            vertical,
            lower_left_corner: lookfrom.sub(horizontal.div(Scalar::from_int(2))).sub(
                vertical.div(Scalar::from_int(2)),
            ).sub(w.scale(focus_dist)),
            u,
            v,
            w,
            lens_radius: aperture.div_int(2),
            time0,
            time1,
        }
    }

    /// The ray through the point `(x, y)` of the image, both from zero to
    /// one, that leaves the lens at the point `rd` of the unit disk at the
    /// time that the unit sample `shutter` stands for.
    pub open spec fn spec_ray_through(&self, x: Scalar, y: Scalar, rd: Vec3, shutter: Scalar)
        -> Ray {
        let on_lens = rd.scale(self.lens_radius);
        let offset = self.u.scale(on_lens.x).add(self.v.scale(on_lens.y));
        Ray {
            ori: self.origin.add(offset),
            dir: self.lower_left_corner.add(self.horizontal.scale(x)).add(
                self.vertical.scale(y),
            ).sub(self.origin).sub(offset),
            tm: spec_spread(shutter, self.time0, self.time1),
        }
    }

    /// The camera at `lookfrom` that looks at `lookat`.
    #[verifier::when_used_as_spec(spec_new)]
    pub fn new(
        lookfrom: Vec3,
        lookat: Vec3,
        vup: Vec3,
        vfov: Scalar,
        aspect_ratio: Scalar,
        aperture: Scalar,
        focus_dist: Scalar,
        time0: Scalar,
        time1: Scalar,
    ) -> (r: Camera)
        ensures
            r == Camera::spec_new(
                lookfrom,
                lookat,
                vup,
                vfov,
                aspect_ratio,
                aperture,
                focus_dist,
                time0,
                time1,
            ),
    {
        let theta = degrees_to_radians(vfov);
        let h = theta.div_int(2).tan();
        let viewport_height = Scalar::from_int(2).mul(h);
        let viewport_width = viewport_height.mul(aspect_ratio);
        let w = lookfrom.sub(lookat).unit();
        let u = Vec3::cross(vup, w).unit();
        let v = Vec3::cross(w, u);
        let origin = lookfrom;
        let horizontal = u.scale(focus_dist.mul(viewport_width));
        let vertical = v.scale(focus_dist.mul(viewport_height));
        let lower_left_corner = origin.sub(horizontal.div(Scalar::from_int(2))).sub(
            vertical.div(Scalar::from_int(2)),
        ).sub(w.scale(focus_dist));
        let lens_radius = aperture.div_int(2);
        Camera {
            origin,
            horizontal,
            vertical,
            lower_left_corner,
            u,
            v,
            w,
            lens_radius,
            time0,
            time1,
        }
    }

    /// The ray through the point `(x, y)` of the image that leaves the lens
    /// at the point `rd` of the unit disk at the time that `shutter` stands
    /// for.
    #[verifier::when_used_as_spec(spec_ray_through)]
    pub fn ray_through(&self, x: Scalar, y: Scalar, rd: Vec3, shutter: Scalar) -> (r: Ray)
        ensures
            r == self.spec_ray_through(x, y, rd, shutter),
    {
        let on_lens = rd.scale(self.lens_radius);
        let offset = self.u.scale(on_lens.x).add(self.v.scale(on_lens.y));
        Ray::new(
            self.origin.add(offset),
            self.lower_left_corner.add(self.horizontal.scale(x)).add(self.vertical.scale(y)).sub(
                self.origin,
            ).sub(offset),
            spread(shutter, self.time0, self.time1),
        )
    }

    /// A ray through the point `(x, y)` of the image, from a random point
    /// of the lens at a random time while the shutter is open.
    pub fn get_ray(&self, x: Scalar, y: Scalar) -> (r: Ray)
        ensures
            exists|rd: Vec3, shutter: Scalar|
                rd.z == Scalar::zero() && rd.squared_length().raw < SCALE && is_unit_sample(shutter)
                    && r == #[trigger] self.spec_ray_through(x, y, rd, shutter),
    {
        let rd = random_in_unit_disk();
        let shutter = get_rand01();
        self.ray_through(x, y, rd, shutter)
    }
}

} // verus!
