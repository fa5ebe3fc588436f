//! Spheres, at rest and in motion.
use vstd::prelude::*;
use std::sync::Arc;
use crate::aabb::Aabb;
use crate::hit::{get_sphere_uv, lemma_face_normal_opposes_ray, spec_sphere_uv, HitRecord};
use crate::hit::{near, spec_near};
use crate::material::Material;
use crate::onb::ONB;
use crate::random::{get_rand01, is_unit_sample, spec_to_sphere_from, to_sphere_from};
use crate::ray::Ray;
use crate::scalar::{lemma_div_monotonic, lemma_sqrt, Scalar};
use crate::shared::share;
use crate::vec3::Vec3;

verus! {

/// A sphere.
pub struct Sphere {
    pub center: Vec3,
    pub radius: Scalar,
    pub mat_ptr: Arc<Material>,
}

/// A sphere whose centre moves in a straight line from `center0` at time
/// `time0` to `center1` at time `time1`.
pub struct MovingSphere {
    pub center0: Vec3,
    pub center1: Vec3,
    pub time0: Scalar,
    pub time1: Scalar,
    pub radius: Scalar,
    pub mat_ptr: Arc<Material>,
}

/// The two parameters at which a ray meets a sphere, the smaller first.
pub struct Roots {
    pub first: Scalar,
    pub second: Scalar,
}

/// The roots of `a t^2 + 2 half_b t + c = 0` for the ray `this_ray` and the
/// sphere around `center`, where `a = D.D`, `half_b = (O - C).D` and
/// `c = |O - C|^2 - r^2`: `(-half_b -+ sqrt(half_b^2 - a c)) / a` where the
/// discriminant is positive, and none elsewhere.
#[verifier::opaque]
pub open spec fn spec_roots(this_ray: &Ray, center: Vec3, radius: Scalar) -> Option<Roots> {
    let oc = this_ray.ori.sub(center);
    let a = this_ray.dir.dot(this_ray.dir);
    let half_b = oc.dot(this_ray.dir);
    let c = oc.dot(oc).sub(radius.mul(radius));
    let dt = half_b.mul(half_b).sub(a.mul(c));
    if dt.raw > 0 {
        let root = dt.sqrt();
        Some(
            Roots {
                first: half_b.neg().sub(root).div(a),
                second: half_b.neg().add(root).div(a),
            },
        )
    } else {
        None
    }
}

/// The root that a hit within `(tmn, tmx)` is reported at: the first if it
/// lies in the interval, else the second if that does.
pub open spec fn spec_choose_root(roots: Option<Roots>, tmn: Scalar, tmx: Scalar) -> Option<Scalar> {
    match roots {
        Some(r) => if tmn.raw < r.first.raw < tmx.raw {
            Some(r.first)
        } else if tmn.raw < r.second.raw < tmx.raw {
            Some(r.second)
        } else {
            None
        },
        None => None,
    }
}

/// The record of a hit at parameter `t` on the sphere around `center`.
#[verifier::opaque]
pub open spec fn spec_sphere_record(
    this_ray: &Ray,
    center: Vec3,
    radius: Scalar,
    mat_ptr: Arc<Material>,
    t: Scalar,
) -> HitRecord {
    let p = this_ray.pos(t);
    let out_nor = p.sub(center).div(radius);
    let uv = spec_sphere_uv(out_nor);
    HitRecord {
        p,
        nor: Vec3::zero(),
        t,
        u: uv.0,
        v: uv.1,
        nor_dir: false,
        mat_ptr,
    }.spec_set_face_normal(this_ray, out_nor)
}

/// The hit of `this_ray` within `(tmn, tmx)` on the sphere around `center`.
#[verifier::opaque]
pub open spec fn spec_sphere_hit(
    this_ray: &Ray,
    center: Vec3,
    radius: Scalar,
    mat_ptr: Arc<Material>,
    tmn: Scalar,
    tmx: Scalar,
) -> Option<HitRecord> {
    match spec_choose_root(spec_roots(this_ray, center, radius), tmn, tmx) {
        Some(t) => Some(spec_sphere_record(this_ray, center, radius, mat_ptr, t)),
        None => None,
    }
}

/// The box around the sphere of the given centre and radius.
pub open spec fn spec_sphere_box(center: Vec3, radius: Scalar) -> Aabb {
    let reach = Vec3 { x: radius, y: radius, z: radius };
    Aabb { mn: center.sub(reach), mx: center.add(reach) }
}

/// A square is not negative.
pub proof fn lemma_square_not_negative(x: Scalar)
    ensures
        x.mul(x).raw >= 0,
{
    assert(x.raw * x.raw >= 0) by (nonlinear_arith);
}

/// The quadratic of a ray and a sphere has no root or two, and the first
/// of two is not the larger.
pub proof fn lemma_roots_ordered(this_ray: &Ray, center: Vec3, radius: Scalar)
    ensures
        spec_roots(this_ray, center, radius) matches Some(r) ==> r.first.raw <= r.second.raw,
{
    reveal(spec_roots);
    let oc = this_ray.ori.sub(center);
    let a = this_ray.dir.dot(this_ray.dir);
    let half_b = oc.dot(this_ray.dir);
    let c = oc.dot(oc).sub(radius.mul(radius));
    let dt = half_b.mul(half_b).sub(a.mul(c));
    if dt.raw > 0 {
        let root = dt.sqrt();
        lemma_square_not_negative(this_ray.dir.x);
        lemma_square_not_negative(this_ray.dir.y);
        lemma_square_not_negative(this_ray.dir.z);
        lemma_sqrt(dt);
        lemma_div_monotonic(half_b.neg().sub(root), half_b.neg().add(root), a);
    }
}

/// A hit on a sphere is reported at one of the two roots, within the
/// interval, and at the first root whenever that lies in the interval: so
/// when both do, at the smaller.
pub proof fn lemma_smaller_root_reported(
    this_ray: &Ray,
    center: Vec3,
    radius: Scalar,
    mat_ptr: Arc<Material>,
    tmn: Scalar,
    tmx: Scalar,
)
    ensures
        spec_roots(this_ray, center, radius) is None ==> spec_sphere_hit(
            this_ray,
            center,
            radius,
            mat_ptr,
            tmn,
            tmx,
        ) is None,
        spec_roots(this_ray, center, radius) matches Some(r) ==> {
            let found = spec_sphere_hit(this_ray, center, radius, mat_ptr, tmn, tmx);
            &&& r.first.raw <= r.second.raw
            &&& found matches Some(rec) ==> (tmn.raw < rec.t.raw < tmx.raw && (rec.t == r.first
                || rec.t == r.second))
            &&& tmn.raw < r.first.raw < tmx.raw ==> (found matches Some(rec) && rec.t == r.first)
            &&& found is None <==> (!(tmn.raw < r.first.raw < tmx.raw) && !(tmn.raw
                < r.second.raw < tmx.raw))
        },
{
    reveal(spec_sphere_hit);
    reveal(spec_sphere_record);
    lemma_roots_ordered(this_ray, center, radius);
}

/// The record of a hit on a sphere holds the parameter it was made for,
/// and its normal does not point along the ray.
pub proof fn lemma_sphere_record_faces_ray(
    this_ray: &Ray,
    center: Vec3,
    radius: Scalar,
    mat_ptr: Arc<Material>,
    t: Scalar,
)
    ensures
        spec_sphere_record(this_ray, center, radius, mat_ptr, t).t == t,
        spec_sphere_record(this_ray, center, radius, mat_ptr, t).mat_ptr == mat_ptr,
        spec_sphere_record(this_ray, center, radius, mat_ptr, t).nor.in_range(),
        this_ray.dir.dot(spec_sphere_record(this_ray, center, radius, mat_ptr, t).nor).raw <= 0,
{
    reveal(spec_sphere_record);
    let p = this_ray.pos(t);
    let out_nor = p.sub(center).div(radius);
    let uv = spec_sphere_uv(out_nor);
    let bare = HitRecord { p, nor: Vec3::zero(), t, u: uv.0, v: uv.1, nor_dir: false, mat_ptr };
    lemma_face_normal_opposes_ray(bare, *this_ray, out_nor);
}

/// What a sphere reports within two intervals with the same lower bound
/// differs only by whether the hit lies below the upper bound; the hit
/// lies above the lower bound, and its normal does not point along the
/// ray.
pub proof fn lemma_sphere_hit(
    this_ray: &Ray,
    center: Vec3,
    radius: Scalar,
    mat_ptr: Arc<Material>,
    tmn: Scalar,
    b1: Scalar,
    b2: Scalar,
)
    requires
        b1.raw <= b2.raw,
    ensures
        ({
            let h1 = spec_sphere_hit(this_ray, center, radius, mat_ptr, tmn, b1);
            let h2 = spec_sphere_hit(this_ray, center, radius, mat_ptr, tmn, b2);
            &&& h1 is Some ==> h1->0.t.raw < b1.raw && h2 == h1
            &&& h2 is Some && h2->0.t.raw < b1.raw ==> h1 == h2
            &&& h2 is Some ==> h2->0.nor.in_range() && this_ray.dir.dot(h2->0.nor).raw <= 0
            &&& h2 is Some ==> h2->0.mat_ptr == mat_ptr
            &&& h2 is Some ==> tmn.raw < h2->0.t.raw
        }),
{
    reveal(spec_sphere_hit);
    lemma_roots_ordered(this_ray, center, radius);
    match spec_roots(this_ray, center, radius) {
        Some(r) => {
            lemma_sphere_record_faces_ray(this_ray, center, radius, mat_ptr, r.first);
            lemma_sphere_record_faces_ray(this_ray, center, radius, mat_ptr, r.second);
        },
        None => {},
    }
}

/// The two roots of the quadratic of a ray and a sphere, if it has any.
fn roots(this_ray: &Ray, center: Vec3, radius: Scalar) -> (r: Option<Roots>)
    ensures
        r == spec_roots(this_ray, center, radius),
{
    reveal(spec_roots);
    let oc = this_ray.ori.sub(center);
    let a = this_ray.dir.dot(this_ray.dir);
    let half_b = oc.dot(this_ray.dir);
    let c = oc.dot(oc).sub(radius.mul(radius));
    let dt = half_b.mul(half_b).sub(a.mul(c));
    if dt.raw > 0 {
        let root = dt.sqrt();
        Some(
            Roots {
                first: half_b.neg().sub(root).div(a),
                second: half_b.neg().add(root).div(a),
            },
        )
    } else {
        None
    }
}

/// The record of a hit at parameter `t` on the sphere around `center`.
fn sphere_record(this_ray: &Ray, center: Vec3, radius: Scalar, mat_ptr: &Arc<Material>, t: Scalar)
    -> (r: HitRecord)
    ensures
        r == spec_sphere_record(this_ray, center, radius, *mat_ptr, t),
{
    reveal(spec_sphere_record);
    let p = this_ray.pos(t);
    let out_nor = p.sub(center).div(radius);
    let mut rec = HitRecord {
        p,
        nor: Vec3::zero(),
        t,
        u: Scalar::zero(),
        v: Scalar::zero(),
        nor_dir: false,
        mat_ptr: share(mat_ptr),
    };
    get_sphere_uv(out_nor, &mut rec.u, &mut rec.v);
    rec.set_face_normal(this_ray, out_nor);
    rec
}

/// The hit of `this_ray` within `(tmn, tmx)` on the sphere around `center`.
fn sphere_hit(
    this_ray: &Ray,
    center: Vec3,
    radius: Scalar,
    mat_ptr: &Arc<Material>,
    tmn: Scalar,
    tmx: Scalar,
) -> (r: Option<HitRecord>)
    ensures
        r == spec_sphere_hit(this_ray, center, radius, *mat_ptr, tmn, tmx),
{
    reveal(spec_sphere_hit);
    match roots(this_ray, center, radius) {
        Some(found) => {
            if found.first.raw > tmn.raw && found.first.raw < tmx.raw {
                Some(sphere_record(this_ray, center, radius, mat_ptr, found.first))
            } else if found.second.raw > tmn.raw && found.second.raw < tmx.raw {
                Some(sphere_record(this_ray, center, radius, mat_ptr, found.second))
            } else {
                None
            }
        },
        None => None,
    }
}

/// The box around the sphere of the given centre and radius.
fn sphere_box(center: Vec3, radius: Scalar) -> (r: Aabb)
    ensures
        r == spec_sphere_box(center, radius),
{
    let reach = Vec3::new(radius, radius, radius);
    Aabb { mn: center.sub(reach), mx: center.add(reach) }
}

impl Sphere {
    /// What `hit` reports.
    pub open spec fn spec_hit(&self, this_ray: &Ray, tmn: Scalar, tmx: Scalar) -> Option<HitRecord> {
        spec_sphere_hit(this_ray, self.center, self.radius, self.mat_ptr, tmn, tmx)
    }

    /// What `bounding_box` returns.
    pub open spec fn spec_bounding_box(&self, t0: Scalar, t1: Scalar) -> Option<Aabb> {
        Some(spec_sphere_box(self.center, self.radius))
    }

    /// The sphere around `center` with the given radius and material.
    pub fn new(center: Vec3, radius: Scalar, mat_ptr: Arc<Material>) -> (r: Sphere)
        ensures
            r.center == center,
            r.radius == radius,
            r.mat_ptr == mat_ptr,
    {
        Sphere { center, radius, mat_ptr }
    }

    /// The hit of `this_ray` on the sphere within `(tmn, tmx)`: at the
    /// smaller root of the quadratic if that lies in the interval, else at
    /// the larger if that does.
    #[verifier::when_used_as_spec(spec_hit)]
    pub fn hit(&self, this_ray: &Ray, tmn: Scalar, tmx: Scalar) -> (r: Option<HitRecord>)
        ensures
            r == self.spec_hit(this_ray, tmn, tmx),
            r matches Some(rec) ==> tmn.raw < rec.t.raw < tmx.raw && this_ray.dir.dot(rec.nor).raw
                <= 0,
            spec_roots(this_ray, self.center, self.radius) matches Some(roots) ==> {
                &&& roots.first.raw <= roots.second.raw
                &&& tmn.raw < roots.first.raw < tmx.raw ==> (r matches Some(rec) && rec.t
                    == roots.first)
                &&& r is None <==> (!(tmn.raw < roots.first.raw < tmx.raw) && !(tmn.raw
                    < roots.second.raw < tmx.raw))
            },
            spec_roots(this_ray, self.center, self.radius) is None ==> r is None,
    {
        proof {
            lemma_smaller_root_reported(this_ray, self.center, self.radius, self.mat_ptr, tmn, tmx);
            lemma_sphere_hit(this_ray, self.center, self.radius, self.mat_ptr, tmn, tmx, tmx);
        }
        sphere_hit(this_ray, self.center, self.radius, &self.mat_ptr, tmn, tmx)
    }

    /// The box from `center - radius` to `center + radius`.
    #[verifier::when_used_as_spec(spec_bounding_box)]
    pub fn bounding_box(&self, t0: Scalar, t1: Scalar) -> (r: Option<Aabb>)
        ensures
            r == self.spec_bounding_box(t0, t1),
    {
        Some(sphere_box(self.center, self.radius))
    }

    /// The density, with respect to solid angle, with which `random` draws
    /// the direction `v` from `o`: one over the solid angle of the cone in
    /// which the sphere is seen, `2 pi (1 - sqrt(1 - r^2 / |C - O|^2))`, if
    /// the ray from `o` along `v` hits the sphere, and zero if not.
    pub open spec fn spec_pdf_value(&self, o: Vec3, v: Vec3) -> Scalar {
        if self.spec_hit(&Ray { ori: o, dir: v, tm: Scalar::zero() }, spec_near(), Scalar::inf())
            is Some {
            let cos_max = Scalar::one().sub(
                self.radius.mul(self.radius).div(self.center.sub(o).squared_length()),
            ).sqrt();
            let solid_angle = Scalar::from_int(2).mul(Scalar::pi()).mul(
                Scalar::one().sub(cos_max),
            );
            Scalar::one().div(solid_angle)
        } else {
            Scalar::zero()
        }
    }

    /// The direction from `o` toward the point of the sphere that the two
    /// unit samples stand for.
    pub open spec fn spec_direction_from(&self, o: Vec3, u1: Scalar, u2: Scalar) -> Vec3 {
        let dir = self.center.sub(o);
        ONB::buildw(dir).change(spec_to_sphere_from(self.radius, dir.squared_length(), u1, u2))
    }

    /// The density with which `random` draws the direction `v` from `o`.
    #[verifier::when_used_as_spec(spec_pdf_value)]
    pub fn pdf_value(&self, o: Vec3, v: Vec3) -> (r: Scalar)
        ensures
            r == self.spec_pdf_value(o, v),
    {
        if let Some(_rec) = self.hit(&Ray::new(o, v, Scalar::zero()), near(), Scalar::inf()) {
            let cos_max = Scalar::one().sub(
                self.radius.mul(self.radius).div(self.center.sub(o).squared_length()),
            ).sqrt();
            let solid_angle = Scalar::from_int(2).mul(Scalar::pi()).mul(
                Scalar::one().sub(cos_max),
            );
            Scalar::one().div(solid_angle)
        } else {
            Scalar::zero()
        }
    }

    /// The direction from `o` toward the point of the sphere that the two
    /// unit samples stand for.
    #[verifier::when_used_as_spec(spec_direction_from)]
    pub fn direction_from(&self, o: Vec3, u1: Scalar, u2: Scalar) -> (r: Vec3)
        ensures
            r == self.spec_direction_from(o, u1, u2),
    {
        let dir = self.center.sub(o);
        let dis_squared = dir.squared_length();
        let uvw = ONB::buildw(dir);
        uvw.change(to_sphere_from(self.radius, dis_squared, u1, u2))
    }

    /// A random direction from `o` toward the sphere.
    pub fn random(&self, o: Vec3) -> (r: Vec3)
        ensures
            exists|u1: Scalar, u2: Scalar|
                is_unit_sample(u1) && is_unit_sample(u2) && r == self.spec_direction_from(
                    o,
                    u1,
                    u2,
                ),
    {
        let u1 = get_rand01();
        let u2 = get_rand01();
        self.direction_from(o, u1, u2)
    }
}

impl MovingSphere {
    /// Where the centre is at `time`:
    /// `center0 + (center1 - center0) (time - time0) / (time1 - time0)`.
    pub open spec fn spec_center(&self, time: Scalar) -> Vec3 {
        self.center0.add(
            self.center1.sub(self.center0).scale(
                time.sub(self.time0).div(self.time1.sub(self.time0)),
            ),
        )
    }

    /// What `hit` reports.
    pub open spec fn spec_hit(&self, this_ray: &Ray, tmn: Scalar, tmx: Scalar) -> Option<HitRecord> {
        spec_sphere_hit(
            this_ray,
            self.spec_center(this_ray.tm),
            self.radius,
            self.mat_ptr,
            tmn,
            tmx,
        )
    }

    /// What `bounding_box` returns.
    pub open spec fn spec_bounding_box(&self, t0: Scalar, t1: Scalar) -> Option<Aabb> {
        Some(
            Aabb::surrounding_box(
                spec_sphere_box(self.spec_center(t0), self.radius),
                spec_sphere_box(self.spec_center(t1), self.radius),
            ),
        )
    }

    /// The sphere that moves from `center0` at `time0` to `center1` at
    /// `time1`.
    pub fn new(
        center0: Vec3,
        center1: Vec3,
        time0: Scalar,
        time1: Scalar,
        radius: Scalar,
        mat_ptr: Arc<Material>,
    ) -> (r: MovingSphere)
        ensures
            r.center0 == center0,
            r.center1 == center1,
            r.time0 == time0,
            r.time1 == time1,
            r.radius == radius,
            r.mat_ptr == mat_ptr,
    {
        MovingSphere { center0, center1, time0, time1, radius, mat_ptr }
    }

    /// Where the centre is at `time`.
    #[verifier::when_used_as_spec(spec_center)]
    pub fn center(&self, time: Scalar) -> (r: Vec3)
        ensures
            r == self.spec_center(time),
    {
        self.center0.add(
            self.center1.sub(self.center0).scale(
                time.sub(self.time0).div(self.time1.sub(self.time0)),
            ),
        )
    }

    /// The hit of `this_ray` within `(tmn, tmx)` on the sphere where it is
    /// at the time of the ray: at the smaller root of the quadratic if that
    /// lies in the interval, else at the larger if that does.
    #[verifier::when_used_as_spec(spec_hit)]
    pub fn hit(&self, this_ray: &Ray, tmn: Scalar, tmx: Scalar) -> (r: Option<HitRecord>)
        ensures
            r == self.spec_hit(this_ray, tmn, tmx),
            r matches Some(rec) ==> tmn.raw < rec.t.raw < tmx.raw && this_ray.dir.dot(rec.nor).raw
                <= 0,
            spec_roots(this_ray, self.spec_center(this_ray.tm), self.radius) matches Some(roots)
                ==> {
                &&& roots.first.raw <= roots.second.raw
                &&& tmn.raw < roots.first.raw < tmx.raw ==> (r matches Some(rec) && rec.t
                    == roots.first)
                &&& r is None <==> (!(tmn.raw < roots.first.raw < tmx.raw) && !(tmn.raw
                    < roots.second.raw < tmx.raw))
            },
            spec_roots(this_ray, self.spec_center(this_ray.tm), self.radius) is None ==> r is None,
    {
        proof {
            let center = self.spec_center(this_ray.tm);
            lemma_smaller_root_reported(this_ray, center, self.radius, self.mat_ptr, tmn, tmx);
            lemma_sphere_hit(this_ray, center, self.radius, self.mat_ptr, tmn, tmx, tmx);
        }
        sphere_hit(this_ray, self.center(this_ray.tm), self.radius, &self.mat_ptr, tmn, tmx)
    }

    /// The union of the boxes around the sphere at `t0` and at `t1`.
    #[verifier::when_used_as_spec(spec_bounding_box)]
    pub fn bounding_box(&self, t0: Scalar, t1: Scalar) -> (r: Option<Aabb>)
        ensures
            r == self.spec_bounding_box(t0, t1),
    {
        let box0 = sphere_box(self.center(t0), self.radius);
        let box1 = sphere_box(self.center(t1), self.radius);
        Some(Aabb::surrounding_box(box0, box1))
    }
}

} // verus!
