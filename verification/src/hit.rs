//! The hit protocol: what a ray meets, and where.
use vstd::prelude::*;
use std::sync::Arc;
use crate::aabb::Aabb;
use crate::bvh::BvhNode;
use crate::facing::{lemma_hit_faces_ray, well_faced};
use crate::material::Material;
use crate::nearest::{is_consistent, lemma_flat_consistent, lemma_scan_nearest, nearest_of};
use crate::random::{get_rand01, int_from, is_unit_sample, lemma_int_in_range, spec_int_from};
use crate::ray::Ray;
use crate::rect::{Bbox, XyRect, XzRect, YzRect};
use crate::scalar::{lemma_add_negate, lemma_mul_negate, Scalar};
use crate::sphere::{MovingSphere, Sphere};
use crate::transform::{FlipFace, Rotatey, Translate};
use crate::trig::{HALF_PI_RAW, TWO_PI_RAW};
use crate::vec3::Vec3;

verus! {

/// Where a ray met a surface.
pub struct HitRecord {
    /// The point that was hit.
    pub p: Vec3,
    /// The surface normal there, turned against the ray.
    pub nor: Vec3,
    /// The ray parameter of the hit.
    pub t: Scalar,
    /// Surface coordinates of the hit.
    pub u: Scalar,
    pub v: Scalar,
    /// Whether the ray came from the side that the outward normal points to.
    pub nor_dir: bool,
    /// The material of the surface.
    pub mat_ptr: Arc<Material>,
}

/// Lower end of the interval in which a path looks for its next hit: far
/// enough from zero for a ray not to hit the surface it leaves.
pub open spec fn spec_near() -> Scalar {
    Scalar { raw: 1_000 }
}

/// Lower end of the interval in which a path looks for its next hit.
#[verifier::when_used_as_spec(spec_near)]
pub fn near() -> (r: Scalar)
    ensures
        r == spec_near(),
{
    Scalar { raw: 1_000 }
}

/// Surface coordinates of the point `p` of the unit sphere: `u` from its
/// longitude, `v` from its latitude, both in `[0, 1]`.
pub open spec fn spec_sphere_uv(p: Vec3) -> (Scalar, Scalar) {
    let phi = p.z.atan2(p.x);
    let theta = p.y.asin();
    let u = Scalar::one().sub(phi.add(Scalar::pi()).div(Scalar { raw: TWO_PI_RAW }));
    let v = theta.add(Scalar { raw: HALF_PI_RAW }).div(Scalar::pi());
    (u, v)
}

/// Stores in `u` and `v` the surface coordinates of the point `p` of the
/// unit sphere.
pub fn get_sphere_uv(p: Vec3, u: &mut Scalar, v: &mut Scalar)
    ensures
        (*final(u), *final(v)) == spec_sphere_uv(p),
{
    let phi = p.z.atan2(p.x);
    let theta = p.y.asin();
    *u = Scalar::one().sub(phi.add(Scalar::pi()).div(Scalar { raw: TWO_PI_RAW }));
    *v = theta.add(Scalar { raw: HALF_PI_RAW }).div(Scalar::pi());
}

/// Negating one vector of a dot product negates the product.
pub proof fn lemma_dot_negate(d: Vec3, n: Vec3)
    requires
        n.in_range(),
    ensures
        d.dot(n.neg()) == d.dot(n).neg(),
{
    lemma_mul_negate(d.x, n.x);
    lemma_mul_negate(d.y, n.y);
    lemma_mul_negate(d.z, n.z);
    lemma_add_negate(d.x.mul(n.x), d.y.mul(n.y));
    lemma_add_negate(d.x.mul(n.x).add(d.y.mul(n.y)), d.z.mul(n.z));
}

impl HitRecord {
    /// The record with its normal and orientation flag set from the outward
    /// normal `out_nor`: the flag tells whether the ray runs against
    /// `out_nor`, and the stored normal is `out_nor` if it does, the opposite
    /// vector if not.
    pub open spec fn spec_set_face_normal(self, this_ray: &Ray, out_nor: Vec3) -> HitRecord {
        let front = this_ray.dir.dot(out_nor).raw < 0;
        HitRecord {
            nor_dir: front,
            nor: if front {
                out_nor
            } else {
                out_nor.neg()
            },
            ..self
        }
    }

    /// Sets the normal and the orientation flag from the outward normal
    /// `out_nor`. The stored normal never points along the ray.
    pub fn set_face_normal(&mut self, this_ray: &Ray, out_nor: Vec3)
        ensures
            *final(self) == old(self).spec_set_face_normal(this_ray, out_nor),
            out_nor.in_range() ==> this_ray.dir.dot(final(self).nor).raw <= 0,
    {
        self.nor_dir = this_ray.dir.dot(out_nor).raw < 0;
        if self.nor_dir {
            self.nor = out_nor;
        } else {
            self.nor = out_nor.neg();
        }
        proof {
            if out_nor.in_range() {
                lemma_dot_negate(this_ray.dir, out_nor);
            }
        }
    }
}

/// Whatever out of `out_nor` the record is given, its stored normal does
/// not point along the ray, and lies within the range of scalars.
pub proof fn lemma_face_normal_opposes_ray(rec: HitRecord, this_ray: Ray, out_nor: Vec3)
    requires
        out_nor.in_range(),
    ensures
        this_ray.dir.dot(rec.spec_set_face_normal(&this_ray, out_nor).nor).raw <= 0,
        rec.spec_set_face_normal(&this_ray, out_nor).nor.in_range(),
{
    lemma_dot_negate(this_ray.dir, out_nor);
}

/// A list of things that a ray can hit.
pub struct HittableList {
    pub objects: Vec<Arc<Hittable>>,
}

/// Anything that a ray can hit: a shape, a shape moved or turned, or a
/// collection of such.
pub enum Hittable {
    Sphere(Sphere),
    MovingSphere(MovingSphere),
    XyRect(XyRect),
    XzRect(XzRect),
    YzRect(YzRect),
    Bbox(Bbox),
    Translate(Translate),
    Rotatey(Rotatey),
    FlipFace(FlipFace),
    List(HittableList),
    Bvh(BvhNode),
}

/// The nearest hit among the first `n` of `objects`, found by asking each in
/// turn for a hit that is nearer than the nearest so far.
pub open spec fn spec_scan(
    objects: Seq<Arc<Hittable>>,
    n: int,
    this_ray: &Ray,
    tmn: Scalar,
    tmx: Scalar,
) -> Option<HitRecord>
    decreases objects, n,
    when 0 <= n <= objects.len()
{
    if n <= 0 {
        None
    } else {
        let before = spec_scan(objects, n - 1, this_ray, tmn, tmx);
        let bound = match before {
            Some(rec) => rec.t,
            None => tmx,
        };
        match objects[n - 1].spec_hit(this_ray, tmn, bound) {
            Some(rec) => Some(rec),
            None => before,
        }
    }
}

/// The union of the bounding boxes of those of the first `n` of `objects`
/// that have one; nothing if none of them has.
pub open spec fn spec_extent(objects: Seq<Arc<Hittable>>, n: int, t0: Scalar, t1: Scalar) -> Option<
    Aabb,
>
    decreases objects, n,
    when 0 <= n <= objects.len()
{
    if n <= 0 {
        None
    } else {
        match (spec_extent(objects, n - 1, t0, t1), objects[n - 1].spec_bounding_box(t0, t1)) {
            (Some(a), Some(b)) => Some(Aabb::surrounding_box(a, b)),
            (Some(a), None) => Some(a),
            (None, b) => b,
        }
    }
}

/// The sum of `weight` times the density with which each of the first `n`
/// of `objects` draws the direction `v` from `o`.
pub open spec fn spec_density(
    objects: Seq<Arc<Hittable>>,
    n: int,
    o: Vec3,
    v: Vec3,
    weight: Scalar,
) -> Scalar
    decreases objects, n,
    when 0 <= n <= objects.len()
{
    if n <= 0 {
        Scalar::zero()
    } else {
        spec_density(objects, n - 1, o, v, weight).add(
            weight.mul(objects[n - 1].spec_pdf_value(o, v)),
        )
    }
}

impl Default for HittableList {
    /// The empty list.
    fn default() -> (r: HittableList)
        ensures
            r.objects@.len() == 0,
    {
        HittableList { objects: Vec::new() }
    }
}

impl HittableList {
    /// The mean of the densities with which the members draw the direction
    /// `v` from `o`, each weighted by one over the number of members.
    pub open spec fn spec_pdf_value(&self, o: Vec3, v: Vec3) -> Scalar
        decreases self, 0int,
    {
        spec_density(
            self.objects@,
            self.objects@.len() as int,
            o,
            v,
            Scalar::one().div(Scalar::from_count(self.objects.len())),
        )
    }

    /// The list has a member to draw a direction from, and every member
    /// that is a list has one too.
    pub open spec fn can_sample(&self) -> bool
        decreases self, 0int,
    {
        &&& 0 < self.objects@.len() <= i32::MAX
        &&& forall|i: int|
            0 <= i < self.objects@.len() ==> (#[trigger] self.objects@[i]).can_sample()
    }

    /// The member that the unit sample `x` stands for.
    pub open spec fn spec_pick(&self, x: Scalar) -> int {
        spec_int_from(x, 0, (self.objects@.len() - 1) as i32) as int
    }

    /// `random` may return `r` for the origin `o` where the unit sample `x`
    /// chooses the member: the member that `x` stands for may.
    pub open spec fn can_generate_with(&self, x: Scalar, o: Vec3, r: Vec3) -> bool
        decreases self, 0int,
    {
        let k = self.spec_pick(x);
        0 <= k < self.objects@.len() && self.objects@[k].can_generate(o, r)
    }

    /// `random` may return `r` for the origin `o`: for some unit sample,
    /// the member that it stands for may.
    pub open spec fn can_generate(&self, o: Vec3, r: Vec3) -> bool
        decreases self, 1int,
    {
        exists|x: Scalar| #[trigger] is_unit_sample(x) && self.can_generate_with(x, o, r)
    }

    /// What `hit` reports.
    pub open spec fn spec_hit(&self, this_ray: &Ray, tmn: Scalar, tmx: Scalar) -> Option<HitRecord>
        decreases self, 0int,
    {
        spec_scan(self.objects@, self.objects@.len() as int, this_ray, tmn, tmx)
    }

    /// What `bounding_box` returns.
    pub open spec fn spec_bounding_box(&self, t0: Scalar, t1: Scalar) -> Option<Aabb>
        decreases self, 0int,
    {
        spec_extent(self.objects@, self.objects@.len() as int, t0, t1)
    }

    /// The empty list.
    pub fn new() -> (r: HittableList)
        ensures
            r.objects@ == Seq::<Arc<Hittable>>::empty(),
    {
        HittableList { objects: Vec::new() }
    }

    /// Appends `object` to the list.
    pub fn add(&mut self, object: Arc<Hittable>)
        ensures
            final(self).objects@ == old(self).objects@.push(object),
    {
        self.objects.push(object);
    }

    /// The nearest hit of `this_ray` on a member of the list within
    /// `(tmn, tmx)`, found by linear scan: each member is asked for a hit
    /// nearer than the nearest found before it. Where every member is
    /// consistent, as every member is that holds no hierarchy, the result is
    /// a nearest hit on the members: nothing if the ray hits none, else the
    /// hit on one than which no other is nearer.
    #[verifier::when_used_as_spec(spec_hit)]
    pub fn hit(&self, this_ray: &Ray, tmn: Scalar, tmx: Scalar) -> (r: Option<HitRecord>)
        ensures
            r == self.spec_hit(this_ray, tmn, tmx),
            (forall|i: int| 0 <= i < self.objects@.len() ==> (#[trigger] self.objects@[i]).is_flat())
                ==> nearest_of(self.objects@, this_ray, tmn, tmx, r),
            (forall|i: int|
                0 <= i < self.objects@.len() ==> is_consistent(
                    &*#[trigger] self.objects@[i],
                    this_ray,
                    tmn,
                )) ==> nearest_of(self.objects@, this_ray, tmn, tmx, r),
        decreases self, 0int,
    {
        proof {
            if forall|i: int| 0 <= i < self.objects@.len() ==> (#[trigger] self.objects@[i]).is_flat() {
                assert forall|i: int| 0 <= i < self.objects@.len() implies is_consistent(
                    &*#[trigger] self.objects@[i],
                    this_ray,
                    tmn,
                ) by {
                    lemma_flat_consistent(&*self.objects@[i], this_ray, tmn);
                }
            }
            if forall|i: int|
                0 <= i < self.objects@.len() ==> is_consistent(
                    &*#[trigger] self.objects@[i],
                    this_ray,
                    tmn,
                ) {
                lemma_scan_nearest(
                    self.objects@,
                    self.objects@.len() as int,
                    this_ray,
                    tmn,
                    tmx,
                );
                assert(self.objects@.take(self.objects@.len() as int) =~= self.objects@);
            }
        }
        let mut rec: Option<HitRecord> = None;
        let mut bound = tmx;
        let mut i: usize = 0;
        while i < self.objects.len()
            invariant
                i <= self.objects.len(),
                rec == spec_scan(self.objects@, i as int, this_ray, tmn, tmx),
                bound == match rec {
                    Some(found) => found.t,
                    None => tmx,
                },
            decreases self.objects.len() - i,
        {
            proof {
                assert(decreases_to!(self => self.objects));
                assert(decreases_to!(self.objects => self.objects[i as int]));
            }
            if let Some(found) = self.objects[i].hit(this_ray, tmn, bound) {
                bound = found.t;
                rec = Some(found);
            }
            i += 1;
        }
        rec
    }

    /// The mean of the densities with which the members draw the direction
    /// `v` from `o`.
    #[verifier::when_used_as_spec(spec_pdf_value)]
    pub fn pdf_value(&self, o: Vec3, v: Vec3) -> (r: Scalar)
        ensures
            r == self.spec_pdf_value(o, v),
        decreases self, 0int,
    {
        let weight = Scalar::one().div(Scalar::from_count(self.objects.len()));
        let mut sum = Scalar::zero();
        let mut i: usize = 0;
        while i < self.objects.len()
            invariant
                i <= self.objects.len(),
                sum == spec_density(self.objects@, i as int, o, v, weight),
            decreases self.objects.len() - i,
        {
            proof {
                assert(decreases_to!(self => self.objects));
                assert(decreases_to!(self.objects => self.objects[i as int]));
            }
            sum = sum.add(weight.mul(self.objects[i].pdf_value(o, v)));
            i += 1;
        }
        sum
    }

    /// The member that the unit sample `x` stands for.
    pub fn pick(&self, x: Scalar) -> (r: usize)
        requires
            0 < self.objects@.len() <= i32::MAX,
            is_unit_sample(x),
        ensures
            r == self.spec_pick(x),
            r < self.objects@.len(),
    {
        proof {
            lemma_int_in_range(x, 0, (self.objects@.len() - 1) as i32);
        }
        int_from(x, 0, (self.objects.len() - 1) as i32) as usize
    }

    /// A direction from `o` that the member draws that the unit sample `x`
    /// stands for.
    pub fn random_with(&self, o: Vec3, x: Scalar) -> (r: Vec3)
        requires
            self.can_sample(),
            is_unit_sample(x),
        ensures
            self.can_generate_with(x, o, r),
        decreases self, 0int,
    {
        let k = self.pick(x);
        proof {
            assert(decreases_to!(self => self.objects));
            assert(decreases_to!(self.objects => self.objects[k as int]));
            assert(self.objects@[k as int].can_sample());
        }
        self.objects[k].random(o)
    }

    /// A direction from `o` that a member draws, the member chosen
    /// uniformly at random.
    pub fn random(&self, o: Vec3) -> (r: Vec3)
        requires
            self.can_sample(),
        ensures
            self.can_generate(o, r),
        decreases self, 1int,
    {
        let x = get_rand01();
        self.random_with(o, x)
    }

    /// The union of the bounding boxes of the members that have one;
    /// nothing only where no member has one, as in an empty list.
    #[verifier::when_used_as_spec(spec_bounding_box)]
    pub fn bounding_box(&self, t0: Scalar, t1: Scalar) -> (r: Option<Aabb>)
        ensures
            r == self.spec_bounding_box(t0, t1),
            r is None <==> forall|i: int|
                0 <= i < self.objects@.len() ==> (#[trigger] self.objects@[i]).spec_bounding_box(
                    t0,
                    t1,
                ) is None,
        decreases self, 0int,
    {
        let mut output_box: Option<Aabb> = None;
        let mut i: usize = 0;
        while i < self.objects.len()
            invariant
                i <= self.objects.len(),
                output_box == spec_extent(self.objects@, i as int, t0, t1),
            decreases self.objects.len() - i,
        {
            proof {
                assert(decreases_to!(self => self.objects));
                assert(decreases_to!(self.objects => self.objects[i as int]));
            }
            output_box = match (output_box, self.objects[i].bounding_box(t0, t1)) {
                (Some(a), Some(b)) => Some(Aabb::surrounding_box(a, b)),
                (Some(a), None) => Some(a),
                (None, b) => b,
            };
            i += 1;
        }
        proof {
            lemma_extent_is_nothing(self.objects@, self.objects@.len() as int, t0, t1);
        }
        output_box
    }
}

/// A list has no box just when none of its members has one.
pub proof fn lemma_extent_is_nothing(objects: Seq<Arc<Hittable>>, n: int, t0: Scalar, t1: Scalar)
    requires
        0 <= n <= objects.len(),
    ensures
        spec_extent(objects, n, t0, t1) is None <==> forall|i: int|
            0 <= i < n ==> (#[trigger] objects[i]).spec_bounding_box(t0, t1) is None,
    decreases n,
{
    if n > 0 {
        lemma_extent_is_nothing(objects, n - 1, t0, t1);
    }
}

/// The box of a list holds the box of each member that has one.
pub proof fn lemma_extent_holds_boxes(
    objects: Seq<Arc<Hittable>>,
    n: int,
    i: int,
    t0: Scalar,
    t1: Scalar,
)
    requires
        0 <= i < n <= objects.len(),
        objects[i].spec_bounding_box(t0, t1) is Some,
    ensures
        spec_extent(objects, n, t0, t1) is Some,
        spec_extent(objects, n, t0, t1)->0.contains(objects[i].spec_bounding_box(t0, t1)->0),
    decreases n,
{
    if i < n - 1 {
        lemma_extent_holds_boxes(objects, n - 1, i, t0, t1);
    }
}

/// The box of a list lies within every box that holds the box of each
/// member that has one.
pub proof fn lemma_extent_least(
    objects: Seq<Arc<Hittable>>,
    n: int,
    t0: Scalar,
    t1: Scalar,
    outer: Aabb,
)
    requires
        0 <= n <= objects.len(),
        spec_extent(objects, n, t0, t1) is Some,
        forall|i: int|
            0 <= i < n ==> ((#[trigger] objects[i]).spec_bounding_box(t0, t1) matches Some(b)
                ==> outer.contains(b)),
    ensures
        outer.contains(spec_extent(objects, n, t0, t1)->0),
    decreases n,
{
    if n > 0 {
        if spec_extent(objects, n - 1, t0, t1) is Some {
            lemma_extent_least(objects, n - 1, t0, t1, outer);
        }
        let last = objects[n - 1].spec_bounding_box(t0, t1);
        assert(last matches Some(b) ==> outer.contains(b));
    }
}

impl Hittable {
    /// The nearest hit of `this_ray` on this thing at a parameter within
    /// `(tmn, tmx)`, if there is one.
    pub open spec fn spec_hit(&self, this_ray: &Ray, tmn: Scalar, tmx: Scalar) -> Option<HitRecord>
        decreases self, 1int,
    {
        match self {
            Hittable::Sphere(h) => h.spec_hit(this_ray, tmn, tmx),
            Hittable::MovingSphere(h) => h.spec_hit(this_ray, tmn, tmx),
            Hittable::XyRect(h) => h.spec_hit(this_ray, tmn, tmx),
            Hittable::XzRect(h) => h.spec_hit(this_ray, tmn, tmx),
            Hittable::YzRect(h) => h.spec_hit(this_ray, tmn, tmx),
            Hittable::Bbox(h) => h.spec_hit(this_ray, tmn, tmx),
            Hittable::Translate(h) => h.spec_hit(this_ray, tmn, tmx),
            Hittable::Rotatey(h) => h.spec_hit(this_ray, tmn, tmx),
            Hittable::FlipFace(h) => h.spec_hit(this_ray, tmn, tmx),
            Hittable::List(h) => h.spec_hit(this_ray, tmn, tmx),
            Hittable::Bvh(h) => h.spec_hit(this_ray, tmn, tmx),
        }
    }

    /// A box that holds this thing at every time from `t0` to `t1`; nothing
    /// for a collection without members.
    pub open spec fn spec_bounding_box(&self, t0: Scalar, t1: Scalar) -> Option<Aabb>
        decreases self, 1int,
    {
        match self {
            Hittable::Sphere(h) => h.spec_bounding_box(t0, t1),
            Hittable::MovingSphere(h) => h.spec_bounding_box(t0, t1),
            Hittable::XyRect(h) => h.spec_bounding_box(t0, t1),
            Hittable::XzRect(h) => h.spec_bounding_box(t0, t1),
            Hittable::YzRect(h) => h.spec_bounding_box(t0, t1),
            Hittable::Bbox(h) => h.spec_bounding_box(t0, t1),
            Hittable::Translate(h) => h.spec_bounding_box(t0, t1),
            Hittable::Rotatey(h) => h.spec_bounding_box(t0, t1),
            Hittable::FlipFace(h) => h.spec_bounding_box(t0, t1),
            Hittable::List(h) => h.spec_bounding_box(t0, t1),
            Hittable::Bvh(h) => h.spec_bounding_box(t0, t1),
        }
    }

    /// The density, with respect to solid angle, with which `random` draws
    /// the direction `v` from `o`. Zero for everything but a sphere, a
    /// rectangle that faces y, and a list.
    pub open spec fn spec_pdf_value(&self, o: Vec3, v: Vec3) -> Scalar
        decreases self, 1int,
    {
        match self {
            Hittable::Sphere(h) => h.spec_pdf_value(o, v),
            Hittable::XzRect(h) => h.spec_pdf_value(o, v),
            Hittable::List(h) => h.spec_pdf_value(o, v),
            _ => Scalar::zero(),
        }
    }

    /// `random` can be asked of this thing: every list in it that a
    /// direction may be drawn from has a member.
    pub open spec fn can_sample(&self) -> bool
        decreases self, 1int,
    {
        match self {
            Hittable::List(h) => h.can_sample(),
            _ => true,
        }
    }

    /// `random` may return `r` for the origin `o`. A sphere and a rectangle
    /// that faces y return a direction toward a point of theirs that two
    /// unit samples stand for; a list returns what a member returns;
    /// everything else returns the x axis.
    pub open spec fn can_generate(&self, o: Vec3, r: Vec3) -> bool
        decreases self, 1int,
    {
        match self {
            Hittable::Sphere(h) => exists|u1: Scalar, u2: Scalar|
                is_unit_sample(u1) && is_unit_sample(u2) && r == #[trigger] h.spec_direction_from(
                    o,
                    u1,
                    u2,
                ),
            Hittable::XzRect(h) => exists|u1: Scalar, u2: Scalar|
                is_unit_sample(u1) && is_unit_sample(u2) && r == #[trigger] h.spec_direction_from(
                    o,
                    u1,
                    u2,
                ),
            Hittable::List(h) => h.can_generate(o, r),
            _ => r == Vec3 { x: Scalar::one(), y: Scalar::zero(), z: Scalar::zero() },
        }
    }

    /// The material of every surface of this thing satisfies `p`.
    pub open spec fn every_material(&self, p: spec_fn(Material) -> bool) -> bool
        decreases self,
    {
        match self {
            Hittable::Sphere(h) => p(*h.mat_ptr),
            Hittable::MovingSphere(h) => p(*h.mat_ptr),
            Hittable::XyRect(h) => p(*h.mp),
            Hittable::XzRect(h) => p(*h.mp),
            Hittable::YzRect(h) => p(*h.mp),
            Hittable::Bbox(h) => forall|i: int|
                0 <= i < h.sides.objects@.len() ==> (#[trigger] h.sides.objects@[i]).every_material(p),
            Hittable::Translate(h) => h.ptr.every_material(p),
            Hittable::Rotatey(h) => h.ptr.every_material(p),
            Hittable::FlipFace(h) => h.ptr.every_material(p),
            Hittable::List(h) => forall|i: int|
                0 <= i < h.objects@.len() ==> (#[trigger] h.objects@[i]).every_material(p),
            Hittable::Bvh(h) => h.left.every_material(p) && h.right.every_material(p),
        }
    }

    /// Every surface of this thing has a material that is not the
    /// placeholder.
    pub open spec fn has_materials(&self) -> bool {
        self.every_material(Material::that_is_real())
    }

    /// No surface of this thing creates light: none is a lamp, and none
    /// reflects more than it receives.
    pub open spec fn is_dim(&self) -> bool {
        self.every_material(Material::that_is_dim())
    }

    /// No bounding-volume hierarchy is this thing or a part of it.
    pub open spec fn is_flat(&self) -> bool
        decreases self,
    {
        match self {
            Hittable::Bbox(h) => forall|i: int|
                0 <= i < h.sides.objects@.len() ==> (#[trigger] h.sides.objects@[i]).is_flat(),
            Hittable::Translate(h) => h.ptr.is_flat(),
            Hittable::Rotatey(h) => h.ptr.is_flat(),
            Hittable::FlipFace(h) => h.ptr.is_flat(),
            Hittable::List(h) => forall|i: int|
                0 <= i < h.objects@.len() ==> (#[trigger] h.objects@[i]).is_flat(),
            Hittable::Bvh(h) => false,
            _ => true,
        }
    }

    /// The nearest hit of `this_ray` on this thing within `(tmn, tmx)`. The
    /// normal of the hit does not point along the ray.
    #[verifier::when_used_as_spec(spec_hit)]
    pub fn hit(&self, this_ray: &Ray, tmn: Scalar, tmx: Scalar) -> (r: Option<HitRecord>)
        ensures
            r == self.spec_hit(this_ray, tmn, tmx),
            well_faced(r, this_ray),
        decreases self, 1int,
    {
        proof {
            lemma_hit_faces_ray(self, this_ray, tmn, tmx);
        }
        match self {
            Hittable::Sphere(h) => h.hit(this_ray, tmn, tmx),
            Hittable::MovingSphere(h) => h.hit(this_ray, tmn, tmx),
            Hittable::XyRect(h) => h.hit(this_ray, tmn, tmx),
            Hittable::XzRect(h) => h.hit(this_ray, tmn, tmx),
            Hittable::YzRect(h) => h.hit(this_ray, tmn, tmx),
            Hittable::Bbox(h) => h.hit(this_ray, tmn, tmx),
            Hittable::Translate(h) => h.hit(this_ray, tmn, tmx),
            Hittable::Rotatey(h) => h.hit(this_ray, tmn, tmx),
            Hittable::FlipFace(h) => h.hit(this_ray, tmn, tmx),
            Hittable::List(h) => h.hit(this_ray, tmn, tmx),
            Hittable::Bvh(h) => h.hit(this_ray, tmn, tmx),
        }
    }

    /// The density with which `random` draws the direction `v` from `o`.
    #[verifier::when_used_as_spec(spec_pdf_value)]
    pub fn pdf_value(&self, o: Vec3, v: Vec3) -> (r: Scalar)
        ensures
            r == self.spec_pdf_value(o, v),
        decreases self, 1int,
    {
        match self {
            Hittable::Sphere(h) => h.pdf_value(o, v),
            Hittable::XzRect(h) => h.pdf_value(o, v),
            Hittable::List(h) => h.pdf_value(o, v),
            _ => Scalar::zero(),
        }
    }

    /// A random direction from `o` toward this thing.
    pub fn random(&self, o: Vec3) -> (r: Vec3)
        requires
            self.can_sample(),
        ensures
            self.can_generate(o, r),
        decreases self, 1int,
    {
        match self {
            Hittable::Sphere(h) => h.random(o),
            Hittable::XzRect(h) => h.random(o),
            Hittable::List(h) => h.random(o),
            _ => Vec3::new(Scalar::one(), Scalar::zero(), Scalar::zero()),
        }
    }

    /// A box that holds this thing at every time from `t0` to `t1`.
    #[verifier::when_used_as_spec(spec_bounding_box)]
    pub fn bounding_box(&self, t0: Scalar, t1: Scalar) -> (r: Option<Aabb>)
        ensures
            r == self.spec_bounding_box(t0, t1),
        decreases self, 1int,
    {
        match self {
            Hittable::Sphere(h) => h.bounding_box(t0, t1),
            Hittable::MovingSphere(h) => h.bounding_box(t0, t1),
            Hittable::XyRect(h) => h.bounding_box(t0, t1),
            Hittable::XzRect(h) => h.bounding_box(t0, t1),
            Hittable::YzRect(h) => h.bounding_box(t0, t1),
            Hittable::Bbox(h) => h.bounding_box(t0, t1),
            Hittable::Translate(h) => h.bounding_box(t0, t1),
            Hittable::Rotatey(h) => h.bounding_box(t0, t1),
            Hittable::FlipFace(h) => h.bounding_box(t0, t1),
            Hittable::List(h) => h.bounding_box(t0, t1),
            Hittable::Bvh(h) => h.bounding_box(t0, t1),
        }
    }
}

} // verus!
