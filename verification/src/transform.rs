//! Things moved, turned about the vertical axis, or seen from the other
//! side.
use vstd::prelude::*;
use std::sync::Arc;
use crate::aabb::Aabb;
use crate::hit::{HitRecord, Hittable};
use crate::ray::Ray;
use crate::scalar::Scalar;
use crate::camera::degrees_to_radians;
use crate::vec3::Vec3;

verus! {

/// The thing behind `ptr`, moved by `offset`.
pub struct Translate {
    pub ptr: Arc<Hittable>,
    pub offset: Vec3,
}

/// The thing behind `ptr`, turned about the y axis by the angle whose sine
/// and cosine are kept, with the box that holds it after the turn.
pub struct Rotatey {
    pub ptr: Arc<Hittable>,
    pub sintheta: Scalar,
    pub costheta: Scalar,
    pub mybox: Option<Aabb>,
}

/// The thing behind `ptr` with front and back exchanged.
pub struct FlipFace {
    pub ptr: Arc<Hittable>,
}

/// `p` turned about the y axis by the angle with the given sine and cosine:
/// `(c x + s z, y, -s x + c z)`.
pub open spec fn spec_turn(p: Vec3, sintheta: Scalar, costheta: Scalar) -> Vec3 {
    Vec3 {
        x: costheta.mul(p.x).add(sintheta.mul(p.z)),
        y: p.y,
        z: sintheta.neg().mul(p.x).add(costheta.mul(p.z)),
    }
}

/// `p` turned back: `(c x - s z, y, s x + c z)`.
pub open spec fn spec_turn_back(p: Vec3, sintheta: Scalar, costheta: Scalar) -> Vec3 {
    Vec3 {
        x: costheta.mul(p.x).sub(sintheta.mul(p.z)),
        y: p.y,
        z: sintheta.mul(p.x).add(costheta.mul(p.z)),
    }
}

/// Corner number `n` of `b`, for `n` from 0 to 7: bit 2 of `n` chooses the
/// minimum on x, bit 1 on y, bit 0 on z.
pub open spec fn spec_corner(b: Aabb, n: int) -> Vec3 {
    Vec3 {
        x: if (n / 4) % 2 == 1 {
            b.mn.x
        } else {
            b.mx.x
        },
        y: if (n / 2) % 2 == 1 {
            b.mn.y
        } else {
            b.mx.y
        },
        z: if n % 2 == 1 {
            b.mn.z
        } else {
            b.mx.z
        },
    }
}

/// The box with nothing in it, from which an extent is grown: its minimum
/// corner at plus infinity, its maximum corner at minus infinity.
pub open spec fn spec_void() -> Aabb {
    Aabb {
        mn: Vec3 { x: Scalar::inf(), y: Scalar::inf(), z: Scalar::inf() },
        mx: Vec3 { x: Scalar::inf().neg(), y: Scalar::inf().neg(), z: Scalar::inf().neg() },
    }
}

/// `b` grown to hold the point `p`.
pub open spec fn spec_grow(b: Aabb, p: Vec3) -> Aabb {
    Aabb {
        mn: Vec3 { x: b.mn.x.min(p.x), y: b.mn.y.min(p.y), z: b.mn.z.min(p.z) },
        mx: Vec3 { x: b.mx.x.max(p.x), y: b.mx.y.max(p.y), z: b.mx.z.max(p.z) },
    }
}

/// The smallest box that holds the first `n` corners of `b` after the turn.
pub open spec fn spec_turned_extent(b: Aabb, sintheta: Scalar, costheta: Scalar, n: int) -> Aabb
    decreases n,
{
    if n <= 0 {
        spec_void()
    } else {
        spec_grow(
            spec_turned_extent(b, sintheta, costheta, n - 1),
            spec_turn(spec_corner(b, n - 1), sintheta, costheta),
        )
    }
}

/// The smallest box that holds all eight corners of `b` after the turn.
pub open spec fn spec_turned_box(b: Aabb, sintheta: Scalar, costheta: Scalar) -> Aabb {
    spec_turned_extent(b, sintheta, costheta, 8)
}

/// The box of a turned thing holds each of the eight turned corners of the
/// box it was made from.
pub proof fn lemma_turned_box_holds_corners(b: Aabb, sintheta: Scalar, costheta: Scalar, n: int)
    requires
        0 <= n < 8,
    ensures
        ({
            let p = spec_turn(spec_corner(b, n), sintheta, costheta);
            let t = spec_turned_box(b, sintheta, costheta);
            &&& t.mn.x.raw <= p.x.raw <= t.mx.x.raw
            &&& t.mn.y.raw <= p.y.raw <= t.mx.y.raw
            &&& t.mn.z.raw <= p.z.raw <= t.mx.z.raw
        }),
{
    lemma_extent_holds_corner(b, sintheta, costheta, n, 8);
}

/// The extent of the first `m` turned corners holds each of them.
proof fn lemma_extent_holds_corner(b: Aabb, sintheta: Scalar, costheta: Scalar, n: int, m: int)
    requires
        0 <= n < m,
    ensures
        ({
            let p = spec_turn(spec_corner(b, n), sintheta, costheta);
            let t = spec_turned_extent(b, sintheta, costheta, m);
            &&& t.mn.x.raw <= p.x.raw <= t.mx.x.raw
            &&& t.mn.y.raw <= p.y.raw <= t.mx.y.raw
            &&& t.mn.z.raw <= p.z.raw <= t.mx.z.raw
        }),
    decreases m,
{
    if n < m - 1 {
        lemma_extent_holds_corner(b, sintheta, costheta, n, m - 1);
    }
}

/// `p` turned about the y axis.
fn turn(p: Vec3, sintheta: Scalar, costheta: Scalar) -> (r: Vec3)
    ensures
        r == spec_turn(p, sintheta, costheta),
{
    Vec3 {
        x: costheta.mul(p.x).add(sintheta.mul(p.z)),
        y: p.y,
        z: sintheta.neg().mul(p.x).add(costheta.mul(p.z)),
    }
}

/// `p` turned back about the y axis.
fn turn_back(p: Vec3, sintheta: Scalar, costheta: Scalar) -> (r: Vec3)
    ensures
        r == spec_turn_back(p, sintheta, costheta),
{
    Vec3 {
        x: costheta.mul(p.x).sub(sintheta.mul(p.z)),
        y: p.y,
        z: sintheta.mul(p.x).add(costheta.mul(p.z)),
    }
}

/// The smallest box that holds all eight corners of `b` after the turn.
fn turned_box(b: &Aabb, sintheta: Scalar, costheta: Scalar) -> (r: Aabb)
    ensures
        r == spec_turned_box(*b, sintheta, costheta),
{
    let mut mn = Vec3::new(Scalar::inf(), Scalar::inf(), Scalar::inf());
    let mut mx = Vec3::new(Scalar::inf().neg(), Scalar::inf().neg(), Scalar::inf().neg());
    let mut n: u8 = 0;
    while n < 8
        invariant
            n <= 8,
            (Aabb { mn, mx }) == spec_turned_extent(*b, sintheta, costheta, n as int),
        decreases 8 - n,
    {
        let x = if (n / 4) % 2 == 1 {
            b.mn.x
        } else {
            b.mx.x
        };
        let y = if (n / 2) % 2 == 1 {
            b.mn.y
        } else {
            b.mx.y
        };
        let z = if n % 2 == 1 {
            b.mn.z
        } else {
            b.mx.z
        };
        let rotated_pos = turn(Vec3::new(x, y, z), sintheta, costheta);
        mn = Vec3::new(mn.x.min(rotated_pos.x), mn.y.min(rotated_pos.y), mn.z.min(rotated_pos.z));
        mx = Vec3::new(mx.x.max(rotated_pos.x), mx.y.max(rotated_pos.y), mx.z.max(rotated_pos.z));
        n += 1;
    }
    Aabb { mn, mx }
}

impl Translate {
    /// The ray as the thing sees it before it is moved.
    pub open spec fn spec_moved_ray(&self, this_ray: &Ray) -> Ray {
        Ray { ori: this_ray.ori.sub(self.offset), dir: this_ray.dir, tm: this_ray.tm }
    }

    /// What `hit` reports.
    pub open spec fn spec_hit(&self, this_ray: &Ray, tmn: Scalar, tmx: Scalar) -> Option<HitRecord>
        decreases self, 0int,
    {
        let moved_ray = self.spec_moved_ray(this_ray);
        match self.ptr.spec_hit(&moved_ray, tmn, tmx) {
            Some(rec) => Some(
                HitRecord { p: rec.p.add(self.offset), ..rec }.spec_set_face_normal(
                    &moved_ray,
                    rec.nor,
                ),
            ),
            None => None,
        }
    }

    /// What `bounding_box` returns.
    pub open spec fn spec_bounding_box(&self, t0: Scalar, t1: Scalar) -> Option<Aabb>
        decreases self, 0int,
    {
        match self.ptr.spec_bounding_box(t0, t1) {
            Some(b) => Some(Aabb { mn: b.mn.add(self.offset), mx: b.mx.add(self.offset) }),
            None => None,
        }
    }

    /// The thing behind `ptr`, moved by `offset`.
    pub fn new(ptr: Arc<Hittable>, offset: Vec3) -> (r: Translate)
        ensures
            r.ptr == ptr,
            r.offset == offset,
    {
        Translate { ptr, offset }
    }

    /// The hit on the moved thing: the hit of the ray moved back by the
    /// offset on the thing itself, with the point moved forth again.
    #[verifier::when_used_as_spec(spec_hit)]
    pub fn hit(&self, this_ray: &Ray, tmn: Scalar, tmx: Scalar) -> (r: Option<HitRecord>)
        ensures
            r == self.spec_hit(this_ray, tmn, tmx),
        decreases self, 0int,
    {
        let moved_ray = Ray::new(this_ray.ori.sub(self.offset), this_ray.dir, this_ray.tm);
        if let Some(mut rec) = self.ptr.hit(&moved_ray, tmn, tmx) {
            rec.p = rec.p.add(self.offset);
            let nor = rec.nor;
            rec.set_face_normal(&moved_ray, nor);
            Some(rec)
        } else {
            None
        }
    }

    /// The box of the thing, moved by the offset.
    #[verifier::when_used_as_spec(spec_bounding_box)]
    pub fn bounding_box(&self, t0: Scalar, t1: Scalar) -> (r: Option<Aabb>)
        ensures
            r == self.spec_bounding_box(t0, t1),
        decreases self, 0int,
    {
        if let Some(tmp) = self.ptr.bounding_box(t0, t1) {
            Some(Aabb::new(tmp.mn.add(self.offset), tmp.mx.add(self.offset)))
        } else {
            None
        }
    }
}

impl Rotatey {
    /// The ray as the thing sees it before it is turned.
    pub open spec fn spec_rotated_ray(&self, this_ray: &Ray) -> Ray {
        Ray {
            ori: spec_turn_back(this_ray.ori, self.sintheta, self.costheta),
            dir: spec_turn_back(this_ray.dir, self.sintheta, self.costheta),
            tm: this_ray.tm,
        }
    }

    /// What `hit` reports.
    pub open spec fn spec_hit(&self, this_ray: &Ray, tmn: Scalar, tmx: Scalar) -> Option<HitRecord>
        decreases self, 0int,
    {
        let rotated_ray = self.spec_rotated_ray(this_ray);
        match self.ptr.spec_hit(&rotated_ray, tmn, tmx) {
            Some(rec) => Some(
                HitRecord {
                    p: spec_turn(rec.p, self.sintheta, self.costheta),
                    ..rec
                }.spec_set_face_normal(
                    this_ray,
                    spec_turn(rec.nor, self.sintheta, self.costheta),
                ),
            ),
            None => None,
        }
    }

    /// What `bounding_box` returns.
    pub open spec fn spec_bounding_box(&self, t0: Scalar, t1: Scalar) -> Option<Aabb> {
        self.mybox
    }

    /// The sine, the cosine and the box that a turn by `angle` degrees of a
    /// thing with the bounding box `inner` is given.
    pub open spec fn spec_parts(inner: Option<Aabb>, angle: Scalar) -> (Scalar, Scalar, Option<Aabb>) {
        let radian = degrees_to_radians(angle);
        let sintheta = radian.sin();
        let costheta = radian.cos();
        (
            sintheta,
            costheta,
            match inner {
                Some(b) => Some(spec_turned_box(b, sintheta, costheta)),
                None => None,
            },
        )
    }

    /// The thing behind `ptr`, turned about the y axis by `angle` degrees.
    /// Its box is the smallest that holds the eight turned corners of the
    /// box that the thing has over the times from zero to one.
    pub fn new(ptr: Arc<Hittable>, angle: Scalar) -> (r: Rotatey)
        ensures
            r.ptr == ptr,
            (r.sintheta, r.costheta, r.mybox) == Rotatey::spec_parts(
                ptr.spec_bounding_box(Scalar::zero(), Scalar::one()),
                angle,
            ),
    {
        let radian = degrees_to_radians(angle);
        let sintheta = radian.sin();
        let costheta = radian.cos();
        let mybox = match ptr.bounding_box(Scalar::zero(), Scalar::one()) {
            Some(tmp) => Some(turned_box(&tmp, sintheta, costheta)),
            None => None,
        };
        Rotatey { ptr, sintheta, costheta, mybox }
    }

    /// The hit on the turned thing: the hit of the ray turned back on the
    /// thing itself, with the point and the normal turned forth again and
    /// the normal set against `this_ray`.
    #[verifier::when_used_as_spec(spec_hit)]
    pub fn hit(&self, this_ray: &Ray, tmn: Scalar, tmx: Scalar) -> (r: Option<HitRecord>)
        ensures
            r == self.spec_hit(this_ray, tmn, tmx),
        decreases self, 0int,
    {
        let ori = turn_back(this_ray.ori, self.sintheta, self.costheta);
        let dir = turn_back(this_ray.dir, self.sintheta, self.costheta);
        let rotated_ray = Ray::new(ori, dir, this_ray.tm);
        if let Some(mut rec) = self.ptr.hit(&rotated_ray, tmn, tmx) {
            let nor = turn(rec.nor, self.sintheta, self.costheta);
            rec.p = turn(rec.p, self.sintheta, self.costheta);
            rec.set_face_normal(this_ray, nor);
            Some(rec)
        } else {
            None
        }
    }

    /// The box that was computed when the turn was made.
    #[verifier::when_used_as_spec(spec_bounding_box)]
    pub fn bounding_box(&self, t0: Scalar, t1: Scalar) -> (r: Option<Aabb>)
        ensures
            r == self.spec_bounding_box(t0, t1),
    {
        self.mybox
    }
}

impl FlipFace {
    /// What `hit` reports.
    pub open spec fn spec_hit(&self, this_ray: &Ray, tmn: Scalar, tmx: Scalar) -> Option<HitRecord>
        decreases self, 0int,
    {
        match self.ptr.spec_hit(this_ray, tmn, tmx) {
            Some(rec) => Some(HitRecord { nor_dir: !rec.nor_dir, ..rec }),
            None => None,
        }
    }

    /// What `bounding_box` returns.
    pub open spec fn spec_bounding_box(&self, t0: Scalar, t1: Scalar) -> Option<Aabb>
        decreases self, 0int,
    {
        self.ptr.spec_bounding_box(t0, t1)
    }

    /// The thing behind `ptr` with front and back exchanged.
    pub fn new(ptr: Arc<Hittable>) -> (r: FlipFace)
        ensures
            r.ptr == ptr,
    {
        FlipFace { ptr }
    }

    /// The hit on the thing itself, with the orientation flag inverted.
    #[verifier::when_used_as_spec(spec_hit)]
    pub fn hit(&self, this_ray: &Ray, tmn: Scalar, tmx: Scalar) -> (r: Option<HitRecord>)
        ensures
            r == self.spec_hit(this_ray, tmn, tmx),
        decreases self, 0int,
    {
        if let Some(mut rec) = self.ptr.hit(this_ray, tmn, tmx) {
            rec.nor_dir = !rec.nor_dir;
            Some(rec)
        } else {
            None
        }
    }

    /// The box of the thing itself.
    #[verifier::when_used_as_spec(spec_bounding_box)]
    pub fn bounding_box(&self, t0: Scalar, t1: Scalar) -> (r: Option<Aabb>)
        ensures
            r == self.spec_bounding_box(t0, t1),
        decreases self, 0int,
    {
        self.ptr.bounding_box(t0, t1)
    }
}

} // verus!
