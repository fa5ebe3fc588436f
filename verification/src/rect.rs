//! Axis-aligned rectangles, and the box made of six of them.
use vstd::prelude::*;
use std::sync::Arc;
use crate::aabb::Aabb;
use crate::hit::{
    lemma_face_normal_opposes_ray, near, spec_near, HitRecord, Hittable, HittableList,
};
use crate::random::{get_rand01, is_unit_sample, spec_spread, spread};
use crate::material::Material;
use crate::ray::Ray;
use crate::scalar::Scalar;
use crate::shared::share;
use crate::vec3::Vec3;

verus! {

/// The rectangle `[x0, x1] x [y0, y1]` in the plane `z = k`.
pub struct XyRect {
    pub x0: Scalar,
    pub x1: Scalar,
    pub y0: Scalar,
    pub y1: Scalar,
    pub k: Scalar,
    pub mp: Arc<Material>,
}

/// The rectangle `[x0, x1] x [z0, z1]` in the plane `y = k`.
pub struct XzRect {
    pub x0: Scalar,
    pub x1: Scalar,
    pub z0: Scalar,
    pub z1: Scalar,
    pub k: Scalar,
    pub mp: Arc<Material>,
}

/// The rectangle `[y0, y1] x [z0, z1]` in the plane `x = k`.
pub struct YzRect {
    pub y0: Scalar,
    pub y1: Scalar,
    pub z0: Scalar,
    pub z1: Scalar,
    pub k: Scalar,
    pub mp: Arc<Material>,
}

/// The rectangular prism between the corners `boxmn` and `boxmx`, as its six
/// faces.
pub struct Bbox {
    pub boxmn: Vec3,
    pub boxmx: Vec3,
    pub sides: HittableList,
}

/// A rectangle in a plane that faces one axis: the axis `fixed`, on which
/// it lies at `k`, and the intervals `[a0, a1]` and `[b0, b1]` that it
/// covers on the axes `first` and `second`.
pub struct Panel {
    pub fixed: usize,
    pub first: usize,
    pub second: usize,
    pub a0: Scalar,
    pub a1: Scalar,
    pub b0: Scalar,
    pub b1: Scalar,
    pub k: Scalar,
}

/// Half the thickness that a rectangle's bounding box is given.
pub open spec fn spec_pad() -> Scalar {
    Scalar { raw: 1_000 }
}

/// The unit vector along `axis`.
pub open spec fn spec_axis_unit(axis: usize) -> Vec3 {
    Vec3::zero().with(axis, Scalar::one())
}

impl Panel {
    /// The three axes are the three different axes.
    pub open spec fn well_formed(&self) -> bool {
        &&& self.fixed < 3 && self.first < 3 && self.second < 3
        &&& self.fixed != self.first && self.fixed != self.second && self.first != self.second
    }

    /// The parameter at which `this_ray` crosses the plane of the
    /// rectangle: `(k - O) / D` on the fixed axis.
    pub open spec fn spec_crossing(&self, this_ray: &Ray) -> Scalar {
        self.k.sub(this_ray.ori.get(self.fixed)).div(this_ray.dir.get(self.fixed))
    }

    /// The hit of `this_ray` on the rectangle: where the ray crosses the
    /// plane, if the parameter lies in `(tmn, tmx)` and the crossing point
    /// within both intervals. The outward normal is the unit vector of the
    /// fixed axis.
    #[verifier::opaque]
    pub open spec fn spec_hit(
        &self,
        this_ray: &Ray,
        mp: Arc<Material>,
        tmn: Scalar,
        tmx: Scalar,
    ) -> Option<HitRecord> {
        let t = self.spec_crossing(this_ray);
        let a = this_ray.ori.get(self.first).add(t.mul(this_ray.dir.get(self.first)));
        let b = this_ray.ori.get(self.second).add(t.mul(this_ray.dir.get(self.second)));
        if t.raw <= tmn.raw || t.raw >= tmx.raw {
            None
        } else if a.raw < self.a0.raw || a.raw > self.a1.raw || b.raw < self.b0.raw || b.raw
            > self.b1.raw {
            None
        } else {
            Some(
                HitRecord {
                    p: this_ray.pos(t),
                    nor: Vec3::zero(),
                    t,
                    u: a.sub(self.a0).div(self.a1.sub(self.a0)),
                    v: b.sub(self.b0).div(self.b1.sub(self.b0)),
                    nor_dir: false,
                    mat_ptr: mp,
                }.spec_set_face_normal(this_ray, spec_axis_unit(self.fixed)),
            )
        }
    }

    /// The box of the rectangle: its two intervals, and `k` padded by a
    /// thousandth either way on the fixed axis.
    pub open spec fn spec_bounding_box(&self) -> Aabb {
        Aabb {
            mn: Vec3::zero().with(self.first, self.a0).with(self.second, self.b0).with(
                self.fixed,
                self.k.sub(spec_pad()),
            ),
            mx: Vec3::zero().with(self.first, self.a1).with(self.second, self.b1).with(
                self.fixed,
                self.k.add(spec_pad()),
            ),
        }
    }

    /// The hit of `this_ray` on the rectangle at a parameter in `(tmn, tmx)`.
    fn hit(&self, this_ray: &Ray, mp: &Arc<Material>, tmn: Scalar, tmx: Scalar) -> (r: Option<
        HitRecord,
    >)
        requires
            self.well_formed(),
        ensures
            r == self.spec_hit(this_ray, *mp, tmn, tmx),
    {
        reveal(Panel::spec_hit);
        let t = self.k.sub(this_ray.ori.get(self.fixed)).div(this_ray.dir.get(self.fixed));
        if t.raw <= tmn.raw || t.raw >= tmx.raw {
            return None;
        }
        let a = this_ray.ori.get(self.first).add(t.mul(this_ray.dir.get(self.first)));
        let b = this_ray.ori.get(self.second).add(t.mul(this_ray.dir.get(self.second)));
        if a.raw < self.a0.raw || a.raw > self.a1.raw || b.raw < self.b0.raw || b.raw
            > self.b1.raw {
            return None;
        }
        let mut rec = HitRecord {
            p: this_ray.pos(t),
            nor: Vec3::zero(),
            t,
            u: a.sub(self.a0).div(self.a1.sub(self.a0)),
            v: b.sub(self.b0).div(self.b1.sub(self.b0)),
            nor_dir: false,
            mat_ptr: share(mp),
        };
        let outward_normal = Vec3::zero().with(self.fixed, Scalar::one());
        rec.set_face_normal(this_ray, outward_normal);
        Some(rec)
    }

    /// The box of the rectangle.
    fn bounding_box(&self) -> (r: Aabb)
        requires
            self.well_formed(),
        ensures
            r == self.spec_bounding_box(),
    {
        let pad = Scalar { raw: 1_000 };
        Aabb {
            mn: Vec3::zero().with(self.first, self.a0).with(self.second, self.b0).with(
                self.fixed,
                self.k.sub(pad),
            ),
            mx: Vec3::zero().with(self.first, self.a1).with(self.second, self.b1).with(
                self.fixed,
                self.k.add(pad),
            ),
        }
    }
}

/// What a rectangle reports within two intervals with the same lower bound
/// differs only by whether the hit lies below the upper bound, and
/// its normal does not point along the ray.
pub proof fn lemma_panel_hit(
    panel: &Panel,
    this_ray: &Ray,
    mp: Arc<Material>,
    tmn: Scalar,
    b1: Scalar,
    b2: Scalar,
)
    requires
        b1.raw <= b2.raw,
    ensures
        ({
            let h1 = panel.spec_hit(this_ray, mp, tmn, b1);
            let h2 = panel.spec_hit(this_ray, mp, tmn, b2);
            &&& h1 is Some ==> h1->0.t.raw < b1.raw && h2 == h1
            &&& h2 is Some && h2->0.t.raw < b1.raw ==> h1 == h2
            &&& h2 is Some ==> h2->0.nor.in_range() && this_ray.dir.dot(h2->0.nor).raw <= 0
            &&& h2 is Some ==> h2->0.mat_ptr == mp
        }),
{
    reveal(Panel::spec_hit);
    let t = panel.spec_crossing(this_ray);
    let a = this_ray.ori.get(panel.first).add(t.mul(this_ray.dir.get(panel.first)));
    let b = this_ray.ori.get(panel.second).add(t.mul(this_ray.dir.get(panel.second)));
    let bare = HitRecord {
        p: this_ray.pos(t),
        nor: Vec3::zero(),
        t,
        u: a.sub(panel.a0).div(panel.a1.sub(panel.a0)),
        v: b.sub(panel.b0).div(panel.b1.sub(panel.b0)),
        nor_dir: false,
        mat_ptr: mp,
    };
    lemma_face_normal_opposes_ray(bare, *this_ray, spec_axis_unit(panel.fixed));
}

impl XyRect {
    /// The rectangle as a panel that faces the z axis.
    pub open spec fn spec_panel(&self) -> Panel {
        Panel {
            fixed: 2,
            first: 0,
            second: 1,
            a0: self.x0,
            a1: self.x1,
            b0: self.y0,
            b1: self.y1,
            k: self.k,
        }
    }

    /// What `hit` reports.
    pub open spec fn spec_hit(&self, this_ray: &Ray, tmn: Scalar, tmx: Scalar) -> Option<HitRecord> {
        self.spec_panel().spec_hit(this_ray, self.mp, tmn, tmx)
    }

    /// What `bounding_box` returns.
    pub open spec fn spec_bounding_box(&self, t0: Scalar, t1: Scalar) -> Option<Aabb> {
        Some(self.spec_panel().spec_bounding_box())
    }

    /// The rectangle `[x0, x1] x [y0, y1]` in the plane `z = k`.
    pub fn new(x0: Scalar, x1: Scalar, y0: Scalar, y1: Scalar, k: Scalar, mp: Arc<Material>) -> (r:
        XyRect)
        ensures
            r.x0 == x0,
            r.x1 == x1,
            r.y0 == y0,
            r.y1 == y1,
            r.k == k,
            r.mp == mp,
    {
        XyRect { x0, x1, y0, y1, k, mp }
    }

    /// The rectangle as a panel.
    fn panel(&self) -> (r: Panel)
        ensures
            r == self.spec_panel(),
            r.well_formed(),
    {
        Panel {
            fixed: 2,
            first: 0,
            second: 1,
            a0: self.x0,
            a1: self.x1,
            b0: self.y0,
            b1: self.y1,
            k: self.k,
        }
    }

    /// The hit of `this_ray` on the rectangle at a parameter in
    /// `(tmn, tmx)`, with outward normal `(0, 0, 1)`.
    #[verifier::when_used_as_spec(spec_hit)]
    pub fn hit(&self, this_ray: &Ray, tmn: Scalar, tmx: Scalar) -> (r: Option<HitRecord>)
        ensures
            r == self.spec_hit(this_ray, tmn, tmx),
            r matches Some(rec) ==> tmn.raw < rec.t.raw < tmx.raw && this_ray.dir.dot(rec.nor).raw
                <= 0 && rec.mat_ptr == self.mp,
    {
        proof {
            lemma_panel_hit(&self.spec_panel(), this_ray, self.mp, tmn, tmx, tmx);
            reveal(Panel::spec_hit);
        }
        self.panel().hit(this_ray, &self.mp, tmn, tmx)
    }

    /// The box from `(x0, y0, k - 0.001)` to `(x1, y1, k + 0.001)`.
    #[verifier::when_used_as_spec(spec_bounding_box)]
    pub fn bounding_box(&self, t0: Scalar, t1: Scalar) -> (r: Option<Aabb>)
        ensures
            r == self.spec_bounding_box(t0, t1),
    {
        Some(self.panel().bounding_box())
    }
}

impl XzRect {
    /// The rectangle as a panel that faces the y axis.
    pub open spec fn spec_panel(&self) -> Panel {
        Panel {
            fixed: 1,
            first: 0,
            second: 2,
            a0: self.x0,
            a1: self.x1,
            b0: self.z0,
            b1: self.z1,
            k: self.k,
        }
    }

    /// What `hit` reports.
    pub open spec fn spec_hit(&self, this_ray: &Ray, tmn: Scalar, tmx: Scalar) -> Option<HitRecord> {
        self.spec_panel().spec_hit(this_ray, self.mp, tmn, tmx)
    }

    /// What `bounding_box` returns.
    pub open spec fn spec_bounding_box(&self, t0: Scalar, t1: Scalar) -> Option<Aabb> {
        Some(self.spec_panel().spec_bounding_box())
    }

    /// The rectangle `[x0, x1] x [z0, z1]` in the plane `y = k`.
    pub fn new(x0: Scalar, x1: Scalar, z0: Scalar, z1: Scalar, k: Scalar, mp: Arc<Material>) -> (r:
        XzRect)
        ensures
            r.x0 == x0,
            r.x1 == x1,
            r.z0 == z0,
            r.z1 == z1,
            r.k == k,
            r.mp == mp,
    {
        XzRect { x0, x1, z0, z1, k, mp }
    }

    /// The rectangle as a panel.
    fn panel(&self) -> (r: Panel)
        ensures
            r == self.spec_panel(),
            r.well_formed(),
    {
        Panel {
            fixed: 1,
            first: 0,
            second: 2,
            a0: self.x0,
            a1: self.x1,
            b0: self.z0,
            b1: self.z1,
            k: self.k,
        }
    }

    /// The hit of `this_ray` on the rectangle at a parameter in
    /// `(tmn, tmx)`, with outward normal `(0, 1, 0)`.
    #[verifier::when_used_as_spec(spec_hit)]
    pub fn hit(&self, this_ray: &Ray, tmn: Scalar, tmx: Scalar) -> (r: Option<HitRecord>)
        ensures
            r == self.spec_hit(this_ray, tmn, tmx),
            r matches Some(rec) ==> tmn.raw < rec.t.raw < tmx.raw && this_ray.dir.dot(rec.nor).raw
                <= 0 && rec.mat_ptr == self.mp,
    {
        proof {
            lemma_panel_hit(&self.spec_panel(), this_ray, self.mp, tmn, tmx, tmx);
            reveal(Panel::spec_hit);
        }
        self.panel().hit(this_ray, &self.mp, tmn, tmx)
    }

    /// The box from `(x0, k - 0.001, z0)` to `(x1, k + 0.001, z1)`.
    #[verifier::when_used_as_spec(spec_bounding_box)]
    pub fn bounding_box(&self, t0: Scalar, t1: Scalar) -> (r: Option<Aabb>)
        ensures
            r == self.spec_bounding_box(t0, t1),
    {
        Some(self.panel().bounding_box())
    }
}

impl XzRect {
    /// The density, with respect to solid angle, with which `random` draws
    /// the direction `v` from `o`: `distance^2 / (cos * area)` for the hit
    /// of the ray from `o` along `v` on the rectangle, where `cos` is the
    /// cosine of the angle between the ray and the normal; zero if the ray
    /// misses the rectangle.
    pub open spec fn spec_pdf_value(&self, o: Vec3, v: Vec3) -> Scalar {
        match self.spec_hit(&Ray { ori: o, dir: v, tm: Scalar::zero() }, spec_near(), Scalar::inf()) {
            Some(rec) => {
                let area = self.x1.sub(self.x0).mul(self.z1.sub(self.z0));
                let dis_squared = rec.t.mul(rec.t).mul(v.squared_length());
                let cos = v.dot(rec.nor).div(v.length()).abs();
                dis_squared.div(cos.mul(area))
            },
            None => Scalar::zero(),
        }
    }

    /// The direction from `o` to the point of the rectangle that the two
    /// unit samples stand for.
    pub open spec fn spec_direction_from(&self, o: Vec3, u1: Scalar, u2: Scalar) -> Vec3 {
        Vec3 { x: spec_spread(u1, self.x0, self.x1), y: self.k, z: spec_spread(u2, self.z0, self.z1) }.sub(
            o,
        )
    }

    /// The density with which `random` draws the direction `v` from `o`.
    #[verifier::when_used_as_spec(spec_pdf_value)]
    pub fn pdf_value(&self, o: Vec3, v: Vec3) -> (r: Scalar)
        ensures
            r == self.spec_pdf_value(o, v),
    {
        if let Some(rec) = self.hit(&Ray::new(o, v, Scalar::zero()), near(), Scalar::inf()) {
            let area = self.x1.sub(self.x0).mul(self.z1.sub(self.z0));
            let dis_squared = rec.t.mul(rec.t).mul(v.squared_length());
            let cos = v.dot(rec.nor).div(v.length()).abs();
            dis_squared.div(cos.mul(area))
        } else {
            Scalar::zero()
        }
    }

    /// The direction from `o` to the point of the rectangle that the two
    /// unit samples stand for.
    #[verifier::when_used_as_spec(spec_direction_from)]
    pub fn direction_from(&self, o: Vec3, u1: Scalar, u2: Scalar) -> (r: Vec3)
        ensures
            r == self.spec_direction_from(o, u1, u2),
    {
        let random_point = Vec3::new(spread(u1, self.x0, self.x1), self.k, spread(u2, self.z0, self.z1));
        random_point.sub(o)
    }

    /// The direction from `o` to a uniform point of the rectangle.
    pub fn random(&self, o: Vec3) -> (r: Vec3)
        ensures
            exists|u1: Scalar, u2: Scalar|
                is_unit_sample(u1) && is_unit_sample(u2) && r == self.spec_direction_from(
                    o,
                    u1,
                    u2,
                ),
    {
        let u1 = get_rand01();
        let u2 = get_rand01();
        self.direction_from(o, u1, u2)
    }
}

impl YzRect {
    /// The rectangle as a panel that faces the x axis.
    pub open spec fn spec_panel(&self) -> Panel {
        Panel {
            fixed: 0,
            first: 1,
            second: 2,
            a0: self.y0,
            a1: self.y1,
            b0: self.z0,
            b1: self.z1,
            k: self.k,
        }
    }

    /// What `hit` reports.
    pub open spec fn spec_hit(&self, this_ray: &Ray, tmn: Scalar, tmx: Scalar) -> Option<HitRecord> {
        self.spec_panel().spec_hit(this_ray, self.mp, tmn, tmx)
    }

    /// What `bounding_box` returns.
    pub open spec fn spec_bounding_box(&self, t0: Scalar, t1: Scalar) -> Option<Aabb> {
        Some(self.spec_panel().spec_bounding_box())
    }

    /// The rectangle `[y0, y1] x [z0, z1]` in the plane `x = k`.
    pub fn new(y0: Scalar, y1: Scalar, z0: Scalar, z1: Scalar, k: Scalar, mp: Arc<Material>) -> (r:
        YzRect)
        ensures
            r.y0 == y0,
            r.y1 == y1,
            r.z0 == z0,
            r.z1 == z1,
            r.k == k,
            r.mp == mp,
    {
        YzRect { y0, y1, z0, z1, k, mp }
    }

    /// The rectangle as a panel.
    fn panel(&self) -> (r: Panel)
        ensures
            r == self.spec_panel(),
            r.well_formed(),
    {
        Panel {
            fixed: 0,
            first: 1,
            second: 2,
            a0: self.y0,
            a1: self.y1,
            b0: self.z0,
            b1: self.z1,
            k: self.k,
        }
    }

    /// The hit of `this_ray` on the rectangle at a parameter in
    /// `(tmn, tmx)`, with outward normal `(1, 0, 0)`.
    #[verifier::when_used_as_spec(spec_hit)]
    pub fn hit(&self, this_ray: &Ray, tmn: Scalar, tmx: Scalar) -> (r: Option<HitRecord>)
        ensures
            r == self.spec_hit(this_ray, tmn, tmx),
            r matches Some(rec) ==> tmn.raw < rec.t.raw < tmx.raw && this_ray.dir.dot(rec.nor).raw
                <= 0 && rec.mat_ptr == self.mp,
    {
        proof {
            lemma_panel_hit(&self.spec_panel(), this_ray, self.mp, tmn, tmx, tmx);
            reveal(Panel::spec_hit);
        }
        self.panel().hit(this_ray, &self.mp, tmn, tmx)
    }

    /// The box from `(k - 0.001, y0, z0)` to `(k + 0.001, y1, z1)`.
    #[verifier::when_used_as_spec(spec_bounding_box)]
    pub fn bounding_box(&self, t0: Scalar, t1: Scalar) -> (r: Option<Aabb>)
        ensures
            r == self.spec_bounding_box(t0, t1),
    {
        Some(self.panel().bounding_box())
    }
}

impl Bbox {
    /// The six faces of the prism between `mn` and `mx`: the two that face
    /// z, then the two that face y, then the two that face x, each pair at
    /// the minimum corner first.
    pub open spec fn spec_sides(mn: Vec3, mx: Vec3, mp: Arc<Material>) -> Seq<Arc<Hittable>> {
        seq![
            Arc::new(
                Hittable::XyRect(XyRect { x0: mn.x, x1: mx.x, y0: mn.y, y1: mx.y, k: mn.z, mp }),
            ),
            Arc::new(
                Hittable::XyRect(XyRect { x0: mn.x, x1: mx.x, y0: mn.y, y1: mx.y, k: mx.z, mp }),
            ),
            Arc::new(
                Hittable::XzRect(XzRect { x0: mn.x, x1: mx.x, z0: mn.z, z1: mx.z, k: mn.y, mp }),
            ),
            Arc::new(
                Hittable::XzRect(XzRect { x0: mn.x, x1: mx.x, z0: mn.z, z1: mx.z, k: mx.y, mp }),
            ),
            Arc::new(
                Hittable::YzRect(YzRect { y0: mn.y, y1: mx.y, z0: mn.z, z1: mx.z, k: mn.x, mp }),
            ),
            Arc::new(
                Hittable::YzRect(YzRect { y0: mn.y, y1: mx.y, z0: mn.z, z1: mx.z, k: mx.x, mp }),
            ),
        ]
    }

    /// What `hit` reports.
    pub open spec fn spec_hit(&self, this_ray: &Ray, tmn: Scalar, tmx: Scalar) -> Option<HitRecord>
        decreases self, 0int,
    {
        self.sides.spec_hit(this_ray, tmn, tmx)
    }

    /// What `bounding_box` returns.
    pub open spec fn spec_bounding_box(&self, t0: Scalar, t1: Scalar) -> Option<Aabb> {
        Some(Aabb { mn: self.boxmn, mx: self.boxmx })
    }

    /// The prism between the corners `boxmn` and `boxmx`, all of whose six
    /// faces have the material `mat_ptr`.
    pub fn new(boxmn: Vec3, boxmx: Vec3, mat_ptr: Arc<Material>) -> (r: Bbox)
        ensures
            r.boxmn == boxmn,
            r.boxmx == boxmx,
            r.sides.objects@ == Bbox::spec_sides(boxmn, boxmx, mat_ptr),
    {
        let mut sides = HittableList::new();
        sides.add(
            Arc::new(
                Hittable::XyRect(
                    XyRect::new(boxmn.x, boxmx.x, boxmn.y, boxmx.y, boxmn.z, share(&mat_ptr)),
                ),
            ),
        );
        sides.add(
            Arc::new(
                Hittable::XyRect(
                    XyRect::new(boxmn.x, boxmx.x, boxmn.y, boxmx.y, boxmx.z, share(&mat_ptr)),
                ),
            ),
        );
        sides.add(
            Arc::new(
                Hittable::XzRect(
                    XzRect::new(boxmn.x, boxmx.x, boxmn.z, boxmx.z, boxmn.y, share(&mat_ptr)),
                ),
            ),
        );
        sides.add(
            Arc::new(
                Hittable::XzRect(
                    XzRect::new(boxmn.x, boxmx.x, boxmn.z, boxmx.z, boxmx.y, share(&mat_ptr)),
                ),
            ),
        );
        sides.add(
            Arc::new(
                Hittable::YzRect(
                    YzRect::new(boxmn.y, boxmx.y, boxmn.z, boxmx.z, boxmn.x, share(&mat_ptr)),
                ),
            ),
        );
        sides.add(
            Arc::new(
                Hittable::YzRect(
                    YzRect::new(boxmn.y, boxmx.y, boxmn.z, boxmx.z, boxmx.x, share(&mat_ptr)),
                ),
            ),
        );
        assert(sides.objects@ =~= Bbox::spec_sides(boxmn, boxmx, mat_ptr));
        Bbox { boxmn, boxmx, sides }
    }

    /// The nearest hit of `this_ray` on one of the six faces.
    #[verifier::when_used_as_spec(spec_hit)]
    pub fn hit(&self, this_ray: &Ray, tmn: Scalar, tmx: Scalar) -> (r: Option<HitRecord>)
        ensures
            r == self.spec_hit(this_ray, tmn, tmx),
        decreases self, 0int,
    {
        self.sides.hit(this_ray, tmn, tmx)
    }

    /// The box between the two corners.
    #[verifier::when_used_as_spec(spec_bounding_box)]
    pub fn bounding_box(&self, t0: Scalar, t1: Scalar) -> (r: Option<Aabb>)
        ensures
            r == self.spec_bounding_box(t0, t1),
    {
        Some(Aabb::new(self.boxmn, self.boxmx))
    }
}

} // verus!
