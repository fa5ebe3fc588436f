//! Axis-aligned bounding boxes and the slab test.
use vstd::prelude::*;
use crate::ray::Ray;
use crate::scalar::{lemma_div_monotonic, lemma_sub_monotonic, Scalar};
use crate::vec3::Vec3;

verus! {

/// The closed region between the corners `mn` and `mx`.
#[derive(Clone, Copy, Debug, PartialEq, Eq, Structural)]
pub struct Aabb {
    pub mn: Vec3,
    pub mx: Vec3,
}

/// A parametric interval along a ray, as the slab test narrows it.
pub struct Span {
    pub lo: Scalar,
    pub hi: Scalar,
}

impl Span {
    /// `self` lies within `outer`.
    pub open spec fn within(self, outer: Span) -> bool {
        outer.lo.raw <= self.lo.raw && self.hi.raw <= outer.hi.raw
    }

    /// The interval holds more than one point.
    pub open spec fn open(self) -> bool {
        self.lo.raw < self.hi.raw
    }

    /// An interval that holds no point, and lies within every interval.
    pub open spec fn nothing() -> Span {
        Span { lo: Scalar { raw: i64::MAX }, hi: Scalar { raw: i64::MIN } }
    }
}

impl Aabb {
    /// The minimum corner does not exceed the maximum corner on any axis.
    pub open spec fn is_ordered(self) -> bool {
        &&& self.mn.x.raw <= self.mx.x.raw
        &&& self.mn.y.raw <= self.mx.y.raw
        &&& self.mn.z.raw <= self.mx.z.raw
    }

    /// The region of `inner` lies within the region of `self`.
    pub open spec fn contains(self, inner: Aabb) -> bool {
        &&& self.mn.x.raw <= inner.mn.x.raw && inner.mx.x.raw <= self.mx.x.raw
        &&& self.mn.y.raw <= inner.mn.y.raw && inner.mx.y.raw <= self.mx.y.raw
        &&& self.mn.z.raw <= inner.mn.z.raw && inner.mx.z.raw <= self.mx.z.raw
    }

    /// What is left of `span` after cutting it down to the parameters at
    /// which `ray` is between the two planes of the box that face `axis`.
    /// The two crossings are `(mn - ori) / dir` and `(mx - ori) / dir`, taken
    /// in increasing order. A ray that runs along the planes is between them
    /// at every parameter or at none.
    pub open spec fn spec_narrow(&self, ray: Ray, axis: usize, span: Span) -> Span {
        let dir = ray.dir.get(axis);
        let ori = ray.ori.get(axis);
        let near = self.mn.get(axis).sub(ori).div(dir);
        let far = self.mx.get(axis).sub(ori).div(dir);
        if dir.raw == 0 {
            if self.mn.get(axis).raw <= ori.raw <= self.mx.get(axis).raw {
                span
            } else {
                Span::nothing()
            }
        } else if dir.raw < 0 {
            Span { lo: far.max(span.lo), hi: near.min(span.hi) }
        } else {
            Span { lo: near.max(span.lo), hi: far.min(span.hi) }
        }
    }

    /// The slab test: the interval `(tmin, tmax)` stays non-empty while it
    /// is narrowed along x, then y, then z.
    pub open spec fn spec_hit(&self, ray: Ray, tmin: Scalar, tmax: Scalar) -> bool {
        let s0 = self.spec_narrow(ray, 0, Span { lo: tmin, hi: tmax });
        let s1 = self.spec_narrow(ray, 1, s0);
        let s2 = self.spec_narrow(ray, 2, s1);
        s0.open() && s1.open() && s2.open()
    }

    /// The smallest box that contains both `box0` and `box1`.
    pub open spec fn spec_surrounding_box(box0: Aabb, box1: Aabb) -> Aabb {
        Aabb {
            mn: Vec3 {
                x: box0.mn.x.min(box1.mn.x),
                y: box0.mn.y.min(box1.mn.y),
                z: box0.mn.z.min(box1.mn.z),
            },
            mx: Vec3 {
                x: box0.mx.x.max(box1.mx.x),
                y: box0.mx.y.max(box1.mx.y),
                z: box0.mx.z.max(box1.mx.z),
            },
        }
    }

    /// The box between the corners `mn` and `mx`.
    pub fn new(mn: Vec3, mx: Vec3) -> (r: Aabb)
        ensures
            r == (Aabb { mn, mx }),
    {
        Aabb { mn, mx }
    }

    /// What is left of `span` between the two planes that face `axis`.
    fn narrow(&self, ray: &Ray, axis: usize, span: Span) -> (r: Span)
        requires
            axis < 3,
        ensures
            r == self.spec_narrow(*ray, axis, span),
    {
        let dir = ray.dir.get(axis);
        let ori = ray.ori.get(axis);
        if dir.raw == 0 {
            if self.mn.get(axis).raw <= ori.raw && ori.raw <= self.mx.get(axis).raw {
                span
            } else {
                Span { lo: Scalar { raw: i64::MAX }, hi: Scalar { raw: i64::MIN } }
            }
        } else {
            let near = self.mn.get(axis).sub(ori).div(dir);
            let far = self.mx.get(axis).sub(ori).div(dir);
            if dir.raw < 0 {
                Span { lo: far.max(span.lo), hi: near.min(span.hi) }
            } else {
                Span { lo: near.max(span.lo), hi: far.min(span.hi) }
            }
        }
    }

    /// Whether `this_ray` passes through the box at some parameter strictly
    /// between `tmin` and `tmax`.
    #[verifier::when_used_as_spec(spec_hit)]
    pub fn hit(&self, this_ray: Ray, tmin: Scalar, tmax: Scalar) -> (r: bool)
        ensures
            r == self.spec_hit(this_ray, tmin, tmax),
    {
        let mut span = Span { lo: tmin, hi: tmax };
        let mut axis: usize = 0;
        while axis < 3
            invariant
                axis <= 3,
                axis == 0 ==> span == (Span { lo: tmin, hi: tmax }),
                axis >= 1 ==> self.spec_narrow(this_ray, 0, Span { lo: tmin, hi: tmax }).open(),
                axis == 1 ==> span == self.spec_narrow(this_ray, 0, Span { lo: tmin, hi: tmax }),
                axis >= 2 ==> self.spec_narrow(
                    this_ray,
                    1,
                    self.spec_narrow(this_ray, 0, Span { lo: tmin, hi: tmax }),
                ).open(),
                axis == 2 ==> span == self.spec_narrow(
                    this_ray,
                    1,
                    self.spec_narrow(this_ray, 0, Span { lo: tmin, hi: tmax }),
                ),
                axis == 3 ==> self.spec_hit(this_ray, tmin, tmax),
            decreases 3 - axis,
        {
            span = self.narrow(&this_ray, axis, span);
            if span.hi.raw <= span.lo.raw {
                return false;
            }
            axis += 1;
        }
        true
    }

    /// The smallest box that contains both `box0` and `box1`.
    #[verifier::when_used_as_spec(spec_surrounding_box)]
    pub fn surrounding_box(box0: Aabb, box1: Aabb) -> (r: Aabb)
        ensures
            r == Aabb::spec_surrounding_box(box0, box1),
            r.contains(box0),
            r.contains(box1),
            box0.is_ordered() && box1.is_ordered() ==> r.is_ordered(),
    {
        let mn = Vec3::new(
            box0.mn.x.min(box1.mn.x),
            box0.mn.y.min(box1.mn.y),
            box0.mn.z.min(box1.mn.z),
        );
        let mx = Vec3::new(
            box0.mx.x.max(box1.mx.x),
            box0.mx.y.max(box1.mx.y),
            box0.mx.z.max(box1.mx.z),
        );
        Aabb { mn, mx }
    }
}

/// The union of two boxes does not depend on their order.
pub proof fn lemma_union_commutative(a: Aabb, b: Aabb)
    ensures
        Aabb::surrounding_box(a, b) == Aabb::surrounding_box(b, a),
{
}

/// The union of three boxes does not depend on how they are grouped.
pub proof fn lemma_union_associative(a: Aabb, b: Aabb, c: Aabb)
    ensures
        Aabb::surrounding_box(Aabb::surrounding_box(a, b), c) == Aabb::surrounding_box(
            a,
            Aabb::surrounding_box(b, c),
        ),
{
}

/// The union of a box with itself is that box.
pub proof fn lemma_union_idempotent(a: Aabb)
    ensures
        Aabb::surrounding_box(a, a) == a,
{
}

/// The union contains both boxes, and every box that contains both contains
/// the union: it is the smallest such box.
pub proof fn lemma_union_least_upper_bound(a: Aabb, b: Aabb, c: Aabb)
    ensures
        Aabb::surrounding_box(a, b).contains(a),
        Aabb::surrounding_box(a, b).contains(b),
        c.contains(a) && c.contains(b) ==> c.contains(Aabb::surrounding_box(a, b)),
{
}

/// The union of two ordered boxes is ordered.
pub proof fn lemma_union_ordered(a: Aabb, b: Aabb)
    requires
        a.is_ordered(),
        b.is_ordered(),
    ensures
        Aabb::surrounding_box(a, b).is_ordered(),
{
}

/// Narrowing a wider interval by a larger box leaves a wider interval.
pub proof fn lemma_narrow_monotonic(
    outer: Aabb,
    inner: Aabb,
    ray: Ray,
    axis: usize,
    wide: Span,
    tight: Span,
)
    requires
        axis < 3,
        outer.contains(inner),
        tight.within(wide),
    ensures
        inner.spec_narrow(ray, axis, tight).within(outer.spec_narrow(ray, axis, wide)),
{
    let o = ray.ori.get(axis);
    let d = ray.dir.get(axis);
    lemma_sub_monotonic(outer.mn.get(axis), inner.mn.get(axis), o);
    lemma_sub_monotonic(inner.mx.get(axis), outer.mx.get(axis), o);
    lemma_div_monotonic(outer.mn.get(axis).sub(o), inner.mn.get(axis).sub(o), d);
    lemma_div_monotonic(inner.mx.get(axis).sub(o), outer.mx.get(axis).sub(o), d);
}

/// A ray that passes through a box within an interval passes through every
/// box that contains it within every interval that contains that interval.
pub proof fn lemma_hit_monotonic(
    outer: Aabb,
    inner: Aabb,
    ray: Ray,
    tmin: Scalar,
    tmax: Scalar,
    wide_min: Scalar,
    wide_max: Scalar,
)
    requires
        outer.contains(inner),
        wide_min.raw <= tmin.raw,
        tmax.raw <= wide_max.raw,
        inner.hit(ray, tmin, tmax),
    ensures
        outer.hit(ray, wide_min, wide_max),
{
    let t = Span { lo: tmin, hi: tmax };
    let w = Span { lo: wide_min, hi: wide_max };
    lemma_narrow_monotonic(outer, inner, ray, 0, w, t);
    let t0 = inner.spec_narrow(ray, 0, t);
    let w0 = outer.spec_narrow(ray, 0, w);
    lemma_narrow_monotonic(outer, inner, ray, 1, w0, t0);
    let t1 = inner.spec_narrow(ray, 1, t0);
    let w1 = outer.spec_narrow(ray, 1, w0);
    lemma_narrow_monotonic(outer, inner, ray, 2, w1, t1);
}

} // verus!
