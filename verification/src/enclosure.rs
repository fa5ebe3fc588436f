//! When the bounding box of a rectangle is valid: for which rays the slab
//! test on the box cannot miss a hit on the rectangle. Scalars round, so a
//! ray that grazes an edge of the rectangle may, by a millionth, count as a
//! hit on the rectangle and as a miss of its box. A ray that crosses the
//! plane strictly inside the edges never does.
use vstd::prelude::*;
use std::sync::Arc;
use crate::aabb::{Aabb, Span};
use crate::bvh::BvhNode;
use crate::hit::{Hittable, HittableList};
use crate::material::Material;
use crate::nearest::{is_consistent, is_enclosed, lemma_bvh_agrees_on_primitives, no_ties};
use crate::ray::Ray;
use crate::sphere::lemma_sphere_hit;
use crate::rect::{lemma_panel_hit, spec_pad, Panel};
use crate::scalar::{
    lemma_div_monotonic, lemma_mul_commutative, lemma_quotient_negate, quotient, Scalar, RAW_MAX,
    SCALE,
};

verus! {

/// `x` is of moderate size: at most `10^12` either way, so that sums and
/// differences of a few such scalars do not saturate.
pub open spec fn is_moderate(x: Scalar) -> bool {
    -1_000_000_000_000_000_000 <= x.raw <= 1_000_000_000_000_000_000
}

/// The ray crosses the plane of the rectangle strictly inside the edges:
/// on each of the two free axes the ray runs along the edges, or the
/// crossing point lies strictly between them. The rectangle and the origin
/// of the ray are of moderate size, and the direction along the fixed axis
/// is at most a thousand either way.
pub open spec fn crosses_inside(panel: &Panel, this_ray: &Ray) -> bool {
    let t = panel.spec_crossing(this_ray);
    let a = this_ray.ori.get(panel.first).add(t.mul(this_ray.dir.get(panel.first)));
    let b = this_ray.ori.get(panel.second).add(t.mul(this_ray.dir.get(panel.second)));
    &&& is_moderate(panel.k) && is_moderate(panel.a0) && is_moderate(panel.a1) && is_moderate(
        panel.b0,
    ) && is_moderate(panel.b1)
    &&& is_moderate(this_ray.ori.x) && is_moderate(this_ray.ori.y) && is_moderate(this_ray.ori.z)
    &&& -1_000_000_000 <= this_ray.dir.get(panel.fixed).raw <= 1_000_000_000
    &&& this_ray.dir.get(panel.first).raw == 0 || panel.a0.raw < a.raw < panel.a1.raw
    &&& this_ray.dir.get(panel.second).raw == 0 || panel.b0.raw < b.raw < panel.b1.raw
}

/// Whenever the ray hits the rectangle beyond `tmn`, it crosses the plane
/// strictly inside the edges.
pub open spec fn has_margin(panel: &Panel, this_ray: &Ray, mp: Arc<Material>, tmn: Scalar) -> bool {
    panel.spec_hit(this_ray, mp, tmn, Scalar::inf()) is Some ==> crosses_inside(panel, this_ray)
}

/// Over a positive divisor: where the crossing lies beyond an edge, the ray
/// reaches the plane of the edge before the parameter of the crossing.
proof fn lemma_edge_passed(n: int, m: int, t: int, d: int)
    requires
        t > 0,
        d > 0,
        m == quotient(t * d, SCALE as int),
        n < m,
    ensures
        quotient(n * SCALE, d) < t,
{
    assert(t * d >= 0) by (nonlinear_arith)
        requires
            t > 0,
            d > 0,
    ;
    assert(m * SCALE <= t * d) by (nonlinear_arith)
        requires
            m == (t * d) / (SCALE as int),
            SCALE == 1_000_000,
            t * d >= 0,
    ;
    if n >= 0 {
        let q = (n * SCALE) / d;
        assert(n * SCALE >= 0) by (nonlinear_arith)
            requires
                n >= 0,
                SCALE == 1_000_000,
        ;
        assert(q * d <= n * SCALE) by (nonlinear_arith)
            requires
                q == (n * SCALE) / d,
                d > 0,
                n * SCALE >= 0,
        ;
        assert(q < t) by (nonlinear_arith)
            requires
                q * d <= n * SCALE,
                n * SCALE < m * SCALE,
                m * SCALE <= t * d,
                d > 0,
        ;
    } else {
        assert(n * SCALE < 0) by (nonlinear_arith)
            requires
                n < 0,
                SCALE == 1_000_000,
        ;
        assert((-(n * SCALE)) / d >= 0) by (nonlinear_arith)
            requires
                -(n * SCALE) > 0,
                d > 0,
        ;
    }
}

/// Over a positive divisor: where the crossing lies short of an edge, the
/// ray reaches the plane of the edge no sooner than the parameter of the
/// crossing.
proof fn lemma_edge_ahead(n: int, m: int, t: int, d: int)
    requires
        t > 0,
        d > 0,
        m == quotient(t * d, SCALE as int),
        m < n,
    ensures
        quotient(n * SCALE, d) >= t,
{
    assert(t * d >= 0) by (nonlinear_arith)
        requires
            t > 0,
            d > 0,
    ;
    assert(m >= 0 && t * d < (m + 1) * SCALE) by (nonlinear_arith)
        requires
            m == (t * d) / (SCALE as int),
            SCALE == 1_000_000,
            t * d >= 0,
    ;
    assert(n * SCALE >= t * d) by (nonlinear_arith)
        requires
            t * d < (m + 1) * SCALE,
            m + 1 <= n,
            SCALE == 1_000_000,
    ;
    assert((n * SCALE) / d >= t) by (nonlinear_arith)
        requires
            n * SCALE >= t * d,
            d > 0,
            t > 0,
    ;
}

/// Over a positive divisor of at most a thousand, a numerator that is a
/// thousandth smaller gives a smaller quotient, where the quotient is
/// positive.
proof fn lemma_pad_passed(n: int, d: int)
    requires
        0 < d <= 1_000_000_000,
        quotient(n * SCALE, d) > 0,
    ensures
        quotient((n - 1_000) * SCALE, d) < quotient(n * SCALE, d),
{
    let t = quotient(n * SCALE, d);
    if n <= 0 {
        assert(n * SCALE <= 0) by (nonlinear_arith)
            requires
                n <= 0,
                SCALE == 1_000_000,
        ;
        assert((-(n * SCALE)) / d >= 0) by (nonlinear_arith)
            requires
                -(n * SCALE) >= 0,
                d > 0,
        ;
        assert(0int / d == 0) by (nonlinear_arith)
            requires
                d > 0,
        ;
    } else {
        assert(n * SCALE > 0) by (nonlinear_arith)
            requires
                n > 0,
                SCALE == 1_000_000,
        ;
        assert(n * SCALE < (t + 1) * d) by (nonlinear_arith)
            requires
                t == (n * SCALE) / d,
                d > 0,
                n * SCALE > 0,
        ;
        if n - 1_000 > 0 {
            let q = ((n - 1_000) * SCALE) / d;
            assert((n - 1_000) * SCALE == n * SCALE - 1_000_000_000) by (nonlinear_arith)
                requires
                    SCALE == 1_000_000,
            ;
            assert(q * d <= (n - 1_000) * SCALE) by (nonlinear_arith)
                requires
                    q == ((n - 1_000) * SCALE) / d,
                    d > 0,
                    (n - 1_000) * SCALE >= 0,
            ;
            assert(q < t) by (nonlinear_arith)
                requires
                    q * d <= n * SCALE - 1_000_000_000,
                    n * SCALE < (t + 1) * d,
                    0 < d <= 1_000_000_000,
            ;
        } else {
            assert((n - 1_000) * SCALE <= 0) by (nonlinear_arith)
                requires
                    n - 1_000 <= 0,
                    SCALE == 1_000_000,
            ;
            assert((-((n - 1_000) * SCALE)) / d >= 0) by (nonlinear_arith)
                requires
                    -((n - 1_000) * SCALE) >= 0,
                    d > 0,
            ;
            assert(0int / d == 0) by (nonlinear_arith)
                requires
                    d > 0,
            ;
        }
    }
}

/// On a free axis of a rectangle, a ray that crosses the plane strictly
/// between the two edges passes the first edge before the crossing and the
/// second no sooner than the crossing.
pub proof fn lemma_free_axis(lo: Scalar, hi: Scalar, o: Scalar, d: Scalar, t: Scalar)
    requires
        is_moderate(lo),
        is_moderate(hi),
        is_moderate(o),
        0 < t.raw,
        d.raw != 0,
        lo.raw < o.add(t.mul(d)).raw < hi.raw,
    ensures
        d.raw > 0 ==> lo.sub(o).div(d).raw < t.raw <= hi.sub(o).div(d).raw,
        d.raw < 0 ==> hi.sub(o).div(d).raw < t.raw <= lo.sub(o).div(d).raw,
{
    let m = quotient(t.raw * d.raw, SCALE as int);
    let n_lo = lo.raw - o.raw;
    let n_hi = hi.raw - o.raw;
    assert(t.mul(d).raw == m);
    assert(o.add(t.mul(d)).raw == o.raw + m);
    if d.raw > 0 {
        lemma_edge_passed(n_lo, m, t.raw as int, d.raw as int);
        lemma_edge_ahead(n_hi, m, t.raw as int, d.raw as int);
    } else {
        let e = -d.raw;
        let me = quotient(t.raw * e, SCALE as int);
        assert(t.raw * e == -(t.raw * d.raw)) by (nonlinear_arith)
            requires
                e == -d.raw,
        ;
        lemma_quotient_negate(t.raw * d.raw, SCALE as int);
        assert(me == -m);
        lemma_edge_passed(-n_hi, me, t.raw as int, e);
        lemma_edge_ahead(-n_lo, me, t.raw as int, e);
        assert((-n_hi) * SCALE == -(n_hi * SCALE)) by (nonlinear_arith);
        assert((-n_lo) * SCALE == -(n_lo * SCALE)) by (nonlinear_arith);
        lemma_quotient_negate(n_hi * SCALE, e);
        lemma_quotient_negate(n_lo * SCALE, e);
        lemma_quotient_negate(-(n_hi * SCALE), e);
        lemma_quotient_negate(-(n_lo * SCALE), e);
    }
}

/// On the fixed axis of a rectangle, a ray that is not steeper than a
/// thousand passes the near face of the padded box before it crosses the
/// plane, and the far face no sooner.
pub proof fn lemma_fixed_axis(k: Scalar, o: Scalar, d: Scalar, t: Scalar)
    requires
        is_moderate(k),
        is_moderate(o),
        d.raw != 0,
        -1_000_000_000 <= d.raw <= 1_000_000_000,
        t == k.sub(o).div(d),
        0 < t.raw < RAW_MAX,
    ensures
        d.raw > 0 ==> k.sub(spec_pad()).sub(o).div(d).raw < t.raw <= k.add(spec_pad()).sub(o).div(
            d,
        ).raw,
        d.raw < 0 ==> k.add(spec_pad()).sub(o).div(d).raw < t.raw <= k.sub(spec_pad()).sub(o).div(
            d,
        ).raw,
{
    let n = k.raw - o.raw;
    assert(k.sub(o).raw == n);
    assert(k.sub(spec_pad()).sub(o).raw == n - 1_000);
    assert(k.add(spec_pad()).sub(o).raw == n + 1_000);
    assert(t.raw == quotient(n * SCALE, d.raw as int));
    lemma_div_monotonic(k.sub(o), k.add(spec_pad()).sub(o), d);
    lemma_div_monotonic(k.sub(spec_pad()).sub(o), k.sub(o), d);
    if d.raw > 0 {
        lemma_pad_passed(n, d.raw as int);
    } else {
        let e = -d.raw;
        lemma_quotient_negate(n * SCALE, e);
        lemma_quotient_negate(-(n * SCALE), e);
        assert((-n) * SCALE == -(n * SCALE)) by (nonlinear_arith);
        lemma_pad_passed(-n, e);
        assert((-n - 1_000) * SCALE == -((n + 1_000) * SCALE)) by (nonlinear_arith);
        lemma_quotient_negate((n + 1_000) * SCALE, e);
        lemma_quotient_negate(-((n + 1_000) * SCALE), e);
    }
}

/// Narrowing along an axis keeps a parameter that lies after the first
/// face and not after the second.
pub proof fn lemma_narrow_keeps(bounds: Aabb, ray: Ray, axis: usize, span: Span, t: Scalar)
    requires
        span.lo.raw < t.raw <= span.hi.raw,
        ({
            let d = ray.dir.get(axis);
            let o = ray.ori.get(axis);
            let near = bounds.mn.get(axis).sub(o).div(d);
            let far = bounds.mx.get(axis).sub(o).div(d);
            &&& d.raw == 0 ==> bounds.mn.get(axis).raw <= o.raw <= bounds.mx.get(axis).raw
            &&& d.raw > 0 ==> near.raw < t.raw <= far.raw
            &&& d.raw < 0 ==> far.raw < t.raw <= near.raw
        }),
    ensures
        bounds.spec_narrow(ray, axis, span).lo.raw < t.raw <= bounds.spec_narrow(
            ray,
            axis,
            span,
        ).hi.raw,
{
}

/// A ray that hits a rectangle beyond a lower bound that is not negative,
/// and crosses the plane strictly inside the edges, passes through the box
/// of the rectangle within the same interval.
pub proof fn lemma_panel_enclosed(
    panel: &Panel,
    this_ray: &Ray,
    mp: Arc<Material>,
    tmn: Scalar,
    tmx: Scalar,
)
    requires
        panel.well_formed(),
        0 <= tmn.raw,
        crosses_inside(panel, this_ray),
        panel.spec_hit(this_ray, mp, tmn, tmx) is Some,
    ensures
        panel.spec_bounding_box().hit(*this_ray, tmn, tmx),
{
    reveal(Panel::spec_hit);
    let bounds = panel.spec_bounding_box();
    let t = panel.spec_crossing(this_ray);
    let o = this_ray.ori;
    let d = this_ray.dir;
    assert(tmn.raw < t.raw < tmx.raw);
    assert(d.get(panel.fixed).raw != 0);
    lemma_fixed_axis(panel.k, o.get(panel.fixed), d.get(panel.fixed), t);
    if d.get(panel.first).raw != 0 {
        lemma_free_axis(panel.a0, panel.a1, o.get(panel.first), d.get(panel.first), t);
    }
    if d.get(panel.second).raw != 0 {
        lemma_free_axis(panel.b0, panel.b1, o.get(panel.second), d.get(panel.second), t);
    }
    assert(bounds.mn.get(panel.first) == panel.a0 && bounds.mx.get(panel.first) == panel.a1);
    assert(bounds.mn.get(panel.second) == panel.b0 && bounds.mx.get(panel.second) == panel.b1);
    assert(bounds.mn.get(panel.fixed) == panel.k.sub(spec_pad()));
    assert(bounds.mx.get(panel.fixed) == panel.k.add(spec_pad()));
    let whole = Span { lo: tmn, hi: tmx };
    lemma_narrow_keeps(bounds, *this_ray, 0, whole, t);
    let s0 = bounds.spec_narrow(*this_ray, 0, whole);
    lemma_narrow_keeps(bounds, *this_ray, 1, s0, t);
    let s1 = bounds.spec_narrow(*this_ray, 1, s0);
    lemma_narrow_keeps(bounds, *this_ray, 2, s1, t);
}

/// The rectangle that `h` is, if it is one.
pub open spec fn spec_panel_of(h: &Hittable) -> Option<(Panel, Arc<Material>)> {
    match h {
        Hittable::XyRect(s) => Some((s.spec_panel(), s.mp)),
        Hittable::XzRect(s) => Some((s.spec_panel(), s.mp)),
        Hittable::YzRect(s) => Some((s.spec_panel(), s.mp)),
        _ => None,
    }
}

/// The bounding box of a rectangle is valid for every ray that, where it
/// hits the rectangle beyond a lower bound that is not negative, crosses
/// the plane strictly inside the edges.
pub proof fn lemma_rectangle_enclosed(
    h: &Hittable,
    this_ray: &Ray,
    tmn: Scalar,
    t0: Scalar,
    t1: Scalar,
)
    requires
        spec_panel_of(h) matches Some(found) && has_margin(&found.0, this_ray, found.1, tmn),
        0 <= tmn.raw,
    ensures
        is_enclosed(h, this_ray, tmn, t0, t1),
{
    reveal(is_enclosed);
    let (panel, mp) = spec_panel_of(h)->0;
    assert(panel.well_formed());
    assert(h.spec_bounding_box(t0, t1) == Some(panel.spec_bounding_box()));
    assert forall|b: Scalar| #[trigger] h.spec_hit(this_ray, tmn, b) is Some implies h.spec_bounding_box(
        t0,
        t1,
    )->0.hit(*this_ray, tmn, b) by {
        assert(h.spec_hit(this_ray, tmn, b) == panel.spec_hit(this_ray, mp, tmn, b));
        lemma_panel_hit(&panel, this_ray, mp, tmn, b, Scalar::inf());
        lemma_panel_enclosed(&panel, this_ray, mp, tmn, b);
    }
}

/// The point of the ray at `t` lies within the box, and strictly inside
/// it on each axis along which the ray moves. The box and the origin of
/// the ray are of moderate size.
pub open spec fn holds_inside(bounds: Aabb, this_ray: &Ray, t: Scalar) -> bool {
    forall|axis: usize|
        axis < 3 ==> {
            let o = this_ray.ori.get(axis);
            let d = this_ray.dir.get(axis);
            let p = #[trigger] this_ray.pos(t).get(axis);
            &&& is_moderate(bounds.mn.get(axis)) && is_moderate(bounds.mx.get(axis))
                && is_moderate(o)
            &&& d.raw == 0 ==> bounds.mn.get(axis).raw <= o.raw <= bounds.mx.get(axis).raw
            &&& d.raw != 0 ==> bounds.mn.get(axis).raw < p.raw < bounds.mx.get(axis).raw
        }
}

/// A ray passes through a box within every interval that begins at zero or
/// later and holds a parameter at which the point of the ray lies within
/// the box, strictly inside it on each axis along which the ray moves.
pub proof fn lemma_box_holds_point(
    bounds: Aabb,
    this_ray: &Ray,
    tmn: Scalar,
    tmx: Scalar,
    t: Scalar,
)
    requires
        0 <= tmn.raw < t.raw <= tmx.raw,
        holds_inside(bounds, this_ray, t),
    ensures
        bounds.hit(*this_ray, tmn, tmx),
{
    let whole = Span { lo: tmn, hi: tmx };
    lemma_axis_holds_point(bounds, this_ray, 0, t);
    lemma_narrow_keeps(bounds, *this_ray, 0, whole, t);
    let s0 = bounds.spec_narrow(*this_ray, 0, whole);
    lemma_axis_holds_point(bounds, this_ray, 1, t);
    lemma_narrow_keeps(bounds, *this_ray, 1, s0, t);
    let s1 = bounds.spec_narrow(*this_ray, 1, s0);
    lemma_axis_holds_point(bounds, this_ray, 2, t);
    lemma_narrow_keeps(bounds, *this_ray, 2, s1, t);
}

/// Along an axis on which the point of the ray at `t` lies strictly inside
/// the box, the ray passes the first face before `t` and the second no
/// sooner.
proof fn lemma_axis_holds_point(bounds: Aabb, this_ray: &Ray, axis: usize, t: Scalar)
    requires
        axis < 3,
        0 < t.raw,
        holds_inside(bounds, this_ray, t),
    ensures
        ({
            let d = this_ray.dir.get(axis);
            let o = this_ray.ori.get(axis);
            let near = bounds.mn.get(axis).sub(o).div(d);
            let far = bounds.mx.get(axis).sub(o).div(d);
            &&& d.raw == 0 ==> bounds.mn.get(axis).raw <= o.raw <= bounds.mx.get(axis).raw
            &&& d.raw > 0 ==> near.raw < t.raw <= far.raw
            &&& d.raw < 0 ==> far.raw < t.raw <= near.raw
        }),
{
    let d = this_ray.dir.get(axis);
    let o = this_ray.ori.get(axis);
    let p = this_ray.pos(t).get(axis);
    assert(p == o.add(d.mul(t)));
    lemma_mul_commutative(d, t);
    if d.raw != 0 {
        lemma_free_axis(bounds.mn.get(axis), bounds.mx.get(axis), o, d, t);
    }
}

/// The bounding box of a consistent thing is valid for every ray and
/// every lower bound from zero on for which, where the ray hits the thing
/// at all, it hits it beyond the lower bound at a point that lies within
/// the box, strictly inside it on each axis along which the ray moves.
pub proof fn lemma_enclosed_by_margin(
    h: &Hittable,
    this_ray: &Ray,
    tmn: Scalar,
    t0: Scalar,
    t1: Scalar,
)
    requires
        0 <= tmn.raw,
        is_consistent(h, this_ray, tmn),
        h.spec_bounding_box(t0, t1) is Some,
        h.spec_hit(this_ray, tmn, Scalar::inf()) matches Some(rec) ==> tmn.raw < rec.t.raw
            && holds_inside(h.spec_bounding_box(t0, t1)->0, this_ray, rec.t),
    ensures
        is_enclosed(h, this_ray, tmn, t0, t1),
{
    reveal(is_enclosed);
    reveal(is_consistent);
    let bounds = h.spec_bounding_box(t0, t1)->0;
    assert forall|b: Scalar| #[trigger] h.spec_hit(this_ray, tmn, b) is Some implies bounds.hit(
        *this_ray,
        tmn,
        b,
    ) by {
        let rec = h.spec_hit(this_ray, tmn, b)->0;
        assert(b.raw <= Scalar::inf().raw);
        assert(h.spec_hit(this_ray, tmn, Scalar::inf()) == h.spec_hit(this_ray, tmn, b));
        lemma_box_holds_point(bounds, this_ray, tmn, b, rec.t);
    }
}

/// Over a positive divisor: where the crossing has reached an edge, the ray
/// reaches the plane of the edge no later than the parameter of the
/// crossing.
proof fn lemma_edge_reached(n: int, m: int, t: int, d: int)
    requires
        t > 0,
        d > 0,
        m == quotient(t * d, SCALE as int),
        n <= m,
    ensures
        quotient(n * SCALE, d) <= t,
{
    if n < m {
        lemma_edge_passed(n, m, t, d);
    } else {
        assert(t * d >= 0) by (nonlinear_arith)
            requires
                t > 0,
                d > 0,
        ;
        assert(m >= 0 && m * SCALE <= t * d) by (nonlinear_arith)
            requires
                m == (t * d) / (SCALE as int),
                SCALE == 1_000_000,
                t * d >= 0,
        ;
        assert((n * SCALE) / d <= t) by (nonlinear_arith)
            requires
                0 <= n * SCALE <= t * d,
                d > 0,
                t > 0,
        ;
    }
}

/// Over a positive divisor of at most one: where the crossing lies two
/// millionths or more short of an edge, the ray reaches the plane of the
/// edge after the parameter of the crossing.
proof fn lemma_edge_well_ahead(n: int, m: int, t: int, d: int)
    requires
        t > 0,
        0 < d <= SCALE,
        m == quotient(t * d, SCALE as int),
        m + 2 <= n,
    ensures
        quotient(n * SCALE, d) > t,
{
    assert(t * d >= 0) by (nonlinear_arith)
        requires
            t > 0,
            d > 0,
    ;
    assert(m >= 0 && t * d < (m + 1) * SCALE) by (nonlinear_arith)
        requires
            m == (t * d) / (SCALE as int),
            SCALE == 1_000_000,
            t * d >= 0,
    ;
    assert(n * SCALE >= (t + 1) * d) by (nonlinear_arith)
        requires
            t * d < (m + 1) * SCALE,
            m + 2 <= n,
            0 < d <= SCALE,
            SCALE == 1_000_000,
    ;
    assert((n * SCALE) / d >= t + 1) by (nonlinear_arith)
        requires
            n * SCALE >= (t + 1) * d,
            d > 0,
            t > 0,
    ;
}

/// On an axis along which a ray moves by at most one, a ray whose point at
/// `t` has reached the face by which it enters, and lies two millionths or
/// more short of the face by which it leaves, passes the first no later
/// than `t` and the second after `t`.
pub proof fn lemma_axis_before_leaving(lo: Scalar, hi: Scalar, o: Scalar, d: Scalar, t: Scalar)
    requires
        is_moderate(lo),
        is_moderate(hi),
        is_moderate(o),
        0 < t.raw < RAW_MAX,
        d.raw != 0,
        -SCALE <= d.raw <= SCALE,
        d.raw > 0 ==> lo.raw <= o.add(t.mul(d)).raw <= hi.raw - 2,
        d.raw < 0 ==> lo.raw + 2 <= o.add(t.mul(d)).raw <= hi.raw,
    ensures
        d.raw > 0 ==> lo.sub(o).div(d).raw <= t.raw < hi.sub(o).div(d).raw,
        d.raw < 0 ==> hi.sub(o).div(d).raw <= t.raw < lo.sub(o).div(d).raw,
{
    let m = quotient(t.raw * d.raw, SCALE as int);
    let n_lo = lo.raw - o.raw;
    let n_hi = hi.raw - o.raw;
    assert(t.mul(d).raw == m);
    assert(o.add(t.mul(d)).raw == o.raw + m);
    if d.raw > 0 {
        lemma_edge_reached(n_lo, m, t.raw as int, d.raw as int);
        lemma_edge_well_ahead(n_hi, m, t.raw as int, d.raw as int);
    } else {
        let e = -d.raw;
        let me = quotient(t.raw * e, SCALE as int);
        assert(t.raw * e == -(t.raw * d.raw)) by (nonlinear_arith)
            requires
                e == -d.raw,
        ;
        lemma_quotient_negate(t.raw * d.raw, SCALE as int);
        assert(me == -m);
        lemma_edge_reached(-n_hi, me, t.raw as int, e);
        lemma_edge_well_ahead(-n_lo, me, t.raw as int, e);
        assert((-n_hi) * SCALE == -(n_hi * SCALE)) by (nonlinear_arith);
        assert((-n_lo) * SCALE == -(n_lo * SCALE)) by (nonlinear_arith);
        lemma_quotient_negate(n_hi * SCALE, e);
        lemma_quotient_negate(n_lo * SCALE, e);
        lemma_quotient_negate(-(n_hi * SCALE), e);
        lemma_quotient_negate(-(n_lo * SCALE), e);
    }
}

/// Narrowing along an axis keeps a parameter that lies not before the
/// first face and before the second.
pub proof fn lemma_narrow_keeps_before(bounds: Aabb, ray: Ray, axis: usize, span: Span, t: Scalar)
    requires
        span.lo.raw <= t.raw < span.hi.raw,
        ({
            let d = ray.dir.get(axis);
            let o = ray.ori.get(axis);
            let near = bounds.mn.get(axis).sub(o).div(d);
            let far = bounds.mx.get(axis).sub(o).div(d);
            &&& d.raw == 0 ==> bounds.mn.get(axis).raw <= o.raw <= bounds.mx.get(axis).raw
            &&& d.raw > 0 ==> near.raw <= t.raw < far.raw
            &&& d.raw < 0 ==> far.raw <= t.raw < near.raw
        }),
    ensures
        bounds.spec_narrow(ray, axis, span).lo.raw <= t.raw < bounds.spec_narrow(
            ray,
            axis,
            span,
        ).hi.raw,
{
}

/// The point of the ray at `t` lies within the box, and on each axis along
/// which the ray moves it lies two millionths or more short of the face by
/// which the ray leaves. The ray moves by at most one along each axis. The
/// box and the origin of the ray are of moderate size.
pub open spec fn holds_before_leaving(bounds: Aabb, this_ray: &Ray, t: Scalar) -> bool {
    forall|axis: usize|
        axis < 3 ==> {
            let o = this_ray.ori.get(axis);
            let d = this_ray.dir.get(axis);
            let p = #[trigger] this_ray.pos(t).get(axis);
            &&& is_moderate(bounds.mn.get(axis)) && is_moderate(bounds.mx.get(axis))
                && is_moderate(o)
            &&& -SCALE <= d.raw <= SCALE
            &&& d.raw == 0 ==> bounds.mn.get(axis).raw <= o.raw <= bounds.mx.get(axis).raw
            &&& d.raw > 0 ==> bounds.mn.get(axis).raw <= p.raw <= bounds.mx.get(axis).raw - 2
            &&& d.raw < 0 ==> bounds.mn.get(axis).raw + 2 <= p.raw <= bounds.mx.get(axis).raw
        }
}

/// Along an axis on which the point of the ray at `t` lies short of the
/// face by which the ray leaves, the ray passes the first face no later
/// than `t` and the second after `t`.
proof fn lemma_axis_holds_before(bounds: Aabb, this_ray: &Ray, axis: usize, t: Scalar)
    requires
        axis < 3,
        0 < t.raw < RAW_MAX,
        holds_before_leaving(bounds, this_ray, t),
    ensures
        ({
            let d = this_ray.dir.get(axis);
            let o = this_ray.ori.get(axis);
            let near = bounds.mn.get(axis).sub(o).div(d);
            let far = bounds.mx.get(axis).sub(o).div(d);
            &&& d.raw == 0 ==> bounds.mn.get(axis).raw <= o.raw <= bounds.mx.get(axis).raw
            &&& d.raw > 0 ==> near.raw <= t.raw < far.raw
            &&& d.raw < 0 ==> far.raw <= t.raw < near.raw
        }),
{
    let d = this_ray.dir.get(axis);
    let o = this_ray.ori.get(axis);
    let p = this_ray.pos(t).get(axis);
    assert(p == o.add(d.mul(t)));
    lemma_mul_commutative(d, t);
    if d.raw != 0 {
        lemma_axis_before_leaving(bounds.mn.get(axis), bounds.mx.get(axis), o, d, t);
    }
}

/// A ray passes through a box within every interval that begins at zero or
/// later and holds a parameter at which the point of the ray lies within
/// the box, short of the faces by which the ray leaves.
pub proof fn lemma_box_holds_point_before(
    bounds: Aabb,
    this_ray: &Ray,
    tmn: Scalar,
    tmx: Scalar,
    t: Scalar,
)
    requires
        0 <= tmn.raw < t.raw < tmx.raw,
        holds_before_leaving(bounds, this_ray, t),
    ensures
        bounds.hit(*this_ray, tmn, tmx),
{
    let whole = Span { lo: tmn, hi: tmx };
    lemma_axis_holds_before(bounds, this_ray, 0, t);
    lemma_narrow_keeps_before(bounds, *this_ray, 0, whole, t);
    let s0 = bounds.spec_narrow(*this_ray, 0, whole);
    lemma_axis_holds_before(bounds, this_ray, 1, t);
    lemma_narrow_keeps_before(bounds, *this_ray, 1, s0, t);
    let s1 = bounds.spec_narrow(*this_ray, 1, s0);
    lemma_axis_holds_before(bounds, this_ray, 2, t);
    lemma_narrow_keeps_before(bounds, *this_ray, 2, s1, t);
}

/// The bounding box of a sphere, at rest or moving, is valid for every ray
/// and every lower bound from zero on for which, where the ray hits the
/// sphere at all, the point of the ray at the hit lies within the box:
/// strictly inside it, or short of the faces by which the ray leaves, on
/// each axis along which the ray moves.
pub proof fn lemma_sphere_enclosed(
    h: &Hittable,
    this_ray: &Ray,
    tmn: Scalar,
    t0: Scalar,
    t1: Scalar,
)
    requires
        h is Sphere || h is MovingSphere,
        0 <= tmn.raw,
        h.spec_hit(this_ray, tmn, Scalar::inf()) matches Some(rec) ==> holds_inside(
            h.spec_bounding_box(t0, t1)->0,
            this_ray,
            rec.t,
        ) || holds_before_leaving(h.spec_bounding_box(t0, t1)->0, this_ray, rec.t),
    ensures
        is_enclosed(h, this_ray, tmn, t0, t1),
{
    reveal(is_enclosed);
    let bounds = h.spec_bounding_box(t0, t1)->0;
    assert(h.spec_bounding_box(t0, t1) is Some);
    assert forall|b: Scalar| #[trigger] h.spec_hit(this_ray, tmn, b) is Some implies bounds.hit(
        *this_ray,
        tmn,
        b,
    ) by {
        let rec = h.spec_hit(this_ray, tmn, b)->0;
        match h {
            Hittable::Sphere(s) => {
                lemma_sphere_hit(this_ray, s.center, s.radius, s.mat_ptr, tmn, b, Scalar::inf());
            },
            Hittable::MovingSphere(s) => {
                lemma_sphere_hit(
                    this_ray,
                    s.spec_center(this_ray.tm),
                    s.radius,
                    s.mat_ptr,
                    tmn,
                    b,
                    Scalar::inf(),
                );
            },
            _ => {},
        }
        assert(h.spec_hit(this_ray, tmn, Scalar::inf()) == Some(rec));
        assert(tmn.raw < rec.t.raw < b.raw);
        if holds_inside(bounds, this_ray, rec.t) {
            lemma_box_holds_point(bounds, this_ray, tmn, b, rec.t);
        } else {
            lemma_box_holds_point_before(bounds, this_ray, tmn, b, rec.t);
        }
    }
}

/// `h` is a sphere or a rectangle, and the ray keeps the margin that makes
/// its bounding box valid: where it hits a sphere, the point of the ray at
/// the hit lies strictly inside the box or short of the faces by which the
/// ray leaves; where it hits a rectangle, it crosses the plane strictly
/// inside the edges.
pub open spec fn keeps_margin(h: &Hittable, this_ray: &Ray, tmn: Scalar, t0: Scalar, t1: Scalar)
    -> bool {
    match spec_panel_of(h) {
        Some((panel, mp)) => has_margin(&panel, this_ray, mp, tmn),
        None => {
            &&& h is Sphere || h is MovingSphere
            &&& h.spec_hit(this_ray, tmn, Scalar::inf()) matches Some(rec) ==> holds_inside(
                h.spec_bounding_box(t0, t1)->0,
                this_ray,
                rec.t,
            ) || holds_before_leaving(h.spec_bounding_box(t0, t1)->0, this_ray, rec.t)
        },
    }
}

/// The bounding box of a sphere or a rectangle is valid for every ray that
/// keeps the margin, and every lower bound from zero on.
pub proof fn lemma_margin_encloses(
    h: &Hittable,
    this_ray: &Ray,
    tmn: Scalar,
    t0: Scalar,
    t1: Scalar,
)
    requires
        0 <= tmn.raw,
        keeps_margin(h, this_ray, tmn, t0, t1),
    ensures
        h.is_flat(),
        is_enclosed(h, this_ray, tmn, t0, t1),
{
    if spec_panel_of(h) is Some {
        lemma_rectangle_enclosed(h, this_ray, tmn, t0, t1);
    } else {
        lemma_sphere_enclosed(h, this_ray, tmn, t0, t1);
    }
}

/// A hierarchy that was built over spheres and rectangles reports what the
/// linear scan of a list of them reports, for every ray that keeps the
/// margin on each of them and every lower bound from zero on: both report
/// none or hits at the same distance, and the same hit unless two of them
/// tie.
pub proof fn lemma_bvh_agrees_within_margin(
    node: &BvhNode,
    list: &HittableList,
    t0: Scalar,
    t1: Scalar,
    this_ray: &Ray,
    tmn: Scalar,
    tmx: Scalar,
)
    requires
        0 <= tmn.raw,
        node.covers(list.objects@, list.objects@.len() as int, t0, t1),
        forall|i: int|
            0 <= i < list.objects@.len() ==> keeps_margin(
                &*#[trigger] list.objects@[i],
                this_ray,
                tmn,
                t0,
                t1,
            ),
    ensures
        list.spec_hit(this_ray, tmn, tmx) is Some <==> node.spec_hit(this_ray, tmn, tmx) is Some,
        list.spec_hit(this_ray, tmn, tmx) is Some ==> list.spec_hit(this_ray, tmn, tmx)->0.t
            == node.spec_hit(this_ray, tmn, tmx)->0.t,
        no_ties(list.objects@, this_ray, tmn, tmx) ==> list.spec_hit(this_ray, tmn, tmx)
            == node.spec_hit(this_ray, tmn, tmx),
{
    assert forall|i: int| 0 <= i < list.objects@.len() implies (#[trigger] list.objects@[i]).is_flat()
        && is_enclosed(&*list.objects@[i], this_ray, tmn, t0, t1) by {
        lemma_margin_encloses(&*list.objects@[i], this_ray, tmn, t0, t1);
    }
    lemma_bvh_agrees_on_primitives(node, list, t0, t1, this_ray, tmn, tmx);
}

} // verus!
