//! Laws of the nearest hit: what a linear scan and a bounding-volume
//! hierarchy report, and why they agree.
use vstd::prelude::*;
use std::sync::Arc;
use crate::aabb::{lemma_hit_monotonic, Aabb};
use crate::bvh::{
    lemma_covers_more, lemma_covers_one, lemma_covers_some, lemma_covers_two,
    lemma_sorted_same_members, spec_sorted,
    BvhNode,
};
use crate::hit::{
    lemma_extent_holds_boxes, lemma_extent_least, spec_extent, spec_scan, HitRecord, Hittable,
    HittableList,
};
use crate::ray::Ray;
use crate::rect::{lemma_panel_hit, Panel};
use crate::scalar::Scalar;
use crate::sphere::{lemma_sphere_hit, spec_sphere_hit};
use crate::transform::{FlipFace, Rotatey, Translate};
use crate::material::Material;
use crate::vec3::Vec3;

verus! {

/// For this ray and this lower bound, what `h` reports depends on the upper
/// bound only through whether the hit lies below it: a hit lies at or below
/// the upper bound; a hit that is reported below some bound is reported
/// below every larger one; and a hit that is reported below some bound and
/// lies below a smaller one is reported below that one too.
#[verifier::opaque]
pub open spec fn is_consistent(h: &Hittable, this_ray: &Ray, tmn: Scalar) -> bool {
    &&& forall|b: Scalar| #[trigger]
        h.spec_hit(this_ray, tmn, b) is Some ==> h.spec_hit(this_ray, tmn, b)->0.t.raw <= b.raw
    &&& forall|b1: Scalar, b2: Scalar|
        b1.raw <= b2.raw && #[trigger] h.spec_hit(this_ray, tmn, b1) is Some ==> #[trigger] h.spec_hit(
            this_ray,
            tmn,
            b2,
        ) == h.spec_hit(this_ray, tmn, b1)
    &&& forall|b1: Scalar, b2: Scalar|
        b1.raw <= b2.raw && #[trigger] h.spec_hit(this_ray, tmn, b2) is Some && h.spec_hit(
            this_ray,
            tmn,
            b2,
        )->0.t.raw < b1.raw ==> #[trigger] h.spec_hit(this_ray, tmn, b1) == h.spec_hit(
            this_ray,
            tmn,
            b2,
        )
}

/// For this ray and this lower bound, the bounding box of `h` over the
/// times from `t0` to `t1` is valid: the ray passes through the box within
/// every interval within which it hits `h`.
#[verifier::opaque]
pub open spec fn is_enclosed(h: &Hittable, this_ray: &Ray, tmn: Scalar, t0: Scalar, t1: Scalar)
    -> bool {
    &&& h.spec_bounding_box(t0, t1) is Some
    &&& forall|b: Scalar| #[trigger]
        h.spec_hit(this_ray, tmn, b) is Some ==> h.spec_bounding_box(t0, t1)->0.hit(
            *this_ray,
            tmn,
            b,
        )
}

/// `found` is a nearest hit of the ray on `objects` within `(tmn, tmx)`:
/// nothing if the ray hits none of them; else the hit on one of them, than
/// which the hit on no other is nearer.
pub open spec fn nearest_of(
    objects: Seq<Arc<Hittable>>,
    this_ray: &Ray,
    tmn: Scalar,
    tmx: Scalar,
    found: Option<HitRecord>,
) -> bool {
    match found {
        None => forall|h: Arc<Hittable>| #[trigger]
            objects.contains(h) ==> h.spec_hit(this_ray, tmn, tmx) is None,
        Some(rec) => {
            &&& exists|h: Arc<Hittable>| #[trigger]
                objects.contains(h) && h.spec_hit(this_ray, tmn, tmx) == Some(rec)
            &&& forall|h: Arc<Hittable>| #[trigger]
                objects.contains(h) && h.spec_hit(this_ray, tmn, tmx) is Some ==> rec.t.raw
                    <= h.spec_hit(this_ray, tmn, tmx)->0.t.raw
        },
    }
}

/// What a pair of things reports when the second is asked for a hit nearer
/// than the hit on the first.
pub open spec fn spec_pair_hit(
    left: &Hittable,
    right: &Hittable,
    this_ray: &Ray,
    tmn: Scalar,
    tmx: Scalar,
) -> Option<HitRecord> {
    match left.spec_hit(this_ray, tmn, tmx) {
        Some(rec_left) => match right.spec_hit(this_ray, tmn, rec_left.t) {
            Some(rec_right) => Some(rec_right),
            None => Some(rec_left),
        },
        None => right.spec_hit(this_ray, tmn, tmx),
    }
}

/// A thing whose hit lies below a smaller bound is hit below that bound.
proof fn lemma_narrow(h: &Hittable, this_ray: &Ray, tmn: Scalar, b1: Scalar, b2: Scalar)
    requires
        is_consistent(h, this_ray, tmn),
        b1.raw <= b2.raw,
        h.spec_hit(this_ray, tmn, b2) is Some,
        h.spec_hit(this_ray, tmn, b2)->0.t.raw < b1.raw,
    ensures
        h.spec_hit(this_ray, tmn, b1) == h.spec_hit(this_ray, tmn, b2),
{
    reveal(is_consistent);
}

/// A thing that is hit below some bound is hit the same below a larger one.
proof fn lemma_widen(h: &Hittable, this_ray: &Ray, tmn: Scalar, b1: Scalar, b2: Scalar)
    requires
        is_consistent(h, this_ray, tmn),
        b1.raw <= b2.raw,
        h.spec_hit(this_ray, tmn, b1) is Some,
    ensures
        h.spec_hit(this_ray, tmn, b2) == h.spec_hit(this_ray, tmn, b1),
{
    reveal(is_consistent);
}

/// A hit lies at or below the upper bound.
proof fn lemma_within(h: &Hittable, this_ray: &Ray, tmn: Scalar, b: Scalar)
    requires
        is_consistent(h, this_ray, tmn),
        h.spec_hit(this_ray, tmn, b) is Some,
    ensures
        h.spec_hit(this_ray, tmn, b)->0.t.raw <= b.raw,
{
    reveal(is_consistent);
}

/// Two groups of consistent things, each of which reports a nearest hit on
/// its members below every bound it is asked for, report as a pair a
/// nearest hit on the members of both.
pub proof fn lemma_pair_nearest(
    first: Seq<Arc<Hittable>>,
    second: Seq<Arc<Hittable>>,
    both: Seq<Arc<Hittable>>,
    left: &Hittable,
    right: &Hittable,
    this_ray: &Ray,
    tmn: Scalar,
    tmx: Scalar,
)
    requires
        forall|h: Arc<Hittable>| #[trigger]
            both.contains(h) <==> first.contains(h) || second.contains(h),
        forall|h: Arc<Hittable>| #[trigger] both.contains(h) ==> is_consistent(&*h, this_ray, tmn),
        nearest_of(first, this_ray, tmn, tmx, left.spec_hit(this_ray, tmn, tmx)),
        nearest_of(second, this_ray, tmn, tmx, right.spec_hit(this_ray, tmn, tmx)),
        left.spec_hit(this_ray, tmn, tmx) matches Some(rec_left) ==> nearest_of(
            second,
            this_ray,
            tmn,
            rec_left.t,
            right.spec_hit(this_ray, tmn, rec_left.t),
        ),
    ensures
        nearest_of(both, this_ray, tmn, tmx, spec_pair_hit(left, right, this_ray, tmn, tmx)),
{
    let found = spec_pair_hit(left, right, this_ray, tmn, tmx);
    match left.spec_hit(this_ray, tmn, tmx) {
        None => {
            match found {
                None => {},
                Some(rec) => {
                    let w = choose|h: Arc<Hittable>| #[trigger]
                        second.contains(h) && h.spec_hit(this_ray, tmn, tmx) == Some(rec);
                    assert(both.contains(w));
                },
            }
        },
        Some(rec_left) => {
            let wl = choose|h: Arc<Hittable>| #[trigger]
                first.contains(h) && h.spec_hit(this_ray, tmn, tmx) == Some(rec_left);
            assert(both.contains(wl));
            lemma_within(&*wl, this_ray, tmn, tmx);
            match right.spec_hit(this_ray, tmn, rec_left.t) {
                Some(rec_right) => {
                    let wr = choose|h: Arc<Hittable>| #[trigger]
                        second.contains(h) && h.spec_hit(this_ray, tmn, rec_left.t) == Some(
                            rec_right,
                        );
                    assert(both.contains(wr));
                    lemma_widen(&*wr, this_ray, tmn, rec_left.t, tmx);
                    lemma_within(&*wr, this_ray, tmn, rec_left.t);
                    assert forall|h: Arc<Hittable>| #[trigger]
                        both.contains(h) && h.spec_hit(this_ray, tmn, tmx) is Some implies rec_right.t.raw
                        <= h.spec_hit(this_ray, tmn, tmx)->0.t.raw by {
                        if second.contains(h) && h.spec_hit(this_ray, tmn, tmx)->0.t.raw
                            < rec_left.t.raw {
                            lemma_narrow(&*h, this_ray, tmn, rec_left.t, tmx);
                        }
                    }
                },
                None => {
                    assert forall|h: Arc<Hittable>| #[trigger]
                        both.contains(h) && h.spec_hit(this_ray, tmn, tmx) is Some implies rec_left.t.raw
                        <= h.spec_hit(this_ray, tmn, tmx)->0.t.raw by {
                        if second.contains(h) && h.spec_hit(this_ray, tmn, tmx)->0.t.raw
                            < rec_left.t.raw {
                            lemma_narrow(&*h, this_ray, tmn, rec_left.t, tmx);
                        }
                    }
                },
            }
        },
    }
}

/// A single thing reports a nearest hit on itself.
pub proof fn lemma_single_nearest(h: Arc<Hittable>, this_ray: &Ray, tmn: Scalar, tmx: Scalar)
    ensures
        nearest_of(seq![h], this_ray, tmn, tmx, h.spec_hit(this_ray, tmn, tmx)),
{
    let only = seq![h];
    assert(only[0] == h);
    assert(only.contains(h));
}

/// A linear scan over things that are consistent reports a nearest hit on
/// them.
pub proof fn lemma_scan_nearest(
    objects: Seq<Arc<Hittable>>,
    n: int,
    this_ray: &Ray,
    tmn: Scalar,
    tmx: Scalar,
)
    requires
        0 <= n <= objects.len(),
        forall|i: int| 0 <= i < n ==> is_consistent(&*#[trigger] objects[i], this_ray, tmn),
    ensures
        nearest_of(objects.take(n), this_ray, tmn, tmx, spec_scan(objects, n, this_ray, tmn, tmx)),
    decreases n,
{
    if n > 0 {
        lemma_scan_nearest(objects, n - 1, this_ray, tmn, tmx);
        let before = spec_scan(objects, n - 1, this_ray, tmn, tmx);
        let earlier = objects.take(n - 1);
        let among = objects.take(n);
        let last = objects[n - 1];
        assert(among =~= earlier.push(last));
        assert forall|h: Arc<Hittable>| #[trigger]
            among.contains(h) <==> earlier.contains(h) || h == last by {
            if earlier.contains(h) {
                let i = choose|i: int| 0 <= i < earlier.len() && earlier[i] == h;
                assert(among[i] == h);
            }
            if h == last {
                assert(among[n - 1] == h);
            }
        }
        assert forall|h: Arc<Hittable>| #[trigger] among.contains(h) implies is_consistent(
            &*h,
            this_ray,
            tmn,
        ) by {
            let i = choose|i: int| 0 <= i < among.len() && among[i] == h;
            assert(objects[i] == h);
        }
        let found = spec_scan(objects, n, this_ray, tmn, tmx);
        match before {
            None => {
                match found {
                    None => {},
                    Some(rec) => {
                        assert(among.contains(last));
                    },
                }
            },
            Some(best) => {
                let wb = choose|h: Arc<Hittable>| #[trigger]
                    earlier.contains(h) && h.spec_hit(this_ray, tmn, tmx) == Some(best);
                assert(among.contains(wb));
                lemma_within(&*wb, this_ray, tmn, tmx);
                match last.spec_hit(this_ray, tmn, best.t) {
                    Some(rec) => {
                        assert(among.contains(last));
                        lemma_widen(&*last, this_ray, tmn, best.t, tmx);
                        lemma_within(&*last, this_ray, tmn, best.t);
                    },
                    None => {
                        if last.spec_hit(this_ray, tmn, tmx) is Some && last.spec_hit(
                            this_ray,
                            tmn,
                            tmx,
                        )->0.t.raw < best.t.raw {
                            lemma_narrow(&*last, this_ray, tmn, best.t, tmx);
                        }
                    },
                }
            },
        }
    }
}

/// A linear scan over consistent things is consistent: for two upper
/// bounds, the scan below the smaller reports no hit or the hit that the
/// scan below the larger reports, and a hit that the scan below the larger
/// reports lies at or above the smaller bound unless the scan below the
/// smaller reports it too.
pub proof fn lemma_scan_consistent(
    objects: Seq<Arc<Hittable>>,
    n: int,
    this_ray: &Ray,
    tmn: Scalar,
    b1: Scalar,
    b2: Scalar,
)
    requires
        0 <= n <= objects.len(),
        forall|i: int| 0 <= i < n ==> is_consistent(&*#[trigger] objects[i], this_ray, tmn),
        b1.raw <= b2.raw,
    ensures
        spec_scan(objects, n, this_ray, tmn, b1) is Some ==> spec_scan(
            objects,
            n,
            this_ray,
            tmn,
            b1,
        )->0.t.raw <= b1.raw,
        spec_scan(objects, n, this_ray, tmn, b1) is Some ==> spec_scan(objects, n, this_ray, tmn, b2)
            == spec_scan(objects, n, this_ray, tmn, b1),
        spec_scan(objects, n, this_ray, tmn, b2) is Some && spec_scan(
            objects,
            n,
            this_ray,
            tmn,
            b2,
        )->0.t.raw < b1.raw ==> spec_scan(objects, n, this_ray, tmn, b1) == spec_scan(
            objects,
            n,
            this_ray,
            tmn,
            b2,
        ),
    decreases n,
{
    if n > 0 {
        lemma_scan_consistent(objects, n - 1, this_ray, tmn, b1, b2);
        let s1 = spec_scan(objects, n - 1, this_ray, tmn, b1);
        let s2 = spec_scan(objects, n - 1, this_ray, tmn, b2);
        let last = &*objects[n - 1];
        assert(is_consistent(last, this_ray, tmn));
        let bound1 = match s1 {
            Some(rec) => rec.t,
            None => b1,
        };
        let bound2 = match s2 {
            Some(rec) => rec.t,
            None => b2,
        };
        if last.spec_hit(this_ray, tmn, bound1) is Some {
            lemma_within(last, this_ray, tmn, bound1);
        }
        if s1 is None {
            if last.spec_hit(this_ray, tmn, bound1) is Some {
                lemma_widen(last, this_ray, tmn, bound1, bound2);
            }
            if last.spec_hit(this_ray, tmn, bound2) is Some && last.spec_hit(
                this_ray,
                tmn,
                bound2,
            )->0.t.raw < b1.raw {
                lemma_narrow(last, this_ray, tmn, bound1, bound2);
            }
        }
    }
}

/// The two halves of the sorted things hold, between them, the things that
/// were sorted, and nothing else.
proof fn lemma_halves_members(
    objects: Seq<Arc<Hittable>>,
    axis: usize,
    t0: Scalar,
    t1: Scalar,
    mid: int,
)
    requires
        0 <= mid <= objects.len(),
    ensures
        spec_sorted(objects, axis, t0, t1).len() == objects.len(),
        forall|h: Arc<Hittable>| #[trigger]
            objects.contains(h) <==> spec_sorted(objects, axis, t0, t1).take(mid).contains(h)
                || spec_sorted(objects, axis, t0, t1).skip(mid).contains(h),
        forall|h: Arc<Hittable>| #[trigger]
            spec_sorted(objects, axis, t0, t1).take(mid).contains(h) ==> objects.contains(h),
        forall|h: Arc<Hittable>| #[trigger]
            spec_sorted(objects, axis, t0, t1).skip(mid).contains(h) ==> objects.contains(h),
{
    let in_order = spec_sorted(objects, axis, t0, t1);
    lemma_sorted_same_members(objects, axis, t0, t1);
    lemma_split_members(in_order, mid);
    assert forall|h: Arc<Hittable>| #[trigger]
        objects.contains(h) <==> in_order.take(mid).contains(h) || in_order.skip(mid).contains(
            h,
        ) by {
        assert(in_order.contains(h) <==> objects.contains(h));
        assert(in_order.contains(h) <==> in_order.take(mid).contains(h) || in_order.skip(
            mid,
        ).contains(h));
    }
}

/// A sequence holds what its front part holds and what the rest holds.
proof fn lemma_split_members(objects: Seq<Arc<Hittable>>, mid: int)
    requires
        0 <= mid <= objects.len(),
    ensures
        forall|h: Arc<Hittable>| #[trigger]
            objects.contains(h) <==> objects.take(mid).contains(h) || objects.skip(mid).contains(h),
{
    let front = objects.take(mid);
    let back = objects.skip(mid);
    assert forall|h: Arc<Hittable>| #[trigger]
        objects.contains(h) <==> front.contains(h) || back.contains(h) by {
        if objects.contains(h) {
            let i = choose|i: int| 0 <= i < objects.len() && objects[i] == h;
            if i < mid {
                assert(front[i] == h);
            } else {
                assert(back[i - mid] == h);
            }
        }
        if front.contains(h) {
            let i = choose|i: int| 0 <= i < front.len() && front[i] == h;
            assert(objects[i] == h);
        }
        if back.contains(h) {
            let i = choose|i: int| 0 <= i < back.len() && back[i] == h;
            assert(objects[i + mid] == h);
        }
    }
}

/// A ray that misses a box hits nothing whose valid box lies within it.
proof fn lemma_miss(
    outer: Aabb,
    h: &Hittable,
    this_ray: &Ray,
    tmn: Scalar,
    tmx: Scalar,
    t0: Scalar,
    t1: Scalar,
)
    requires
        is_enclosed(h, this_ray, tmn, t0, t1),
        outer.contains(h.spec_bounding_box(t0, t1)->0),
        !outer.hit(*this_ray, tmn, tmx),
    ensures
        h.spec_hit(this_ray, tmn, tmx) is None,
{
    reveal(is_enclosed);
    if h.spec_hit(this_ray, tmn, tmx) is Some {
        lemma_hit_monotonic(
            outer,
            h.spec_bounding_box(t0, t1)->0,
            *this_ray,
            tmn,
            tmx,
            tmn,
            tmx,
        );
    }
}

/// The box of the root of a hierarchy holds the box of each thing that the
/// hierarchy was built over.
pub proof fn lemma_bvh_holds_boxes(
    node: &BvhNode,
    objects: Seq<Arc<Hittable>>,
    t0: Scalar,
    t1: Scalar,
    h: Arc<Hittable>,
)
    requires
        node.covers(objects, objects.len() as int, t0, t1),
        objects.contains(h),
    ensures
        h.spec_bounding_box(t0, t1) is Some,
        node.mybox.contains(h.spec_bounding_box(t0, t1)->0),
    decreases objects.len(),
{
    let n = objects.len() as int;
    lemma_covers_some(node, objects, n, t0, t1);
    if n == 1 {
        lemma_covers_one(node, objects, t0, t1);
    } else if n == 2 {
        lemma_covers_two(node, objects, t0, t1);
    } else {
        let axis = lemma_covers_more(node, objects, n, t0, t1);
        let in_order = spec_sorted(objects, axis, t0, t1);
        let mid = n / 2;
        lemma_halves_members(objects, axis, t0, t1, mid);
        match (&*node.left, &*node.right) {
            (Hittable::Bvh(l), Hittable::Bvh(r)) => {
                if in_order.take(mid).contains(h) {
                    lemma_bvh_holds_boxes(l, in_order.take(mid), t0, t1, h);
                } else {
                    lemma_bvh_holds_boxes(r, in_order.skip(mid), t0, t1, h);
                }
            },
            _ => {},
        }
    }
}

/// The box of the root of a hierarchy lies within every box that holds the
/// box of each thing that the hierarchy was built over.
pub proof fn lemma_bvh_box_least(
    node: &BvhNode,
    objects: Seq<Arc<Hittable>>,
    t0: Scalar,
    t1: Scalar,
    outer: Aabb,
)
    requires
        node.covers(objects, objects.len() as int, t0, t1),
        forall|h: Arc<Hittable>| #[trigger]
            objects.contains(h) ==> h.spec_bounding_box(t0, t1) is Some && outer.contains(
                h.spec_bounding_box(t0, t1)->0,
            ),
    ensures
        outer.contains(node.mybox),
    decreases objects.len(),
{
    let n = objects.len() as int;
    lemma_covers_some(node, objects, n, t0, t1);
    if n == 1 {
        lemma_covers_one(node, objects, t0, t1);
        assert(objects.contains(objects[0]));
    } else if n == 2 {
        lemma_covers_two(node, objects, t0, t1);
        assert(objects.contains(objects[0]));
        assert(objects.contains(objects[1]));
    } else {
        let axis = lemma_covers_more(node, objects, n, t0, t1);
        let in_order = spec_sorted(objects, axis, t0, t1);
        let mid = n / 2;
        lemma_halves_members(objects, axis, t0, t1, mid);
        match (&*node.left, &*node.right) {
            (Hittable::Bvh(l), Hittable::Bvh(r)) => {
                lemma_bvh_box_least(l, in_order.take(mid), t0, t1, outer);
                lemma_bvh_box_least(r, in_order.skip(mid), t0, t1, outer);
            },
            _ => {},
        }
    }
}

/// A hierarchy that was built over all members of a list has the bounding
/// box of the list: the smallest box that holds the box of every member.
pub proof fn lemma_bvh_box_is_list_box(node: &BvhNode, list: &HittableList, t0: Scalar, t1: Scalar)
    requires
        node.covers(list.objects@, list.objects@.len() as int, t0, t1),
    ensures
        list.spec_bounding_box(t0, t1) == Some(node.mybox),
        node.spec_bounding_box(t0, t1) == list.spec_bounding_box(t0, t1),
{
    let objects = list.objects@;
    let n = objects.len() as int;
    lemma_covers_some(node, objects, n, t0, t1);
    assert forall|i: int| 0 <= i < n implies (#[trigger] objects[i]).spec_bounding_box(t0, t1)
        is Some && node.mybox.contains(objects[i].spec_bounding_box(t0, t1)->0) by {
        assert(objects.contains(objects[i]));
        lemma_bvh_holds_boxes(node, objects, t0, t1, objects[i]);
    }
    lemma_extent_exists(objects, n, t0, t1);
    let whole = spec_extent(objects, n, t0, t1)->0;
    lemma_extent_least(objects, n, t0, t1, node.mybox);
    assert forall|h: Arc<Hittable>| #[trigger] objects.contains(h) implies h.spec_bounding_box(
        t0,
        t1,
    ) is Some && whole.contains(h.spec_bounding_box(t0, t1)->0) by {
        let i = choose|i: int| 0 <= i < objects.len() && objects[i] == h;
        lemma_extent_holds_boxes(objects, n, i, t0, t1);
    }
    lemma_bvh_box_least(node, objects, t0, t1, whole);
    assert(whole == node.mybox);
}

/// A list all of whose members have boxes has one.
proof fn lemma_extent_exists(objects: Seq<Arc<Hittable>>, n: int, t0: Scalar, t1: Scalar)
    requires
        1 <= n <= objects.len(),
        forall|i: int| 0 <= i < n ==> (#[trigger] objects[i]).spec_bounding_box(t0, t1) is Some,
    ensures
        spec_extent(objects, n, t0, t1) is Some,
    decreases n,
{
    if n > 1 {
        lemma_extent_exists(objects, n - 1, t0, t1);
        assert(objects[n - 1].spec_bounding_box(t0, t1) is Some);
    } else {
        assert(objects[0].spec_bounding_box(t0, t1) is Some);
    }
}

/// What the two children of the root of a hierarchy report as a pair is a
/// nearest hit on the things that the hierarchy was built over, where these
/// are consistent and have valid bounding boxes.
proof fn lemma_bvh_pair_nearest(
    node: &BvhNode,
    objects: Seq<Arc<Hittable>>,
    t0: Scalar,
    t1: Scalar,
    this_ray: &Ray,
    tmn: Scalar,
    tmx: Scalar,
)
    requires
        node.covers(objects, objects.len() as int, t0, t1),
        forall|h: Arc<Hittable>| #[trigger] objects.contains(h) ==> is_consistent(&*h, this_ray, tmn),
        forall|h: Arc<Hittable>| #[trigger]
            objects.contains(h) ==> is_enclosed(&*h, this_ray, tmn, t0, t1),
    ensures
        nearest_of(
            objects,
            this_ray,
            tmn,
            tmx,
            spec_pair_hit(&*node.left, &*node.right, this_ray, tmn, tmx),
        ),
    decreases objects.len(), 0int,
{
    let n = objects.len() as int;
    lemma_covers_some(node, objects, n, t0, t1);
    if n == 1 {
        lemma_covers_one(node, objects, t0, t1);
        let m = objects[0];
        assert(objects =~= seq![m]);
        lemma_single_nearest(m, this_ray, tmn, tmx);
        if m.spec_hit(this_ray, tmn, tmx) is Some {
            lemma_single_nearest(m, this_ray, tmn, m.spec_hit(this_ray, tmn, tmx)->0.t);
        }
        lemma_pair_nearest(objects, objects, objects, &*m, &*m, this_ray, tmn, tmx);
    } else if n == 2 {
        lemma_covers_two(node, objects, t0, t1);
        let a = objects[0];
        let b = objects[1];
        let first = seq![a];
        let second = seq![b];
        lemma_split_members(objects, 1);
        assert(objects.take(1) =~= first);
        assert(objects.skip(1) =~= second);
        lemma_single_nearest(a, this_ray, tmn, tmx);
        lemma_single_nearest(b, this_ray, tmn, tmx);
        if a.spec_hit(this_ray, tmn, tmx) is Some {
            lemma_single_nearest(b, this_ray, tmn, a.spec_hit(this_ray, tmn, tmx)->0.t);
        }
        lemma_pair_nearest(first, second, objects, &*a, &*b, this_ray, tmn, tmx);
    } else {
        let axis = lemma_covers_more(node, objects, n, t0, t1);
        let in_order = spec_sorted(objects, axis, t0, t1);
        let mid = n / 2;
        lemma_halves_members(objects, axis, t0, t1, mid);
        let first = in_order.take(mid);
        let second = in_order.skip(mid);
        match (&*node.left, &*node.right) {
            (Hittable::Bvh(l), Hittable::Bvh(r)) => {
                lemma_bvh_nearest(l, first, t0, t1, this_ray, tmn, tmx);
                lemma_bvh_nearest(r, second, t0, t1, this_ray, tmn, tmx);
                if l.spec_hit(this_ray, tmn, tmx) is Some {
                    lemma_bvh_nearest(
                        r,
                        second,
                        t0,
                        t1,
                        this_ray,
                        tmn,
                        l.spec_hit(this_ray, tmn, tmx)->0.t,
                    );
                }
            },
            _ => {},
        }
        lemma_pair_nearest(first, second, objects, &*node.left, &*node.right, this_ray, tmn, tmx);
    }
}

/// A hierarchy over things that are consistent and have valid bounding
/// boxes reports a nearest hit on them.
pub proof fn lemma_bvh_nearest(
    node: &BvhNode,
    objects: Seq<Arc<Hittable>>,
    t0: Scalar,
    t1: Scalar,
    this_ray: &Ray,
    tmn: Scalar,
    tmx: Scalar,
)
    requires
        node.covers(objects, objects.len() as int, t0, t1),
        forall|h: Arc<Hittable>| #[trigger] objects.contains(h) ==> is_consistent(&*h, this_ray, tmn),
        forall|h: Arc<Hittable>| #[trigger]
            objects.contains(h) ==> is_enclosed(&*h, this_ray, tmn, t0, t1),
    ensures
        nearest_of(objects, this_ray, tmn, tmx, node.spec_hit(this_ray, tmn, tmx)),
    decreases objects.len(), 1int,
{
    if node.mybox.hit(*this_ray, tmn, tmx) {
        lemma_bvh_pair_nearest(node, objects, t0, t1, this_ray, tmn, tmx);
    } else {
        assert forall|h: Arc<Hittable>| #[trigger] objects.contains(h) implies h.spec_hit(
            this_ray,
            tmn,
            tmx,
        ) is None by {
            lemma_bvh_holds_boxes(node, objects, t0, t1, h);
            lemma_miss(node.mybox, &*h, this_ray, tmn, tmx, t0, t1);
        }
    }
}

/// Whether no two of `objects` are hit at the same nearest distance with
/// different records.
pub open spec fn no_ties(objects: Seq<Arc<Hittable>>, this_ray: &Ray, tmn: Scalar, tmx: Scalar)
    -> bool {
    forall|g: Arc<Hittable>, h: Arc<Hittable>|
        #![trigger objects.contains(g), objects.contains(h)]
        objects.contains(g) && objects.contains(h) && g.spec_hit(this_ray, tmn, tmx) is Some
            && h.spec_hit(this_ray, tmn, tmx) is Some && g.spec_hit(this_ray, tmn, tmx)->0.t
            == h.spec_hit(this_ray, tmn, tmx)->0.t ==> g.spec_hit(this_ray, tmn, tmx)
            == h.spec_hit(this_ray, tmn, tmx)
}

/// Two nearest hits on the same things are both nothing, or lie at the same
/// distance; and they are the same hit unless two of the things tie.
pub proof fn lemma_nearest_unique(
    objects: Seq<Arc<Hittable>>,
    this_ray: &Ray,
    tmn: Scalar,
    tmx: Scalar,
    one: Option<HitRecord>,
    other: Option<HitRecord>,
)
    requires
        nearest_of(objects, this_ray, tmn, tmx, one),
        nearest_of(objects, this_ray, tmn, tmx, other),
    ensures
        one is Some <==> other is Some,
        one is Some ==> one->0.t == other->0.t,
        no_ties(objects, this_ray, tmn, tmx) ==> one == other,
{
    if let Some(rec) = one {
        let w = choose|h: Arc<Hittable>| #[trigger]
            objects.contains(h) && h.spec_hit(this_ray, tmn, tmx) == Some(rec);
        if let Some(rec2) = other {
            let w2 = choose|h: Arc<Hittable>| #[trigger]
                objects.contains(h) && h.spec_hit(this_ray, tmn, tmx) == Some(rec2);
            assert(rec.t.raw == rec2.t.raw);
        }
    } else if let Some(rec2) = other {
        let w2 = choose|h: Arc<Hittable>| #[trigger]
            objects.contains(h) && h.spec_hit(this_ray, tmn, tmx) == Some(rec2);
    }
}

/// A hierarchy that was built over all members of a list reports what the
/// linear scan of the list reports, where the members are consistent and
/// have valid bounding boxes: both report a nearest hit on the members, so
/// both report none or hits at the same distance, and the same hit unless
/// two members tie.
pub proof fn lemma_bvh_agrees_with_list(
    node: &BvhNode,
    list: &HittableList,
    t0: Scalar,
    t1: Scalar,
    this_ray: &Ray,
    tmn: Scalar,
    tmx: Scalar,
)
    requires
        node.covers(list.objects@, list.objects@.len() as int, t0, t1),
        forall|i: int|
            0 <= i < list.objects@.len() ==> is_consistent(
                &*#[trigger] list.objects@[i],
                this_ray,
                tmn,
            ) && is_enclosed(&*list.objects@[i], this_ray, tmn, t0, t1),
    ensures
        nearest_of(list.objects@, this_ray, tmn, tmx, list.spec_hit(this_ray, tmn, tmx)),
        nearest_of(list.objects@, this_ray, tmn, tmx, node.spec_hit(this_ray, tmn, tmx)),
        list.spec_hit(this_ray, tmn, tmx) is Some <==> node.spec_hit(this_ray, tmn, tmx) is Some,
        list.spec_hit(this_ray, tmn, tmx) is Some ==> list.spec_hit(this_ray, tmn, tmx)->0.t
            == node.spec_hit(this_ray, tmn, tmx)->0.t,
        no_ties(list.objects@, this_ray, tmn, tmx) ==> list.spec_hit(this_ray, tmn, tmx)
            == node.spec_hit(this_ray, tmn, tmx),
{
    let objects = list.objects@;
    assert forall|h: Arc<Hittable>| #[trigger] objects.contains(h) implies is_consistent(
        &*h,
        this_ray,
        tmn,
    ) by {
        let i = choose|i: int| 0 <= i < objects.len() && objects[i] == h;
        assert(is_consistent(&*objects[i], this_ray, tmn));
    }
    assert forall|h: Arc<Hittable>| #[trigger] objects.contains(h) implies is_enclosed(
        &*h,
        this_ray,
        tmn,
        t0,
        t1,
    ) by {
        let i = choose|i: int| 0 <= i < objects.len() && objects[i] == h;
        assert(is_consistent(&*objects[i], this_ray, tmn));
    }
    lemma_scan_nearest(objects, objects.len() as int, this_ray, tmn, tmx);
    assert(objects.take(objects.len() as int) =~= objects);
    lemma_bvh_nearest(node, objects, t0, t1, this_ray, tmn, tmx);
    lemma_nearest_unique(
        objects,
        this_ray,
        tmn,
        tmx,
        list.spec_hit(this_ray, tmn, tmx),
        node.spec_hit(this_ray, tmn, tmx),
    );
}

/// A sphere is consistent.
proof fn lemma_sphere_consistent(
    h: &Hittable,
    center: Vec3,
    radius: Scalar,
    mat_ptr: Arc<Material>,
    this_ray: &Ray,
    tmn: Scalar,
)
    requires
        forall|b: Scalar| #[trigger]
            h.spec_hit(this_ray, tmn, b) == spec_sphere_hit(
                this_ray,
                center,
                radius,
                mat_ptr,
                tmn,
                b,
            ),
    ensures
        is_consistent(h, this_ray, tmn),
{
    reveal(is_consistent);
    assert forall|b: Scalar| #[trigger] h.spec_hit(this_ray, tmn, b) is Some implies h.spec_hit(
        this_ray,
        tmn,
        b,
    )->0.t.raw <= b.raw by {
        lemma_sphere_hit(this_ray, center, radius, mat_ptr, tmn, b, b);
    }
    assert forall|b1: Scalar, b2: Scalar|
        b1.raw <= b2.raw && #[trigger] h.spec_hit(this_ray, tmn, b1) is Some implies #[trigger] h.spec_hit(
        this_ray,
        tmn,
        b2,
    ) == h.spec_hit(this_ray, tmn, b1) by {
        lemma_sphere_hit(this_ray, center, radius, mat_ptr, tmn, b1, b2);
    }
    assert forall|b1: Scalar, b2: Scalar|
        b1.raw <= b2.raw && #[trigger] h.spec_hit(this_ray, tmn, b2) is Some && h.spec_hit(
            this_ray,
            tmn,
            b2,
        )->0.t.raw < b1.raw implies #[trigger] h.spec_hit(this_ray, tmn, b1) == h.spec_hit(
        this_ray,
        tmn,
        b2,
    ) by {
        lemma_sphere_hit(this_ray, center, radius, mat_ptr, tmn, b1, b2);
    }
}

/// A rectangle is consistent.
proof fn lemma_panel_consistent(
    h: &Hittable,
    panel: &Panel,
    mp: Arc<Material>,
    this_ray: &Ray,
    tmn: Scalar,
)
    requires
        forall|b: Scalar| #[trigger]
            h.spec_hit(this_ray, tmn, b) == panel.spec_hit(this_ray, mp, tmn, b),
    ensures
        is_consistent(h, this_ray, tmn),
{
    reveal(is_consistent);
    assert forall|b: Scalar| #[trigger] h.spec_hit(this_ray, tmn, b) is Some implies h.spec_hit(
        this_ray,
        tmn,
        b,
    )->0.t.raw <= b.raw by {
        lemma_panel_hit(panel, this_ray, mp, tmn, b, b);
    }
    assert forall|b1: Scalar, b2: Scalar|
        b1.raw <= b2.raw && #[trigger] h.spec_hit(this_ray, tmn, b1) is Some implies #[trigger] h.spec_hit(
        this_ray,
        tmn,
        b2,
    ) == h.spec_hit(this_ray, tmn, b1) by {
        lemma_panel_hit(panel, this_ray, mp, tmn, b1, b2);
    }
    assert forall|b1: Scalar, b2: Scalar|
        b1.raw <= b2.raw && #[trigger] h.spec_hit(this_ray, tmn, b2) is Some && h.spec_hit(
            this_ray,
            tmn,
            b2,
        )->0.t.raw < b1.raw implies #[trigger] h.spec_hit(this_ray, tmn, b1) == h.spec_hit(
        this_ray,
        tmn,
        b2,
    ) by {
        lemma_panel_hit(panel, this_ray, mp, tmn, b1, b2);
    }
}

/// A consistent thing stays consistent when it is moved.
proof fn lemma_translate_consistent(h: &Hittable, s: &Translate, this_ray: &Ray, tmn: Scalar)
    requires
        forall|b: Scalar| #[trigger] h.spec_hit(this_ray, tmn, b) == s.spec_hit(this_ray, tmn, b),
        is_consistent(&*s.ptr, &s.spec_moved_ray(this_ray), tmn),
    ensures
        is_consistent(h, this_ray, tmn),
{
    reveal(is_consistent);
    let moved_ray = s.spec_moved_ray(this_ray);
    assert forall|b: Scalar| #[trigger] h.spec_hit(this_ray, tmn, b) is Some implies h.spec_hit(
        this_ray,
        tmn,
        b,
    )->0.t.raw <= b.raw by {
        assert(s.ptr.spec_hit(&moved_ray, tmn, b) is Some);
    }
    assert forall|b1: Scalar, b2: Scalar|
        b1.raw <= b2.raw && #[trigger] h.spec_hit(this_ray, tmn, b1) is Some implies #[trigger] h.spec_hit(
        this_ray,
        tmn,
        b2,
    ) == h.spec_hit(this_ray, tmn, b1) by {
        assert(s.ptr.spec_hit(&moved_ray, tmn, b1) is Some);
        assert(s.ptr.spec_hit(&moved_ray, tmn, b2) == s.ptr.spec_hit(&moved_ray, tmn, b1));
    }
    assert forall|b1: Scalar, b2: Scalar|
        b1.raw <= b2.raw && #[trigger] h.spec_hit(this_ray, tmn, b2) is Some && h.spec_hit(
            this_ray,
            tmn,
            b2,
        )->0.t.raw < b1.raw implies #[trigger] h.spec_hit(this_ray, tmn, b1) == h.spec_hit(
        this_ray,
        tmn,
        b2,
    ) by {
        assert(s.ptr.spec_hit(&moved_ray, tmn, b2) is Some);
        assert(s.ptr.spec_hit(&moved_ray, tmn, b1) == s.ptr.spec_hit(&moved_ray, tmn, b2));
    }
}

/// A consistent thing stays consistent when it is turned.
proof fn lemma_rotatey_consistent(h: &Hittable, s: &Rotatey, this_ray: &Ray, tmn: Scalar)
    requires
        forall|b: Scalar| #[trigger] h.spec_hit(this_ray, tmn, b) == s.spec_hit(this_ray, tmn, b),
        is_consistent(&*s.ptr, &s.spec_rotated_ray(this_ray), tmn),
    ensures
        is_consistent(h, this_ray, tmn),
{
    reveal(is_consistent);
    let rotated_ray = s.spec_rotated_ray(this_ray);
    assert forall|b: Scalar| #[trigger] h.spec_hit(this_ray, tmn, b) is Some implies h.spec_hit(
        this_ray,
        tmn,
        b,
    )->0.t.raw <= b.raw by {
        assert(s.ptr.spec_hit(&rotated_ray, tmn, b) is Some);
    }
    assert forall|b1: Scalar, b2: Scalar|
        b1.raw <= b2.raw && #[trigger] h.spec_hit(this_ray, tmn, b1) is Some implies #[trigger] h.spec_hit(
        this_ray,
        tmn,
        b2,
    ) == h.spec_hit(this_ray, tmn, b1) by {
        assert(s.ptr.spec_hit(&rotated_ray, tmn, b1) is Some);
        assert(s.ptr.spec_hit(&rotated_ray, tmn, b2) == s.ptr.spec_hit(&rotated_ray, tmn, b1));
    }
    assert forall|b1: Scalar, b2: Scalar|
        b1.raw <= b2.raw && #[trigger] h.spec_hit(this_ray, tmn, b2) is Some && h.spec_hit(
            this_ray,
            tmn,
            b2,
        )->0.t.raw < b1.raw implies #[trigger] h.spec_hit(this_ray, tmn, b1) == h.spec_hit(
        this_ray,
        tmn,
        b2,
    ) by {
        assert(s.ptr.spec_hit(&rotated_ray, tmn, b2) is Some);
        assert(s.ptr.spec_hit(&rotated_ray, tmn, b1) == s.ptr.spec_hit(&rotated_ray, tmn, b2));
    }
}

/// A consistent thing stays consistent when its faces are exchanged.
proof fn lemma_flip_consistent(h: &Hittable, s: &FlipFace, this_ray: &Ray, tmn: Scalar)
    requires
        forall|b: Scalar| #[trigger] h.spec_hit(this_ray, tmn, b) == s.spec_hit(this_ray, tmn, b),
        is_consistent(&*s.ptr, this_ray, tmn),
    ensures
        is_consistent(h, this_ray, tmn),
{
    reveal(is_consistent);
    assert forall|b: Scalar| #[trigger] h.spec_hit(this_ray, tmn, b) is Some implies h.spec_hit(
        this_ray,
        tmn,
        b,
    )->0.t.raw <= b.raw by {
        assert(s.ptr.spec_hit(this_ray, tmn, b) is Some);
    }
    assert forall|b1: Scalar, b2: Scalar|
        b1.raw <= b2.raw && #[trigger] h.spec_hit(this_ray, tmn, b1) is Some implies #[trigger] h.spec_hit(
        this_ray,
        tmn,
        b2,
    ) == h.spec_hit(this_ray, tmn, b1) by {
        assert(s.ptr.spec_hit(this_ray, tmn, b1) is Some);
        assert(s.ptr.spec_hit(this_ray, tmn, b2) == s.ptr.spec_hit(this_ray, tmn, b1));
    }
    assert forall|b1: Scalar, b2: Scalar|
        b1.raw <= b2.raw && #[trigger] h.spec_hit(this_ray, tmn, b2) is Some && h.spec_hit(
            this_ray,
            tmn,
            b2,
        )->0.t.raw < b1.raw implies #[trigger] h.spec_hit(this_ray, tmn, b1) == h.spec_hit(
        this_ray,
        tmn,
        b2,
    ) by {
        assert(s.ptr.spec_hit(this_ray, tmn, b2) is Some);
        assert(s.ptr.spec_hit(this_ray, tmn, b1) == s.ptr.spec_hit(this_ray, tmn, b2));
    }
}

/// A thing that reports what a scan of consistent things reports is
/// consistent.
proof fn lemma_scanned_consistent(
    h: &Hittable,
    objects: Seq<Arc<Hittable>>,
    this_ray: &Ray,
    tmn: Scalar,
)
    requires
        forall|b: Scalar| #[trigger]
            h.spec_hit(this_ray, tmn, b) == spec_scan(
                objects,
                objects.len() as int,
                this_ray,
                tmn,
                b,
            ),
        forall|i: int|
            0 <= i < objects.len() ==> is_consistent(&*#[trigger] objects[i], this_ray, tmn),
    ensures
        is_consistent(h, this_ray, tmn),
{
    reveal(is_consistent);
    let n = objects.len() as int;
    assert forall|b: Scalar| #[trigger] h.spec_hit(this_ray, tmn, b) is Some implies h.spec_hit(
        this_ray,
        tmn,
        b,
    )->0.t.raw <= b.raw by {
        lemma_scan_consistent(objects, n, this_ray, tmn, b, b);
    }
    assert forall|b1: Scalar, b2: Scalar|
        b1.raw <= b2.raw && #[trigger] h.spec_hit(this_ray, tmn, b1) is Some implies #[trigger] h.spec_hit(
        this_ray,
        tmn,
        b2,
    ) == h.spec_hit(this_ray, tmn, b1) by {
        lemma_scan_consistent(objects, n, this_ray, tmn, b1, b2);
    }
    assert forall|b1: Scalar, b2: Scalar|
        b1.raw <= b2.raw && #[trigger] h.spec_hit(this_ray, tmn, b2) is Some && h.spec_hit(
            this_ray,
            tmn,
            b2,
        )->0.t.raw < b1.raw implies #[trigger] h.spec_hit(this_ray, tmn, b1) == h.spec_hit(
        this_ray,
        tmn,
        b2,
    ) by {
        lemma_scan_consistent(objects, n, this_ray, tmn, b1, b2);
    }
}

/// What a pair reports is what a scan of the two reports.
proof fn lemma_pair_is_scan(
    left: Arc<Hittable>,
    right: Arc<Hittable>,
    this_ray: &Ray,
    tmn: Scalar,
    tmx: Scalar,
)
    ensures
        spec_scan(seq![left, right], 2, this_ray, tmn, tmx) == spec_pair_hit(
            &*left,
            &*right,
            this_ray,
            tmn,
            tmx,
        ),
{
    let pair = seq![left, right];
    assert(spec_scan(pair, 0, this_ray, tmn, tmx) is None);
    assert(spec_scan(pair, 1, this_ray, tmn, tmx) == left.spec_hit(this_ray, tmn, tmx));
}

/// The box of a hierarchy over things with valid bounding boxes hides no
/// hit of its two children.
proof fn lemma_bvh_gate(
    node: &BvhNode,
    objects: Seq<Arc<Hittable>>,
    t0: Scalar,
    t1: Scalar,
    this_ray: &Ray,
    tmn: Scalar,
    b: Scalar,
)
    requires
        node.covers(objects, objects.len() as int, t0, t1),
        forall|m: Arc<Hittable>| #[trigger] objects.contains(m) ==> is_consistent(&*m, this_ray, tmn),
        forall|m: Arc<Hittable>| #[trigger]
            objects.contains(m) ==> is_enclosed(&*m, this_ray, tmn, t0, t1),
        spec_pair_hit(&*node.left, &*node.right, this_ray, tmn, b) is Some,
    ensures
        node.mybox.hit(*this_ray, tmn, b),
{
    let found = spec_pair_hit(&*node.left, &*node.right, this_ray, tmn, b);
    lemma_bvh_pair_nearest(node, objects, t0, t1, this_ray, tmn, b);
    let w = choose|m: Arc<Hittable>| #[trigger]
        objects.contains(m) && m.spec_hit(this_ray, tmn, b) == found;
    lemma_bvh_holds_boxes(node, objects, t0, t1, w);
    if !node.mybox.hit(*this_ray, tmn, b) {
        lemma_miss(node.mybox, &*w, this_ray, tmn, b, t0, t1);
    }
}

/// A hierarchy whose children are consistent, and whose box hides no hit
/// of theirs, is consistent, and its box is valid.
proof fn lemma_gated_consistent(
    h: &Hittable,
    t0: Scalar,
    t1: Scalar,
    this_ray: &Ray,
    tmn: Scalar,
)
    requires
        h is Bvh,
        is_consistent(&*h->Bvh_0.left, this_ray, tmn),
        is_consistent(&*h->Bvh_0.right, this_ray, tmn),
        forall|b: Scalar|
            (#[trigger] spec_pair_hit(&*h->Bvh_0.left, &*h->Bvh_0.right, this_ray, tmn, b))
                is Some ==> h->Bvh_0.mybox.hit(*this_ray, tmn, b),
    ensures
        is_consistent(h, this_ray, tmn),
        is_enclosed(h, this_ray, tmn, t0, t1),
{
    match h {
        Hittable::Bvh(node) => {
            let pair = seq![node.left, node.right];
            assert forall|b: Scalar| #[trigger]
                h.spec_hit(this_ray, tmn, b) == spec_scan(
                    pair,
                    pair.len() as int,
                    this_ray,
                    tmn,
                    b,
                ) by {
                lemma_pair_is_scan(node.left, node.right, this_ray, tmn, b);
                assert(h.spec_hit(this_ray, tmn, b) == node.spec_hit(this_ray, tmn, b));
                let found = spec_pair_hit(&*node.left, &*node.right, this_ray, tmn, b);
                assert(found is Some ==> node.mybox.hit(*this_ray, tmn, b));
            }
            assert(pair[0] == node.left && pair[1] == node.right);
            lemma_scanned_consistent(h, pair, this_ray, tmn);
            assert(is_enclosed(h, this_ray, tmn, t0, t1)) by {
                reveal(is_enclosed);
                assert(h.spec_bounding_box(t0, t1) == Some(node.mybox));
                assert forall|b: Scalar| #[trigger]
                    h.spec_hit(this_ray, tmn, b) is Some implies node.mybox.hit(
                    *this_ray,
                    tmn,
                    b,
                ) by {
                    assert(h.spec_hit(this_ray, tmn, b) == node.spec_hit(this_ray, tmn, b));
                }
            }
        },
        _ => {},
    }
}

/// A hierarchy over things that are consistent and have valid bounding
/// boxes is consistent itself, and its own box is valid.
pub proof fn lemma_bvh_consistent(
    h: &Hittable,
    objects: Seq<Arc<Hittable>>,
    t0: Scalar,
    t1: Scalar,
    this_ray: &Ray,
    tmn: Scalar,
)
    requires
        h is Bvh,
        h->Bvh_0.covers(objects, objects.len() as int, t0, t1),
        forall|m: Arc<Hittable>| #[trigger] objects.contains(m) ==> is_consistent(&*m, this_ray, tmn),
        forall|m: Arc<Hittable>| #[trigger]
            objects.contains(m) ==> is_enclosed(&*m, this_ray, tmn, t0, t1),
    ensures
        is_consistent(h, this_ray, tmn),
        is_enclosed(h, this_ray, tmn, t0, t1),
    decreases objects.len(),
{
    match h {
        Hittable::Bvh(node) => {
            let n = objects.len() as int;
            lemma_covers_some(node, objects, n, t0, t1);
            if n == 1 {
                lemma_covers_one(node, objects, t0, t1);
                assert(objects.contains(objects[0]));
            } else if n == 2 {
                lemma_covers_two(node, objects, t0, t1);
                assert(objects.contains(objects[0]));
                assert(objects.contains(objects[1]));
            } else {
                let axis = lemma_covers_more(node, objects, n, t0, t1);
                let in_order = spec_sorted(objects, axis, t0, t1);
                let mid = n / 2;
                lemma_halves_members(objects, axis, t0, t1, mid);
                lemma_bvh_consistent(&*node.left, in_order.take(mid), t0, t1, this_ray, tmn);
                lemma_bvh_consistent(&*node.right, in_order.skip(mid), t0, t1, this_ray, tmn);
            }
            assert forall|b: Scalar|
                (#[trigger] spec_pair_hit(&*node.left, &*node.right, this_ray, tmn, b))
                    is Some implies node.mybox.hit(*this_ray, tmn, b) by {
                lemma_bvh_gate(node, objects, t0, t1, this_ray, tmn, b);
            }
            lemma_gated_consistent(h, t0, t1, this_ray, tmn);
        },
        _ => {},
    }
}

/// Every hierarchy that is `h` or a part of it is consistent for the ray
/// as it reaches that part, moved and turned back as the parts around it
/// are moved and turned.
pub open spec fn has_consistent_hierarchies(h: &Hittable, this_ray: &Ray, tmn: Scalar) -> bool
    decreases h,
{
    match h {
        Hittable::Bbox(s) => forall|i: int|
            0 <= i < s.sides.objects@.len() ==> has_consistent_hierarchies(
                &*#[trigger] s.sides.objects@[i],
                this_ray,
                tmn,
            ),
        Hittable::Translate(s) => has_consistent_hierarchies(
            &*s.ptr,
            &s.spec_moved_ray(this_ray),
            tmn,
        ),
        Hittable::Rotatey(s) => has_consistent_hierarchies(
            &*s.ptr,
            &s.spec_rotated_ray(this_ray),
            tmn,
        ),
        Hittable::FlipFace(s) => has_consistent_hierarchies(&*s.ptr, this_ray, tmn),
        Hittable::List(s) => forall|i: int|
            0 <= i < s.objects@.len() ==> has_consistent_hierarchies(
                &*#[trigger] s.objects@[i],
                this_ray,
                tmn,
            ),
        Hittable::Bvh(s) => is_consistent(h, this_ray, tmn),
        _ => true,
    }
}

/// A thing is consistent if every hierarchy in it is.
pub proof fn lemma_consistent(h: &Hittable, this_ray: &Ray, tmn: Scalar)
    requires
        has_consistent_hierarchies(h, this_ray, tmn),
    ensures
        is_consistent(h, this_ray, tmn),
    decreases h,
{
    match h {
        Hittable::Sphere(s) => {
            lemma_sphere_consistent(h, s.center, s.radius, s.mat_ptr, this_ray, tmn);
        },
        Hittable::MovingSphere(s) => {
            lemma_sphere_consistent(
                h,
                s.spec_center(this_ray.tm),
                s.radius,
                s.mat_ptr,
                this_ray,
                tmn,
            );
        },
        Hittable::XyRect(s) => {
            lemma_panel_consistent(h, &s.spec_panel(), s.mp, this_ray, tmn);
        },
        Hittable::XzRect(s) => {
            lemma_panel_consistent(h, &s.spec_panel(), s.mp, this_ray, tmn);
        },
        Hittable::YzRect(s) => {
            lemma_panel_consistent(h, &s.spec_panel(), s.mp, this_ray, tmn);
        },
        Hittable::Bbox(s) => {
            let objects = s.sides.objects@;
            assert forall|i: int| 0 <= i < objects.len() implies is_consistent(
                &*#[trigger] objects[i],
                this_ray,
                tmn,
            ) by {
                assert(decreases_to!(h => s));
                assert(decreases_to!(s => s.sides));
                assert(decreases_to!(s.sides => s.sides.objects));
                assert(decreases_to!(s.sides.objects => s.sides.objects[i]));
                lemma_consistent(&*objects[i], this_ray, tmn);
            }
            assert forall|b: Scalar| #[trigger]
                h.spec_hit(this_ray, tmn, b) == spec_scan(
                    objects,
                    objects.len() as int,
                    this_ray,
                    tmn,
                    b,
                ) by {
                assert(h.spec_hit(this_ray, tmn, b) == s.spec_hit(this_ray, tmn, b));
                assert(s.spec_hit(this_ray, tmn, b) == s.sides.spec_hit(this_ray, tmn, b));
            }
            lemma_scanned_consistent(h, objects, this_ray, tmn);
        },
        Hittable::Translate(s) => {
            lemma_consistent(&*s.ptr, &s.spec_moved_ray(this_ray), tmn);
            lemma_translate_consistent(h, s, this_ray, tmn);
        },
        Hittable::Rotatey(s) => {
            lemma_consistent(&*s.ptr, &s.spec_rotated_ray(this_ray), tmn);
            lemma_rotatey_consistent(h, s, this_ray, tmn);
        },
        Hittable::FlipFace(s) => {
            lemma_consistent(&*s.ptr, this_ray, tmn);
            lemma_flip_consistent(h, s, this_ray, tmn);
        },
        Hittable::List(s) => {
            let objects = s.objects@;
            assert forall|i: int| 0 <= i < objects.len() implies is_consistent(
                &*#[trigger] objects[i],
                this_ray,
                tmn,
            ) by {
                assert(decreases_to!(h => s));
                assert(decreases_to!(s => s.objects));
                assert(decreases_to!(s.objects => s.objects[i]));
                lemma_consistent(&*objects[i], this_ray, tmn);
            }
            assert forall|b: Scalar| #[trigger]
                h.spec_hit(this_ray, tmn, b) == spec_scan(
                    objects,
                    objects.len() as int,
                    this_ray,
                    tmn,
                    b,
                ) by {
                assert(h.spec_hit(this_ray, tmn, b) == s.spec_hit(this_ray, tmn, b));
            }
            lemma_scanned_consistent(h, objects, this_ray, tmn);
        },
        Hittable::Bvh(s) => {},
    }
}

/// A thing that holds no hierarchy has no hierarchy that is not consistent.
proof fn lemma_flat_has_consistent_hierarchies(h: &Hittable, this_ray: &Ray, tmn: Scalar)
    requires
        h.is_flat(),
    ensures
        has_consistent_hierarchies(h, this_ray, tmn),
    decreases h,
{
    match h {
        Hittable::Bbox(s) => {
            assert forall|i: int| 0 <= i < s.sides.objects@.len() implies has_consistent_hierarchies(
                &*#[trigger] s.sides.objects@[i],
                this_ray,
                tmn,
            ) by {
                assert(decreases_to!(h => s));
                assert(decreases_to!(s => s.sides));
                assert(decreases_to!(s.sides => s.sides.objects));
                assert(decreases_to!(s.sides.objects => s.sides.objects[i]));
                lemma_flat_has_consistent_hierarchies(&*s.sides.objects@[i], this_ray, tmn);
            }
        },
        Hittable::Translate(s) => {
            lemma_flat_has_consistent_hierarchies(&*s.ptr, &s.spec_moved_ray(this_ray), tmn);
        },
        Hittable::Rotatey(s) => {
            lemma_flat_has_consistent_hierarchies(&*s.ptr, &s.spec_rotated_ray(this_ray), tmn);
        },
        Hittable::FlipFace(s) => {
            lemma_flat_has_consistent_hierarchies(&*s.ptr, this_ray, tmn);
        },
        Hittable::List(s) => {
            assert forall|i: int| 0 <= i < s.objects@.len() implies has_consistent_hierarchies(
                &*#[trigger] s.objects@[i],
                this_ray,
                tmn,
            ) by {
                assert(decreases_to!(h => s));
                assert(decreases_to!(s => s.objects));
                assert(decreases_to!(s.objects => s.objects[i]));
                lemma_flat_has_consistent_hierarchies(&*s.objects@[i], this_ray, tmn);
            }
        },
        _ => {},
    }
}

/// Every thing that holds no hierarchy is consistent, for every ray and
/// every lower bound.
pub proof fn lemma_flat_consistent(h: &Hittable, this_ray: &Ray, tmn: Scalar)
    requires
        h.is_flat(),
    ensures
        is_consistent(h, this_ray, tmn),
{
    lemma_flat_has_consistent_hierarchies(h, this_ray, tmn);
    lemma_consistent(h, this_ray, tmn);
}

/// A hierarchy that was built over primitives with valid bounding boxes
/// reports what the linear scan of a list of them reports: both report none
/// or hits at the same distance, and the same hit unless two of them tie.
pub proof fn lemma_bvh_agrees_on_primitives(
    node: &BvhNode,
    list: &HittableList,
    t0: Scalar,
    t1: Scalar,
    this_ray: &Ray,
    tmn: Scalar,
    tmx: Scalar,
)
    requires
        node.covers(list.objects@, list.objects@.len() as int, t0, t1),
        forall|i: int|
            0 <= i < list.objects@.len() ==> (#[trigger] list.objects@[i]).is_flat() && is_enclosed(
                &*list.objects@[i],
                this_ray,
                tmn,
                t0,
                t1,
            ),
    ensures
        list.spec_hit(this_ray, tmn, tmx) is Some <==> node.spec_hit(this_ray, tmn, tmx) is Some,
        list.spec_hit(this_ray, tmn, tmx) is Some ==> list.spec_hit(this_ray, tmn, tmx)->0.t
            == node.spec_hit(this_ray, tmn, tmx)->0.t,
        no_ties(list.objects@, this_ray, tmn, tmx) ==> list.spec_hit(this_ray, tmn, tmx)
            == node.spec_hit(this_ray, tmn, tmx),
{
    assert forall|i: int| 0 <= i < list.objects@.len() implies is_consistent(
        &*#[trigger] list.objects@[i],
        this_ray,
        tmn,
    ) && is_enclosed(&*list.objects@[i], this_ray, tmn, t0, t1) by {
        lemma_flat_consistent(&*list.objects@[i], this_ray, tmn);
    }
    lemma_bvh_agrees_with_list(node, list, t0, t1, this_ray, tmn, tmx);
}

} // verus!
