//! The bounding-volume hierarchy: a binary tree of boxes over a set of
//! things, which lets a ray skip every subtree whose box it misses.
use vstd::prelude::*;
use std::sync::Arc;
use crate::aabb::Aabb;
use crate::hit::{HitRecord, Hittable};
use crate::random::random_int;
use crate::ray::Ray;
use crate::scalar::Scalar;
use crate::shared::share;

verus! {

/// A node of the hierarchy: two children, and the union of their boxes.
pub struct BvhNode {
    pub left: Arc<Hittable>,
    pub right: Arc<Hittable>,
    pub mybox: Aabb,
}

/// Where an item with the key `key` goes among `sorted`: behind the last
/// item whose key is not larger.
pub open spec fn spec_slot<T>(sorted: Seq<(i64, T)>, key: i64) -> int
    decreases sorted.len(),
{
    if sorted.len() == 0 {
        0
    } else if sorted.last().0 <= key {
        sorted.len() as int
    } else {
        spec_slot(sorted.drop_last(), key)
    }
}

/// The items in the order of their keys, items with equal keys in the order
/// in which they came: each item in turn is put in its slot among those
/// that came before it.
pub open spec fn spec_order<T>(items: Seq<(i64, T)>) -> Seq<(i64, T)>
    decreases items.len(),
{
    if items.len() == 0 {
        items
    } else {
        let before = spec_order(items.drop_last());
        before.insert(spec_slot(before, items.last().0), items.last())
    }
}

/// The key by which a thing is ordered along `axis`: the minimum corner of
/// its bounding box on that axis.
pub open spec fn spec_key(object: Arc<Hittable>, axis: usize, t0: Scalar, t1: Scalar) -> i64 {
    match object.spec_bounding_box(t0, t1) {
        Some(b) => b.mn.get(axis).raw,
        None => 0,
    }
}

/// Each thing with its key along `axis`.
pub open spec fn spec_keyed(objects: Seq<Arc<Hittable>>, axis: usize, t0: Scalar, t1: Scalar) -> Seq<
    (i64, Arc<Hittable>),
> {
    Seq::new(objects.len(), |i: int| (spec_key(objects[i], axis, t0, t1), objects[i]))
}

/// The things in the order of their keys along `axis`.
#[verifier::opaque]
pub open spec fn spec_sorted(objects: Seq<Arc<Hittable>>, axis: usize, t0: Scalar, t1: Scalar)
    -> Seq<Arc<Hittable>> {
    let ordered = spec_order(spec_keyed(objects, axis, t0, t1));
    Seq::new(ordered.len(), |i: int| ordered[i].1)
}

/// The slot lies within the sequence or at its end, the key before it is
/// not larger than `key`, and every key from it on is larger.
pub proof fn lemma_slot<T>(sorted: Seq<(i64, T)>, key: i64)
    ensures
        0 <= spec_slot(sorted, key) <= sorted.len(),
        spec_slot(sorted, key) > 0 ==> sorted[spec_slot(sorted, key) - 1].0 <= key,
        forall|i: int| spec_slot(sorted, key) <= i < sorted.len() ==> (#[trigger] sorted[i]).0 > key,
    decreases sorted.len(),
{
    if sorted.len() > 0 && sorted.last().0 > key {
        let rest = sorted.drop_last();
        lemma_slot(rest, key);
        assert forall|i: int| spec_slot(sorted, key) <= i < sorted.len() implies (
        #[trigger] sorted[i]).0 > key by {
            if i < rest.len() {
                assert(rest[i] == sorted[i]);
            }
        }
    }
}

/// Ordering keeps the number of items.
pub proof fn lemma_order_len<T>(items: Seq<(i64, T)>)
    ensures
        spec_order(items).len() == items.len(),
    decreases items.len(),
{
    if items.len() > 0 {
        lemma_order_len(items.drop_last());
        lemma_slot(spec_order(items.drop_last()), items.last().0);
    }
}

/// Ordering brings the keys into ascending order.
pub proof fn lemma_order_ascending<T>(items: Seq<(i64, T)>, i: int, j: int)
    requires
        0 <= i <= j < items.len(),
    ensures
        spec_order(items)[i].0 <= spec_order(items)[j].0,
    decreases items.len(),
{
    let rest = items.drop_last();
    let last = items.last();
    let before = spec_order(rest);
    lemma_order_len(rest);
    lemma_slot(before, last.0);
    let slot = spec_slot(before, last.0);
    let after = before.insert(slot, last);
    let bi = if i < slot {
        i
    } else {
        i - 1
    };
    let bj = if j < slot {
        j
    } else {
        j - 1
    };
    if i != slot && j != slot {
        lemma_order_ascending(rest, bi, bj);
    } else if i == slot && j != slot {
        assert(after[j] == before[bj]);
    } else if i != slot && j == slot {
        lemma_order_ascending(rest, bi, slot - 1);
    }
}

/// Every item of the ordered sequence is an item of the given one: the
/// result names its place there.
pub proof fn lemma_order_came_from<T>(items: Seq<(i64, T)>, i: int) -> (j: int)
    requires
        0 <= i < items.len(),
    ensures
        0 <= j < items.len(),
        items[j] == spec_order(items)[i],
    decreases items.len(),
{
    let rest = items.drop_last();
    let last = items.last();
    let before = spec_order(rest);
    lemma_order_len(rest);
    lemma_slot(before, last.0);
    let slot = spec_slot(before, last.0);
    if i == slot {
        items.len() - 1
    } else {
        let bi = if i < slot {
            i
        } else {
            i - 1
        };
        let j = lemma_order_came_from(rest, bi);
        assert(rest[j] == items[j]);
        j
    }
}

/// Every item of the given sequence is an item of the ordered one: the
/// result names its place there.
pub proof fn lemma_order_went_to<T>(items: Seq<(i64, T)>, j: int) -> (i: int)
    requires
        0 <= j < items.len(),
    ensures
        0 <= i < items.len(),
        items[j] == spec_order(items)[i],
    decreases items.len(),
{
    let rest = items.drop_last();
    let last = items.last();
    let before = spec_order(rest);
    lemma_order_len(rest);
    lemma_slot(before, last.0);
    let slot = spec_slot(before, last.0);
    if j == items.len() - 1 {
        slot
    } else {
        assert(rest[j] == items[j]);
        let bi = lemma_order_went_to(rest, j);
        if bi < slot {
            bi
        } else {
            bi + 1
        }
    }
}

/// Sorting along an axis keeps the number of things, and neither adds a
/// thing nor loses one.
pub proof fn lemma_sorted_same_members(
    objects: Seq<Arc<Hittable>>,
    axis: usize,
    t0: Scalar,
    t1: Scalar,
)
    ensures
        spec_sorted(objects, axis, t0, t1).len() == objects.len(),
        forall|h: Arc<Hittable>| #[trigger]
            spec_sorted(objects, axis, t0, t1).contains(h) <==> objects.contains(h),
{
    reveal(spec_sorted);
    let keyed = spec_keyed(objects, axis, t0, t1);
    let in_order = spec_sorted(objects, axis, t0, t1);
    lemma_order_len(keyed);
    assert forall|h: Arc<Hittable>| #[trigger] in_order.contains(h) <==> objects.contains(h) by {
        if in_order.contains(h) {
            let i = choose|i: int| 0 <= i < in_order.len() && in_order[i] == h;
            let j = lemma_order_came_from(keyed, i);
            assert(objects[j] == h);
        }
        if objects.contains(h) {
            let j = choose|j: int| 0 <= j < objects.len() && objects[j] == h;
            let i = lemma_order_went_to(keyed, j);
            assert(in_order[i] == h);
        }
    }
}

/// Sorting along an axis brings the keys into ascending order.
pub proof fn lemma_sorted_ascending(
    objects: Seq<Arc<Hittable>>,
    axis: usize,
    t0: Scalar,
    t1: Scalar,
    i: int,
    j: int,
)
    requires
        0 <= i <= j < objects.len(),
    ensures
        spec_key(spec_sorted(objects, axis, t0, t1)[i], axis, t0, t1) <= spec_key(
            spec_sorted(objects, axis, t0, t1)[j],
            axis,
            t0,
            t1,
        ),
{
    reveal(spec_sorted);
    let keyed = spec_keyed(objects, axis, t0, t1);
    lemma_order_len(keyed);
    lemma_order_ascending(keyed, i, j);
    let a = lemma_order_came_from(keyed, i);
    let b = lemma_order_came_from(keyed, j);
}

/// The things in the order of their keys along `axis`, things with equal
/// keys in the order in which they came.
pub fn sorted(objects: &Vec<Arc<Hittable>>, axis: usize, t0: Scalar, t1: Scalar) -> (r: Vec<
    Arc<Hittable>,
>)
    requires
        axis < 3,
        forall|i: int| 0 <= i < objects.len() ==> objects[i].spec_bounding_box(t0, t1) is Some,
    ensures
        r@ == spec_sorted(objects@, axis, t0, t1),
{
    let mut keys: Vec<i64> = Vec::new();
    let mut out: Vec<Arc<Hittable>> = Vec::new();
    let ghost keyed = spec_keyed(objects@, axis, t0, t1);
    let mut i: usize = 0;
    while i < objects.len()
        invariant
            axis < 3,
            i <= objects.len(),
            keyed == spec_keyed(objects@, axis, t0, t1),
            forall|i: int| 0 <= i < objects.len() ==> objects[i].spec_bounding_box(t0, t1) is Some,
            keys.len() == i,
            out.len() == i,
            spec_order(keyed.take(i as int)).len() == i,
            forall|k: int|
                0 <= k < i ==> (#[trigger] spec_order(keyed.take(i as int))[k]) == (keys[k], out[k]),
        decreases objects.len() - i,
    {
        let ghost before = spec_order(keyed.take(i as int));
        let key = objects[i].bounding_box(t0, t1).unwrap().mn.get(axis).raw;
        let mut j: usize = keys.len();
        proof {
            assert(before.take(keys.len() as int) == before);
        }
        while j > 0 && keys[j - 1] > key
            invariant
                j <= keys.len(),
                keys.len() == before.len(),
                forall|k: int| 0 <= k < keys.len() ==> (#[trigger] before[k]).0 == keys[k],
                spec_slot(before, key) == spec_slot(before.take(j as int), key),
            decreases j,
        {
            assert(before.take(j as int).drop_last() == before.take(j as int - 1));
            j -= 1;
        }
        proof {
            if j > 0 {
                assert(before.take(j as int).last() == before[j as int - 1]);
            }
            assert(spec_slot(before, key) == j);
            assert(keyed.take(i as int + 1).drop_last() == keyed.take(i as int));
            assert(keyed.take(i as int + 1).last() == (key, objects[i as int]));
        }
        keys.insert(j, key);
        out.insert(j, share(&objects[i]));
        i += 1;
    }
    proof {
        reveal(spec_sorted);
        assert(keyed.take(i as int) == keyed);
        assert(out@ =~= spec_sorted(objects@, axis, t0, t1));
    }
    out
}

/// The first `mid` of `objects`, and the rest.
pub fn halves(objects: &Vec<Arc<Hittable>>, mid: usize) -> (r: (
    Vec<Arc<Hittable>>,
    Vec<Arc<Hittable>>,
))
    requires
        mid <= objects.len(),
    ensures
        r.0@ == objects@.take(mid as int),
        r.1@ == objects@.skip(mid as int),
{
    let mut front: Vec<Arc<Hittable>> = Vec::new();
    let mut back: Vec<Arc<Hittable>> = Vec::new();
    let mut i: usize = 0;
    while i < objects.len()
        invariant
            mid <= objects.len(),
            i <= objects.len(),
            i <= mid ==> front@ == objects@.take(i as int) && back@.len() == 0,
            i > mid ==> front@ == objects@.take(mid as int) && back@ == objects@.subrange(
                mid as int,
                i as int,
            ),
        decreases objects.len() - i,
    {
        if i < mid {
            front.push(share(&objects[i]));
            assert(front@ =~= objects@.take(i as int + 1));
        } else {
            back.push(share(&objects[i]));
            assert(back@ =~= objects@.subrange(mid as int, i as int + 1));
        }
        i += 1;
    }
    proof {
        assert(mid == objects.len() ==> back@ =~= objects@.skip(mid as int));
        assert(objects@.subrange(mid as int, objects.len() as int) =~= objects@.skip(mid as int));
    }
    (front, back)
}

impl BvhNode {
    /// What `hit` reports.
    pub open spec fn spec_hit(&self, this_ray: &Ray, tmn: Scalar, tmx: Scalar) -> Option<HitRecord>
        decreases self, 0int,
    {
        if !self.mybox.hit(*this_ray, tmn, tmx) {
            None
        } else {
            match self.left.spec_hit(this_ray, tmn, tmx) {
                Some(rec_left) => match self.right.spec_hit(this_ray, tmn, rec_left.t) {
                    Some(rec_right) => Some(rec_right),
                    None => Some(rec_left),
                },
                None => self.right.spec_hit(this_ray, tmn, tmx),
            }
        }
    }

    /// What `bounding_box` returns.
    pub open spec fn spec_bounding_box(&self, t0: Scalar, t1: Scalar) -> Option<Aabb> {
        Some(self.mybox)
    }

    /// The node is the root of a hierarchy that was built over the first
    /// `span` of `objects` for the times from `t0` to `t1`. Over one thing
    /// both children are that thing; over two, one is each child; over more,
    /// the things were sorted along one of the three axes, and the children
    /// are hierarchies over the lower half and over the rest. The box of the
    /// node is the union of the boxes of its children.
    #[verifier::opaque]
    pub open spec fn covers(
        &self,
        objects: Seq<Arc<Hittable>>,
        span: int,
        t0: Scalar,
        t1: Scalar,
    ) -> bool
        decreases span, 1int,
    {
        if span < 1 || span > objects.len() {
            false
        } else if span == 1 {
            &&& self.left == objects[0]
            &&& self.right == objects[0]
            &&& objects[0].spec_bounding_box(t0, t1) matches Some(b)
            &&& self.mybox == Aabb::surrounding_box(b, b)
        } else if span == 2 {
            &&& self.left == objects[0]
            &&& self.right == objects[1]
            &&& objects[0].spec_bounding_box(t0, t1) matches Some(b0)
            &&& objects[1].spec_bounding_box(t0, t1) matches Some(b1)
            &&& self.mybox == Aabb::surrounding_box(b0, b1)
        } else {
            ||| self.split_along(objects, span, t0, t1, 0)
            ||| self.split_along(objects, span, t0, t1, 1)
            ||| self.split_along(objects, span, t0, t1, 2)
        }
    }

    /// The node splits the first `span` of `objects`, sorted along `axis`,
    /// at the middle between two hierarchies.
    #[verifier::opaque]
    pub open spec fn split_along(
        &self,
        objects: Seq<Arc<Hittable>>,
        span: int,
        t0: Scalar,
        t1: Scalar,
        axis: usize,
    ) -> bool
        decreases span, 0int,
    {
        let in_order = spec_sorted(objects, axis, t0, t1);
        let mid = span / 2;
        &&& 3 <= span <= objects.len()
        &&& *self.left matches Hittable::Bvh(l)
        &&& l.covers(in_order.take(mid), mid, t0, t1)
        &&& *self.right matches Hittable::Bvh(r)
        &&& r.covers(in_order.skip(mid), span - mid, t0, t1)
        &&& self.mybox == Aabb::surrounding_box(l.mybox, r.mybox)
    }

    /// What building a hierarchy over the first `span` of `objects` asks of
    /// them: a bounding box of each thing that it looks at, which are the
    /// first `span` where there are at most two, and all where it sorts.
    pub open spec fn buildable(objects: Seq<Arc<Hittable>>, span: int, t0: Scalar, t1: Scalar)
        -> bool {
        &&& 1 <= span <= objects.len()
        &&& forall|i: int|
            0 <= i < (if span <= 2 {
                span
            } else {
                objects.len() as int
            }) ==> (#[trigger] objects[i]).spec_bounding_box(t0, t1) is Some
    }

    /// Builds a hierarchy over the first `span` of `objects`. Where there
    /// are more than two, the axis along which they are sorted and split is
    /// drawn at random, at every node anew.
    pub fn new(objects: Vec<Arc<Hittable>>, span: usize, time0: Scalar, time1: Scalar) -> (r:
        BvhNode)
        requires
            BvhNode::buildable(objects@, span as int, time0, time1),
        ensures
            r.covers(objects@, span as int, time0, time1),
        decreases span,
    {
        let axis = random_int(0, 2);
        let left: Arc<Hittable>;
        let right: Arc<Hittable>;
        if span == 1 {
            left = share(&objects[0]);
            right = share(&left);
        } else if span == 2 {
            left = share(&objects[0]);
            right = share(&objects[1]);
        } else {
            let in_order = sorted(&objects, axis as usize, time0, time1);
            let mid = span / 2;
            proof {
                lemma_sorted_same_members(objects@, axis as usize, time0, time1);
            }
            let (objects0, objects1) = halves(&in_order, mid);
            proof {
                assert forall|i: int| 0 <= i < objects0.len() implies (
                #[trigger] objects0[i]).spec_bounding_box(time0, time1) is Some by {
                    assert(objects0[i] == in_order[i]);
                    assert(in_order@.contains(in_order[i]));
                    let j = choose|j: int| 0 <= j < objects.len() && objects[j] == in_order[i];
                }
                assert forall|i: int| 0 <= i < objects1.len() implies (
                #[trigger] objects1[i]).spec_bounding_box(time0, time1) is Some by {
                    assert(objects1[i] == in_order[i + mid]);
                    assert(in_order@.contains(in_order[i + mid]));
                    let j = choose|j: int| 0 <= j < objects.len() && objects[j] == in_order[i + mid];
                }
            }
            let l = BvhNode::new(objects0, mid, time0, time1);
            let r = BvhNode::new(objects1, span - mid, time0, time1);
            left = Arc::new(Hittable::Bvh(l));
            right = Arc::new(Hittable::Bvh(r));
        }
        let box0 = left.bounding_box(time0, time1).unwrap();
        let box1 = right.bounding_box(time0, time1).unwrap();
        let node = BvhNode { left, right, mybox: Aabb::surrounding_box(box0, box1) };
        proof {
            reveal(BvhNode::covers);
            reveal(BvhNode::split_along);
            if span >= 3 {
                assert(node.split_along(objects@, span as int, time0, time1, axis as usize));
            }
        }
        node
    }

    /// The nearest hit of `this_ray` below this node within `(tmn, tmx)`:
    /// nothing if the ray misses the box of the node; else the hit on the
    /// right child that is nearer than the hit on the left child, or the hit
    /// on the left child if there is none such.
    #[verifier::when_used_as_spec(spec_hit)]
    pub fn hit(&self, this_ray: &Ray, tmn: Scalar, tmx: Scalar) -> (r: Option<HitRecord>)
        ensures
            r == self.spec_hit(this_ray, tmn, tmx),
        decreases self, 0int,
    {
        if !self.mybox.hit(*this_ray, tmn, tmx) {
            None
        } else {
            let hit_left = self.left.hit(this_ray, tmn, tmx);
            if let Some(rec_left) = hit_left {
                let hit_right = self.right.hit(this_ray, tmn, rec_left.t);
                if let Some(rec_right) = hit_right {
                    Some(rec_right)
                } else {
                    Some(rec_left)
                }
            } else {
                self.right.hit(this_ray, tmn, tmx)
            }
        }
    }

    /// The box of the node, whatever the times.
    #[verifier::when_used_as_spec(spec_bounding_box)]
    pub fn bounding_box(&self, t0: Scalar, t1: Scalar) -> (r: Option<Aabb>)
        ensures
            r == self.spec_bounding_box(t0, t1),
            r == Some(self.mybox),
    {
        Some(self.mybox)
    }
}

/// The bounding box of a node does not depend on the times that it is
/// asked for: asking again gives the same box.
pub proof fn lemma_bounding_box_fixed(node: &BvhNode, t0: Scalar, t1: Scalar, s0: Scalar, s1: Scalar)
    ensures
        node.spec_bounding_box(t0, t1) == Some(node.mybox),
        node.spec_bounding_box(t0, t1) == node.spec_bounding_box(s0, s1),
{
}

/// A hierarchy covers at least one thing, and no more than there are.
pub proof fn lemma_covers_some(
    node: &BvhNode,
    objects: Seq<Arc<Hittable>>,
    span: int,
    t0: Scalar,
    t1: Scalar,
)
    requires
        node.covers(objects, span, t0, t1),
    ensures
        1 <= span <= objects.len(),
{
    reveal(BvhNode::covers);
}

/// What a hierarchy over a single thing looks like.
pub proof fn lemma_covers_one(node: &BvhNode, objects: Seq<Arc<Hittable>>, t0: Scalar, t1: Scalar)
    requires
        node.covers(objects, 1, t0, t1),
    ensures
        objects.len() >= 1,
        node.left == objects[0],
        node.right == objects[0],
        objects[0].spec_bounding_box(t0, t1) is Some,
        node.mybox == objects[0].spec_bounding_box(t0, t1)->0,
{
    reveal(BvhNode::covers);
}

/// What a hierarchy over two things looks like.
pub proof fn lemma_covers_two(node: &BvhNode, objects: Seq<Arc<Hittable>>, t0: Scalar, t1: Scalar)
    requires
        node.covers(objects, 2, t0, t1),
    ensures
        objects.len() >= 2,
        node.left == objects[0],
        node.right == objects[1],
        objects[0].spec_bounding_box(t0, t1) is Some,
        objects[1].spec_bounding_box(t0, t1) is Some,
        node.mybox == Aabb::surrounding_box(
            objects[0].spec_bounding_box(t0, t1)->0,
            objects[1].spec_bounding_box(t0, t1)->0,
        ),
{
    reveal(BvhNode::covers);
}

/// What a hierarchy over three things or more looks like: the result is an
/// axis along which the things were sorted and split between the children.
pub proof fn lemma_covers_more(
    node: &BvhNode,
    objects: Seq<Arc<Hittable>>,
    span: int,
    t0: Scalar,
    t1: Scalar,
) -> (axis: usize)
    requires
        node.covers(objects, span, t0, t1),
        span >= 3,
    ensures
        axis < 3,
        span <= objects.len(),
        *node.left is Bvh,
        *node.right is Bvh,
        node.left->Bvh_0.covers(spec_sorted(objects, axis, t0, t1).take(span / 2), span / 2, t0, t1),
        node.right->Bvh_0.covers(
            spec_sorted(objects, axis, t0, t1).skip(span / 2),
            span - span / 2,
            t0,
            t1,
        ),
        node.mybox == Aabb::surrounding_box(node.left->Bvh_0.mybox, node.right->Bvh_0.mybox),
{
    reveal(BvhNode::covers);
    reveal(BvhNode::split_along);
    if node.split_along(objects, span, t0, t1, 0) {
        0
    } else if node.split_along(objects, span, t0, t1, 1) {
        1
    } else {
        2
    }
}

} // verus!
