//! The law of the facing normal: the normal of a hit never points along
//! the ray that was asked about.
use vstd::prelude::*;
use std::sync::Arc;
use crate::hit::{lemma_face_normal_opposes_ray, spec_scan, HitRecord, Hittable};
use crate::ray::Ray;
use crate::rect::lemma_panel_hit;
use crate::scalar::Scalar;
use crate::sphere::lemma_sphere_hit;
use crate::transform::{spec_turn, Rotatey, Translate};

verus! {

/// The record does not point along the ray: the dot product of the ray's
/// direction and the stored normal is not positive.
pub open spec fn faces(rec: HitRecord, this_ray: &Ray) -> bool {
    this_ray.dir.dot(rec.nor).raw <= 0
}

/// What a scan reports is what one of the things scanned reports below
/// some upper bound. The result names the thing and the bound.
pub proof fn lemma_scan_source(
    objects: Seq<Arc<Hittable>>,
    n: int,
    this_ray: &Ray,
    tmn: Scalar,
    tmx: Scalar,
) -> (r: (int, Scalar))
    requires
        0 <= n <= objects.len(),
        spec_scan(objects, n, this_ray, tmn, tmx) is Some,
    ensures
        0 <= r.0 < n,
        objects[r.0].spec_hit(this_ray, tmn, r.1) == spec_scan(objects, n, this_ray, tmn, tmx),
    decreases n,
{
    let before = spec_scan(objects, n - 1, this_ray, tmn, tmx);
    let bound = match before {
        Some(rec) => rec.t,
        None => tmx,
    };
    if objects[n - 1].spec_hit(this_ray, tmn, bound) is Some {
        (n - 1, bound)
    } else {
        lemma_scan_source(objects, n - 1, this_ray, tmn, tmx)
    }
}

/// What holds of the normal of a hit: it lies within the range of scalars
/// and does not point along the ray.
pub open spec fn well_faced(found: Option<HitRecord>, this_ray: &Ray) -> bool {
    found matches Some(rec) ==> rec.nor.in_range() && faces(rec, this_ray)
}

/// A hit on a moved thing has its normal set against the ray.
proof fn lemma_translate_faces_ray(
    s: &Translate,
    this_ray: &Ray,
    tmn: Scalar,
    tmx: Scalar,
)
    requires
        s.ptr.spec_hit(&s.spec_moved_ray(this_ray), tmn, tmx) matches Some(rec)
            ==> rec.nor.in_range(),
    ensures
        s.spec_hit(this_ray, tmn, tmx) matches Some(rec) ==> rec.nor.in_range() && faces(
            rec,
            this_ray,
        ),
{
    let moved_ray = s.spec_moved_ray(this_ray);
    if s.ptr.spec_hit(&moved_ray, tmn, tmx) is Some {
        let rec = s.ptr.spec_hit(&moved_ray, tmn, tmx)->0;
        lemma_face_normal_opposes_ray(
            HitRecord { p: rec.p.add(s.offset), ..rec },
            moved_ray,
            rec.nor,
        );
    }
}

/// A hit on a turned thing has its normal set against the ray.
proof fn lemma_rotatey_faces_ray(
    s: &Rotatey,
    this_ray: &Ray,
    tmn: Scalar,
    tmx: Scalar,
)
    requires
        s.ptr.spec_hit(&s.spec_rotated_ray(this_ray), tmn, tmx) matches Some(rec)
            ==> rec.nor.in_range(),
    ensures
        s.spec_hit(this_ray, tmn, tmx) matches Some(rec) ==> rec.nor.in_range() && faces(
            rec,
            this_ray,
        ),
{
    let rotated_ray = s.spec_rotated_ray(this_ray);
    if s.ptr.spec_hit(&rotated_ray, tmn, tmx) is Some {
        let rec = s.ptr.spec_hit(&rotated_ray, tmn, tmx)->0;
        lemma_face_normal_opposes_ray(
            HitRecord { p: spec_turn(rec.p, s.sintheta, s.costheta), ..rec },
            *this_ray,
            spec_turn(rec.nor, s.sintheta, s.costheta),
        );
    }
}

/// What a scan of all `objects` reports is what one of them reports below
/// some bound.
proof fn lemma_members_face_ray(
    objects: Seq<Arc<Hittable>>,
    this_ray: &Ray,
    tmn: Scalar,
    tmx: Scalar,
) -> (r: (int, Scalar))
    requires
        spec_scan(objects, objects.len() as int, this_ray, tmn, tmx) is Some,
    ensures
        0 <= r.0 < objects.len(),
        objects[r.0].spec_hit(this_ray, tmn, r.1) == spec_scan(
            objects,
            objects.len() as int,
            this_ray,
            tmn,
            tmx,
        ),
{
    lemma_scan_source(objects, objects.len() as int, this_ray, tmn, tmx)
}

/// The normal of every hit lies within the range of scalars and does not
/// point along the ray that was asked about.
pub proof fn lemma_hit_faces_ray(h: &Hittable, this_ray: &Ray, tmn: Scalar, tmx: Scalar)
    ensures
        well_faced(h.spec_hit(this_ray, tmn, tmx), this_ray),
    decreases h,
{
    match h {
        Hittable::Sphere(s) => {
            lemma_sphere_hit(this_ray, s.center, s.radius, s.mat_ptr, tmn, tmx, tmx);
        },
        Hittable::MovingSphere(s) => {
            lemma_sphere_hit(
                this_ray,
                s.spec_center(this_ray.tm),
                s.radius,
                s.mat_ptr,
                tmn,
                tmx,
                tmx,
            );
        },
        Hittable::XyRect(s) => {
            lemma_panel_hit(&s.spec_panel(), this_ray, s.mp, tmn, tmx, tmx);
        },
        Hittable::XzRect(s) => {
            lemma_panel_hit(&s.spec_panel(), this_ray, s.mp, tmn, tmx, tmx);
        },
        Hittable::YzRect(s) => {
            lemma_panel_hit(&s.spec_panel(), this_ray, s.mp, tmn, tmx, tmx);
        },
        Hittable::Bbox(s) => {
            let objects = s.sides.objects@;
            assert(h.spec_hit(this_ray, tmn, tmx) == s.spec_hit(this_ray, tmn, tmx));
            assert(s.spec_hit(this_ray, tmn, tmx) == s.sides.spec_hit(this_ray, tmn, tmx));
            assert(s.sides.spec_hit(this_ray, tmn, tmx) == spec_scan(
                objects,
                objects.len() as int,
                this_ray,
                tmn,
                tmx,
            ));
            if h.spec_hit(this_ray, tmn, tmx) is Some {
                let (k, bound) = lemma_members_face_ray(objects, this_ray, tmn, tmx);
                assert(decreases_to!(h => s));
                assert(decreases_to!(s => s.sides));
                assert(decreases_to!(s.sides => s.sides.objects));
                assert(decreases_to!(s.sides.objects => s.sides.objects[k]));
                lemma_hit_faces_ray(&*objects[k], this_ray, tmn, bound);
            }
        },
        Hittable::Translate(s) => {
            let moved_ray = s.spec_moved_ray(this_ray);
            lemma_hit_faces_ray(&*s.ptr, &moved_ray, tmn, tmx);
            lemma_translate_faces_ray(s, this_ray, tmn, tmx);
        },
        Hittable::Rotatey(s) => {
            let rotated_ray = s.spec_rotated_ray(this_ray);
            lemma_hit_faces_ray(&*s.ptr, &rotated_ray, tmn, tmx);
            lemma_rotatey_faces_ray(s, this_ray, tmn, tmx);
        },
        Hittable::FlipFace(s) => {
            lemma_hit_faces_ray(&*s.ptr, this_ray, tmn, tmx);
            assert(h.spec_hit(this_ray, tmn, tmx) == s.spec_hit(this_ray, tmn, tmx));
        },
        Hittable::List(s) => {
            let objects = s.objects@;
            assert(h.spec_hit(this_ray, tmn, tmx) == s.spec_hit(this_ray, tmn, tmx));
            assert(s.spec_hit(this_ray, tmn, tmx) == spec_scan(
                objects,
                objects.len() as int,
                this_ray,
                tmn,
                tmx,
            ));
            if h.spec_hit(this_ray, tmn, tmx) is Some {
                let (k, bound) = lemma_members_face_ray(objects, this_ray, tmn, tmx);
                assert(decreases_to!(h => s));
                assert(decreases_to!(s => s.objects));
                assert(decreases_to!(s.objects => s.objects[k]));
                lemma_hit_faces_ray(&*objects[k], this_ray, tmn, bound);
            }
        },
        Hittable::Bvh(s) => {
            assert(h.spec_hit(this_ray, tmn, tmx) == s.spec_hit(this_ray, tmn, tmx));
            lemma_hit_faces_ray(&*s.left, this_ray, tmn, tmx);
            lemma_hit_faces_ray(&*s.right, this_ray, tmn, tmx);
            if s.left.spec_hit(this_ray, tmn, tmx) is Some {
                lemma_hit_faces_ray(
                    &*s.right,
                    this_ray,
                    tmn,
                    s.left.spec_hit(this_ray, tmn, tmx)->0.t,
                );
            }
        },
    }
}

} // verus!
