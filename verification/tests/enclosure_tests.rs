use raytracer::bvh::BvhNode;
use raytracer::hit::{Hittable, HittableList};
use raytracer::material::{Lambertian, Material};
use raytracer::ray::Ray;
use raytracer::rect::XyRect;
use raytracer::scalar::Scalar;
use raytracer::sphere::Sphere;
use raytracer::vec3::Vec3;
use std::sync::Arc;

fn v(x: i64, y: i64, z: i64) -> Vec3 {
    Vec3::from_raw(x, y, z)
}

fn s(raw: i64) -> Scalar {
    Scalar::new(raw)
}

fn white() -> Arc<Material> {
    Arc::new(Material::Lambertian(Lambertian::new(v(730_000, 730_000, 730_000))))
}

fn near() -> Scalar {
    s(1_000)
}

fn step(seed: &mut i64) -> i64 {
    *seed = (*seed * 1_103_515_245 + 12_345) % 2_147_483_648;
    *seed
}

fn ball(x: i64, y: i64, z: i64, r: i64) -> Arc<Hittable> {
    Arc::new(Hittable::Sphere(Sphere::new(v(x, y, z), s(r), white())))
}

#[test]
fn a_ray_that_crosses_a_rectangle_strictly_inside_passes_through_its_box() {
    let wall = XyRect::new(s(-1_000_000), s(1_000_000), s(-2_000_000), s(2_000_000), s(-3_000_000), white());
    let bounds = wall.bounding_box(Scalar::zero(), Scalar::one()).unwrap();
    let mut seed: i64 = 77;
    let mut inside = 0;
    for _ in 0..4_000 {
        let o = v(step(&mut seed) % 3_000_001 - 1_500_000, step(&mut seed) % 5_000_001 - 2_500_000, 0);
        let d = v(
            step(&mut seed) % 1_000_001 - 500_000,
            step(&mut seed) % 1_000_001 - 500_000,
            -(step(&mut seed) % 1_000_000) - 1,
        );
        let ray = Ray::new(o, d, Scalar::zero());
        if let Some(rec) = wall.hit(&ray, near(), Scalar::inf()) {
            let strictly = (d.x.raw == 0 || (-1_000_000 < rec.p.x.raw && rec.p.x.raw < 1_000_000))
                && (d.y.raw == 0 || (-2_000_000 < rec.p.y.raw && rec.p.y.raw < 2_000_000));
            if strictly {
                inside += 1;
                assert!(bounds.hit(ray, near(), Scalar::inf()));
                assert!(bounds.hit(ray, near(), s(rec.t.raw + 1)));
            }
        }
    }
    assert!(inside > 500);
}

#[test]
fn a_ray_that_grazes_an_edge_may_hit_the_rectangle_and_miss_its_box() {
    let strip = XyRect::new(s(0), s(1_000_000), s(-1_000_000), s(1_000_000), s(-5_000), white());
    let bounds = strip.bounding_box(Scalar::zero(), Scalar::one()).unwrap();
    let ray = Ray::new(v(0, 0, 0), v(-100, 0, -1_000_000), Scalar::zero());
    let rec = strip.hit(&ray, near(), Scalar::inf()).unwrap();
    assert_eq!(rec.t.raw, 5_000);
    assert_eq!(rec.p, v(0, 0, -5_000));
    assert!(!bounds.hit(ray, near(), Scalar::inf()));
}

#[test]
fn a_ray_that_hits_a_sphere_strictly_inside_its_box_passes_through_the_box() {
    let mut seed: i64 = 4_711;
    let mut inside = 0;
    for _ in 0..3_000 {
        let c = v(
            step(&mut seed) % 4_000_001 - 2_000_000,
            step(&mut seed) % 4_000_001 - 2_000_000,
            -(step(&mut seed) % 4_000_000) - 3_000_000,
        );
        let r = step(&mut seed) % 1_500_000 + 200_000;
        let globe = Sphere::new(c, s(r), white());
        let bounds = globe.bounding_box(Scalar::zero(), Scalar::one()).unwrap();
        let d = v(
            step(&mut seed) % 1_000_001 - 500_000,
            step(&mut seed) % 1_000_001 - 500_000,
            -(step(&mut seed) % 1_000_000) - 500_000,
        )
        .unit();
        let ray = Ray::new(v(0, 0, 0), d, Scalar::zero());
        if let Some(rec) = globe.hit(&ray, near(), Scalar::inf()) {
            let p = ray.pos(rec.t);
            let within = |dir: i64, at: i64, lo: i64, hi: i64| dir == 0 || (lo < at && at < hi);
            if within(d.x.raw, p.x.raw, bounds.mn.x.raw, bounds.mx.x.raw)
                && within(d.y.raw, p.y.raw, bounds.mn.y.raw, bounds.mx.y.raw)
                && within(d.z.raw, p.z.raw, bounds.mn.z.raw, bounds.mx.z.raw)
            {
                inside += 1;
                assert!(bounds.hit(ray, near(), Scalar::inf()));
                assert!(bounds.hit(ray, near(), s(rec.t.raw + 1)));
            }
        }
    }
    assert!(inside > 100);
}

#[test]
fn a_hierarchy_within_a_hierarchy_reports_the_nearest_hit_of_the_linear_scan() {
    let mut seed: i64 = 99;
    let mut flat = Vec::new();
    let mut nested = Vec::new();
    for _ in 0..4 {
        let mut group = Vec::new();
        for _ in 0..6 {
            let b = ball(
                step(&mut seed) % 12_000_001 - 6_000_000,
                step(&mut seed) % 12_000_001 - 6_000_000,
                -(step(&mut seed) % 10_000_000) - 12_000_000,
                step(&mut seed) % 1_000_000 + 300_000,
            );
            flat.push(b.clone());
            group.push(b);
        }
        nested.push(Arc::new(Hittable::Bvh(BvhNode::new(group, 6, Scalar::zero(), Scalar::one()))));
    }
    let tree = BvhNode::new(nested.clone(), 4, Scalar::zero(), Scalar::one());
    let mut list = HittableList::new();
    for h in flat.iter() {
        list.add(h.clone());
    }
    let mut mixed = HittableList::new();
    for h in nested.iter() {
        mixed.add(h.clone());
    }
    let mut hits = 0;
    let mut compared = 0;
    for _ in 0..1_500 {
        let d = v(
            step(&mut seed) % 1_000_001 - 500_000,
            step(&mut seed) % 1_000_001 - 500_000,
            -(step(&mut seed) % 1_000_000) - 1_000_000,
        )
        .unit();
        let ray = Ray::new(v(0, 0, 0), d, Scalar::zero());
        let mut valid = true;
        for h in flat.iter() {
            if let Some(rec) = h.hit(&ray, near(), Scalar::inf()) {
                let bounds = h.bounding_box(Scalar::zero(), Scalar::one()).unwrap();
                for b in [rec.t.raw + 1, i64::MAX] {
                    valid = valid && bounds.hit(ray, near(), s(b));
                }
            }
        }
        for g in flat.iter() {
            if let Some(other) = g.hit(&ray, near(), Scalar::inf()) {
                for h in flat.iter() {
                    if h.hit(&ray, near(), other.t).is_some() {
                        let bounds = h.bounding_box(Scalar::zero(), Scalar::one()).unwrap();
                        valid = valid && bounds.hit(ray, near(), other.t);
                    }
                }
            }
        }
        if !valid {
            continue;
        }
        compared += 1;
        let by_scan = list.hit(&ray, near(), Scalar::inf());
        let by_tree = tree.hit(&ray, near(), Scalar::inf());
        let by_mixed = mixed.hit(&ray, near(), Scalar::inf());
        assert_eq!(by_tree.as_ref().map(|rec| rec.t.raw), by_scan.as_ref().map(|rec| rec.t.raw));
        assert_eq!(by_mixed.as_ref().map(|rec| rec.t.raw), by_scan.as_ref().map(|rec| rec.t.raw));
        if by_scan.is_some() {
            hits += 1;
        }
    }
    assert!(compared > 1_400);
    assert!(hits > 100);
}

#[test]
fn a_ray_that_hits_a_sphere_short_of_the_faces_by_which_it_leaves_passes_through_the_box() {
    let head_on = Sphere::new(v(0, 0, -1_000_000), s(500_000), white());
    let bounds = head_on.bounding_box(Scalar::zero(), Scalar::one()).unwrap();
    let ray = Ray::new(v(0, 0, 0), v(0, 0, -1_000_000), Scalar::zero());
    let rec = head_on.hit(&ray, near(), Scalar::inf()).unwrap();
    assert_eq!(ray.pos(rec.t), v(0, 0, -500_000));
    assert_eq!(bounds.mx.z.raw, -500_000);
    assert!(bounds.hit(ray, near(), Scalar::inf()));
    assert!(bounds.hit(ray, near(), s(rec.t.raw + 1)));
    assert!(!bounds.hit(ray, near(), rec.t));
    let mut seed: i64 = 31_337;
    let mut short = 0;
    for _ in 0..3_000 {
        let c = v(
            step(&mut seed) % 4_000_001 - 2_000_000,
            step(&mut seed) % 4_000_001 - 2_000_000,
            -(step(&mut seed) % 4_000_000) - 3_000_000,
        );
        let globe = Sphere::new(c, s(step(&mut seed) % 1_500_000 + 200_000), white());
        let bounds = globe.bounding_box(Scalar::zero(), Scalar::one()).unwrap();
        let d = v(
            step(&mut seed) % 1_000_001 - 500_000,
            step(&mut seed) % 1_000_001 - 500_000,
            -(step(&mut seed) % 1_000_000) - 500_000,
        )
        .unit();
        let ray = Ray::new(v(0, 0, 0), d, Scalar::zero());
        if let Some(rec) = globe.hit(&ray, near(), Scalar::inf()) {
            let p = ray.pos(rec.t);
            let before = |dir: i64, at: i64, lo: i64, hi: i64| {
                dir.abs() <= 1_000_000
                    && if dir == 0 {
                        true
                    } else if dir > 0 {
                        lo <= at && at <= hi - 2
                    } else {
                        lo + 2 <= at && at <= hi
                    }
            };
            if before(d.x.raw, p.x.raw, bounds.mn.x.raw, bounds.mx.x.raw)
                && before(d.y.raw, p.y.raw, bounds.mn.y.raw, bounds.mx.y.raw)
                && before(d.z.raw, p.z.raw, bounds.mn.z.raw, bounds.mx.z.raw)
            {
                short += 1;
                assert!(bounds.hit(ray, near(), Scalar::inf()));
                assert!(bounds.hit(ray, near(), s(rec.t.raw + 1)));
            }
        }
    }
    assert!(short > 100);
}
