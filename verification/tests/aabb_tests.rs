use raytracer::aabb::Aabb;
use raytracer::hit::Hittable;
use raytracer::material::{Lambertian, Material};
use raytracer::ray::Ray;
use raytracer::scalar::Scalar;
use raytracer::sphere::Sphere;
use raytracer::vec3::Vec3;
use std::sync::Arc;

fn v(x: i64, y: i64, z: i64) -> Vec3 {
    Vec3::from_raw(x, y, z)
}

fn cube(mn: i64, mx: i64) -> Aabb {
    Aabb::new(v(mn, mn, mn), v(mx, mx, mx))
}

fn ray(ori: Vec3, dir: Vec3) -> Ray {
    Ray::new(ori, dir, Scalar::zero())
}

fn near() -> Scalar {
    Scalar::new(1_000)
}

fn boxes() -> Vec<Aabb> {
    vec![
        cube(-1_000_000, 1_000_000),
        Aabb::new(v(0, -5_000_000, 2_000_000), v(3_000_000, -1, 2_000_001)),
        Aabb::new(v(-7, -7, -7), v(-7, -7, -7)),
        Aabb::new(v(-20_000_000, 0, 0), v(40_000_000, 1, 90_000_000)),
        Aabb::new(v(i64::MAX, 0, -i64::MAX), v(i64::MAX, 5, 0)),
        Aabb::new(v(5, 5, 5), v(-5, -5, -5)),
    ]
}

fn holds(outer: Aabb, inner: Aabb) -> bool {
    outer.mn.x.raw <= inner.mn.x.raw
        && inner.mx.x.raw <= outer.mx.x.raw
        && outer.mn.y.raw <= inner.mn.y.raw
        && inner.mx.y.raw <= outer.mx.y.raw
        && outer.mn.z.raw <= inner.mn.z.raw
        && inner.mx.z.raw <= outer.mx.z.raw
}

#[test]
fn new_keeps_the_corners() {
    let b = Aabb::new(v(1, 2, 3), v(4, 5, 6));
    assert_eq!(b.mn, v(1, 2, 3));
    assert_eq!(b.mx, v(4, 5, 6));
}

#[test]
fn union_takes_the_least_and_the_greatest_corner() {
    let a = Aabb::new(v(0, -5, 2), v(3, 1, 9));
    let b = Aabb::new(v(-1, 0, 4), v(2, 8, 5));
    let u = Aabb::surrounding_box(a, b);
    assert_eq!(u.mn, v(-1, -5, 2));
    assert_eq!(u.mx, v(3, 8, 9));
}

#[test]
fn union_is_commutative() {
    for a in boxes() {
        for b in boxes() {
            assert_eq!(Aabb::surrounding_box(a, b), Aabb::surrounding_box(b, a));
        }
    }
}

#[test]
fn union_is_associative() {
    for a in boxes() {
        for b in boxes() {
            for c in boxes() {
                assert_eq!(
                    Aabb::surrounding_box(Aabb::surrounding_box(a, b), c),
                    Aabb::surrounding_box(a, Aabb::surrounding_box(b, c))
                );
            }
        }
    }
}

#[test]
fn union_of_a_box_with_itself_is_the_box() {
    for a in boxes() {
        assert_eq!(Aabb::surrounding_box(a, a), a);
    }
}

#[test]
fn union_holds_both_boxes_and_lies_in_every_box_that_does() {
    for a in boxes() {
        for b in boxes() {
            let u = Aabb::surrounding_box(a, b);
            assert!(holds(u, a));
            assert!(holds(u, b));
            for c in boxes() {
                if holds(c, a) && holds(c, b) {
                    assert!(holds(c, u));
                }
            }
        }
    }
}

#[test]
fn two_spheres_of_radius_ten_have_boxes_that_meet_in_a_plane_only() {
    let red = Arc::new(Material::Lambertian(Lambertian::new(v(500_000, 0, 0))));
    let below = Hittable::Sphere(Sphere::new(v(0, -10_000_000, 0), Scalar::from_int(10), red.clone()));
    let above = Hittable::Sphere(Sphere::new(v(0, 10_000_000, 0), Scalar::from_int(10), red));
    let b0 = below.bounding_box(Scalar::zero(), Scalar::one()).unwrap();
    let b1 = above.bounding_box(Scalar::zero(), Scalar::one()).unwrap();
    assert_eq!(b0.mn, v(-10_000_000, -20_000_000, -10_000_000));
    assert_eq!(b0.mx, v(10_000_000, 0, 10_000_000));
    assert_eq!(b1.mn, v(-10_000_000, 0, -10_000_000));
    assert_eq!(b1.mx, v(10_000_000, 20_000_000, 10_000_000));
    assert!(b0.mx.y.raw <= b1.mn.y.raw);
    let u = Aabb::surrounding_box(b0, b1);
    assert_eq!(u.mn.y.raw, -20_000_000);
    assert_eq!(u.mx.y.raw, 20_000_000);
    assert_eq!(u.mn, v(-10_000_000, -20_000_000, -10_000_000));
    assert_eq!(u.mx, v(10_000_000, 20_000_000, 10_000_000));
}

#[test]
fn a_ray_toward_the_box_hits_it_and_a_ray_away_misses() {
    let b = cube(-1_000_000, 1_000_000);
    assert!(b.hit(ray(v(0, 0, 5_000_000), v(0, 0, -1_000_000)), near(), Scalar::inf()));
    assert!(!b.hit(ray(v(0, 0, 5_000_000), v(0, 0, 1_000_000)), near(), Scalar::inf()));
    assert!(!b.hit(ray(v(0, 3_000_000, 5_000_000), v(0, 0, -1_000_000)), near(), Scalar::inf()));
    assert!(b.hit(
        ray(v(3_000_000, 3_000_000, 3_000_000), v(-1_000_000, -1_000_000, -1_000_000)),
        near(),
        Scalar::inf()
    ));
    assert!(!b.hit(
        ray(v(3_000_000, 3_000_000, 3_000_000), v(-1_000_000, -1_000_000, -200_000)),
        near(),
        Scalar::inf()
    ));
    assert!(b.hit(ray(v(0, 0, 0), v(1_000_000, 300_000, -200_000)), near(), Scalar::inf()));
}

#[test]
fn the_box_is_hit_only_within_the_interval() {
    let b = cube(-1_000_000, 1_000_000);
    let r = ray(v(0, 0, 5_000_000), v(0, 0, -1_000_000));
    assert!(!b.hit(r, near(), Scalar::new(4_000_000)));
    assert!(b.hit(r, near(), Scalar::new(4_000_001)));
    assert!(!b.hit(r, Scalar::new(6_000_000), Scalar::inf()));
    assert!(b.hit(r, Scalar::new(5_999_999), Scalar::inf()));
    assert!(!b.hit(r, Scalar::inf(), near()));
    assert!(!b.hit(r, near(), near()));
}

#[test]
fn a_ray_along_a_face_is_inside_the_slab_up_to_both_planes() {
    let b = cube(-1_000_000, 1_000_000);
    let down = v(0, 0, -1_000_000);
    assert!(b.hit(ray(v(1_000_000, 0, 5_000_000), down), near(), Scalar::inf()));
    assert!(!b.hit(ray(v(1_000_001, 0, 5_000_000), down), near(), Scalar::inf()));
    assert!(b.hit(ray(v(-1_000_000, 0, 5_000_000), down), near(), Scalar::inf()));
    assert!(!b.hit(ray(v(-1_000_001, 0, 5_000_000), down), near(), Scalar::inf()));
}

#[test]
fn a_ray_that_stands_still_hits_the_box_it_stands_in() {
    let b = cube(-1_000_000, 1_000_000);
    assert!(b.hit(ray(v(0, 0, 0), v(0, 0, 0)), near(), Scalar::inf()));
    assert!(!b.hit(ray(v(2_000_000, 0, 0), v(0, 0, 0)), near(), Scalar::inf()));
}

#[test]
fn a_larger_box_and_a_wider_interval_keep_a_hit() {
    let inner = Aabb::new(v(-300_000, 200_000, -1_000_000), v(500_000, 900_000, 400_000));
    let outer = Aabb::surrounding_box(inner, cube(-2_000_000, -1_500_000));
    let mut seed: i64 = 12_345;
    let mut hits = 0;
    for _ in 0..2_000 {
        let mut c = [0i64; 6];
        for slot in c.iter_mut() {
            seed = (seed * 1_103_515_245 + 12_345) % 2_147_483_648;
            *slot = seed % 6_000_001 - 3_000_000;
        }
        let r = ray(v(c[0], c[1], c[2]), v(c[3], c[4], c[5]));
        let lo = Scalar::new(500_000);
        let hi = Scalar::new(2_500_000);
        if inner.hit(r, lo, hi) {
            hits += 1;
            assert!(outer.hit(r, lo, hi));
            assert!(inner.hit(r, Scalar::new(499_000), Scalar::new(2_600_000)));
            assert!(outer.hit(r, near(), Scalar::inf()));
        }
    }
    assert!(hits > 20);
}
