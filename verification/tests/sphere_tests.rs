use raytracer::hit::{get_sphere_uv, HitRecord, Hittable};
use raytracer::material::{Lambertian, Material, Metal};
use raytracer::ray::Ray;
use raytracer::scalar::Scalar;
use raytracer::sphere::{MovingSphere, Sphere};
use raytracer::vec3::Vec3;
use std::sync::Arc;

fn v(x: i64, y: i64, z: i64) -> Vec3 {
    Vec3::from_raw(x, y, z)
}

fn s(raw: i64) -> Scalar {
    Scalar::new(raw)
}

fn grey() -> Arc<Material> {
    Arc::new(Material::Lambertian(Lambertian::new(v(500_000, 500_000, 500_000))))
}

fn ball() -> Sphere {
    Sphere::new(v(0, 0, -1_000_000), s(500_000), grey())
}

fn ray(o: Vec3, d: Vec3) -> Ray {
    Ray::new(o, d, Scalar::zero())
}

fn near() -> Scalar {
    s(1_000)
}

fn check(rec: &HitRecord, t: i64, p: Vec3, nor: Vec3, u: i64, w: i64, front: bool) {
    assert_eq!(rec.t.raw, t);
    assert_eq!(rec.p, p);
    assert_eq!(rec.nor, nor);
    assert_eq!(rec.u.raw, u);
    assert_eq!(rec.v.raw, w);
    assert_eq!(rec.nor_dir, front);
}

#[test]
fn a_ray_down_the_axis_hits_the_sphere_at_one_half() {
    let rec = ball().hit(&ray(v(0, 0, 0), v(0, 0, -1_000_000)), near(), Scalar::inf()).unwrap();
    assert_eq!(rec.t.raw, 500_000);
    assert_eq!(rec.nor, v(0, 0, 1_000_000));
    check(&rec, 500_000, v(0, 0, -500_000), v(0, 0, 1_000_000), 250_000, 499_999, true);
}

#[test]
fn the_record_carries_the_material_of_the_sphere() {
    let gold = Arc::new(Material::Metal(Metal::new(v(800_000, 600_000, 200_000), s(300_000))));
    let sphere = Sphere::new(v(0, 0, -1_000_000), s(500_000), gold);
    let rec = sphere.hit(&ray(v(0, 0, 0), v(0, 0, -1_000_000)), near(), Scalar::inf()).unwrap();
    match &*rec.mat_ptr {
        Material::Metal(m) => {
            assert_eq!(m.albedo, v(800_000, 600_000, 200_000));
            assert_eq!(m.fuzz.raw, 300_000);
        }
        _ => panic!("the record lost its material"),
    }
}

#[test]
fn the_smaller_root_is_reported_when_both_lie_in_the_interval() {
    let r = ray(v(0, 0, 0), v(0, 0, -1_000_000));
    let rec = ball().hit(&r, near(), Scalar::inf()).unwrap();
    assert_eq!(rec.t.raw, 500_000);
    let rec = ball().hit(&r, s(499_999), s(1_500_001)).unwrap();
    assert_eq!(rec.t.raw, 500_000);
    let r = ray(v(100_000, 200_000, 3_000_000), v(50_000, -100_000, -1_000_000));
    let rec = Sphere::new(v(0, 0, 0), s(1_000_000), grey()).hit(&r, near(), Scalar::inf()).unwrap();
    check(
        &rec,
        2_020_415,
        v(201_020, -2_041, 979_585),
        v(201_020, -2_041, 979_585),
        282_213,
        499_350,
        true,
    );
}

#[test]
fn the_larger_root_is_reported_when_the_smaller_lies_outside() {
    let r = ray(v(0, 0, 0), v(0, 0, -1_000_000));
    let rec = ball().hit(&r, s(500_000), Scalar::inf()).unwrap();
    check(&rec, 1_500_000, v(0, 0, -1_500_000), v(0, 0, 1_000_000), 750_000, 499_999, false);
    let rec = ball().hit(&r, s(500_000), s(1_500_001)).unwrap();
    assert_eq!(rec.t.raw, 1_500_000);
    let inside = ray(v(0, 0, -1_000_000), v(0, 0, -1_000_000));
    let rec = ball().hit(&inside, near(), Scalar::inf()).unwrap();
    check(&rec, 500_000, v(0, 0, -1_500_000), v(0, 0, 1_000_000), 750_000, 499_999, false);
}

#[test]
fn no_root_in_the_interval_is_no_hit() {
    let r = ray(v(0, 0, 0), v(0, 0, -1_000_000));
    assert!(ball().hit(&r, near(), s(500_000)).is_none());
    assert!(ball().hit(&r, s(500_000), s(1_500_000)).is_none());
    assert!(ball().hit(&r, s(1_500_000), Scalar::inf()).is_none());
    assert!(ball().hit(&r, Scalar::inf(), near()).is_none());
}

#[test]
fn a_ray_past_the_sphere_or_tangent_to_it_misses() {
    assert!(ball().hit(&ray(v(0, 2_000_000, 0), v(0, 0, -1_000_000)), near(), Scalar::inf()).is_none());
    assert!(ball().hit(&ray(v(0, 500_000, 0), v(0, 0, -1_000_000)), near(), Scalar::inf()).is_none());
    assert!(ball().hit(&ray(v(0, 0, 0), v(0, 0, 1_000_000)), near(), Scalar::inf()).is_none());
    assert!(ball().hit(&ray(v(0, 0, 0), v(0, 0, 0)), near(), Scalar::inf()).is_none());
}

#[test]
fn a_ray_that_grazes_the_sphere_hits_at_two_close_roots() {
    let r = ray(v(0, 499_000, 0), v(0, 0, -1_000_000));
    let first = ball().hit(&r, near(), Scalar::inf()).unwrap();
    assert_eq!(first.t.raw, 968_394);
    let second = ball().hit(&r, first.t, Scalar::inf()).unwrap();
    assert_eq!(second.t.raw, 1_031_606);
    assert!(first.t.raw <= second.t.raw);
}

#[test]
fn a_longer_direction_shortens_the_parameter() {
    let r = ray(v(0, 0, 0), v(0, 0, -2_000_000));
    let rec = ball().hit(&r, near(), Scalar::inf()).unwrap();
    assert_eq!(rec.t.raw, 250_000);
    assert_eq!(rec.p, v(0, 0, -500_000));
    let rec = ball().hit(&r, rec.t, Scalar::inf()).unwrap();
    assert_eq!(rec.t.raw, 750_000);
}

#[test]
fn an_oblique_hit_has_its_normal_toward_the_ray() {
    let rec = ball().hit(&ray(v(0, 300_000, 0), v(0, 0, -1_000_000)), near(), Scalar::inf()).unwrap();
    check(&rec, 600_000, v(0, 300_000, -600_000), v(0, 600_000, 800_000), 250_000, 704_832, true);
    let from = v(13_000_000, 2_000_000, 3_000_000);
    let r = ray(from, from.neg().unit());
    let rec = Sphere::new(v(0, 1_000_000, 0), s(1_000_000), grey()).hit(&r, near(), Scalar::inf()).unwrap();
    check(
        &rec,
        13_193_486,
        v(286_441, 44_079, 66_112),
        v(286_441, -955_921, 66_112),
        463_899,
        94_861,
        true,
    );
    assert!(r.dir.dot(rec.nor).raw <= 0);
}

#[test]
fn sphere_coordinates_run_from_zero_to_one() {
    let mut u = s(0);
    let mut w = s(0);
    get_sphere_uv(v(0, 0, 1_000_000), &mut u, &mut w);
    assert_eq!((u.raw, w.raw), (250_000, 499_999));
    get_sphere_uv(v(1_000_000, 0, 0), &mut u, &mut w);
    assert_eq!((u.raw, w.raw), (500_000, 499_999));
    get_sphere_uv(v(-1_000_000, 0, 0), &mut u, &mut w);
    assert_eq!((u.raw, w.raw), (0, 499_999));
    get_sphere_uv(v(0, 1_000_000, 0), &mut u, &mut w);
    assert_eq!((u.raw, w.raw), (500_000, 999_999));
    get_sphere_uv(v(0, -1_000_000, 0), &mut u, &mut w);
    assert_eq!((u.raw, w.raw), (500_000, 0));
}

#[test]
fn the_box_of_a_sphere_reaches_one_radius_each_way() {
    let b = ball().bounding_box(Scalar::zero(), Scalar::one()).unwrap();
    assert_eq!(b.mn, v(-500_000, -500_000, -1_500_000));
    assert_eq!(b.mx, v(500_000, 500_000, -500_000));
    let again = ball().bounding_box(s(7_000_000), s(-3)).unwrap();
    assert_eq!(again, b);
    let as_thing = Hittable::Sphere(ball()).bounding_box(Scalar::zero(), Scalar::one()).unwrap();
    assert_eq!(as_thing, b);
}

#[test]
fn a_moving_sphere_is_where_its_time_puts_it() {
    let m = MovingSphere::new(v(0, 0, 0), v(0, 1_000_000, 0), s(0), s(1_000_000), s(500_000), grey());
    assert_eq!(m.center(s(0)), v(0, 0, 0));
    assert_eq!(m.center(s(250_000)), v(0, 250_000, 0));
    assert_eq!(m.center(s(1_000_000)), v(0, 1_000_000, 0));
    assert_eq!(m.center(s(2_000_000)), v(0, 2_000_000, 0));
    let still = MovingSphere::new(v(0, 0, 0), v(0, 1_000_000, 0), s(1_000_000), s(1_000_000), s(500_000), grey());
    assert_eq!(still.center(s(500_000)), v(0, -i64::MAX, 0));
}

#[test]
fn a_moving_sphere_is_hit_where_it_is_at_the_time_of_the_ray() {
    let m = MovingSphere::new(
        v(0, 0, -1_000_000),
        v(0, 500_000, -1_000_000),
        s(0),
        s(1_000_000),
        s(500_000),
        grey(),
    );
    let early = Ray::new(v(0, 0, 0), v(0, 0, -1_000_000), s(0));
    let rec = m.hit(&early, near(), Scalar::inf()).unwrap();
    check(&rec, 500_000, v(0, 0, -500_000), v(0, 0, 1_000_000), 250_000, 499_999, true);
    let later = Ray::new(v(0, 0, 0), v(0, 0, -1_000_000), s(500_000));
    let rec = m.hit(&later, near(), Scalar::inf()).unwrap();
    check(&rec, 566_988, v(0, 0, -566_988), v(0, -500_000, 866_024), 250_000, 333_333, true);
    let much_later = Ray::new(v(0, 0, 0), v(0, 0, -1_000_000), s(4_000_000));
    assert!(m.hit(&much_later, near(), Scalar::inf()).is_none());
}

#[test]
fn the_box_of_a_moving_sphere_holds_it_at_both_times() {
    let m = MovingSphere::new(
        v(0, 0, -1_000_000),
        v(0, 500_000, -1_000_000),
        s(0),
        s(1_000_000),
        s(500_000),
        grey(),
    );
    let b = m.bounding_box(s(0), s(1_000_000)).unwrap();
    assert_eq!(b.mn, v(-500_000, -500_000, -1_500_000));
    assert_eq!(b.mx, v(500_000, 1_000_000, -500_000));
    let b = m.bounding_box(s(500_000), s(500_000)).unwrap();
    assert_eq!(b.mn, v(-500_000, -250_000, -1_500_000));
    assert_eq!(b.mx, v(500_000, 750_000, -500_000));
}

#[test]
fn every_hit_on_a_sphere_faces_the_ray() {
    let sphere = Sphere::new(v(200_000, -100_000, -3_000_000), s(1_250_000), grey());
    let mut seed: i64 = 99;
    let mut hits = 0;
    for _ in 0..3_000 {
        let mut c = [0i64; 6];
        for slot in c.iter_mut() {
            seed = (seed * 1_103_515_245 + 12_345) % 2_147_483_648;
            *slot = seed % 8_000_001 - 4_000_000;
        }
        let r = ray(v(c[0], c[1], c[2]), v(c[3], c[4], c[5]).unit());
        if let Some(rec) = sphere.hit(&r, near(), Scalar::inf()) {
            hits += 1;
            assert!(r.dir.dot(rec.nor).raw <= 0);
            assert!(rec.t.raw > 1_000);
            let again = sphere.hit(&r, near(), s(rec.t.raw + 1)).unwrap();
            assert_eq!(again.t, rec.t);
            assert!(sphere.hit(&r, near(), rec.t).is_none());
        }
    }
    assert!(hits > 100);
}
