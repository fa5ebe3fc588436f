use raytracer::hit::{Hittable, HittableList};
use raytracer::material::{Lambertian, Material};
use raytracer::pdf::{CosPDF, HittablePDF, MixturePDF, PDF};
use raytracer::rect::{XyRect, XzRect};
use raytracer::scalar::Scalar;
use raytracer::sphere::Sphere;
use raytracer::vec3::Vec3;
use std::sync::Arc;

fn v(x: i64, y: i64, z: i64) -> Vec3 {
    Vec3::from_raw(x, y, z)
}

fn s(raw: i64) -> Scalar {
    Scalar::new(raw)
}

fn n(whole: i64) -> Scalar {
    Scalar::from_int(whole)
}

fn white() -> Arc<Material> {
    Arc::new(Material::Lambertian(Lambertian::new(v(730_000, 730_000, 730_000))))
}

fn ball(z: i64, r: i64) -> Sphere {
    Sphere::new(v(0, 0, z), s(r), white())
}

fn lamp() -> XzRect {
    XzRect::new(n(-1), n(1), n(-1), n(1), n(2), white())
}

#[test]
fn the_cosine_density_is_the_cosine_over_pi_above_the_surface() {
    let p = CosPDF::new(v(0, 0, 1_000_000));
    assert_eq!(p.uvw.w(), v(0, 0, 1_000_000));
    assert_eq!(p.value(v(0, 0, 5_000_000)).raw, 318_309);
    assert_eq!(p.value(v(1_000_000, 0, 1_000_000)).raw, 225_079);
    assert_eq!(p.value(v(1_000_000, 0, 0)).raw, 0);
    assert_eq!(p.value(v(0, 0, -1_000_000)).raw, 0);
    assert_eq!(PDF::Cos(CosPDF::new(v(0, 0, 1_000_000))).value(v(1_000_000, 0, 1_000_000)).raw, 225_079);
}

#[test]
fn the_cosine_density_draws_the_direction_that_two_samples_stand_for() {
    let p = CosPDF::new(v(0, 0, 1_000_000));
    assert_eq!(p.direction_from(s(250_000), s(500_000)), v(0, 866_025, 500_000));
    assert_eq!(p.direction_from(s(0), s(0)), v(1_000_000, 0, 0));
    let q = CosPDF::new(v(0, 1_000_000, 0));
    assert_eq!(q.direction_from(s(125_000), s(800_000)), v(424_264, 800_000, -424_264));
}

#[test]
fn the_cosine_density_draws_unit_directions_above_the_surface() {
    let p = PDF::Cos(CosPDF::new(v(1_000_000, 1_000_000, 1_000_000)));
    let axis = v(577_350, 577_350, 577_350);
    let mut distinct = std::collections::HashSet::new();
    for _ in 0..2_000 {
        let d = p.generate();
        assert!(d.dot(axis).raw >= -5);
        assert!((d.length().raw - 1_000_000).abs() <= 10);
        assert!(p.value(d).raw >= 0);
        distinct.insert((d.x.raw, d.y.raw, d.z.raw));
    }
    assert!(distinct.len() > 1_900);
}

#[test]
fn a_sphere_is_drawn_with_one_over_the_solid_angle_it_fills() {
    assert_eq!(ball(-4_000_000, 1_000_000).pdf_value(v(0, 0, 0), v(0, 0, -1_000_000)).raw, 5_011_978);
    assert_eq!(ball(-4_000_000, 1_000_000).pdf_value(v(0, 0, 0), v(0, 1_000_000, 0)).raw, 0);
    let p = HittablePDF::new(Arc::new(Hittable::Sphere(ball(-4_000_000, 1_000_000))), v(0, 0, 0));
    assert_eq!(p.value(v(0, 0, -1_000_000)).raw, 5_011_978);
    assert_eq!(p.value(v(0, 0, 1_000_000)).raw, 0);
}

#[test]
fn a_sphere_draws_the_direction_that_two_samples_stand_for() {
    let b = ball(-4_000_000, 1_000_000);
    assert_eq!(b.direction_from(v(0, 0, 0), s(300_000), s(600_000)), v(-60_033, -184_766, -980_947));
    assert_eq!(b.direction_from(v(0, 0, 0), s(0), s(0)), v(0, 0, -1_000_000));
    assert_eq!(b.direction_from(v(0, 0, 0), s(0), s(999_999)), v(250_000, 0, -968_246));
    assert_eq!(ball(-2_000_000, 0).direction_from(v(0, 0, 0), s(300_000), s(600_000)), v(0, 0, -1_000_000));
}

#[test]
fn a_sphere_draws_directions_that_hit_it() {
    let thing = Hittable::Sphere(ball(-4_000_000, 1_000_000));
    let mut hits = 0;
    for _ in 0..1_000 {
        let d = thing.random(v(0, 0, 0));
        assert!(d.z.raw <= -968_000);
        if thing.pdf_value(v(0, 0, 0), d).raw == 5_011_978 {
            hits += 1;
        }
    }
    assert!(hits > 950);
}

#[test]
fn a_lamp_is_drawn_with_the_squared_distance_over_cosine_times_area() {
    assert_eq!(lamp().pdf_value(v(0, 0, 0), v(0, 1_000_000, 0)).raw, 1_000_000);
    assert_eq!(lamp().pdf_value(v(0, 0, 0), v(200_000, 1_000_000, -300_000)).raw, 1_201_206);
    assert_eq!(lamp().pdf_value(v(0, 0, 0), v(0, -1_000_000, 0)).raw, 0);
    let ceiling = XzRect::new(n(213), n(343), n(227), n(332), n(554), white());
    assert_eq!(
        ceiling.pdf_value(v(278_000_000, 278_000_000, 278_000_000), v(0, 276_000_000, 0)).raw,
        5_580_659
    );
}

#[test]
fn a_lamp_draws_the_direction_to_the_point_that_two_samples_stand_for() {
    assert_eq!(lamp().direction_from(v(500_000, 0, 0), s(250_000), s(750_000)), v(-1_000_000, 2_000_000, 500_000));
    for _ in 0..500 {
        let d = Hittable::XzRect(lamp()).random(v(0, -1_000_000, 0));
        assert_eq!(d.y.raw, 3_000_000);
        assert!(-1_000_000 <= d.x.raw && d.x.raw < 1_000_000);
        assert!(-1_000_000 <= d.z.raw && d.z.raw < 1_000_000);
    }
}

#[test]
fn a_thing_that_cannot_be_aimed_at_draws_the_x_axis_with_density_zero() {
    let wall = Hittable::XyRect(XyRect::new(n(-1), n(1), n(-1), n(1), n(-2), white()));
    assert_eq!(wall.pdf_value(v(0, 0, 0), v(0, 0, -1_000_000)).raw, 0);
    for _ in 0..20 {
        assert_eq!(wall.random(v(5, 6, 7)), v(1_000_000, 0, 0));
    }
}

#[test]
fn a_list_is_drawn_with_the_mean_of_the_densities_of_its_members() {
    let mut l = HittableList::new();
    l.add(Arc::new(Hittable::XzRect(lamp())));
    l.add(Arc::new(Hittable::XyRect(XyRect::new(n(-1), n(1), n(-1), n(1), n(-2), white()))));
    l.add(Arc::new(Hittable::Sphere(Sphere::new(v(0, 4_000_000, 0), n(1), white()))));
    assert_eq!(l.pdf_value(v(0, 0, 0), v(0, 1_000_000, 0)).raw, 2_003_990);
    assert_eq!(l.pdf_value(v(0, 0, 0), v(0, -1_000_000, 0)).raw, 0);
}

#[test]
fn a_list_draws_from_each_member_about_equally_often() {
    let mut l = HittableList::new();
    l.add(Arc::new(Hittable::XzRect(lamp())));
    l.add(Arc::new(Hittable::XyRect(XyRect::new(n(-1), n(1), n(-1), n(1), n(-2), white()))));
    l.add(Arc::new(Hittable::Sphere(Sphere::new(v(0, -40_000_000, 0), n(1), white()))));
    let mut counts = [0usize; 3];
    for _ in 0..9_000 {
        let d = l.random(v(0, 0, 0));
        if d == v(1_000_000, 0, 0) {
            counts[1] += 1;
        } else if d.y.raw == 2_000_000 {
            counts[0] += 1;
        } else {
            assert!(d.y.raw < -990_000);
            counts[2] += 1;
        }
    }
    for c in counts {
        assert!(2_700 <= c && c <= 3_300);
    }
}

#[test]
fn the_member_that_a_sample_stands_for() {
    let mut l = HittableList::new();
    for _ in 0..3 {
        l.add(Arc::new(Hittable::XzRect(lamp())));
    }
    assert_eq!(l.pick(s(0)), 0);
    assert_eq!(l.pick(s(333_333)), 0);
    assert_eq!(l.pick(s(333_334)), 1);
    assert_eq!(l.pick(s(666_666)), 1);
    assert_eq!(l.pick(s(666_667)), 2);
    assert_eq!(l.pick(s(999_999)), 2);
}

#[test]
fn a_mixture_weighs_both_densities_by_one_half() {
    let cos = Arc::new(PDF::Cos(CosPDF::new(v(0, 0, 1_000_000))));
    let toward = Arc::new(PDF::Hittable(HittablePDF::new(
        Arc::new(Hittable::Sphere(Sphere::new(v(0, 0, -4_000_000), n(1), white()))),
        v(0, 0, 0),
    )));
    let m = MixturePDF::new(cos, toward);
    assert_eq!(m.value(v(1_000_000, 0, 1_000_000)).raw, 112_539);
    assert_eq!(m.value(v(0, 0, -1_000_000)).raw, 2_505_989);
    let up = Arc::new(PDF::Cos(CosPDF::new(v(0, 1_000_000, 0))));
    let at = Arc::new(PDF::Hittable(HittablePDF::new(
        Arc::new(Hittable::Sphere(Sphere::new(v(0, 4_000_000, 0), n(1), white()))),
        v(0, 0, 0),
    )));
    assert_eq!(PDF::Mixture(MixturePDF::new(up, at)).value(v(0, 1_000_000, 0)).raw, 2_665_143);
}

#[test]
fn a_mixture_chooses_the_first_density_below_one_half() {
    assert_eq!(MixturePDF::pick(s(0)), 0);
    assert_eq!(MixturePDF::pick(s(499_999)), 0);
    assert_eq!(MixturePDF::pick(s(500_000)), 1);
    assert_eq!(MixturePDF::pick(s(999_999)), 1);
}

#[test]
fn a_mixture_of_two_fixed_directions_draws_each_about_half_the_time() {
    let along_x = Arc::new(PDF::Hittable(HittablePDF::new(
        Arc::new(Hittable::XyRect(XyRect::new(n(-1), n(1), n(-1), n(1), n(-2), white()))),
        v(0, 0, 0),
    )));
    let down_z = Arc::new(PDF::Hittable(HittablePDF::new(
        Arc::new(Hittable::Sphere(Sphere::new(v(0, 0, -2_000_000), n(0), white()))),
        v(0, 0, 0),
    )));
    for _ in 0..10 {
        assert_eq!(along_x.generate(), v(1_000_000, 0, 0));
        assert_eq!(down_z.generate(), v(0, 0, -1_000_000));
    }
    let m = PDF::Mixture(MixturePDF::new(along_x, down_z));
    let mut first = 0;
    let mut second = 0;
    for _ in 0..10_000 {
        let d = m.generate();
        if d == v(1_000_000, 0, 0) {
            first += 1;
        } else {
            assert_eq!(d, v(0, 0, -1_000_000));
            second += 1;
        }
    }
    assert_eq!(first + second, 10_000);
    assert!(4_500 <= first && first <= 5_500);
    assert!(4_500 <= second && second <= 5_500);
}

#[test]
fn a_mixture_draws_from_the_density_that_the_sample_chooses() {
    let along_x = Arc::new(PDF::Hittable(HittablePDF::new(
        Arc::new(Hittable::XyRect(XyRect::new(n(-1), n(1), n(-1), n(1), n(-2), white()))),
        v(0, 0, 0),
    )));
    let down_z = Arc::new(PDF::Hittable(HittablePDF::new(
        Arc::new(Hittable::Sphere(Sphere::new(v(0, 0, -2_000_000), n(0), white()))),
        v(0, 0, 0),
    )));
    let m = MixturePDF::new(along_x, down_z);
    for x in [0, 1, 250_000, 499_999] {
        assert_eq!(m.generate_with(s(x)), v(1_000_000, 0, 0));
    }
    for x in [500_000, 500_001, 750_000, 999_999] {
        assert_eq!(m.generate_with(s(x)), v(0, 0, -1_000_000));
    }
}

#[test]
fn a_list_draws_from_the_member_that_the_sample_stands_for() {
    let mut l = HittableList::new();
    l.add(Arc::new(Hittable::XyRect(XyRect::new(n(-1), n(1), n(-1), n(1), n(-2), white()))));
    l.add(Arc::new(Hittable::Sphere(Sphere::new(v(0, 0, -2_000_000), n(0), white()))));
    l.add(Arc::new(Hittable::Sphere(Sphere::new(v(0, 3_000_000, 0), n(0), white()))));
    let o = v(0, 0, 0);
    for x in [0, 200_000, 333_333] {
        assert_eq!(l.random_with(o, s(x)), v(1_000_000, 0, 0));
    }
    for x in [333_334, 500_000, 666_666] {
        assert_eq!(l.random_with(o, s(x)), v(0, 0, -1_000_000));
    }
    for x in [666_667, 800_000, 999_999] {
        assert_eq!(l.random_with(o, s(x)), v(0, 1_000_000, 0));
    }
}
