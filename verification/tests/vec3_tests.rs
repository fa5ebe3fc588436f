use raytracer::ray::Ray;
use raytracer::scalar::Scalar;
use raytracer::vec3::{reflect, refract, Vec3};

fn v(x: i64, y: i64, z: i64) -> Vec3 {
    Vec3::from_raw(x, y, z)
}

#[test]
fn constructors_and_components() {
    let a = Vec3::new(Scalar::new(1), Scalar::new(2), Scalar::new(3));
    assert_eq!(a, v(1, 2, 3));
    assert_eq!(Vec3::zero(), v(0, 0, 0));
    assert_eq!(Vec3::ones(), v(1_000_000, 1_000_000, 1_000_000));
    assert_eq!(a.get(0).raw, 1);
    assert_eq!(a.get(1).raw, 2);
    assert_eq!(a.get(2).raw, 3);
    assert_eq!(a.with(0, Scalar::new(9)), v(9, 2, 3));
    assert_eq!(a.with(1, Scalar::new(9)), v(1, 9, 3));
    assert_eq!(a.with(2, Scalar::new(9)), v(1, 2, 9));
}

#[test]
fn componentwise_arithmetic() {
    let a = v(1_000_000, -2_000_000, 500_000);
    let b = v(250_000, 4_000_000, -1_000_000);
    assert_eq!(a.add(b), v(1_250_000, 2_000_000, -500_000));
    assert_eq!(a.sub(b), v(750_000, -6_000_000, 1_500_000));
    assert_eq!(a.neg(), v(-1_000_000, 2_000_000, -500_000));
    assert_eq!(a.scale(Scalar::new(1_500_000)), v(1_500_000, -3_000_000, 750_000));
    assert_eq!(a.div(Scalar::new(4_000_000)), v(250_000, -500_000, 125_000));
    assert_eq!(
        v(500_000, 250_000, 2_000_000).change(v(500_000, 4_000_000, -1_000_000)),
        v(250_000, 1_000_000, -2_000_000)
    );
}

#[test]
fn dot_and_cross_products() {
    let a = v(1_500_000, -2_000_000, 250_000);
    let b = v(2_000_000, 500_000, 4_000_000);
    assert_eq!(a.dot(b).raw, 3_000_000);
    assert_eq!(b.dot(a).raw, 3_000_000);
    let x = v(1_000_000, 0, 0);
    let y = v(0, 1_000_000, 0);
    let z = v(0, 0, 1_000_000);
    assert_eq!(Vec3::cross(x, y), z);
    assert_eq!(Vec3::cross(y, z), x);
    assert_eq!(Vec3::cross(z, x), y);
    assert_eq!(Vec3::cross(y, x), z.neg());
    assert_eq!(Vec3::cross(a, a), Vec3::zero());
}

#[test]
fn lengths_and_unit_vectors() {
    let a = v(3_000_000, 4_000_000, 0);
    assert_eq!(a.squared_length().raw, 25_000_000);
    assert_eq!(a.length().raw, 5_000_000);
    assert_eq!(a.unit(), v(600_000, 800_000, 0));
    assert_eq!(Vec3::ones().length().raw, 1_732_050);
    assert_eq!(Vec3::ones().unit(), v(577_350, 577_350, 577_350));
    assert_eq!(v(0, 0, -2_500_000).unit(), v(0, 0, -1_000_000));
}

#[test]
fn unit_of_a_vector_too_short_to_measure_saturates() {
    assert_eq!(Vec3::zero().unit(), Vec3::zero());
    assert_eq!(v(3, 0, 0).unit(), v(i64::MAX, 0, 0));
}

#[test]
fn ray_position_is_origin_plus_parameter_times_direction() {
    let ray = Ray::new(v(1_000_000, 2_000_000, 3_000_000), v(0, -500_000, 2_000_000), Scalar::new(250_000));
    assert_eq!(ray.pos(Scalar::zero()), v(1_000_000, 2_000_000, 3_000_000));
    assert_eq!(ray.pos(Scalar::new(2_000_000)), v(1_000_000, 1_000_000, 7_000_000));
    assert_eq!(ray.pos(Scalar::new(-1_500_000)), v(1_000_000, 2_750_000, 0));
    assert_eq!(ray.tm.raw, 250_000);
}

#[test]
fn reflection_mirrors_about_the_normal() {
    assert_eq!(
        reflect(v(1_000_000, -1_000_000, 0), v(0, 1_000_000, 0)),
        v(1_000_000, 1_000_000, 0)
    );
    assert_eq!(reflect(v(600_000, -800_000, 0), v(0, 1_000_000, 0)), v(600_000, 800_000, 0));
    assert_eq!(reflect(v(0, 0, -1_000_000), v(0, 0, 1_000_000)), v(0, 0, 1_000_000));
}

#[test]
fn refraction_at_ratio_one_keeps_a_head_on_direction() {
    for n in [
        v(0, 0, 1_000_000),
        v(0, 1_000_000, 0),
        v(-1_000_000, 0, 0),
        v(600_000, 0, 800_000),
        v(0, -280_000, 960_000),
    ] {
        assert_eq!(n.dot(n).raw, 1_000_000);
        assert_eq!(refract(n.neg(), n, Scalar::one()), n.neg());
    }
}

#[test]
fn refraction_at_ratio_one_keeps_an_oblique_direction_up_to_rounding() {
    let n = v(0, 1_000_000, 0);
    let mut x: i64 = -990_000;
    while x < 1_000_000 {
        let uv = v(x, -1_000_000, 370_000).unit();
        let out = refract(uv, n, Scalar::one());
        assert!((out.x.raw - uv.x.raw).abs() <= 3);
        assert!((out.y.raw - uv.y.raw).abs() <= 3);
        assert!((out.z.raw - uv.z.raw).abs() <= 3);
        x += 45_000;
    }
    assert_eq!(
        refract(v(707_107, -707_107, 0), n, Scalar::one()),
        v(707_107, -707_106, 0)
    );
}

#[test]
fn refraction_at_ratio_one_keeps_the_direction_exactly_where_the_root_recovers_the_cosine() {
    let one = Scalar::one();
    let mut seed: i64 = 2_718;
    let mut kept = 0;
    let mut bent = 0;
    for _ in 0..4_000 {
        let mut c = [0i64; 6];
        for slot in c.iter_mut() {
            seed = (seed * 1_103_515_245 + 12_345) % 2_147_483_648;
            *slot = seed % 2_000_001 - 1_000_000;
        }
        let uv = v(c[0], c[1], c[2]).unit();
        let n = v(c[3], c[4], c[5]).unit();
        let cos = uv.neg().dot(n);
        let root = one.sub(uv.add(n.scale(cos)).squared_length()).abs().sqrt();
        let cancel = n.scale(cos).add(n.scale(root.neg())) == Vec3::zero();
        assert_eq!(refract(uv, n, one) == uv, cancel);
        if root == cos {
            assert!(cancel);
        }
        if cancel {
            kept += 1;
        } else {
            bent += 1;
        }
    }
    assert!(kept > 100);
    assert!(bent > 100);
}

#[test]
fn refraction_bends_toward_the_normal_in_a_denser_medium() {
    let n = v(0, 1_000_000, 0);
    let ratio = Scalar::one().div(Scalar::new(1_500_000));
    assert_eq!(refract(v(0, -1_000_000, 0), n, ratio), v(0, -1_000_000, 0));
    assert_eq!(refract(v(707_107, -707_107, 0), n, ratio), v(471_404, -881_917, 0));
    assert_eq!(
        refract(v(707_107, -707_107, 0), n, Scalar::new(1_500_000)),
        v(1_060_660, -353_551, 0)
    );
}
