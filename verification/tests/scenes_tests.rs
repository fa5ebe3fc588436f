use raytracer::hit::{Hittable, HittableList};
use raytracer::material::Material;
use raytracer::ray::Ray;
use raytracer::render::get_color;
use raytracer::scalar::Scalar;
use raytracer::scenes::{cornellbox, random_scene, simple_light, two_spheres};
use raytracer::texture::Texture;
use raytracer::vec3::Vec3;

fn v(x: i64, y: i64, z: i64) -> Vec3 {
    Vec3::from_raw(x, y, z)
}

fn checkered(h: &Hittable, y: i64, radius: i64) {
    match h {
        Hittable::Sphere(s) => {
            assert_eq!(s.center, v(0, y, 0));
            assert_eq!(s.radius.raw, radius);
            match &*s.mat_ptr {
                Material::Lambertian(m) => match &*m.albedo {
                    Texture::Checker(c) => {
                        assert!(matches!(&*c.odd, Texture::Solid(t) if t.col == v(200_000, 300_000, 100_000)));
                        assert!(matches!(&*c.even, Texture::Solid(t) if t.col == v(900_000, 900_000, 900_000)));
                    }
                    _ => panic!("the sphere is checkered"),
                },
                _ => panic!("the sphere is matte"),
            }
        }
        _ => panic!("a sphere was expected"),
    }
}

fn leaves(h: &Hittable) -> usize {
    match h {
        Hittable::Bvh(node) => {
            if std::sync::Arc::ptr_eq(&node.left, &node.right) {
                leaves(&node.left)
            } else {
                leaves(&node.left) + leaves(&node.right)
            }
        }
        _ => 1,
    }
}

fn sees(world: &HittableList, from: Vec3, toward: Vec3) -> Option<i64> {
    let ray = Ray::new(from, toward.sub(from).unit(), Scalar::zero());
    world.hit(&ray, Scalar::new(1_000), Scalar::inf()).map(|rec| rec.t.raw)
}

#[test]
fn two_spheres_touch_at_the_origin() {
    let world = two_spheres();
    assert_eq!(world.objects.len(), 2);
    checkered(&world.objects[0], -10_000_000, 10_000_000);
    checkered(&world.objects[1], 10_000_000, 10_000_000);
    let b = world.bounding_box(Scalar::zero(), Scalar::one()).unwrap();
    assert_eq!(b.mn, v(-10_000_000, -20_000_000, -10_000_000));
    assert_eq!(b.mx, v(10_000_000, 20_000_000, 10_000_000));
    assert_eq!(sees(&world, v(13_000_000, 2_000_000, 3_000_000), v(0, 2_000_000, 0)), Some(7_341_660));
}

#[test]
fn the_lit_scene_has_a_ground_a_sphere_and_a_lamp() {
    let world = simple_light();
    assert_eq!(world.objects.len(), 3);
    checkered(&world.objects[0], -1_000_000_000, 1_000_000_000);
    checkered(&world.objects[1], 2_000_000, 2_000_000);
    match &*world.objects[2] {
        Hittable::XyRect(r) => {
            assert_eq!((r.x0.raw, r.x1.raw), (3_000_000, 5_000_000));
            assert_eq!((r.y0.raw, r.y1.raw), (1_000_000, 3_000_000));
            assert_eq!(r.k.raw, -2_000_000);
            match &*r.mp {
                Material::DiffuseLight(l) => {
                    assert!(matches!(&*l.emit, Texture::Solid(t) if t.col == v(4_000_000, 4_000_000, 4_000_000)))
                }
                _ => panic!("the rectangle is a lamp"),
            }
        }
        _ => panic!("the third thing is a rectangle"),
    }
}

#[test]
fn the_random_scene_has_a_ground_small_spheres_and_three_landmarks() {
    let world = random_scene();
    let count = world.objects.len();
    assert!(400 <= count && count <= 488);
    checkered(&world.objects[0], -1_000_000_000, 1_000_000_000);
    let mut moving = 0;
    let mut mirrors = 0;
    let mut glass = 0;
    for h in world.objects[1..count - 3].iter() {
        match &**h {
            Hittable::MovingSphere(s) => {
                moving += 1;
                assert_eq!(s.radius.raw, 200_000);
                assert!(matches!(&*s.mat_ptr, Material::Lambertian(_)));
                assert_eq!((s.time0.raw, s.time1.raw), (0, 1_000_000));
                assert_eq!(s.center0.y.raw, 200_000);
                assert_eq!((s.center1.x, s.center1.z), (s.center0.x, s.center0.z));
                assert!(200_000 <= s.center1.y.raw && s.center1.y.raw < 700_000);
            }
            Hittable::Sphere(s) => {
                assert_eq!(s.radius.raw, 200_000);
                assert_eq!(s.center.y.raw, 200_000);
                match &*s.mat_ptr {
                    Material::Metal(m) => {
                        mirrors += 1;
                        assert!(0 <= m.fuzz.raw && m.fuzz.raw < 500_000);
                        assert!(500_000 <= m.albedo.x.raw && m.albedo.x.raw < 1_000_000);
                    }
                    Material::Dielectric(d) => {
                        glass += 1;
                        assert_eq!(d.ref_idx.raw, 1_500_000);
                    }
                    _ => panic!("a small sphere at rest is a mirror or glass"),
                }
            }
            _ => panic!("a small thing is a sphere"),
        }
    }
    assert!(moving > 300);
    assert!(mirrors > 30);
    assert!(glass > 3);
    let centers: Vec<(Vec3, bool)> = world.objects[count - 3..]
        .iter()
        .map(|h| match &**h {
            Hittable::Sphere(s) => (s.center, s.radius.raw == 1_000_000),
            _ => panic!("a landmark is a sphere"),
        })
        .collect();
    assert_eq!(
        centers,
        vec![
            (v(0, 1_000_000, 0), true),
            (v(-4_000_000, 1_000_000, 0), true),
            (v(4_000_000, 1_000_000, 0), true)
        ]
    );
    assert!(matches!(&*world.objects[count - 3], Hittable::Sphere(s) if matches!(&*s.mat_ptr, Material::Dielectric(_))));
    assert!(matches!(&*world.objects[count - 2], Hittable::Sphere(s) if matches!(&*s.mat_ptr, Material::Lambertian(_))));
    assert!(matches!(&*world.objects[count - 1], Hittable::Sphere(s) if matches!(&*s.mat_ptr, Material::Metal(m) if m.fuzz.raw == 0)));
}

#[test]
fn no_small_sphere_stands_in_the_mirror() {
    for _ in 0..5 {
        let world = random_scene();
        let count = world.objects.len();
        for h in world.objects[1..count - 3].iter() {
            let center = match &**h {
                Hittable::MovingSphere(s) => s.center0,
                Hittable::Sphere(s) => s.center,
                _ => panic!("a small thing is a sphere"),
            };
            assert!(center.sub(v(4_000_000, 200_000, 0)).length().raw > 900_000);
            assert!(-11_000_000 <= center.x.raw && center.x.raw < 10_900_000);
            assert!(-11_000_000 <= center.z.raw && center.z.raw < 10_900_000);
        }
    }
}

#[test]
fn the_scenes_without_lamps_create_no_light() {
    let sky = v(700_000, 800_000, 1_000_000);
    let eye = v(13_000_000, 2_000_000, 3_000_000);
    for world in [two_spheres(), random_scene()] {
        let mut seed: i64 = 1_234;
        for _ in 0..400 {
            let mut c = [0i64; 3];
            for slot in c.iter_mut() {
                seed = (seed * 1_103_515_245 + 12_345) % 2_147_483_648;
                *slot = seed % 4_000_001 - 2_000_000;
            }
            let ray = Ray::new(eye, v(c[0], c[1], c[2]).sub(eye).unit(), Scalar::new(c[0].abs() % 1_000_000));
            let seen = get_color(&ray, sky, &world, 50);
            assert!(0 <= seen.x.raw && seen.x.raw <= 700_000);
            assert!(0 <= seen.y.raw && seen.y.raw <= 800_000);
            assert!(0 <= seen.z.raw && seen.z.raw <= 1_000_000);
        }
    }
}

#[test]
fn the_room_has_five_walls_a_lamp_and_a_cloud() {
    let world = cornellbox();
    assert_eq!(world.objects.len(), 7);
    let fixed: Vec<i64> = world.objects[..6]
        .iter()
        .map(|h| match &**h {
            Hittable::YzRect(r) => r.k.raw,
            Hittable::XzRect(r) => r.k.raw + 1,
            Hittable::XyRect(r) => r.k.raw + 2,
            _ => panic!("a wall is a rectangle"),
        })
        .collect();
    assert_eq!(fixed, vec![555_000_000, 0, 554_000_001, 1, 555_000_001, 555_000_002]);
    match &*world.objects[2] {
        Hittable::XzRect(r) => {
            assert_eq!((r.x0.raw, r.x1.raw, r.z0.raw, r.z1.raw), (213_000_000, 343_000_000, 227_000_000, 332_000_000));
            assert!(matches!(&*r.mp, Material::DiffuseLight(_)));
        }
        _ => panic!("the third thing is the lamp"),
    }
    match &*world.objects[0] {
        Hittable::YzRect(r) => match &*r.mp {
            Material::Lambertian(m) => {
                assert!(matches!(&*m.albedo, Texture::Solid(t) if t.col == v(120_000, 450_000, 150_000)))
            }
            _ => panic!("the first wall is matte"),
        },
        _ => panic!("the first thing is a wall"),
    }
    assert_eq!(leaves(&world.objects[6]), 100);
    let b = world.objects[6].bounding_box(Scalar::zero(), Scalar::one()).unwrap();
    assert!(155_000_000 <= b.mn.x.raw && b.mx.x.raw < 340_000_000);
    assert!(155_000_000 <= b.mn.y.raw && b.mx.y.raw < 340_000_000);
    assert!(155_000_000 <= b.mn.z.raw && b.mx.z.raw < 340_000_000);
}

#[test]
fn the_room_is_seen_from_its_open_side() {
    let world = cornellbox();
    let eye = v(278_000_000, 278_000_000, -800_000_000);
    assert_eq!(sees(&world, eye, v(278_000_000, 554_000_000, 278_000_000)), Some(1_112_773_103));
    assert!(sees(&world, eye, v(278_000_000, 278_000_000, -900_000_000)).is_none());
    let ray = Ray::new(eye, v(278_000_000, 554_000_000, 278_000_000).sub(eye).unit(), Scalar::zero());
    let lamp = get_color(&ray, v(0, 0, 0), &world, 50);
    assert_eq!(lamp, v(0, 0, 0));
    let into = Ray::new(v(278_000_000, 100_000_000, 278_000_000), v(0, 1_000_000, 0), Scalar::zero());
    let hit = world.hit(&into, Scalar::new(1_000), Scalar::inf()).unwrap();
    assert!(hit.t.raw <= 454_000_000);
    for _ in 0..300 {
        let c = get_color(&into, v(0, 0, 0), &world, 20);
        assert!(c.x.raw >= 0 && c.y.raw >= 0 && c.z.raw >= 0);
        assert!(c.x.raw <= 15_000_000 && c.y.raw <= 15_000_000 && c.z.raw <= 15_000_000);
    }
}

#[test]
fn each_small_sphere_is_matte_and_rising_or_a_mirror_or_glass() {
    let mut kinds = [0usize; 3];
    for _ in 0..3 {
        let world = random_scene();
        let count = world.objects.len();
        for h in world.objects[1..count - 3].iter() {
            match &**h {
                Hittable::MovingSphere(s) => {
                    kinds[0] += 1;
                    assert_eq!(s.radius.raw, 200_000);
                    assert_eq!(s.center0.y.raw, 200_000);
                    assert_eq!(s.center1.x.raw, s.center0.x.raw);
                    assert_eq!(s.center1.z.raw, s.center0.z.raw);
                    assert!(200_000 <= s.center1.y.raw && s.center1.y.raw < 700_000);
                    assert_eq!((s.time0.raw, s.time1.raw), (0, 1_000_000));
                    match &*s.mat_ptr {
                        Material::Lambertian(m) => assert!(matches!(&*m.albedo, Texture::Solid(_))),
                        _ => panic!("a moving sphere is matte"),
                    }
                }
                Hittable::Sphere(s) => {
                    assert_eq!(s.radius.raw, 200_000);
                    assert_eq!(s.center.y.raw, 200_000);
                    match &*s.mat_ptr {
                        Material::Metal(m) => {
                            kinds[1] += 1;
                            for c in [m.albedo.x.raw, m.albedo.y.raw, m.albedo.z.raw] {
                                assert!(500_000 <= c && c < 1_000_000);
                            }
                            assert!(0 <= m.fuzz.raw && m.fuzz.raw < 500_000);
                        }
                        Material::Dielectric(d) => {
                            kinds[2] += 1;
                            assert_eq!(d.ref_idx.raw, 1_500_000);
                        }
                        _ => panic!("a sphere at rest is a mirror or glass"),
                    }
                }
                _ => panic!("a small thing is a sphere"),
            }
        }
    }
    assert!(kinds[0] > kinds[1] && kinds[1] > kinds[2] && kinds[2] > 0);
}
