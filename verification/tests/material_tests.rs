use raytracer::hit::HitRecord;
use raytracer::material::{
    schlick, Dielectric, DiffuseLight, Lambertian, Material, Metal, NOMaterial, ScatterRecord,
};
use raytracer::pdf::PDF;
use raytracer::ray::Ray;
use raytracer::scalar::Scalar;
use raytracer::texture::{CheckerTexture, Texture};
use raytracer::vec3::Vec3;
use std::sync::Arc;

fn v(x: i64, y: i64, z: i64) -> Vec3 {
    Vec3::from_raw(x, y, z)
}

fn s(raw: i64) -> Scalar {
    Scalar::new(raw)
}

fn ray(o: Vec3, d: Vec3) -> Ray {
    Ray::new(o, d, s(250_000))
}

fn record(p: Vec3, nor: Vec3, front: bool) -> HitRecord {
    HitRecord {
        p,
        nor,
        t: s(2_000_000),
        u: s(100_000),
        v: s(200_000),
        nor_dir: front,
        mat_ptr: Arc::new(Material::NoMaterial(NOMaterial {})),
    }
}

fn specular(r: &ScatterRecord, ori: Vec3, dir: Vec3, atten: Vec3) {
    assert!(r.is_specular);
    assert_eq!(r.specular_ray.ori, ori);
    assert_eq!(r.specular_ray.dir, dir);
    assert_eq!(r.specular_ray.tm.raw, 0);
    assert_eq!(r.atten_col, atten);
    assert!(matches!(&*r.pdf_ptr, PDF::No(_)));
}

#[test]
fn schlick_reflectance_at_chosen_angles() {
    assert_eq!(schlick(s(500_000), s(1_500_000)).raw, 70_000);
    assert_eq!(schlick(s(1_000_000), s(1_500_000)).raw, 40_000);
    assert_eq!(schlick(s(0), s(1_500_000)).raw, 1_000_000);
    assert_eq!(schlick(s(500_000), Scalar::one().div(s(1_500_000))).raw, 70_000);
    assert_eq!(schlick(s(700_000), Scalar::one()).raw, 2_430);
    assert_eq!(schlick(s(200_000), Scalar::one()).raw, 327_680);
    assert_eq!(schlick(s(0), Scalar::one()).raw, 1_000_000);
}

#[test]
fn a_diffuse_surface_scatters_by_the_cosine_density_around_the_normal() {
    let m = Lambertian::new(v(400_000, 200_000, 100_000));
    let rec = record(v(1, 2, 3), v(0, 0, 1_000_000), true);
    let r = m.scatter(&ray(v(0, 0, 5), v(0, 0, -1_000_000)), &rec).unwrap();
    assert!(!r.is_specular);
    assert_eq!(r.atten_col, v(400_000, 200_000, 100_000));
    assert_eq!(r.specular_ray.dir, v(0, 0, 0));
    match &*r.pdf_ptr {
        PDF::Cos(c) => assert_eq!(c.uvw.axis, [v(1_000_000, 0, 0), v(0, 1_000_000, 0), v(0, 0, 1_000_000)]),
        _ => panic!("a diffuse surface hands out the cosine density"),
    }
    let through_the_enum = Material::Lambertian(m).scatter(&ray(v(0, 0, 5), v(0, 0, -1_000_000)), &rec).unwrap();
    assert!(!through_the_enum.is_specular);
    assert_eq!(through_the_enum.atten_col, v(400_000, 200_000, 100_000));
}

#[test]
fn a_diffuse_surface_takes_its_colour_from_its_texture_at_the_hit() {
    let checker = Arc::new(Texture::Checker(CheckerTexture::new(v(1, 1, 1), v(2, 2, 2))));
    let m = Lambertian::newarc(checker);
    let rec = record(v(400_000, 100_000, 100_000), v(0, 0, 1_000_000), true);
    assert_eq!(m.scatter(&ray(v(0, 0, 5), v(0, 0, -1_000_000)), &rec).unwrap().atten_col, v(1, 1, 1));
    let rec = record(v(100_000, 100_000, 100_000), v(0, 0, 1_000_000), true);
    assert_eq!(m.scatter(&ray(v(0, 0, 5), v(0, 0, -1_000_000)), &rec).unwrap().atten_col, v(2, 2, 2));
}

#[test]
fn the_scattering_density_of_a_diffuse_surface_is_the_cosine_over_pi() {
    let m = Material::Lambertian(Lambertian::new(v(400_000, 200_000, 100_000)));
    let rec = record(v(0, 0, 0), v(0, 0, 1_000_000), true);
    let incoming = ray(v(0, 0, 5), v(0, 0, -1_000_000));
    let up = ray(v(0, 0, 0), v(0, 0, 2_000_000));
    let slant = ray(v(0, 0, 0), v(1_000_000, 0, 1_000_000));
    let level = ray(v(0, 0, 0), v(1_000_000, 0, 0));
    let below = ray(v(0, 0, 0), v(1_000_000, 0, -1_000_000));
    assert_eq!(m.scattering_pdf(&incoming, &rec, &up).raw, 318_309);
    assert_eq!(m.scattering_pdf(&incoming, &rec, &slant).raw, 225_079);
    assert_eq!(m.scattering_pdf(&incoming, &rec, &level).raw, 0);
    assert_eq!(m.scattering_pdf(&incoming, &rec, &below).raw, 0);
}

#[test]
fn every_other_material_has_no_scattering_density() {
    let rec = record(v(0, 0, 0), v(0, 0, 1_000_000), true);
    let incoming = ray(v(0, 0, 5), v(0, 0, -1_000_000));
    let up = ray(v(0, 0, 0), v(0, 0, 2_000_000));
    for m in [
        Material::Metal(Metal::new(v(1, 2, 3), s(0))),
        Material::Dielectric(Dielectric::new(s(1_500_000))),
        Material::DiffuseLight(DiffuseLight::new(v(4, 4, 4))),
    ] {
        assert_eq!(m.scattering_pdf(&incoming, &rec, &up).raw, 0);
    }
}

#[test]
fn the_fuzz_of_a_mirror_is_brought_between_zero_and_one() {
    assert_eq!(Metal::new(v(1, 2, 3), s(300_000)).fuzz.raw, 300_000);
    assert_eq!(Metal::new(v(1, 2, 3), s(1_000_001)).fuzz.raw, 1_000_000);
    assert_eq!(Metal::new(v(1, 2, 3), s(70_000_000)).fuzz.raw, 1_000_000);
    assert_eq!(Metal::new(v(1, 2, 3), s(-1)).fuzz.raw, 0);
    assert_eq!(Metal::new(v(1, 2, 3), s(0)).fuzz.raw, 0);
    assert_eq!(Metal::new(v(1, 2, 3), s(1_000_000)).albedo, v(1, 2, 3));
}

#[test]
fn a_mirror_reflects_about_the_normal_and_blurs_by_its_fuzz() {
    let m = Metal::new(v(700_000, 600_000, 500_000), s(500_000));
    let rec = record(v(7, 8, 9), v(0, 1_000_000, 0), true);
    let incoming = ray(v(0, 5, 0), v(1_000_000, -1_000_000, 0));
    let r = m.scatter_with(&incoming, &rec, v(0, 0, 0)).unwrap();
    specular(&r, v(7, 8, 9), v(707_107, 707_107, 0), v(700_000, 600_000, 500_000));
    let r = m.scatter_with(&incoming, &rec, v(100_000, -200_000, 300_000)).unwrap();
    specular(&r, v(7, 8, 9), v(757_107, 607_107, 150_000), v(700_000, 600_000, 500_000));
}

#[test]
fn a_polished_mirror_always_reflects_the_same_way() {
    let m = Material::Metal(Metal::new(v(700_000, 600_000, 500_000), s(0)));
    let rec = record(v(7, 8, 9), v(0, 1_000_000, 0), true);
    let incoming = ray(v(0, 5, 0), v(1_000_000, -1_000_000, 0));
    for _ in 0..50 {
        let r = m.scatter(&incoming, &rec).unwrap();
        specular(&r, v(7, 8, 9), v(707_107, 707_107, 0), v(700_000, 600_000, 500_000));
    }
}

#[test]
fn a_rough_mirror_strays_from_the_reflection_by_less_than_its_fuzz() {
    let m = Material::Metal(Metal::new(v(700_000, 600_000, 500_000), s(1_000_000)));
    let rec = record(v(7, 8, 9), v(0, 1_000_000, 0), true);
    let incoming = ray(v(0, 5, 0), v(1_000_000, -1_000_000, 0));
    let mut strayed = 0;
    for _ in 0..200 {
        let r = m.scatter(&incoming, &rec).unwrap();
        assert!(r.is_specular);
        let offset = r.specular_ray.dir.sub(v(707_107, 707_107, 0));
        assert!(offset.length().raw < 1_000_000);
        if offset != v(0, 0, 0) {
            strayed += 1;
        }
    }
    assert!(strayed > 150);
}

#[test]
fn a_clear_medium_reflects_below_the_reflectance_and_refracts_from_it_on() {
    let m = Dielectric::new(s(1_500_000));
    assert_eq!(m.ref_idx.raw, 1_500_000);
    let rec = record(v(7, 8, 9), v(0, 0, 1_000_000), true);
    let incoming = ray(v(0, 0, 5), v(0, 0, -1_000_000));
    let r = m.scatter_with(&incoming, &rec, s(0)).unwrap();
    specular(&r, v(7, 8, 9), v(0, 0, 1_000_000), v(1_000_000, 1_000_000, 1_000_000));
    let r = m.scatter_with(&incoming, &rec, s(39_999)).unwrap();
    specular(&r, v(7, 8, 9), v(0, 0, 1_000_000), v(1_000_000, 1_000_000, 1_000_000));
    let r = m.scatter_with(&incoming, &rec, s(40_000)).unwrap();
    specular(&r, v(7, 8, 9), v(0, 0, -1_000_000), v(1_000_000, 1_000_000, 1_000_000));
}

#[test]
fn a_clear_medium_bends_an_entering_ray_toward_the_normal() {
    let m = Dielectric::new(s(1_500_000));
    let rec = record(v(7, 8, 9), v(0, 0, 1_000_000), true);
    let incoming = ray(v(0, 0, 5), v(1_000_000, 0, -1_000_000));
    let r = m.scatter_with(&incoming, &rec, s(500_000)).unwrap();
    specular(&r, v(7, 8, 9), v(471_404, 0, -881_917), v(1_000_000, 1_000_000, 1_000_000));
    let r = m.scatter_with(&incoming, &rec, s(42_067)).unwrap();
    specular(&r, v(7, 8, 9), v(707_107, 0, 707_107), v(1_000_000, 1_000_000, 1_000_000));
    let r = m.scatter_with(&incoming, &rec, s(42_068)).unwrap();
    specular(&r, v(7, 8, 9), v(471_404, 0, -881_917), v(1_000_000, 1_000_000, 1_000_000));
}

#[test]
fn a_leaving_ray_beyond_the_critical_angle_is_reflected_whatever_the_sample() {
    let m = Dielectric::new(s(1_500_000));
    let rec = record(v(7, 8, 9), v(0, 0, 1_000_000), false);
    let incoming = ray(v(0, 0, 5), v(1_000_000, 0, -1_000_000));
    for sample in [0, 500_000, 999_999] {
        let r = m.scatter_with(&incoming, &rec, s(sample)).unwrap();
        specular(&r, v(7, 8, 9), v(707_107, 0, 707_107), v(1_000_000, 1_000_000, 1_000_000));
    }
    let steeper = ray(v(0, 0, 5), v(500_000, 0, -1_000_000));
    let r = m.scatter_with(&steeper, &rec, s(990_000)).unwrap();
    specular(&r, v(7, 8, 9), v(670_819, 0, -741_621), v(1_000_000, 1_000_000, 1_000_000));
}

#[test]
fn a_medium_with_the_index_of_its_surroundings_does_not_bend_the_refracted_ray() {
    let m = Dielectric::new(Scalar::one());
    for front in [true, false] {
        let rec = record(v(7, 8, 9), v(0, 0, 1_000_000), front);
        let head_on = ray(v(0, 0, 5), v(0, 0, -3_000_000));
        let r = m.scatter_with(&head_on, &rec, s(0)).unwrap();
        specular(&r, v(7, 8, 9), v(0, 0, -1_000_000), v(1_000_000, 1_000_000, 1_000_000));
        let slant = ray(v(0, 0, 5), v(1_000_000, 0, -1_000_000));
        let r = m.scatter_with(&slant, &rec, s(500_000)).unwrap();
        specular(&r, v(7, 8, 9), v(707_107, 0, -707_106), v(1_000_000, 1_000_000, 1_000_000));
        let flat = ray(v(0, 0, 5), v(3_000_000, 1_000_000, -1_000_000));
        let r = m.scatter_with(&flat, &rec, s(500_000)).unwrap();
        let unit = v(3_000_000, 1_000_000, -1_000_000).unit();
        assert_eq!(unit, v(904_534, 301_511, -301_511));
        specular(&r, v(7, 8, 9), v(904_534, 301_511, -301_514), v(1_000_000, 1_000_000, 1_000_000));
        let r = m.scatter_with(&flat, &rec, s(166_262)).unwrap();
        assert_eq!(r.specular_ray.dir.z.raw, 301_511);
    }
}

#[test]
fn a_medium_with_the_index_of_its_surroundings_never_reflects_for_want_of_a_refracted_ray() {
    let m = Dielectric::new(Scalar::one());
    let mut seed: i64 = 31;
    let mut compared = 0;
    for _ in 0..2_000 {
        let mut c = [0i64; 6];
        for slot in c.iter_mut() {
            seed = (seed * 1_103_515_245 + 12_345) % 2_147_483_648;
            *slot = seed % 2_000_001 - 1_000_000;
        }
        let incoming = ray(v(0, 0, 0), v(c[3], c[4], c[5]));
        let unit = incoming.dir.unit();
        let mut nor = v(c[0], c[1], c[2]).unit();
        if unit.dot(nor).raw > 0 {
            nor = nor.neg();
        }
        if unit.neg().dot(nor).raw <= 100_000 {
            continue;
        }
        compared += 1;
        let rec = record(v(0, 0, 0), nor, c[0] > 0);
        let r = m.scatter_with(&incoming, &rec, s(999_999)).unwrap();
        let kept = r.specular_ray.dir;
        assert!(unit.dot(kept).raw > 0);
        assert!((kept.x.raw - unit.x.raw).abs() <= 400);
        assert!((kept.y.raw - unit.y.raw).abs() <= 400);
        assert!((kept.z.raw - unit.z.raw).abs() <= 400);
    }
    assert!(compared > 1_500);
}

#[test]
fn a_random_scatter_of_a_clear_medium_is_one_of_the_two_rays() {
    let m = Material::Dielectric(Dielectric::new(s(1_500_000)));
    let rec = record(v(7, 8, 9), v(0, 0, 1_000_000), true);
    let incoming = ray(v(0, 0, 5), v(1_000_000, 0, -200_000));
    let mut reflected = 0;
    let mut refracted = 0;
    for _ in 0..2_000 {
        let r = m.scatter(&incoming, &rec).unwrap();
        assert!(r.is_specular);
        assert_eq!(r.atten_col, v(1_000_000, 1_000_000, 1_000_000));
        if r.specular_ray.dir.z.raw > 0 {
            reflected += 1;
        } else {
            refracted += 1;
        }
    }
    assert!(reflected > 300);
    assert!(refracted > 800);
}

#[test]
fn a_light_emits_from_its_front_face_only_and_never_scatters() {
    let light = Material::DiffuseLight(DiffuseLight::new(v(4_000_000, 4_000_000, 4_000_000)));
    let incoming = ray(v(0, 0, 5), v(0, 0, -1_000_000));
    let front = record(v(0, 0, 0), v(0, 0, 1_000_000), true);
    let back = record(v(0, 0, 0), v(0, 0, 1_000_000), false);
    assert_eq!(light.emitted(&incoming, &front, s(0), s(0), v(0, 0, 0)), v(4_000_000, 4_000_000, 4_000_000));
    assert_eq!(light.emitted(&incoming, &back, s(0), s(0), v(0, 0, 0)), v(0, 0, 0));
    assert!(light.scatter(&incoming, &front).is_none());
    assert!(light.scatter(&incoming, &back).is_none());
    let checker = Arc::new(Texture::Checker(CheckerTexture::new(v(1, 1, 1), v(2, 2, 2))));
    let patterned = DiffuseLight::newarc(checker);
    assert_eq!(patterned.emitted(&incoming, &front, s(0), s(0), v(400_000, 100_000, 100_000)), v(1, 1, 1));
    assert_eq!(patterned.emitted(&incoming, &front, s(0), s(0), v(100_000, 100_000, 100_000)), v(2, 2, 2));
}

#[test]
fn every_other_material_emits_nothing() {
    let incoming = ray(v(0, 0, 5), v(0, 0, -1_000_000));
    let front = record(v(0, 0, 0), v(0, 0, 1_000_000), true);
    for m in [
        Material::Lambertian(Lambertian::new(v(1, 2, 3))),
        Material::Metal(Metal::new(v(1, 2, 3), s(0))),
        Material::Dielectric(Dielectric::new(s(1_500_000))),
    ] {
        assert_eq!(m.emitted(&incoming, &front, s(0), s(0), v(0, 0, 0)), v(0, 0, 0));
    }
}
