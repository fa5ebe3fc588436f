//! The integrator: how much light comes back along a ray.
use vstd::prelude::*;
use crate::facing::lemma_scan_source;
use crate::hit::{near, spec_near, HitRecord, Hittable, HittableList};
use crate::material::{Lambertian, Material, ScatterRecord};
use crate::pdf::lemma_sampled_is_real;
use crate::ray::Ray;
use crate::rect::lemma_panel_hit;
use crate::scalar::{lemma_div_at_most_one, lemma_mul_at_most, Scalar};
use crate::texture::lemma_dim_value;
use crate::sphere::lemma_sphere_hit;
use crate::vec3::{lemma_dot_commutative, Vec3};

verus! {

/// The light that leaves a surface along a ray: what the surface emits,
/// and, unless the density `sampling` with which the scattered direction
/// was drawn is not positive, the light `incoming` that comes back along
/// the scattered ray, filtered by `atten_col` and weighted by the density
/// `scattering` with which the surface scatters in that direction over
/// `sampling`.
pub open spec fn spec_shade(
    emitted: Vec3,
    atten_col: Vec3,
    scattering: Scalar,
    sampling: Scalar,
    incoming: Vec3,
) -> Vec3 {
    if sampling.raw <= 0 {
        emitted
    } else {
        emitted.add(atten_col.scale(scattering).div(sampling).change(incoming))
    }
}

/// The light that leaves a surface along a ray.
#[verifier::when_used_as_spec(spec_shade)]
pub fn shade(emitted: Vec3, atten_col: Vec3, scattering: Scalar, sampling: Scalar, incoming: Vec3)
    -> (r: Vec3)
    ensures
        r == spec_shade(emitted, atten_col, scattering, sampling, incoming),
{
    if sampling.raw <= 0 {
        emitted
    } else {
        emitted.add(atten_col.scale(scattering).div(sampling).change(incoming))
    }
}

/// A surface that emits nothing and filters by a colour between black and
/// white sends out no more light than comes in, where it scatters toward
/// the drawn direction no more densely than that direction was drawn.
pub proof fn lemma_shade_no_gain(
    atten_col: Vec3,
    scattering: Scalar,
    sampling: Scalar,
    incoming: Vec3,
    bound: Vec3,
)
    requires
        atten_col.within(Vec3::ones()),
        0 <= scattering.raw <= sampling.raw,
        incoming.within(bound),
    ensures
        spec_shade(Vec3::zero(), atten_col, scattering, sampling, incoming).within(bound),
{
    if sampling.raw > 0 {
        lemma_mul_at_most(atten_col.x, scattering);
        lemma_mul_at_most(atten_col.y, scattering);
        lemma_mul_at_most(atten_col.z, scattering);
        let weighted = atten_col.scale(scattering);
        lemma_div_at_most_one(weighted.x, sampling);
        lemma_div_at_most_one(weighted.y, sampling);
        lemma_div_at_most_one(weighted.z, sampling);
        let weight = weighted.div(sampling);
        lemma_mul_at_most(weight.x, incoming.x);
        lemma_mul_at_most(weight.y, incoming.y);
        lemma_mul_at_most(weight.z, incoming.z);
    }
}

/// The ray that leaves the hit `rec` of `this_ray` along `dir`.
pub open spec fn spec_scattered(this_ray: &Ray, rec: &HitRecord, dir: Vec3) -> Ray {
    Ray { ori: rec.p, dir, tm: this_ray.tm }
}

/// `r` may be the light that a path finds after the material made `srec`
/// of the hit `rec`: for a reflection or refraction, what the surface
/// emits plus the filtered light that some path along the leaving ray
/// finds; else, for some direction that the density may draw, what
/// `spec_shade` makes of the light that some path along it finds.
#[verifier::opaque]
pub open spec fn can_continue(
    world: &HittableList,
    this_ray: &Ray,
    background: Vec3,
    depth: int,
    rec: &HitRecord,
    srec: &ScatterRecord,
    r: Vec3,
) -> bool
    decreases depth, 0int,
{
    let emitted = rec.mat_ptr.spec_emitted(this_ray, rec, rec.u, rec.v, rec.p);
    if depth <= 0 {
        false
    } else if srec.is_specular {
        exists|incoming: Vec3|
            can_estimate(world, &srec.specular_ray, background, depth - 1, incoming) && r
                == emitted.add(#[trigger] srec.atten_col.change(incoming))
    } else {
        exists|dir: Vec3| #[trigger]
            srec.pdf_ptr.can_generate(dir) && {
                let scattered = spec_scattered(this_ray, rec, dir);
                let sampling = srec.pdf_ptr.spec_value(dir);
                let scattering = rec.mat_ptr.spec_scattering_pdf(this_ray, rec, &scattered);
                if sampling.raw <= 0 {
                    r == emitted
                } else {
                    exists|incoming: Vec3|
                        can_estimate(world, &scattered, background, depth - 1, incoming) && r
                            == #[trigger] spec_shade(
                            emitted,
                            srec.atten_col,
                            scattering,
                            sampling,
                            incoming,
                        )
                }
            }
    }
}

/// `r` may be the light that a path of at most `depth` segments finds
/// along `this_ray`: black if no segment is left; the background if the
/// ray hits nothing beyond a thousandth; what the surface emits if the
/// material absorbs the ray; and what a path finds that goes on as the
/// material may scatter the ray.
#[verifier::opaque]
pub open spec fn can_estimate(
    world: &HittableList,
    this_ray: &Ray,
    background: Vec3,
    depth: int,
    r: Vec3,
) -> bool
    decreases depth, 1int,
{
    if depth <= 0 {
        r == Vec3::zero()
    } else {
        match world.spec_hit(this_ray, spec_near(), Scalar::inf()) {
            None => r == background,
            Some(rec) => exists|srec: Option<ScatterRecord>| #[trigger]
                rec.mat_ptr.can_scatter(this_ray, &rec, srec) && match srec {
                    None => r == rec.mat_ptr.spec_emitted(this_ray, &rec, rec.u, rec.v, rec.p),
                    Some(s) => can_continue(world, this_ray, background, depth, &rec, &s, r),
                },
        }
    }
}

/// Every hit on a thing carries the material of one of its surfaces: what
/// holds of all of these holds of the material of the hit.
pub proof fn lemma_hit_material(
    h: &Hittable,
    p: spec_fn(Material) -> bool,
    this_ray: &Ray,
    tmn: Scalar,
    tmx: Scalar,
)
    requires
        h.every_material(p),
    ensures
        h.spec_hit(this_ray, tmn, tmx) matches Some(rec) ==> p(*rec.mat_ptr),
    decreases h,
{
    match h {
        Hittable::Sphere(s) => {
            lemma_sphere_hit(this_ray, s.center, s.radius, s.mat_ptr, tmn, tmx, tmx);
        },
        Hittable::MovingSphere(s) => {
            lemma_sphere_hit(
                this_ray,
                s.spec_center(this_ray.tm),
                s.radius,
                s.mat_ptr,
                tmn,
                tmx,
                tmx,
            );
        },
        Hittable::XyRect(s) => {
            lemma_panel_hit(&s.spec_panel(), this_ray, s.mp, tmn, tmx, tmx);
        },
        Hittable::XzRect(s) => {
            lemma_panel_hit(&s.spec_panel(), this_ray, s.mp, tmn, tmx, tmx);
        },
        Hittable::YzRect(s) => {
            lemma_panel_hit(&s.spec_panel(), this_ray, s.mp, tmn, tmx, tmx);
        },
        Hittable::Bbox(s) => {
            let objects = s.sides.objects@;
            assert(h.spec_hit(this_ray, tmn, tmx) == s.spec_hit(this_ray, tmn, tmx));
            assert(s.spec_hit(this_ray, tmn, tmx) == s.sides.spec_hit(this_ray, tmn, tmx));
            if h.spec_hit(this_ray, tmn, tmx) is Some {
                let (k, bound) = lemma_scan_source(
                    objects,
                    objects.len() as int,
                    this_ray,
                    tmn,
                    tmx,
                );
                assert(decreases_to!(h => s));
                assert(decreases_to!(s => s.sides));
                assert(decreases_to!(s.sides => s.sides.objects));
                assert(decreases_to!(s.sides.objects => s.sides.objects[k]));
                lemma_hit_material(&*objects[k], p, this_ray, tmn, bound);
            }
        },
        Hittable::Translate(s) => {
            lemma_hit_material(&*s.ptr, p, &s.spec_moved_ray(this_ray), tmn, tmx);
        },
        Hittable::Rotatey(s) => {
            lemma_hit_material(&*s.ptr, p, &s.spec_rotated_ray(this_ray), tmn, tmx);
        },
        Hittable::FlipFace(s) => {
            lemma_hit_material(&*s.ptr, p, this_ray, tmn, tmx);
            assert(h.spec_hit(this_ray, tmn, tmx) == s.spec_hit(this_ray, tmn, tmx));
        },
        Hittable::List(s) => {
            let objects = s.objects@;
            assert(h.spec_hit(this_ray, tmn, tmx) == s.spec_hit(this_ray, tmn, tmx));
            if h.spec_hit(this_ray, tmn, tmx) is Some {
                let (k, bound) = lemma_scan_source(
                    objects,
                    objects.len() as int,
                    this_ray,
                    tmn,
                    tmx,
                );
                assert(decreases_to!(h => s));
                assert(decreases_to!(s => s.objects));
                assert(decreases_to!(s.objects => s.objects[k]));
                lemma_hit_material(&*objects[k], p, this_ray, tmn, bound);
            }
        },
        Hittable::Bvh(s) => {
            assert(h.spec_hit(this_ray, tmn, tmx) == s.spec_hit(this_ray, tmn, tmx));
            lemma_hit_material(&*s.left, p, this_ray, tmn, tmx);
            lemma_hit_material(&*s.right, p, this_ray, tmn, tmx);
            if s.left.spec_hit(this_ray, tmn, tmx) is Some {
                lemma_hit_material(
                    &*s.right,
                    p,
                    this_ray,
                    tmn,
                    s.left.spec_hit(this_ray, tmn, tmx)->0.t,
                );
            }
        },
    }
}

/// Every hit on a list carries the material of a surface of one of its
/// members.
pub proof fn lemma_list_hit_material(
    world: &HittableList,
    p: spec_fn(Material) -> bool,
    this_ray: &Ray,
    tmn: Scalar,
    tmx: Scalar,
)
    requires
        forall|i: int|
            0 <= i < world.objects@.len() ==> (#[trigger] world.objects@[i]).every_material(p),
    ensures
        world.spec_hit(this_ray, tmn, tmx) matches Some(rec) ==> p(*rec.mat_ptr),
{
    let objects = world.objects@;
    if world.spec_hit(this_ray, tmn, tmx) is Some {
        let (k, bound) = lemma_scan_source(objects, objects.len() as int, this_ray, tmn, tmx);
        lemma_hit_material(&*objects[k], p, this_ray, tmn, bound);
    }
}

/// A path with no segment left finds no light.
pub proof fn lemma_estimate_floor(world: &HittableList, this_ray: &Ray, background: Vec3, depth: int)
    requires
        depth <= 0,
    ensures
        can_estimate(world, this_ray, background, depth, Vec3::zero()),
{
    reveal(can_continue);
    reveal(can_estimate);
}

/// A path whose ray hits nothing finds the background.
pub proof fn lemma_estimate_miss(world: &HittableList, this_ray: &Ray, background: Vec3, depth: int)
    requires
        depth > 0,
        world.spec_hit(this_ray, spec_near(), Scalar::inf()) is None,
    ensures
        can_estimate(world, this_ray, background, depth, background),
{
    reveal(can_continue);
    reveal(can_estimate);
}

/// A path whose ray is absorbed finds what the surface emits.
pub proof fn lemma_estimate_absorbed(
    world: &HittableList,
    this_ray: &Ray,
    background: Vec3,
    depth: int,
    rec: &HitRecord,
)
    requires
        depth > 0,
        world.spec_hit(this_ray, spec_near(), Scalar::inf()) == Some(*rec),
        rec.mat_ptr.can_scatter(this_ray, rec, None),
    ensures
        can_estimate(
            world,
            this_ray,
            background,
            depth,
            rec.mat_ptr.spec_emitted(this_ray, rec, rec.u, rec.v, rec.p),
        ),
{
    reveal(can_continue);
    reveal(can_estimate);
}

/// A path whose ray is scattered finds what it finds as it goes on.
pub proof fn lemma_estimate_scattered(
    world: &HittableList,
    this_ray: &Ray,
    background: Vec3,
    depth: int,
    rec: &HitRecord,
    srec: &ScatterRecord,
    r: Vec3,
)
    requires
        depth > 0,
        world.spec_hit(this_ray, spec_near(), Scalar::inf()) == Some(*rec),
        rec.mat_ptr.can_scatter(this_ray, rec, Some(*srec)),
        can_continue(world, this_ray, background, depth, rec, srec, r),
    ensures
        can_estimate(world, this_ray, background, depth, r),
{
    reveal(can_continue);
    reveal(can_estimate);
}

/// A path that goes on along a reflected or refracted ray finds what the
/// surface emits plus the filtered light that it finds along that ray.
pub proof fn lemma_continue_specular(
    world: &HittableList,
    this_ray: &Ray,
    background: Vec3,
    depth: int,
    rec: &HitRecord,
    srec: &ScatterRecord,
    incoming: Vec3,
)
    requires
        depth > 0,
        srec.is_specular,
        can_estimate(world, &srec.specular_ray, background, depth - 1, incoming),
    ensures
        can_continue(
            world,
            this_ray,
            background,
            depth,
            rec,
            srec,
            rec.mat_ptr.spec_emitted(this_ray, rec, rec.u, rec.v, rec.p).add(
                srec.atten_col.change(incoming),
            ),
        ),
{
    reveal(can_continue);
    reveal(can_estimate);
}

/// A path that goes on along a direction that the density draws with a
/// density that is not positive finds what the surface emits.
pub proof fn lemma_continue_unsampled(
    world: &HittableList,
    this_ray: &Ray,
    background: Vec3,
    depth: int,
    rec: &HitRecord,
    srec: &ScatterRecord,
    dir: Vec3,
)
    requires
        depth > 0,
        !srec.is_specular,
        srec.pdf_ptr.can_generate(dir),
        srec.pdf_ptr.spec_value(dir).raw <= 0,
    ensures
        can_continue(
            world,
            this_ray,
            background,
            depth,
            rec,
            srec,
            rec.mat_ptr.spec_emitted(this_ray, rec, rec.u, rec.v, rec.p),
        ),
{
    reveal(can_continue);
    reveal(can_estimate);
}

/// A path that goes on along a direction that the density draws finds what
/// `spec_shade` makes of the light that it finds along that direction.
pub proof fn lemma_continue_sampled(
    world: &HittableList,
    this_ray: &Ray,
    background: Vec3,
    depth: int,
    rec: &HitRecord,
    srec: &ScatterRecord,
    dir: Vec3,
    incoming: Vec3,
)
    requires
        depth > 0,
        !srec.is_specular,
        srec.pdf_ptr.can_generate(dir),
        srec.pdf_ptr.spec_value(dir).raw > 0,
        can_estimate(world, &spec_scattered(this_ray, rec, dir), background, depth - 1, incoming),
    ensures
        can_continue(
            world,
            this_ray,
            background,
            depth,
            rec,
            srec,
            spec_shade(
                rec.mat_ptr.spec_emitted(this_ray, rec, rec.u, rec.v, rec.p),
                srec.atten_col,
                rec.mat_ptr.spec_scattering_pdf(this_ray, rec, &spec_scattered(this_ray, rec, dir)),
                srec.pdf_ptr.spec_value(dir),
                incoming,
            ),
        ),
{
    reveal(can_continue);
    reveal(can_estimate);
}

/// The scene creates no light: no surface in it is a lamp, and none
/// reflects more than it receives.
pub open spec fn is_dim(world: &HittableList) -> bool {
    forall|i: int| 0 <= i < world.objects@.len() ==> (#[trigger] world.objects@[i]).is_dim()
}

/// A path in a scene that creates no light brings back no more light from
/// a matte surface than the background gives.
proof fn lemma_matte_creates_no_light(
    world: &HittableList,
    this_ray: &Ray,
    background: Vec3,
    depth: int,
    rec: &HitRecord,
    m: &Lambertian,
    srec: &ScatterRecord,
    r: Vec3,
)
    requires
        is_dim(world),
        Vec3::zero().within(background),
        m.albedo.is_dim(),
        *rec.mat_ptr == Material::Lambertian(*m),
        *srec == m.spec_scatter(this_ray, rec),
        can_continue(world, this_ray, background, depth, rec, srec, r),
    ensures
        r.within(background),
    decreases depth, 0int,
{
    reveal(can_continue);
    reveal(can_estimate);
    let atten = srec.atten_col;
    lemma_dim_value(&*m.albedo, rec.u, rec.v, rec.p);
    let dir = choose|dir: Vec3| #[trigger]
        srec.pdf_ptr.can_generate(dir) && {
            let scattered = spec_scattered(this_ray, rec, dir);
            let sampling = srec.pdf_ptr.spec_value(dir);
            let scattering = rec.mat_ptr.spec_scattering_pdf(this_ray, rec, &scattered);
            if sampling.raw <= 0 {
                r == rec.mat_ptr.spec_emitted(this_ray, rec, rec.u, rec.v, rec.p)
            } else {
                exists|incoming: Vec3|
                    can_estimate(world, &scattered, background, depth - 1, incoming) && r
                        == #[trigger] spec_shade(
                        rec.mat_ptr.spec_emitted(this_ray, rec, rec.u, rec.v, rec.p),
                        srec.atten_col,
                        scattering,
                        sampling,
                        incoming,
                    )
            }
        };
    let scattered = spec_scattered(this_ray, rec, dir);
    let sampling = srec.pdf_ptr.spec_value(dir);
    let scattering = rec.mat_ptr.spec_scattering_pdf(this_ray, rec, &scattered);
    if sampling.raw > 0 {
        lemma_dot_commutative(rec.nor.unit(), dir.unit());
        assert(scattering == sampling);
        let incoming = choose|incoming: Vec3|
            can_estimate(world, &scattered, background, depth - 1, incoming) && r
                == #[trigger] spec_shade(Vec3::zero(), atten, scattering, sampling, incoming);
        lemma_no_light_created(world, &scattered, background, depth - 1, incoming);
        lemma_shade_no_gain(atten, scattering, sampling, incoming, background);
    }
}

/// A path in a scene that creates no light brings back no more light along
/// a reflected or refracted ray than the background gives, where the colour
/// that filters it lies between black and white.
proof fn lemma_specular_creates_no_light(
    world: &HittableList,
    this_ray: &Ray,
    background: Vec3,
    depth: int,
    rec: &HitRecord,
    srec: &ScatterRecord,
    r: Vec3,
)
    requires
        is_dim(world),
        Vec3::zero().within(background),
        rec.mat_ptr.spec_emitted(this_ray, rec, rec.u, rec.v, rec.p) == Vec3::zero(),
        srec.is_specular,
        srec.atten_col.within(Vec3::ones()),
        can_continue(world, this_ray, background, depth, rec, srec, r),
    ensures
        r.within(background),
    decreases depth, 0int,
{
    reveal(can_continue);
    reveal(can_estimate);
    let incoming = choose|incoming: Vec3|
        can_estimate(world, &srec.specular_ray, background, depth - 1, incoming) && r
            == Vec3::zero().add(#[trigger] srec.atten_col.change(incoming));
    lemma_no_light_created(world, &srec.specular_ray, background, depth - 1, incoming);
    lemma_mul_at_most(srec.atten_col.x, incoming.x);
    lemma_mul_at_most(srec.atten_col.y, incoming.y);
    lemma_mul_at_most(srec.atten_col.z, incoming.z);
}

/// No light is created: in a scene without lamps, whose matte surfaces and
/// mirrors have colours between black and white, no path brings back more
/// light than the background gives, in any channel.
pub proof fn lemma_no_light_created(
    world: &HittableList,
    this_ray: &Ray,
    background: Vec3,
    depth: int,
    r: Vec3,
)
    requires
        is_dim(world),
        Vec3::zero().within(background),
        can_estimate(world, this_ray, background, depth, r),
    ensures
        r.within(background),
    decreases depth, 1int,
{
    reveal(can_estimate);
    reveal(can_continue);
    if depth > 0 {
        match world.spec_hit(this_ray, spec_near(), Scalar::inf()) {
            None => {},
            Some(rec) => {
                lemma_list_hit_material(
                    world,
                    Material::that_is_dim(),
                    this_ray,
                    spec_near(),
                    Scalar::inf(),
                );
                assert(rec.mat_ptr.is_dim());
                let srec = choose|srec: Option<ScatterRecord>| #[trigger]
                    rec.mat_ptr.can_scatter(this_ray, &rec, srec) && match srec {
                        None => r == rec.mat_ptr.spec_emitted(this_ray, &rec, rec.u, rec.v, rec.p),
                        Some(s) => can_continue(world, this_ray, background, depth, &rec, &s, r),
                    };
                reveal(Material::can_scatter);
                match srec {
                    None => {},
                    Some(s) => {
                        match &*rec.mat_ptr {
                            Material::Lambertian(m) => {
                                lemma_matte_creates_no_light(
                                    world,
                                    this_ray,
                                    background,
                                    depth,
                                    &rec,
                                    m,
                                    &s,
                                    r,
                                );
                            },
                            Material::Metal(m) => {
                                lemma_specular_creates_no_light(
                                    world,
                                    this_ray,
                                    background,
                                    depth,
                                    &rec,
                                    &s,
                                    r,
                                );
                            },
                            Material::Dielectric(m) => {
                                lemma_specular_creates_no_light(
                                    world,
                                    this_ray,
                                    background,
                                    depth,
                                    &rec,
                                    &s,
                                    r,
                                );
                            },
                            _ => {},
                        }
                    },
                }
            },
        }
    }
}

/// Estimates the light that comes back along `this_ray` from the scene
/// `world` before the uniform light `background`, by following one random
/// path of at most `depth` segments. In a scene that creates no light, the
/// estimate does not exceed the background in any channel.
pub fn get_color(this_ray: &Ray, background: Vec3, world: &HittableList, depth: i32) -> (r: Vec3)
    requires
        forall|i: int|
            0 <= i < world.objects@.len() ==> (#[trigger] world.objects@[i]).has_materials(),
    ensures
        can_estimate(world, this_ray, background, depth as int, r),
        is_dim(world) && Vec3::zero().within(background) ==> r.within(background),
{
    let r = follow(this_ray, background, world, depth);
    proof {
        if is_dim(world) && Vec3::zero().within(background) {
            lemma_no_light_created(world, this_ray, background, depth as int, r);
        }
    }
    r
}

/// Follows one random path of at most `depth` segments along `this_ray`.
fn follow(this_ray: &Ray, background: Vec3, world: &HittableList, depth: i32) -> (r: Vec3)
    requires
        forall|i: int|
            0 <= i < world.objects@.len() ==> (#[trigger] world.objects@[i]).has_materials(),
    ensures
        can_estimate(world, this_ray, background, depth as int, r),
    decreases depth,
{
    if depth <= 0 {
        proof {
            lemma_estimate_floor(world, this_ray, background, depth as int);
        }
        return Vec3::zero();
    }
    proof {
        lemma_list_hit_material(world, Material::that_is_real(), this_ray, spec_near(), Scalar::inf());
    }
    if let Some(rec) = world.hit(this_ray, near(), Scalar::inf()) {
        let emitted = rec.mat_ptr.emitted(this_ray, &rec, rec.u, rec.v, rec.p);
        let scattered_as = rec.mat_ptr.scatter(this_ray, &rec);
        if let Some(srec) = scattered_as {
            if srec.is_specular {
                let incoming = follow(&srec.specular_ray, background, world, depth - 1);
                proof {
                    lemma_continue_specular(
                        world,
                        this_ray,
                        background,
                        depth as int,
                        &rec,
                        &srec,
                        incoming,
                    );
                    lemma_estimate_scattered(
                        world,
                        this_ray,
                        background,
                        depth as int,
                        &rec,
                        &srec,
                        emitted.add(srec.atten_col.change(incoming)),
                    );
                }
                emitted.add(srec.atten_col.change(incoming))
            } else {
                proof {
                    lemma_sampled_is_real(&*srec.pdf_ptr);
                }
                let dir = srec.pdf_ptr.generate();
                let scattered = Ray::new(rec.p, dir, this_ray.tm);
                let sampling = srec.pdf_ptr.value(dir);
                if sampling.raw <= 0 {
                    proof {
                        lemma_continue_unsampled(
                            world,
                            this_ray,
                            background,
                            depth as int,
                            &rec,
                            &srec,
                            dir,
                        );
                        lemma_estimate_scattered(
                            world,
                            this_ray,
                            background,
                            depth as int,
                            &rec,
                            &srec,
                            emitted,
                        );
                    }
                    return emitted;
                }
                let scattering = rec.mat_ptr.scattering_pdf(this_ray, &rec, &scattered);
                let incoming = follow(&scattered, background, world, depth - 1);
                let r = shade(emitted, srec.atten_col, scattering, sampling, incoming);
                proof {
                    lemma_continue_sampled(
                        world,
                        this_ray,
                        background,
                        depth as int,
                        &rec,
                        &srec,
                        dir,
                        incoming,
                    );
                    lemma_estimate_scattered(
                        world,
                        this_ray,
                        background,
                        depth as int,
                        &rec,
                        &srec,
                        r,
                    );
                }
                r
            }
        } else {
            proof {
                lemma_estimate_absorbed(world, this_ray, background, depth as int, &rec);
            }
            emitted
        }
    } else {
        proof {
            lemma_estimate_miss(world, this_ray, background, depth as int);
        }
        background
    }
}

} // verus!
