//! Ready-made scenes.
use vstd::prelude::*;
use std::sync::Arc;
use crate::bvh::{
    lemma_covers_more, lemma_covers_one, lemma_covers_some, lemma_covers_two,
    lemma_sorted_same_members, spec_sorted, BvhNode,
};
use crate::hit::{Hittable, HittableList};
use crate::material::{Dielectric, DiffuseLight, Lambertian, Material, Metal};
use crate::random::{get_rand, get_rand01, get_rand_vec3, is_unit_sample};
use crate::rect::{XyRect, XzRect, YzRect};
use crate::render::is_dim;
use crate::scalar::lemma_mul_at_most;
use crate::scalar::Scalar;
use crate::shared::share;
use crate::sphere::{MovingSphere, Sphere};
use crate::texture::{CheckerTexture, SolidColor, Texture};
use crate::vec3::Vec3;

verus! {

/// How many small spheres the random scene holds at most: one for each
/// cell of a grid of 22 by 22.
pub const CELLS: usize = 484;

/// How many spheres the cloud in the room holds.
pub const CLOUD: usize = 100;

/// The point `(x, y, z)`, in millionths.
pub open spec fn spec_point(x: int, y: int, z: int) -> Vec3 {
    Vec3::spec_of(x as i64, y as i64, z as i64)
}

/// The scalar of `raw` millionths.
pub open spec fn spec_fixed(raw: int) -> Scalar {
    Scalar { raw: raw as i64 }
}

/// The checker of dark green and light grey.
pub open spec fn spec_checker() -> Texture {
    Texture::Checker(
        CheckerTexture {
            odd: Arc::new(
                Texture::Solid(SolidColor { col: spec_point(200_000, 300_000, 100_000) }),
            ),
            even: Arc::new(
                Texture::Solid(SolidColor { col: spec_point(900_000, 900_000, 900_000) }),
            ),
        },
    )
}

/// The diffuse material of the given solid colour, in millionths.
pub open spec fn spec_matte(r: int, g: int, b: int) -> Material {
    Material::Lambertian(
        Lambertian { albedo: Arc::new(Texture::Solid(SolidColor { col: spec_point(r, g, b) })) },
    )
}

/// The light of the same intensity `e`, in millionths, in all three
/// channels.
pub open spec fn spec_glow(e: int) -> Material {
    Material::DiffuseLight(
        DiffuseLight { emit: Arc::new(Texture::Solid(SolidColor { col: spec_point(e, e, e) })) },
    )
}

/// The checkered sphere around `(0, y, 0)` with the given radius, both in
/// millionths.
pub open spec fn spec_checkered(y: int, radius: int) -> Hittable {
    Hittable::Sphere(
        Sphere {
            center: spec_point(0, y, 0),
            radius: spec_fixed(radius),
            mat_ptr: Arc::new(Material::Lambertian(Lambertian { albedo: Arc::new(spec_checker()) })),
        },
    )
}

/// The three large spheres of the random scene: one of glass, one matte,
/// one a polished mirror.
pub open spec fn spec_landmarks() -> Seq<Hittable> {
    seq![
        Hittable::Sphere(
            Sphere {
                center: spec_point(0, 1_000_000, 0),
                radius: Scalar::one(),
                mat_ptr: Arc::new(Material::Dielectric(Dielectric { ref_idx: Scalar { raw: 1_500_000 } })),
            },
        ),
        Hittable::Sphere(
            Sphere {
                center: spec_point(-4_000_000, 1_000_000, 0),
                radius: Scalar::one(),
                mat_ptr: Arc::new(spec_matte(400_000, 200_000, 100_000)),
            },
        ),
        Hittable::Sphere(
            Sphere {
                center: spec_point(4_000_000, 1_000_000, 0),
                radius: Scalar::one(),
                mat_ptr: Arc::new(
                    Material::Metal(
                        Metal { albedo: spec_point(700_000, 600_000, 500_000), fuzz: Scalar::zero() },
                    ),
                ),
            },
        ),
    ]
}

/// The two checkered spheres of radius ten that touch at the origin.
pub open spec fn spec_two_spheres() -> Seq<Hittable> {
    seq![spec_checkered(-10_000_000, 10_000_000), spec_checkered(10_000_000, 10_000_000)]
}

/// The ground, a checkered sphere of radius two on it, and a lamp beside
/// them.
pub open spec fn spec_simple_light() -> Seq<Hittable> {
    seq![
        spec_checkered(-1_000_000_000, 1_000_000_000),
        spec_checkered(2_000_000, 2_000_000),
        Hittable::XyRect(
            XyRect {
                x0: Scalar { raw: 3_000_000 },
                x1: Scalar { raw: 5_000_000 },
                y0: Scalar { raw: 1_000_000 },
                y1: Scalar { raw: 3_000_000 },
                k: spec_fixed(-2_000_000),
                mp: Arc::new(spec_glow(4_000_000)),
            },
        ),
    ]
}

/// The green and the red wall, the lamp, the floor, the ceiling and the
/// back wall of the room, which is 555 wide, high and deep.
pub open spec fn spec_room() -> Seq<Hittable> {
    let far = Scalar { raw: 555_000_000 };
    let white = spec_matte(730_000, 730_000, 730_000);
    seq![
        Hittable::YzRect(
            YzRect {
                y0: Scalar::zero(),
                y1: far,
                z0: Scalar::zero(),
                z1: far,
                k: far,
                mp: Arc::new(spec_matte(120_000, 450_000, 150_000)),
            },
        ),
        Hittable::YzRect(
            YzRect {
                y0: Scalar::zero(),
                y1: far,
                z0: Scalar::zero(),
                z1: far,
                k: Scalar::zero(),
                mp: Arc::new(spec_matte(650_000, 50_000, 50_000)),
            },
        ),
        Hittable::XzRect(
            XzRect {
                x0: Scalar { raw: 213_000_000 },
                x1: Scalar { raw: 343_000_000 },
                z0: Scalar { raw: 227_000_000 },
                z1: Scalar { raw: 332_000_000 },
                k: Scalar { raw: 554_000_000 },
                mp: Arc::new(spec_glow(15_000_000)),
            },
        ),
        Hittable::XzRect(
            XzRect {
                x0: Scalar::zero(),
                x1: far,
                z0: Scalar::zero(),
                z1: far,
                k: Scalar::zero(),
                mp: Arc::new(white),
            },
        ),
        Hittable::XzRect(
            XzRect { x0: Scalar::zero(), x1: far, z0: Scalar::zero(), z1: far, k: far, mp: Arc::new(white) },
        ),
        Hittable::XyRect(
            XyRect { x0: Scalar::zero(), x1: far, y0: Scalar::zero(), y1: far, k: far, mp: Arc::new(white) },
        ),
    ]
}

/// `h` is a sphere of the cloud: white, of radius ten, with its centre
/// between 165 and 330 on every axis.
pub open spec fn is_cloud_sphere(h: Hittable) -> bool {
    &&& h matches Hittable::Sphere(s)
    &&& s.radius == Scalar { raw: 10_000_000 }
    &&& *s.mat_ptr == spec_matte(730_000, 730_000, 730_000)
    &&& 165_000_000 <= s.center.x.raw < 330_000_000
    &&& 165_000_000 <= s.center.y.raw < 330_000_000
    &&& 165_000_000 <= s.center.z.raw < 330_000_000
}

/// `cloud` is a cloud of `CLOUD` spheres.
pub open spec fn is_cloud(cloud: Seq<Arc<Hittable>>) -> bool {
    &&& cloud.len() == CLOUD
    &&& forall|k: int| 0 <= k < CLOUD ==> is_cloud_sphere(*#[trigger] cloud[k])
}

/// `h` is a hierarchy that was built over all of `cloud` for the times
/// from zero to one.
pub open spec fn is_hierarchy_over(h: Hittable, cloud: Seq<Arc<Hittable>>) -> bool {
    h matches Hittable::Bvh(node) && node.covers(
        cloud,
        cloud.len() as int,
        Scalar::zero(),
        Scalar::one(),
    )
}

/// `h` is a small sphere of the random scene: of radius one fifth, at rest
/// or moving, with a material that is matte, a mirror, or glass.
pub open spec fn is_small_sphere(h: Hittable) -> bool {
    match h {
        Hittable::Sphere(s) => s.radius == Scalar { raw: 200_000 } && (*s.mat_ptr is Metal
            || *s.mat_ptr is Dielectric) && s.mat_ptr.is_dim(),
        Hittable::MovingSphere(s) => {
            &&& s.radius == Scalar { raw: 200_000 }
            &&& *s.mat_ptr is Lambertian
            &&& s.mat_ptr.is_dim()
            &&& s.time0 == Scalar::zero()
            &&& s.time1 == Scalar::one()
            &&& s.center1.x == s.center0.x
            &&& s.center1.z == s.center0.z
        },
        _ => false,
    }
}

/// The place in the cell `(i, j)` of the grid that the two unit samples
/// stand for: `(i + 0.9 dx, 0.2, j + 0.9 dz)`.
pub open spec fn spec_cell_center(i: int, j: int, dx: Scalar, dz: Scalar) -> Vec3 {
    Vec3 {
        x: Scalar::from_int(i as i64),
        y: Scalar { raw: 200_000 },
        z: Scalar::from_int(j as i64),
    }.add(Vec3 { x: dx, y: Scalar::zero(), z: dz }.scale(Scalar { raw: 900_000 }))
}

/// Whether a small sphere around `center` stands clear of the mirror:
/// farther than 0.9 from `(4, 0.2, 0)`.
pub open spec fn is_clear_of_mirror(center: Vec3) -> bool {
    center.sub(spec_point(4_000_000, 200_000, 0)).length().raw > 900_000
}

/// `h` is the small sphere around `center` of the kind that the unit sample
/// `kind` stands for. Below 0.8 it is matte, of a solid colour, and rises
/// by less than one half between the times zero and one. From there to
/// below 0.95 it is a mirror whose colour lies in `[0.5, 1)` in every
/// channel, with a fuzz of `[0, 0.5)`. From there on it is glass of index
/// 1.5.
pub open spec fn is_small_sphere_at(h: Hittable, center: Vec3, kind: Scalar) -> bool {
    &&& is_small_sphere(h)
    &&& match h {
        Hittable::MovingSphere(s) => {
            &&& kind.raw < 800_000
            &&& s.center0 == center
            &&& center.y.raw <= s.center1.y.raw < center.y.raw + 500_000
            &&& *s.mat_ptr matches Material::Lambertian(m) && *m.albedo is Solid
        },
        Hittable::Sphere(s) => {
            &&& s.center == center
            &&& match *s.mat_ptr {
                Material::Metal(m) => {
                    &&& 800_000 <= kind.raw < 950_000
                    &&& 500_000 <= m.albedo.x.raw < 1_000_000
                    &&& 500_000 <= m.albedo.y.raw < 1_000_000
                    &&& 500_000 <= m.albedo.z.raw < 1_000_000
                    &&& 0 <= m.fuzz.raw < 500_000
                },
                Material::Dielectric(d) => 950_000 <= kind.raw && d.ref_idx == Scalar { raw: 1_500_000 },
                _ => false,
            }
        },
        _ => false,
    }
}

/// `r` is what the cell `(i, j)` of the grid gets for the three unit
/// samples: the small sphere of the kind that `kind` stands for, around the
/// place that `dx` and `dz` stand for, if that place is clear of the
/// mirror, and nothing if it is not.
pub open spec fn is_small_sphere_for(
    r: Option<Arc<Hittable>>,
    i: int,
    j: int,
    kind: Scalar,
    dx: Scalar,
    dz: Scalar,
) -> bool {
    match r {
        Some(h) => is_clear_of_mirror(spec_cell_center(i, j, dx, dz)) && is_small_sphere_at(
            *h,
            spec_cell_center(i, j, dx, dz),
            kind,
        ),
        None => !is_clear_of_mirror(spec_cell_center(i, j, dx, dz)),
    }
}

/// The checkered spheres and the three large spheres create no light.
proof fn lemma_fixtures_are_dim(y: int, radius: int)
    ensures
        spec_checkered(y, radius).is_dim(),
        spec_landmarks()[0].is_dim(),
        spec_landmarks()[1].is_dim(),
        spec_landmarks()[2].is_dim(),
{
    reveal_with_fuel(Texture::is_dim, 3);
}

/// The checker of dark green and light grey.
fn checker() -> (r: Arc<Texture>)
    ensures
        *r == spec_checker(),
{
    Arc::new(
        Texture::Checker(
            CheckerTexture::new(
                Vec3::from_raw(200_000, 300_000, 100_000),
                Vec3::from_raw(900_000, 900_000, 900_000),
            ),
        ),
    )
}

/// The checkered sphere around `(0, y, 0)`.
fn checkered(y: i64, radius: i64) -> (r: Arc<Hittable>)
    ensures
        *r == spec_checkered(y as int, radius as int),
{
    Arc::new(
        Hittable::Sphere(
            Sphere::new(
                Vec3::from_raw(0, y, 0),
                Scalar::new(radius),
                Arc::new(Material::Lambertian(Lambertian::newarc(checker()))),
            ),
        ),
    )
}

/// The diffuse material of the given solid colour.
fn matte(r: i64, g: i64, b: i64) -> (m: Arc<Material>)
    ensures
        *m == spec_matte(r as int, g as int, b as int),
{
    Arc::new(Material::Lambertian(Lambertian::new(Vec3::from_raw(r, g, b))))
}

/// The light of intensity `e` in all three channels.
fn glow(e: i64) -> (m: Arc<Material>)
    ensures
        *m == spec_glow(e as int),
{
    Arc::new(Material::DiffuseLight(DiffuseLight::new(Vec3::from_raw(e, e, e))))
}

/// The sphere of radius one that stands at `x` on the ground.
fn landmark(x: i64, material: Arc<Material>) -> (r: Arc<Hittable>)
    ensures
        *r == Hittable::Sphere(
            Sphere {
                center: spec_point(x as int, 1_000_000, 0),
                radius: Scalar::one(),
                mat_ptr: material,
            },
        ),
{
    Arc::new(Hittable::Sphere(Sphere::new(Vec3::from_raw(x, 1_000_000, 0), Scalar::one(), material)))
}

/// A small sphere for the cell of the grid at `(i, j)`, or nothing where it
/// would stand too close to the mirror. Four times out of five it is matte
/// and moves upward, else it is a mirror or, once in twenty times, glass.
fn small_sphere(i: i64, j: i64) -> (r: Option<Arc<Hittable>>)
    requires
        -11 <= i < 11,
        -11 <= j < 11,
    ensures
        exists|kind: Scalar, dx: Scalar, dz: Scalar|
            is_unit_sample(kind) && is_unit_sample(dx) && is_unit_sample(dz)
                && #[trigger] is_small_sphere_for(r, i as int, j as int, kind, dx, dz),
        r matches Some(h) ==> is_small_sphere(*h),
{
    let choose_mat = get_rand01();
    let dx = get_rand01();
    let dz = get_rand01();
    let center = Vec3::new(Scalar::from_int(i), Scalar::new(200_000), Scalar::from_int(j)).add(
        Vec3::new(dx, Scalar::zero(), dz).scale(Scalar::new(900_000)),
    );
    assert(center == spec_cell_center(i as int, j as int, dx, dz));
    assert(center.y.raw == 200_000);
    let r = if center.sub(Vec3::from_raw(4_000_000, 200_000, 0)).length().raw > 900_000 {
        if choose_mat.raw < 800_000 {
            let one = get_rand_vec3(Scalar::zero(), Scalar::one());
            let other = get_rand_vec3(Scalar::zero(), Scalar::one());
            let albedo = one.change(other);
            proof {
                lemma_mul_at_most(one.x, other.x);
                lemma_mul_at_most(one.y, other.y);
                lemma_mul_at_most(one.z, other.z);
            }
            let sphere_material = Arc::new(Material::Lambertian(Lambertian::new(albedo)));
            let center2 = Vec3::new(
                center.x,
                center.y.add(get_rand(Scalar::zero(), Scalar::new(500_000))),
                center.z,
            );
            Some(
                Arc::new(
                    Hittable::MovingSphere(
                        MovingSphere::new(
                            center,
                            center2,
                            Scalar::zero(),
                            Scalar::one(),
                            Scalar::new(200_000),
                            sphere_material,
                        ),
                    ),
                ),
            )
        } else if choose_mat.raw < 950_000 {
            let albedo = get_rand_vec3(Scalar::new(500_000), Scalar::one());
            let fuzz = get_rand(Scalar::zero(), Scalar::new(500_000));
            let sphere_material = Arc::new(Material::Metal(Metal::new(albedo, fuzz)));
            Some(Arc::new(Hittable::Sphere(Sphere::new(center, Scalar::new(200_000), sphere_material))))
        } else {
            let sphere_material = Arc::new(
                Material::Dielectric(Dielectric::new(Scalar::new(1_500_000))),
            );
            Some(Arc::new(Hittable::Sphere(Sphere::new(center, Scalar::new(200_000), sphere_material))))
        }
    } else {
        None
    };
    assert(is_small_sphere_for(r, i as int, j as int, choose_mat, dx, dz));
    r
}

/// The checkered ground, then up to `CELLS` small spheres at random places
/// of a grid, of random materials, then the three large spheres.
pub fn random_scene() -> (world: HittableList)
    ensures
        4 <= world.objects@.len() <= CELLS + 4,
        *world.objects@[0] == spec_checkered(-1_000_000_000, 1_000_000_000),
        forall|k: int| 1 <= k < world.objects@.len() - 3 ==> is_small_sphere(*#[trigger] world.objects@[k]),
        forall|k: int|
            0 <= k < 3 ==> *world.objects@[world.objects@.len() - 3 + k] == #[trigger] spec_landmarks()[k],
        forall|k: int|
            0 <= k < world.objects@.len() ==> (#[trigger] world.objects@[k]).has_materials()
                && world.objects@[k].is_flat(),
        is_dim(&world),
{
    let mut world = HittableList::new();
    world.add(checkered(-1_000_000_000, 1_000_000_000));
    let mut i: i64 = -11;
    while i < 11
        invariant
            -11 <= i <= 11,
            1 <= world.objects@.len() <= 1 + (i + 11) * 22,
            *world.objects@[0] == spec_checkered(-1_000_000_000, 1_000_000_000),
            forall|k: int| 1 <= k < world.objects@.len() ==> is_small_sphere(*#[trigger] world.objects@[k]),
        decreases 11 - i,
    {
        let mut j: i64 = -11;
        while j < 11
            invariant
                -11 <= i < 11,
                -11 <= j <= 11,
                1 <= world.objects@.len() <= 1 + (i + 11) * 22 + (j + 11),
                *world.objects@[0] == spec_checkered(-1_000_000_000, 1_000_000_000),
                forall|k: int|
                    1 <= k < world.objects@.len() ==> is_small_sphere(*#[trigger] world.objects@[k]),
            decreases 11 - j,
        {
            if let Some(small) = small_sphere(i, j) {
                world.add(small);
            }
            j += 1;
        }
        i += 1;
    }
    let ghost strewn = world.objects@;
    world.add(landmark(0, Arc::new(Material::Dielectric(Dielectric::new(Scalar::new(1_500_000))))));
    world.add(landmark(-4_000_000, matte(400_000, 200_000, 100_000)));
    world.add(
        landmark(
            4_000_000,
            Arc::new(Material::Metal(Metal::new(Vec3::from_raw(700_000, 600_000, 500_000), Scalar::zero()))),
        ),
    );
    proof {
        let n = strewn.len() as int;
        assert(world.objects@.len() == n + 3);
        assert forall|k: int| 0 <= k < n implies world.objects@[k] == strewn[k] by {}
        assert(*world.objects@[n] == spec_landmarks()[0]);
        assert(*world.objects@[n + 1] == spec_landmarks()[1]);
        assert(*world.objects@[n + 2] == spec_landmarks()[2]);
        lemma_fixtures_are_dim(-1_000_000_000, 1_000_000_000);
        assert forall|k: int| 0 <= k < world.objects@.len() implies (
        #[trigger] world.objects@[k]).has_materials() && world.objects@[k].is_flat()
            && world.objects@[k].is_dim() by {
            if 1 <= k < n {
                assert(is_small_sphere(*world.objects@[k]));
            }
        }
    }
    world
}

/// Two checkered spheres of radius ten that touch at the origin.
pub fn two_spheres() -> (objects: HittableList)
    ensures
        objects.objects@.len() == 2,
        forall|k: int| 0 <= k < 2 ==> *objects.objects@[k] == #[trigger] spec_two_spheres()[k],
        forall|k: int|
            0 <= k < 2 ==> (#[trigger] objects.objects@[k]).has_materials() && objects.objects@[k].is_flat(),
        is_dim(&objects),
{
    let mut objects = HittableList::new();
    objects.add(checkered(-10_000_000, 10_000_000));
    objects.add(checkered(10_000_000, 10_000_000));
    proof {
        lemma_fixtures_are_dim(-10_000_000, 10_000_000);
        lemma_fixtures_are_dim(10_000_000, 10_000_000);
    }
    objects
}

/// The ground, a checkered sphere on it, and a lamp beside them.
pub fn simple_light() -> (objects: HittableList)
    ensures
        objects.objects@.len() == 3,
        forall|k: int| 0 <= k < 3 ==> *objects.objects@[k] == #[trigger] spec_simple_light()[k],
        forall|k: int|
            0 <= k < 3 ==> (#[trigger] objects.objects@[k]).has_materials() && objects.objects@[k].is_flat(),
{
    let mut objects = HittableList::new();
    objects.add(checkered(-1_000_000_000, 1_000_000_000));
    objects.add(checkered(2_000_000, 2_000_000));
    objects.add(
        Arc::new(
            Hittable::XyRect(
                XyRect::new(
                    Scalar::new(3_000_000),
                    Scalar::new(5_000_000),
                    Scalar::new(1_000_000),
                    Scalar::new(3_000_000),
                    Scalar::new(-2_000_000),
                    glow(4_000_000),
                ),
            ),
        ),
    );
    objects
}

/// A hierarchy over things whose surfaces all have materials has a material
/// on every surface.
pub proof fn lemma_hierarchy_has_materials(
    node: &BvhNode,
    objects: Seq<Arc<Hittable>>,
    t0: Scalar,
    t1: Scalar,
)
    requires
        node.covers(objects, objects.len() as int, t0, t1),
        forall|h: Arc<Hittable>| #[trigger] objects.contains(h) ==> h.has_materials(),
    ensures
        node.left.has_materials(),
        node.right.has_materials(),
    decreases objects.len(),
{
    let n = objects.len() as int;
    lemma_covers_some(node, objects, n, t0, t1);
    if n == 1 {
        lemma_covers_one(node, objects, t0, t1);
        assert(objects.contains(objects[0]));
    } else if n == 2 {
        lemma_covers_two(node, objects, t0, t1);
        assert(objects.contains(objects[0]));
        assert(objects.contains(objects[1]));
    } else {
        let axis = lemma_covers_more(node, objects, n, t0, t1);
        let in_order = spec_sorted(objects, axis, t0, t1);
        let mid = n / 2;
        lemma_sorted_same_members(objects, axis, t0, t1);
        let first = in_order.take(mid);
        let second = in_order.skip(mid);
        assert forall|h: Arc<Hittable>| #[trigger] first.contains(h) implies h.has_materials() by {
            let i = choose|i: int| 0 <= i < first.len() && first[i] == h;
            assert(in_order[i] == h);
            assert(in_order.contains(h));
        }
        assert forall|h: Arc<Hittable>| #[trigger] second.contains(h) implies h.has_materials() by {
            let i = choose|i: int| 0 <= i < second.len() && second[i] == h;
            assert(in_order[i + mid] == h);
            assert(in_order.contains(h));
        }
        match (&*node.left, &*node.right) {
            (Hittable::Bvh(l), Hittable::Bvh(r)) => {
                lemma_hierarchy_has_materials(l, first, t0, t1);
                lemma_hierarchy_has_materials(r, second, t0, t1);
            },
            _ => {},
        }
    }
}

/// The room with five walls and a lamp in its ceiling, and in it a cloud
/// of `CLOUD` white spheres at random places, in a hierarchy.
pub fn cornellbox() -> (objects: HittableList)
    ensures
        objects.objects@.len() == 7,
        forall|k: int| 0 <= k < 6 ==> *objects.objects@[k] == #[trigger] spec_room()[k],
        exists|cloud: Seq<Arc<Hittable>>| #[trigger]
            is_cloud(cloud) && is_hierarchy_over(*objects.objects@[6], cloud),
        forall|k: int| 0 <= k < 7 ==> (#[trigger] objects.objects@[k]).has_materials(),
{
    let mut objects = HittableList::new();
    let far = Scalar::new(555_000_000);
    let white = matte(730_000, 730_000, 730_000);
    objects.add(
        Arc::new(
            Hittable::YzRect(
                YzRect::new(Scalar::zero(), far, Scalar::zero(), far, far, matte(120_000, 450_000, 150_000)),
            ),
        ),
    );
    objects.add(
        Arc::new(
            Hittable::YzRect(
                YzRect::new(
                    Scalar::zero(),
                    far,
                    Scalar::zero(),
                    far,
                    Scalar::zero(),
                    matte(650_000, 50_000, 50_000),
                ),
            ),
        ),
    );
    objects.add(
        Arc::new(
            Hittable::XzRect(
                XzRect::new(
                    Scalar::new(213_000_000),
                    Scalar::new(343_000_000),
                    Scalar::new(227_000_000),
                    Scalar::new(332_000_000),
                    Scalar::new(554_000_000),
                    glow(15_000_000),
                ),
            ),
        ),
    );
    objects.add(
        Arc::new(
            Hittable::XzRect(
                XzRect::new(Scalar::zero(), far, Scalar::zero(), far, Scalar::zero(), share(&white)),
            ),
        ),
    );
    objects.add(
        Arc::new(
            Hittable::XzRect(XzRect::new(Scalar::zero(), far, Scalar::zero(), far, far, share(&white))),
        ),
    );
    objects.add(
        Arc::new(
            Hittable::XyRect(XyRect::new(Scalar::zero(), far, Scalar::zero(), far, far, share(&white))),
        ),
    );
    let mut boxes0 = HittableList::new();
    let mut k: usize = 0;
    while k < CLOUD
        invariant
            k <= CLOUD,
            boxes0.objects@.len() == k,
            *white == spec_matte(730_000, 730_000, 730_000),
            forall|m: int| 0 <= m < k ==> is_cloud_sphere(*#[trigger] boxes0.objects@[m]),
        decreases CLOUD - k,
    {
        let center = Vec3::new(
            get_rand(Scalar::new(165_000_000), Scalar::new(330_000_000)),
            get_rand(Scalar::new(165_000_000), Scalar::new(330_000_000)),
            get_rand(Scalar::new(165_000_000), Scalar::new(330_000_000)),
        );
        boxes0.add(
            Arc::new(Hittable::Sphere(Sphere::new(center, Scalar::new(10_000_000), share(&white)))),
        );
        k += 1;
    }
    let ghost cloud = boxes0.objects@;
    let ghost room = objects.objects@;
    proof {
        assert forall|m: int| 0 <= m < cloud.len() implies (#[trigger] cloud[m]).spec_bounding_box(
            Scalar::zero(),
            Scalar::one(),
        ) is Some by {
            assert(is_cloud_sphere(*cloud[m]));
        }
    }
    let node = BvhNode::new(boxes0.objects, CLOUD, Scalar::zero(), Scalar::one());
    proof {
        assert forall|h: Arc<Hittable>| #[trigger] cloud.contains(h) implies h.has_materials() by {
            let m = choose|m: int| 0 <= m < cloud.len() && cloud[m] == h;
            assert(is_cloud_sphere(*cloud[m]));
        }
        lemma_hierarchy_has_materials(&node, cloud, Scalar::zero(), Scalar::one());
    }
    objects.add(Arc::new(Hittable::Bvh(node)));
    proof {
        assert forall|m: int| 0 <= m < 6 implies objects.objects@[m] == room[m] by {}
        assert(*objects.objects@[0] == spec_room()[0]);
        assert(*objects.objects@[1] == spec_room()[1]);
        assert(*objects.objects@[2] == spec_room()[2]);
        assert(*objects.objects@[3] == spec_room()[3]);
        assert(*objects.objects@[4] == spec_room()[4]);
        assert(*objects.objects@[5] == spec_room()[5]);
        assert(objects.objects@[6].has_materials());
        assert(is_cloud(cloud) && is_hierarchy_over(*objects.objects@[6], cloud));
    }
    objects
}

} // verus!
