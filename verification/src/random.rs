//! Random scalars, integers and directions.
//!
//! Each random function draws unit samples from the thread's generator and
//! hands them to a function of this module that is deterministic: what the
//! random function returns is stated as that function of some unit samples.
use vstd::prelude::*;
use rand::Rng;
use crate::scalar::{Scalar, SCALE};
use crate::trig::TWO_PI_RAW;
use crate::vec3::Vec3;

verus! {

/// How many candidates the rejection samplers draw before they settle for
/// the centre, which lies in every ball and disk.
pub const ATTEMPTS: u32 = 128;

/// A number drawn from the thread's generator by `Rng::gen_range` over the
/// half-open range `0..n`. That call panics on an empty range, which `n > 0`
/// rules out, and returns a member of the range.
#[verifier::external_body]
fn uniform_below(n: i64) -> (r: i64)
    requires
        n > 0,
    ensures
        0 <= r < n,
{
    rand::thread_rng().gen_range(0..n)
}

/// `x` lies in `[0, 1)`.
pub open spec fn is_unit_sample(x: Scalar) -> bool {
    0 <= x.raw < SCALE
}

/// The point of `[mn, mx)` that the unit sample `x` stands for.
pub open spec fn spec_spread(x: Scalar, mn: Scalar, mx: Scalar) -> Scalar {
    x.mul(mx.sub(mn)).add(mn)
}

/// The integer of `[mn, mx]` that the unit sample `x` stands for: the point
/// of `[mn, mx + 1)` rounded down, brought into the range of `i32`.
pub open spec fn spec_int_from(x: Scalar, mn: i32, mx: i32) -> i32 {
    let t = spec_spread(
        x,
        Scalar::from_int(mn as i64),
        Scalar::from_int((mx + 1) as i64),
    ).floor();
    if t < i32::MIN {
        i32::MIN
    } else if t > i32::MAX {
        i32::MAX
    } else {
        t as i32
    }
}

/// The vector whose components the three unit samples stand for in
/// `[mn, mx)`.
pub open spec fn spec_vec3_from(x: Scalar, y: Scalar, z: Scalar, mn: Scalar, mx: Scalar) -> Vec3 {
    Vec3 { x: spec_spread(x, mn, mx), y: spec_spread(y, mn, mx), z: spec_spread(z, mn, mx) }
}

/// The point of the unit sphere with longitude `2 pi u1` and height
/// `2 u2 - 1`.
pub open spec fn spec_unit_vector_from(u1: Scalar, u2: Scalar) -> Vec3 {
    let a = spec_spread(u1, Scalar::zero(), Scalar { raw: TWO_PI_RAW });
    let z = spec_spread(u2, Scalar::one().neg(), Scalar::one());
    let r = Scalar::one().sub(z.mul(z)).sqrt();
    Vec3 { x: r.mul(a.cos()), y: r.mul(a.sin()), z }
}

/// `s`, turned to the side of the plane that `nor` points to.
pub open spec fn spec_hemisphere_from(s: Vec3, nor: Vec3) -> Vec3 {
    if s.dot(nor).raw > 0 {
        s
    } else {
        s.neg()
    }
}

/// The direction of the upper hemisphere with height `z = u2`, radius
/// `sqrt(1 - z^2)` and longitude `2 pi u1`.
pub open spec fn spec_cosine_direction_from(u1: Scalar, u2: Scalar) -> Vec3 {
    let phi = Scalar { raw: TWO_PI_RAW }.mul(u1);
    let r = Scalar::one().sub(u2.mul(u2)).sqrt();
    Vec3 { x: r.mul(phi.cos()), y: r.mul(phi.sin()), z: u2 }
}

/// The direction, in the frame whose third axis points at the centre of a
/// sphere of the given radius at squared distance `dis_squared`, of a point
/// of the cap of that sphere that is seen from the origin: height
/// `z = 1 + u2 (sqrt(1 - radius^2 / dis_squared) - 1)`, longitude `2 pi u1`.
pub open spec fn spec_to_sphere_from(radius: Scalar, dis_squared: Scalar, u1: Scalar, u2: Scalar)
    -> Vec3 {
    let cos_max = Scalar::one().sub(radius.mul(radius).div(dis_squared)).sqrt();
    let z = Scalar::one().add(u2.mul(cos_max.sub(Scalar::one())));
    let phi = Scalar { raw: TWO_PI_RAW }.mul(u1);
    let r = Scalar::one().sub(z.mul(z)).sqrt();
    Vec3 { x: phi.cos().mul(r), y: phi.sin().mul(r), z }
}

/// The point of the square `[-1, 1)` by `[-1, 1)` of the plane `z = 0` that
/// the two unit samples stand for.
pub open spec fn spec_square_from(x: Scalar, y: Scalar) -> Vec3 {
    Vec3 {
        x: spec_spread(x, Scalar::one().neg(), Scalar::one()),
        y: spec_spread(y, Scalar::one().neg(), Scalar::one()),
        z: Scalar::zero(),
    }
}

/// Every member of `c` is a point of the cube `[-1, 1)^3` that three unit
/// samples stand for.
pub open spec fn are_cube_points(c: Seq<Vec3>) -> bool {
    forall|k: int|
        0 <= k < c.len() ==> exists|x: Scalar, y: Scalar, z: Scalar|
            is_unit_sample(x) && is_unit_sample(y) && is_unit_sample(z) && #[trigger] c[k]
                == spec_vec3_from(x, y, z, Scalar::one().neg(), Scalar::one())
}

/// Every member of `c` is a point of the square `[-1, 1)` by `[-1, 1)` of
/// the plane `z = 0` that two unit samples stand for.
pub open spec fn are_square_points(c: Seq<Vec3>) -> bool {
    forall|k: int|
        0 <= k < c.len() ==> exists|x: Scalar, y: Scalar|
            is_unit_sample(x) && is_unit_sample(y) && #[trigger] c[k] == spec_square_from(x, y)
}

/// The first of the candidates that lies within the open unit ball, else
/// the centre of the ball.
pub open spec fn spec_first_in_unit_sphere(c: Seq<Vec3>) -> Vec3
    decreases c.len(),
{
    if c.len() == 0 {
        Vec3::zero()
    } else if c[0].length().raw < SCALE {
        c[0]
    } else {
        spec_first_in_unit_sphere(c.drop_first())
    }
}

/// The first of the candidates that lies within the open unit disk, else
/// the centre of the disk.
pub open spec fn spec_first_in_unit_disk(c: Seq<Vec3>) -> Vec3
    decreases c.len(),
{
    if c.len() == 0 {
        Vec3::zero()
    } else if c[0].squared_length().raw < SCALE {
        c[0]
    } else {
        spec_first_in_unit_disk(c.drop_first())
    }
}

/// `c` is a run of candidates as the sampler of the unit ball draws them:
/// at least one and at most `ATTEMPTS` points of the cube, of which only
/// the last may lie within the ball, and fewer than `ATTEMPTS` only where
/// the last does.
pub open spec fn is_run_for_unit_sphere(c: Seq<Vec3>) -> bool {
    &&& 1 <= c.len() <= ATTEMPTS
    &&& are_cube_points(c)
    &&& forall|k: int| 0 <= k < c.len() - 1 ==> (#[trigger] c[k]).length().raw >= SCALE
    &&& c.len() == ATTEMPTS || c[c.len() - 1].length().raw < SCALE
}

/// `c` is a run of candidates as the sampler of the unit disk draws them:
/// at least one and at most `ATTEMPTS` points of the square, of which only
/// the last may lie within the disk, and fewer than `ATTEMPTS` only where
/// the last does.
pub open spec fn is_run_for_unit_disk(c: Seq<Vec3>) -> bool {
    &&& 1 <= c.len() <= ATTEMPTS
    &&& are_square_points(c)
    &&& forall|k: int| 0 <= k < c.len() - 1 ==> (#[trigger] c[k]).squared_length().raw >= SCALE
    &&& c.len() == ATTEMPTS || c[c.len() - 1].squared_length().raw < SCALE
}

/// After candidates that all lie outside the unit ball, the next one
/// decides: it is the first within the ball, or there is none.
pub proof fn lemma_first_in_unit_sphere(c: Seq<Vec3>, p: Vec3)
    requires
        forall|k: int| 0 <= k < c.len() ==> (#[trigger] c[k]).length().raw >= SCALE,
    ensures
        spec_first_in_unit_sphere(c) == Vec3::zero(),
        spec_first_in_unit_sphere(c.push(p)) == if p.length().raw < SCALE {
            p
        } else {
            Vec3::zero()
        },
    decreases c.len(),
{
    if c.len() == 0 {
        assert(c.push(p).drop_first() =~= c);
    } else {
        assert(c.push(p).drop_first() =~= c.drop_first().push(p));
        assert(c.push(p)[0] == c[0]);
        assert forall|k: int| 0 <= k < c.drop_first().len() implies (#[trigger] c.drop_first()[k]).length().raw
            >= SCALE by {
            assert(c.drop_first()[k] == c[k + 1]);
        }
        lemma_first_in_unit_sphere(c.drop_first(), p);
    }
}

/// After candidates that all lie outside the unit disk, the next one
/// decides: it is the first within the disk, or there is none.
pub proof fn lemma_first_in_unit_disk(c: Seq<Vec3>, p: Vec3)
    requires
        forall|k: int| 0 <= k < c.len() ==> (#[trigger] c[k]).squared_length().raw >= SCALE,
    ensures
        spec_first_in_unit_disk(c) == Vec3::zero(),
        spec_first_in_unit_disk(c.push(p)) == if p.squared_length().raw < SCALE {
            p
        } else {
            Vec3::zero()
        },
    decreases c.len(),
{
    if c.len() == 0 {
        assert(c.push(p).drop_first() =~= c);
    } else {
        assert(c.push(p).drop_first() =~= c.drop_first().push(p));
        assert(c.push(p)[0] == c[0]);
        assert forall|k: int| 0 <= k < c.drop_first().len() implies (
        #[trigger] c.drop_first()[k]).squared_length().raw >= SCALE by {
            assert(c.drop_first()[k] == c[k + 1]);
        }
        lemma_first_in_unit_disk(c.drop_first(), p);
    }
}

/// A product with a unit sample lies between zero and the other factor.
pub proof fn lemma_unit_sample_shrinks(x: Scalar, d: Scalar)
    requires
        is_unit_sample(x),
    ensures
        d.raw > 0 ==> 0 <= x.mul(d).raw < d.raw,
        d.raw <= 0 ==> d.raw <= x.mul(d).raw <= 0,
{
    let p = x.raw * d.raw;
    if d.raw > 0 {
        assert(0 <= p <= (SCALE - 1) * d.raw) by (nonlinear_arith)
            requires
                p == x.raw * d.raw,
                0 <= x.raw <= SCALE - 1,
                d.raw > 0,
        ;
        assert(p / (SCALE as int) < d.raw) by (nonlinear_arith)
            requires
                0 <= p <= (SCALE - 1) * d.raw,
                d.raw > 0,
                SCALE == 1_000_000,
        ;
        assert(p / (SCALE as int) >= 0) by (nonlinear_arith)
            requires
                0 <= p,
                SCALE == 1_000_000,
        ;
    } else {
        assert((SCALE - 1) * d.raw <= p <= 0) by (nonlinear_arith)
            requires
                p == x.raw * d.raw,
                0 <= x.raw <= SCALE - 1,
                d.raw <= 0,
        ;
        assert((-p) / (SCALE as int) <= -d.raw) by (nonlinear_arith)
            requires
                0 <= -p <= (SCALE - 1) * (-d.raw),
                -d.raw >= 0,
                SCALE == 1_000_000,
        ;
        assert((-p) / (SCALE as int) >= 0) by (nonlinear_arith)
            requires
                0 <= -p,
                SCALE == 1_000_000,
        ;
    }
}

/// The point that a unit sample stands for in `[mn, mx)` lies in that range.
pub proof fn lemma_spread_in_range(x: Scalar, mn: Scalar, mx: Scalar)
    requires
        is_unit_sample(x),
        mn.in_range(),
        mn.raw < mx.raw,
    ensures
        mn.raw <= spec_spread(x, mn, mx).raw < mx.raw,
{
    lemma_unit_sample_shrinks(x, mx.sub(mn));
}

/// The integer that a unit sample stands for in `[mn, mx]` lies in that
/// range.
pub proof fn lemma_int_in_range(x: Scalar, mn: i32, mx: i32)
    requires
        is_unit_sample(x),
        mn <= mx,
    ensures
        mn <= spec_int_from(x, mn, mx) <= mx,
{
    let lo = Scalar::from_int(mn as i64);
    let hi = Scalar::from_int((mx + 1) as i64);
    lemma_spread_in_range(x, lo, hi);
}

/// A uniform scalar of `[0, 1)`.
pub fn get_rand01() -> (r: Scalar)
    ensures
        is_unit_sample(r),
{
    Scalar { raw: uniform_below(SCALE) }
}

/// The point of `[mn, mx)` that the unit sample `x` stands for.
#[verifier::when_used_as_spec(spec_spread)]
pub fn spread(x: Scalar, mn: Scalar, mx: Scalar) -> (r: Scalar)
    ensures
        r == spec_spread(x, mn, mx),
{
    x.mul(mx.sub(mn)).add(mn)
}

/// A uniform scalar of `[mn, mx)`.
pub fn get_rand(mn: Scalar, mx: Scalar) -> (r: Scalar)
    ensures
        exists|x: Scalar| is_unit_sample(x) && r == spec_spread(x, mn, mx),
        mn.in_range() && mn.raw < mx.raw ==> mn.raw <= r.raw < mx.raw,
{
    let x = get_rand01();
    proof {
        if mn.in_range() && mn.raw < mx.raw {
            lemma_spread_in_range(x, mn, mx);
        }
    }
    spread(x, mn, mx)
}

/// The integer of `[mn, mx]` that the unit sample `x` stands for.
#[verifier::when_used_as_spec(spec_int_from)]
pub fn int_from(x: Scalar, mn: i32, mx: i32) -> (r: i32)
    ensures
        r == spec_int_from(x, mn, mx),
{
    let t = spread(x, Scalar::from_int(mn as i64), Scalar::from_int(mx as i64 + 1)).floor();
    if t < i32::MIN as i64 {
        i32::MIN
    } else if t > i32::MAX as i64 {
        i32::MAX
    } else {
        t as i32
    }
}

/// A uniform integer of the closed range `[mn, mx]`.
pub fn random_int(mn: i32, mx: i32) -> (r: i32)
    ensures
        exists|x: Scalar| is_unit_sample(x) && r == spec_int_from(x, mn, mx),
        mn <= mx ==> mn <= r <= mx,
{
    let x = get_rand01();
    proof {
        if mn <= mx {
            lemma_int_in_range(x, mn, mx);
        }
    }
    int_from(x, mn, mx)
}

/// A vector whose components are uniform scalars of `[mn, mx)`.
pub fn get_rand_vec3(mn: Scalar, mx: Scalar) -> (r: Vec3)
    ensures
        exists|x: Scalar, y: Scalar, z: Scalar|
            is_unit_sample(x) && is_unit_sample(y) && is_unit_sample(z) && r == spec_vec3_from(
                x,
                y,
                z,
                mn,
                mx,
            ),
        mn.in_range() && mn.raw < mx.raw ==> {
            &&& mn.raw <= r.x.raw < mx.raw
            &&& mn.raw <= r.y.raw < mx.raw
            &&& mn.raw <= r.z.raw < mx.raw
        },
{
    let x = get_rand01();
    let y = get_rand01();
    let z = get_rand01();
    let r = Vec3::new(spread(x, mn, mx), spread(y, mn, mx), spread(z, mn, mx));
    proof {
        assert(r == spec_vec3_from(x, y, z, mn, mx));
        if mn.in_range() && mn.raw < mx.raw {
            lemma_spread_in_range(x, mn, mx);
            lemma_spread_in_range(y, mn, mx);
            lemma_spread_in_range(z, mn, mx);
        }
    }
    r
}

/// The point of the unit sphere with longitude `2 pi u1` and height
/// `2 u2 - 1`.
#[verifier::when_used_as_spec(spec_unit_vector_from)]
pub fn unit_vector_from(u1: Scalar, u2: Scalar) -> (r: Vec3)
    ensures
        r == spec_unit_vector_from(u1, u2),
{
    let a = spread(u1, Scalar::zero(), Scalar { raw: TWO_PI_RAW });
    let z = spread(u2, Scalar::one().neg(), Scalar::one());
    let r = Scalar::one().sub(z.mul(z)).sqrt();
    Vec3::new(r.mul(a.cos()), r.mul(a.sin()), z)
}

/// A uniform point of the unit sphere.
pub fn random_unit_vector() -> (r: Vec3)
    ensures
        exists|u1: Scalar, u2: Scalar|
            is_unit_sample(u1) && is_unit_sample(u2) && r == spec_unit_vector_from(u1, u2),
{
    let u1 = get_rand01();
    let u2 = get_rand01();
    unit_vector_from(u1, u2)
}

/// A point of the open unit ball: the first of up to `ATTEMPTS` uniform
/// points of the cube around it that lies within it, and its centre only
/// where all `ATTEMPTS` of them lie outside.
pub fn random_in_unit_sphere() -> (r: Vec3)
    ensures
        exists|c: Seq<Vec3>| #[trigger]
            is_run_for_unit_sphere(c) && r == spec_first_in_unit_sphere(c),
        r.length().raw < SCALE,
{
    let ghost mut drawn: Seq<Vec3> = Seq::empty();
    let mut i: u32 = 0;
    while i < ATTEMPTS
        invariant
            i <= ATTEMPTS,
            drawn.len() == i,
            are_cube_points(drawn),
            forall|k: int| 0 <= k < drawn.len() ==> (#[trigger] drawn[k]).length().raw >= SCALE,
        decreases ATTEMPTS - i,
    {
        let p = get_rand_vec3(Scalar::one().neg(), Scalar::one());
        proof {
            lemma_first_in_unit_sphere(drawn, p);
            drawn = drawn.push(p);
        }
        if p.length().raw < SCALE {
            assert(is_run_for_unit_sphere(drawn));
            return p;
        }
        i += 1;
    }
    proof {
        lemma_first_in_unit_sphere(drawn, Vec3::zero());
        assert(is_run_for_unit_sphere(drawn));
    }
    Vec3::zero()
}

/// `s`, turned to the side of the plane that `nor` points to.
#[verifier::when_used_as_spec(spec_hemisphere_from)]
pub fn hemisphere_from(s: Vec3, nor: Vec3) -> (r: Vec3)
    ensures
        r == spec_hemisphere_from(s, nor),
{
    if s.dot(nor).raw > 0 {
        s
    } else {
        s.neg()
    }
}

/// A point of the unit ball on the side of the plane that `nor` points to.
pub fn random_in_hemisphere(nor: Vec3) -> (r: Vec3)
    ensures
        exists|s: Vec3| s.length().raw < SCALE && r == spec_hemisphere_from(s, nor),
{
    let s = random_in_unit_sphere();
    hemisphere_from(s, nor)
}

/// A point of the open unit disk of the plane `z = 0`: the first of up to
/// `ATTEMPTS` uniform points of the square around it that lies within it,
/// and its centre only where all `ATTEMPTS` of them lie outside.
pub fn random_in_unit_disk() -> (r: Vec3)
    ensures
        exists|c: Seq<Vec3>| #[trigger]
            is_run_for_unit_disk(c) && r == spec_first_in_unit_disk(c),
        r.z == Scalar::zero(),
        r.squared_length().raw < SCALE,
{
    let ghost mut drawn: Seq<Vec3> = Seq::empty();
    let mut i: u32 = 0;
    while i < ATTEMPTS
        invariant
            i <= ATTEMPTS,
            drawn.len() == i,
            are_square_points(drawn),
            forall|k: int| 0 <= k < drawn.len() ==> (#[trigger] drawn[k]).squared_length().raw >= SCALE,
        decreases ATTEMPTS - i,
    {
        let p = Vec3::new(
            get_rand(Scalar::one().neg(), Scalar::one()),
            get_rand(Scalar::one().neg(), Scalar::one()),
            Scalar::zero(),
        );
        proof {
            let x = choose|x: Scalar|
                is_unit_sample(x) && p.x == spec_spread(x, Scalar::one().neg(), Scalar::one());
            let y = choose|y: Scalar|
                is_unit_sample(y) && p.y == spec_spread(y, Scalar::one().neg(), Scalar::one());
            assert(p == spec_square_from(x, y));
            lemma_first_in_unit_disk(drawn, p);
            drawn = drawn.push(p);
        }
        if p.squared_length().raw < SCALE {
            assert(is_run_for_unit_disk(drawn));
            return p;
        }
        i += 1;
    }
    proof {
        assert(Vec3::zero().squared_length().raw == 0);
        lemma_first_in_unit_disk(drawn, Vec3::zero());
        assert(is_run_for_unit_disk(drawn));
    }
    Vec3::zero()
}

/// The direction of the upper hemisphere with height `u2` and longitude
/// `2 pi u1`.
#[verifier::when_used_as_spec(spec_cosine_direction_from)]
pub fn cosine_direction_from(u1: Scalar, u2: Scalar) -> (r: Vec3)
    ensures
        r == spec_cosine_direction_from(u1, u2),
{
    let phi = Scalar { raw: TWO_PI_RAW }.mul(u1);
    let r = Scalar::one().sub(u2.mul(u2)).sqrt();
    Vec3::new(r.mul(phi.cos()), r.mul(phi.sin()), u2)
}

/// A random direction of the upper hemisphere, in local coordinates.
pub fn random_cosine_direction() -> (r: Vec3)
    ensures
        exists|u1: Scalar, u2: Scalar|
            is_unit_sample(u1) && is_unit_sample(u2) && r == spec_cosine_direction_from(u1, u2),
{
    let u1 = get_rand01();
    let u2 = get_rand01();
    cosine_direction_from(u1, u2)
}

/// The local direction toward the point of a sphere's visible cap that the
/// two unit samples stand for.
#[verifier::when_used_as_spec(spec_to_sphere_from)]
pub fn to_sphere_from(radius: Scalar, dis_squared: Scalar, u1: Scalar, u2: Scalar) -> (r: Vec3)
    ensures
        r == spec_to_sphere_from(radius, dis_squared, u1, u2),
{
    let cos_max = Scalar::one().sub(radius.mul(radius).div(dis_squared)).sqrt();
    let z = Scalar::one().add(u2.mul(cos_max.sub(Scalar::one())));
    let phi = Scalar { raw: TWO_PI_RAW }.mul(u1);
    let r = Scalar::one().sub(z.mul(z)).sqrt();
    Vec3::new(phi.cos().mul(r), phi.sin().mul(r), z)
}

/// A random local direction toward a sphere of the given radius whose
/// centre is at squared distance `dis_squared`.
pub fn random_to_sphere(radius: Scalar, dis_squared: Scalar) -> (r: Vec3)
    ensures
        exists|u1: Scalar, u2: Scalar|
            is_unit_sample(u1) && is_unit_sample(u2) && r == spec_to_sphere_from(
                radius,
                dis_squared,
                u1,
                u2,
            ),
{
    let u1 = get_rand01();
    let u2 = get_rand01();
    to_sphere_from(radius, dis_squared, u1, u2)
}

} // verus!
