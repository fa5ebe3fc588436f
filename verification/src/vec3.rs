//! Three-component vectors of fixed-point scalars: points, directions and
//! colours alike.
use vstd::prelude::*;
use crate::scalar::{
    lemma_mul_bounded, lemma_mul_commutative, lemma_mul_minus_one, lemma_mul_negate,
    lemma_mul_one, lemma_sqrt_at_most_one, lemma_sqrt_bounded, Scalar, SCALE,
};

verus! {

/// A vector, a point or an RGB colour.
#[derive(Clone, Copy, Debug, PartialEq, Eq, Structural)]
pub struct Vec3 {
    pub x: Scalar,
    pub y: Scalar,
    pub z: Scalar,
}

impl Vec3 {
    /// Every component lies within the range of computed scalars.
    pub open spec fn in_range(self) -> bool {
        self.x.in_range() && self.y.in_range() && self.z.in_range()
    }

    /// Every component lies between zero and the same component of `bound`.
    pub open spec fn within(self, bound: Vec3) -> bool {
        &&& 0 <= self.x.raw <= bound.x.raw
        &&& 0 <= self.y.raw <= bound.y.raw
        &&& 0 <= self.z.raw <= bound.z.raw
    }

    /// The vector of `x`, `y` and `z` millionths.
    pub open spec fn spec_of(x: i64, y: i64, z: i64) -> Vec3 {
        Vec3 { x: Scalar { raw: x }, y: Scalar { raw: y }, z: Scalar { raw: z } }
    }

    /// The origin; black.
    pub open spec fn spec_zero() -> Vec3 {
        Vec3 { x: Scalar::zero(), y: Scalar::zero(), z: Scalar::zero() }
    }

    /// All components one; white.
    pub open spec fn spec_ones() -> Vec3 {
        Vec3 { x: Scalar::one(), y: Scalar::one(), z: Scalar::one() }
    }

    /// Component `i`: 0 for x, 1 for y, anything else for z.
    pub open spec fn spec_get(self, i: usize) -> Scalar {
        if i == 0 {
            self.x
        } else if i == 1 {
            self.y
        } else {
            self.z
        }
    }

    /// This vector with component `i` replaced by `v`.
    pub open spec fn spec_with(self, i: usize, v: Scalar) -> Vec3 {
        if i == 0 {
            Vec3 { x: v, ..self }
        } else if i == 1 {
            Vec3 { y: v, ..self }
        } else {
            Vec3 { z: v, ..self }
        }
    }

    /// Componentwise sum.
    pub open spec fn spec_add(self, rhs: Vec3) -> Vec3 {
        Vec3 { x: self.x.add(rhs.x), y: self.y.add(rhs.y), z: self.z.add(rhs.z) }
    }

    /// Componentwise difference.
    pub open spec fn spec_sub(self, rhs: Vec3) -> Vec3 {
        Vec3 { x: self.x.sub(rhs.x), y: self.y.sub(rhs.y), z: self.z.sub(rhs.z) }
    }

    /// The opposite vector.
    pub open spec fn spec_neg(self) -> Vec3 {
        Vec3 { x: self.x.neg(), y: self.y.neg(), z: self.z.neg() }
    }

    /// Every component multiplied by `t`.
    pub open spec fn spec_scale(self, t: Scalar) -> Vec3 {
        Vec3 { x: self.x.mul(t), y: self.y.mul(t), z: self.z.mul(t) }
    }

    /// Every component divided by `t`.
    pub open spec fn spec_div(self, t: Scalar) -> Vec3 {
        Vec3 { x: self.x.div(t), y: self.y.div(t), z: self.z.div(t) }
    }

    /// Componentwise product.
    pub open spec fn spec_change(self, rhs: Vec3) -> Vec3 {
        Vec3 { x: self.x.mul(rhs.x), y: self.y.mul(rhs.y), z: self.z.mul(rhs.z) }
    }

    /// Dot product: `x x + y y + z z`, summed in this order.
    pub open spec fn spec_dot(self, rhs: Vec3) -> Scalar {
        self.x.mul(rhs.x).add(self.y.mul(rhs.y)).add(self.z.mul(rhs.z))
    }

    /// Cross product.
    pub open spec fn spec_cross(a: Vec3, b: Vec3) -> Vec3 {
        Vec3 {
            x: a.y.mul(b.z).sub(a.z.mul(b.y)),
            y: a.z.mul(b.x).sub(a.x.mul(b.z)),
            z: a.x.mul(b.y).sub(a.y.mul(b.x)),
        }
    }

    /// Dot product of the vector with itself.
    pub open spec fn spec_squared_length(self) -> Scalar {
        self.spec_dot(self)
    }

    /// Euclidean length: the square root of the squared length.
    pub open spec fn spec_length(self) -> Scalar {
        self.spec_squared_length().sqrt()
    }

    /// The vector divided by its length.
    pub open spec fn spec_unit(self) -> Vec3 {
        self.spec_div(self.spec_length())
    }

    /// The vector with the given components.
    pub fn new(x: Scalar, y: Scalar, z: Scalar) -> (r: Vec3)
        ensures
            r == (Vec3 { x, y, z }),
    {
        Vec3 { x, y, z }
    }

    /// The vector of `x`, `y` and `z` millionths.
    #[verifier::when_used_as_spec(spec_of)]
    pub fn from_raw(x: i64, y: i64, z: i64) -> (r: Vec3)
        ensures
            r == Vec3::spec_of(x, y, z),
    {
        Vec3 { x: Scalar { raw: x }, y: Scalar { raw: y }, z: Scalar { raw: z } }
    }

    /// The origin; black.
    #[verifier::when_used_as_spec(spec_zero)]
    pub fn zero() -> (r: Vec3)
        ensures
            r == Vec3::spec_zero(),
    {
        Vec3 { x: Scalar::zero(), y: Scalar::zero(), z: Scalar::zero() }
    }

    /// All components one; white.
    #[verifier::when_used_as_spec(spec_ones)]
    pub fn ones() -> (r: Vec3)
        ensures
            r == Vec3::spec_ones(),
    {
        Vec3 { x: Scalar::one(), y: Scalar::one(), z: Scalar::one() }
    }

    /// Component `i`: 0 for x, 1 for y, 2 for z.
    #[verifier::when_used_as_spec(spec_get)]
    pub fn get(self, i: usize) -> (r: Scalar)
        requires
            i < 3,
        ensures
            r == self.spec_get(i),
    {
        if i == 0 {
            self.x
        } else if i == 1 {
            self.y
        } else {
            self.z
        }
    }

    /// This vector with component `i` replaced by `v`.
    #[verifier::when_used_as_spec(spec_with)]
    pub fn with(self, i: usize, v: Scalar) -> (r: Vec3)
        requires
            i < 3,
        ensures
            r == self.spec_with(i, v),
    {
        if i == 0 {
            Vec3 { x: v, y: self.y, z: self.z }
        } else if i == 1 {
            Vec3 { x: self.x, y: v, z: self.z }
        } else {
            Vec3 { x: self.x, y: self.y, z: v }
        }
    }

    /// Componentwise sum.
    #[verifier::when_used_as_spec(spec_add)]
    pub fn add(self, rhs: Vec3) -> (r: Vec3)
        ensures
            r == self.spec_add(rhs),
    {
        Vec3 { x: self.x.add(rhs.x), y: self.y.add(rhs.y), z: self.z.add(rhs.z) }
    }

    /// Componentwise difference.
    #[verifier::when_used_as_spec(spec_sub)]
    pub fn sub(self, rhs: Vec3) -> (r: Vec3)
        ensures
            r == self.spec_sub(rhs),
    {
        Vec3 { x: self.x.sub(rhs.x), y: self.y.sub(rhs.y), z: self.z.sub(rhs.z) }
    }

    /// The opposite vector.
    #[verifier::when_used_as_spec(spec_neg)]
    pub fn neg(self) -> (r: Vec3)
        ensures
            r == self.spec_neg(),
    {
        Vec3 { x: self.x.neg(), y: self.y.neg(), z: self.z.neg() }
    }

    /// Every component multiplied by `t`.
    #[verifier::when_used_as_spec(spec_scale)]
    pub fn scale(self, t: Scalar) -> (r: Vec3)
        ensures
            r == self.spec_scale(t),
    {
        Vec3 { x: self.x.mul(t), y: self.y.mul(t), z: self.z.mul(t) }
    }

    /// Every component divided by `t`.
    #[verifier::when_used_as_spec(spec_div)]
    pub fn div(self, t: Scalar) -> (r: Vec3)
        ensures
            r == self.spec_div(t),
    {
        Vec3 { x: self.x.div(t), y: self.y.div(t), z: self.z.div(t) }
    }

    /// Componentwise product, as used to filter one colour by another.
    #[verifier::when_used_as_spec(spec_change)]
    pub fn change(self, rhs: Vec3) -> (r: Vec3)
        ensures
            r == self.spec_change(rhs),
    {
        Vec3 { x: self.x.mul(rhs.x), y: self.y.mul(rhs.y), z: self.z.mul(rhs.z) }
    }

    /// Dot product.
    #[verifier::when_used_as_spec(spec_dot)]
    pub fn dot(self, rhs: Vec3) -> (r: Scalar)
        ensures
            r == self.spec_dot(rhs),
    {
        self.x.mul(rhs.x).add(self.y.mul(rhs.y)).add(self.z.mul(rhs.z))
    }

    /// Cross product.
    #[verifier::when_used_as_spec(spec_cross)]
    pub fn cross(a: Vec3, b: Vec3) -> (r: Vec3)
        ensures
            r == Vec3::spec_cross(a, b),
    {
        Vec3 {
            x: a.y.mul(b.z).sub(a.z.mul(b.y)),
            y: a.z.mul(b.x).sub(a.x.mul(b.z)),
            z: a.x.mul(b.y).sub(a.y.mul(b.x)),
        }
    }

    /// Dot product of the vector with itself.
    #[verifier::when_used_as_spec(spec_squared_length)]
    pub fn squared_length(self) -> (r: Scalar)
        ensures
            r == self.spec_squared_length(),
    {
        self.dot(self)
    }

    /// Euclidean length.
    #[verifier::when_used_as_spec(spec_length)]
    pub fn length(self) -> (r: Scalar)
        ensures
            r == self.spec_length(),
    {
        self.squared_length().sqrt()
    }

    /// The vector divided by its length.
    #[verifier::when_used_as_spec(spec_unit)]
    pub fn unit(self) -> (r: Vec3)
        ensures
            r == self.spec_unit(),
    {
        self.div(self.length())
    }
}

/// Mirror image of `v` about the plane with normal `n`: `v - 2(v.n)n`.
pub open spec fn spec_reflect(v: Vec3, n: Vec3) -> Vec3 {
    v.sub(n.scale(v.dot(n).mul(Scalar::from_int(2))))
}

/// Mirror image of `v` about the plane with normal `n`.
#[verifier::when_used_as_spec(spec_reflect)]
pub fn reflect(v: Vec3, n: Vec3) -> (r: Vec3)
    ensures
        r == spec_reflect(v, n),
{
    v.sub(n.scale(v.dot(n).mul(Scalar::from_int(2))))
}

/// Snell refraction of the unit vector `uv` at a surface with unit normal
/// `n`, for the ratio `etai_over_etat` of refractive indices: the sum of the
/// part across the normal, `ratio * (uv + cos * n)`, and the part along it,
/// `-sqrt(|1 - |across|^2|) * n`.
pub open spec fn spec_refract(uv: Vec3, n: Vec3, etai_over_etat: Scalar) -> Vec3 {
    let cos_theta = uv.neg().dot(n);
    let across = uv.add(n.scale(cos_theta)).scale(etai_over_etat);
    let along = n.scale(Scalar::one().sub(across.squared_length()).abs().sqrt().neg());
    across.add(along)
}

/// Snell refraction of `uv` at a surface with normal `n`.
#[verifier::when_used_as_spec(spec_refract)]
pub fn refract(uv: Vec3, n: Vec3, etai_over_etat: Scalar) -> (r: Vec3)
    ensures
        r == spec_refract(uv, n, etai_over_etat),
{
    let cos_theta = uv.neg().dot(n);
    let across = uv.add(n.scale(cos_theta)).scale(etai_over_etat);
    let along = n.scale(Scalar::one().sub(across.squared_length()).abs().sqrt().neg());
    across.add(along)
}

/// A ray that meets a surface head on is not bent by a medium with the
/// refractive index of its surroundings: for a normal of length exactly
/// one, the refraction of the opposite vector at the ratio one is that
/// vector.
pub proof fn lemma_refract_head_on(n: Vec3)
    requires
        n.in_range(),
        n.dot(n) == Scalar::one(),
    ensures
        spec_refract(n.neg(), n, Scalar::one()) == n.neg(),
{
    let uv = n.neg();
    let one = Scalar::one();
    assert(uv.neg() == n);
    let cos_theta = uv.neg().dot(n);
    assert(cos_theta == one);
    lemma_mul_one(n.x);
    lemma_mul_one(n.y);
    lemma_mul_one(n.z);
    assert(n.scale(cos_theta) == n);
    assert(uv.add(n) == Vec3::zero());
    lemma_mul_one(Scalar::zero());
    let across = uv.add(n.scale(cos_theta)).scale(one);
    assert(across == Vec3::zero());
    assert(0 * 0 == 0) by (nonlinear_arith);
    assert(across.squared_length() == Scalar::zero());
    lemma_sqrt_at_most_one(one);
    assert(one.sub(across.squared_length()).abs() == one);
    lemma_mul_minus_one(n.x);
    lemma_mul_minus_one(n.y);
    lemma_mul_minus_one(n.z);
    let along = n.scale(one.sqrt().neg());
    assert(along == uv);
}

/// Every component lies between minus two and two, as the components of
/// every vector of a length near one do.
pub open spec fn is_moderate(v: Vec3) -> bool {
    &&& -2 * SCALE <= v.x.raw <= 2 * SCALE
    &&& -2 * SCALE <= v.y.raw <= 2 * SCALE
    &&& -2 * SCALE <= v.z.raw <= 2 * SCALE
}

/// The cosine that a refraction computes: the dot product of the reversed
/// direction and the normal.
pub open spec fn spec_refract_cosine(uv: Vec3, n: Vec3) -> Scalar {
    uv.neg().dot(n)
}

/// The length along the normal that a refraction at the ratio one
/// computes: the square root of what the squared length of the part across
/// the normal leaves of one.
pub open spec fn spec_refract_root(uv: Vec3, n: Vec3) -> Scalar {
    Scalar::one().sub(uv.add(n.scale(spec_refract_cosine(uv, n))).squared_length()).abs().sqrt()
}

/// A medium with the refractive index of its surroundings does not bend a
/// ray exactly where the part of the direction that refraction adds along
/// the normal and the part that it takes away cancel; and they cancel
/// wherever the square root recovers the cosine. Elsewhere the refracted
/// direction differs from the direction of the ray by the rounding of the
/// square root.
pub proof fn lemma_refract_at_ratio_one(uv: Vec3, n: Vec3)
    requires
        is_moderate(uv),
        is_moderate(n),
    ensures
        spec_refract(uv, n, Scalar::one()) == uv <==> n.scale(spec_refract_cosine(uv, n)).add(
            n.scale(spec_refract_root(uv, n).neg()),
        ) == Vec3::zero(),
        spec_refract_root(uv, n) == spec_refract_cosine(uv, n) ==> spec_refract(
            uv,
            n,
            Scalar::one(),
        ) == uv,
{
    let one = Scalar::one();
    let c = spec_refract_cosine(uv, n);
    lemma_mul_bounded(uv.neg().x, n.x, 2_000_000, 2_000_000);
    lemma_mul_bounded(uv.neg().y, n.y, 2_000_000, 2_000_000);
    lemma_mul_bounded(uv.neg().z, n.z, 2_000_000, 2_000_000);
    assert(-12_000_000 <= c.raw <= 12_000_000);
    let q = n.scale(c);
    lemma_mul_bounded(n.x, c, 2_000_000, 12_000_000);
    lemma_mul_bounded(n.y, c, 2_000_000, 12_000_000);
    lemma_mul_bounded(n.z, c, 2_000_000, 12_000_000);
    let a = uv.add(q);
    assert(-26_000_000 <= a.x.raw <= 26_000_000);
    assert(-26_000_000 <= a.y.raw <= 26_000_000);
    assert(-26_000_000 <= a.z.raw <= 26_000_000);
    lemma_mul_one(a.x);
    lemma_mul_one(a.y);
    lemma_mul_one(a.z);
    let across = a.scale(one);
    assert(across == a);
    lemma_mul_bounded(a.x, a.x, 26_000_000, 26_000_000);
    lemma_mul_bounded(a.y, a.y, 26_000_000, 26_000_000);
    lemma_mul_bounded(a.z, a.z, 26_000_000, 26_000_000);
    let rest = one.sub(a.squared_length()).abs();
    assert(0 <= rest.raw <= 2_029_000_000);
    lemma_sqrt_bounded(rest, 46_000_000);
    let w = rest.sqrt();
    assert(w == spec_refract_root(uv, n));
    let along = n.scale(w.neg());
    lemma_mul_bounded(n.x, w.neg(), 2_000_000, 46_000_000);
    lemma_mul_bounded(n.y, w.neg(), 2_000_000, 46_000_000);
    lemma_mul_bounded(n.z, w.neg(), 2_000_000, 46_000_000);
    let r = across.add(along);
    assert(r == spec_refract(uv, n, one));
    assert(r.x.raw == uv.x.raw + q.x.raw + along.x.raw);
    assert(r.y.raw == uv.y.raw + q.y.raw + along.y.raw);
    assert(r.z.raw == uv.z.raw + q.z.raw + along.z.raw);
    assert(q.add(along).x.raw == q.x.raw + along.x.raw);
    assert(q.add(along).y.raw == q.y.raw + along.y.raw);
    assert(q.add(along).z.raw == q.z.raw + along.z.raw);
    if w == c {
        lemma_mul_negate(n.x, c);
        lemma_mul_negate(n.y, c);
        lemma_mul_negate(n.z, c);
    }
}

/// The dot product does not depend on the order of the vectors.
pub proof fn lemma_dot_commutative(a: Vec3, b: Vec3)
    ensures
        a.dot(b) == b.dot(a),
{
    lemma_mul_commutative(a.x, b.x);
    lemma_mul_commutative(a.y, b.y);
    lemma_mul_commutative(a.z, b.z);
}

} // verus!
