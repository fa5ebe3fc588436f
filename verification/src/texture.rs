//! Procedural textures: what colour a surface has at a point.
use vstd::prelude::*;
use std::sync::Arc;
use crate::scalar::Scalar;
use crate::vec3::Vec3;

verus! {

/// One colour everywhere.
pub struct SolidColor {
    pub col: Vec3,
}

/// A three-dimensional checker pattern of two textures, with cells of side
/// `pi / 10`.
pub struct CheckerTexture {
    pub odd: Arc<Texture>,
    pub even: Arc<Texture>,
}

/// A texture of any kind.
pub enum Texture {
    Solid(SolidColor),
    Checker(CheckerTexture),
}

/// The product `sin(10 x) sin(10 y) sin(10 z)` whose sign tells the two
/// kinds of checker cell apart.
pub open spec fn spec_checker_sines(p: Vec3) -> Scalar {
    let ten = Scalar::from_int(10);
    p.x.mul(ten).sin().mul(p.y.mul(ten).sin()).mul(p.z.mul(ten).sin())
}

/// The product of sines that tells the cells of a checker apart.
fn checker_sines(p: Vec3) -> (r: Scalar)
    ensures
        r == spec_checker_sines(p),
{
    let ten = Scalar::from_int(10);
    p.x.mul(ten).sin().mul(p.y.mul(ten).sin()).mul(p.z.mul(ten).sin())
}

impl SolidColor {
    /// What `value` returns.
    pub open spec fn spec_value(&self, u: Scalar, v: Scalar, p: Vec3) -> Vec3 {
        self.col
    }

    /// The texture that is `col` everywhere.
    pub fn new(col: Vec3) -> (r: SolidColor)
        ensures
            r.col == col,
    {
        SolidColor { col }
    }

    /// The colour at surface coordinates `(u, v)` and point `p`: always `col`.
    #[verifier::when_used_as_spec(spec_value)]
    pub fn value(&self, u: Scalar, v: Scalar, p: Vec3) -> (r: Vec3)
        ensures
            r == self.spec_value(u, v, p),
    {
        self.col
    }
}

impl CheckerTexture {
    /// What `value` returns.
    pub open spec fn spec_value(&self, u: Scalar, v: Scalar, p: Vec3) -> Vec3
        decreases self,
    {
        if spec_checker_sines(p).raw < 0 {
            self.odd.spec_value(u, v, p)
        } else {
            self.even.spec_value(u, v, p)
        }
    }

    /// The checker of the two solid colours `odd` and `even`.
    pub fn new(odd: Vec3, even: Vec3) -> (r: CheckerTexture)
        ensures
            *r.odd == Texture::Solid(SolidColor { col: odd }),
            *r.even == Texture::Solid(SolidColor { col: even }),
    {
        CheckerTexture {
            odd: Arc::new(Texture::Solid(SolidColor::new(odd))),
            even: Arc::new(Texture::Solid(SolidColor::new(even))),
        }
    }

    /// The checker of the two textures `odd` and `even`.
    pub fn newarc(odd: Arc<Texture>, even: Arc<Texture>) -> (r: CheckerTexture)
        ensures
            r.odd == odd,
            r.even == even,
    {
        CheckerTexture { odd, even }
    }

    /// The colour at `p`: that of `odd` where the product of the three
    /// sines is negative, that of `even` elsewhere.
    #[verifier::when_used_as_spec(spec_value)]
    pub fn value(&self, u: Scalar, v: Scalar, p: Vec3) -> (r: Vec3)
        ensures
            r == self.spec_value(u, v, p),
        decreases self,
    {
        if checker_sines(p).raw < 0 {
            self.odd.value(u, v, p)
        } else {
            self.even.value(u, v, p)
        }
    }
}

impl Texture {
    /// Every colour of the texture lies between black and white.
    pub open spec fn is_dim(&self) -> bool
        decreases self,
    {
        match self {
            Texture::Solid(t) => t.col.within(Vec3::ones()),
            Texture::Checker(t) => t.odd.is_dim() && t.even.is_dim(),
        }
    }

    /// What `value` returns.
    pub open spec fn spec_value(&self, u: Scalar, v: Scalar, p: Vec3) -> Vec3
        decreases self,
    {
        match self {
            Texture::Solid(t) => t.spec_value(u, v, p),
            Texture::Checker(t) => t.spec_value(u, v, p),
        }
    }

    /// The colour at surface coordinates `(u, v)` and point `p`.
    #[verifier::when_used_as_spec(spec_value)]
    pub fn value(&self, u: Scalar, v: Scalar, p: Vec3) -> (r: Vec3)
        ensures
            r == self.spec_value(u, v, p),
        decreases self,
    {
        match self {
            Texture::Solid(t) => t.value(u, v, p),
            Texture::Checker(t) => t.value(u, v, p),
        }
    }
}

/// A texture whose colours lie between black and white has such a colour
/// at every place.
pub proof fn lemma_dim_value(t: &Texture, u: Scalar, v: Scalar, p: Vec3)
    requires
        t.is_dim(),
    ensures
        t.spec_value(u, v, p).within(Vec3::ones()),
    decreases t,
{
    match t {
        Texture::Solid(c) => {},
        Texture::Checker(c) => {
            lemma_dim_value(&*c.odd, u, v, p);
            lemma_dim_value(&*c.even, u, v, p);
        },
    }
}

} // verus!
