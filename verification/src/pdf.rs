//! Probability densities over directions: each can draw a direction and
//! tell how densely it draws around a given one.
use vstd::prelude::*;
use std::sync::Arc;
use crate::hit::Hittable;
use crate::onb::ONB;
use crate::random::{
    cosine_direction_from, get_rand01, is_unit_sample, spec_cosine_direction_from,
};
use crate::scalar::Scalar;
use crate::vec3::Vec3;

verus! {

/// The density of directions around the third axis of a frame.
pub struct CosPDF {
    pub uvw: ONB,
}

/// The density with which a thing draws directions toward itself from `o`.
pub struct HittablePDF {
    pub ptr: Arc<Hittable>,
    pub o: Vec3,
}

/// The even mixture of two densities.
pub struct MixturePDF {
    pub p: (Arc<PDF>, Arc<PDF>),
}

/// Stands where a density is needed but never asked anything.
pub struct NOPDF {}

/// A density of any kind.
pub enum PDF {
    Cos(CosPDF),
    Hittable(HittablePDF),
    Mixture(MixturePDF),
    No(NOPDF),
}

impl CosPDF {
    /// `cos / pi` for the cosine of the angle between `direction` and the
    /// axis, and zero where the cosine is not positive.
    pub open spec fn spec_value(&self, direction: Vec3) -> Scalar {
        let cos = direction.unit().dot(self.uvw.w());
        if cos.raw <= 0 {
            Scalar::zero()
        } else {
            cos.div(Scalar::pi())
        }
    }

    /// The direction that the two unit samples stand for: the local
    /// direction of the upper hemisphere, carried into the frame.
    pub open spec fn spec_direction_from(&self, u1: Scalar, u2: Scalar) -> Vec3 {
        self.uvw.change(spec_cosine_direction_from(u1, u2))
    }

    /// `generate` may return `r`.
    pub open spec fn can_generate(&self, r: Vec3) -> bool {
        exists|u1: Scalar, u2: Scalar|
            is_unit_sample(u1) && is_unit_sample(u2) && r == #[trigger] self.spec_direction_from(
                u1,
                u2,
            )
    }

    /// The density around `w`.
    pub fn new(w: Vec3) -> (r: CosPDF)
        ensures
            r.uvw == ONB::buildw(w),
    {
        let uvw = ONB::buildw(w);
        CosPDF { uvw }
    }

    /// How densely directions are drawn around `direction`.
    #[verifier::when_used_as_spec(spec_value)]
    pub fn value(&self, direction: Vec3) -> (r: Scalar)
        ensures
            r == self.spec_value(direction),
    {
        let cos = direction.unit().dot(self.uvw.w());
        if cos.raw <= 0 {
            Scalar::zero()
        } else {
            cos.div(Scalar::pi())
        }
    }

    /// The direction that the two unit samples stand for.
    #[verifier::when_used_as_spec(spec_direction_from)]
    pub fn direction_from(&self, u1: Scalar, u2: Scalar) -> (r: Vec3)
        ensures
            r == self.spec_direction_from(u1, u2),
    {
        self.uvw.change(cosine_direction_from(u1, u2))
    }

    /// Draws a direction of the hemisphere around the axis.
    pub fn generate(&self) -> (r: Vec3)
        ensures
            self.can_generate(r),
    {
        let u1 = get_rand01();
        let u2 = get_rand01();
        self.direction_from(u1, u2)
    }
}

impl HittablePDF {
    /// What `value` returns.
    pub open spec fn spec_value(&self, direction: Vec3) -> Scalar {
        self.ptr.spec_pdf_value(self.o, direction)
    }

    /// `generate` may return `r`.
    pub open spec fn can_generate(&self, r: Vec3) -> bool {
        self.ptr.can_generate(self.o, r)
    }

    /// The density with which the thing behind `ptr` draws directions
    /// toward itself from `o`.
    pub fn new(ptr: Arc<Hittable>, o: Vec3) -> (r: HittablePDF)
        ensures
            r.ptr == ptr,
            r.o == o,
    {
        HittablePDF { ptr, o }
    }

    /// How densely the thing draws directions around `direction`.
    #[verifier::when_used_as_spec(spec_value)]
    pub fn value(&self, direction: Vec3) -> (r: Scalar)
        ensures
            r == self.spec_value(direction),
    {
        self.ptr.pdf_value(self.o, direction)
    }

    /// Draws a direction toward the thing.
    pub fn generate(&self) -> (r: Vec3)
        requires
            self.ptr.can_sample(),
        ensures
            self.can_generate(r),
    {
        self.ptr.random(self.o)
    }
}

impl MixturePDF {
    /// Half the density of the one plus half the density of the other.
    pub open spec fn spec_value(&self, direction: Vec3) -> Scalar
        decreases self, 0int,
    {
        Scalar::from_ratio(1, 2).mul(self.p.0.spec_value(direction)).add(
            Scalar::from_ratio(1, 2).mul(self.p.1.spec_value(direction)),
        )
    }

    /// Which of the two the unit sample `x` chooses: the first below one
    /// half, the second from one half on.
    pub open spec fn spec_pick(x: Scalar) -> usize {
        if x.raw < Scalar::from_ratio(1, 2).raw {
            0
        } else {
            1
        }
    }

    /// Both densities can be drawn from.
    pub open spec fn can_sample(&self) -> bool
        decreases self, 0int,
    {
        self.p.0.can_sample() && self.p.1.can_sample()
    }

    /// Neither density is, or holds, the placeholder.
    pub open spec fn is_real(&self) -> bool
        decreases self, 0int,
    {
        self.p.0.is_real() && self.p.1.is_real()
    }

    /// `generate` may return `r` where the coin shows the unit sample `x`:
    /// the density that `x` chooses may.
    pub open spec fn can_generate_with(&self, x: Scalar, r: Vec3) -> bool
        decreases self, 0int,
    {
        if MixturePDF::spec_pick(x) == 0 {
            self.p.0.can_generate(r)
        } else {
            self.p.1.can_generate(r)
        }
    }

    /// `generate` may return `r`: for some unit sample, the density that
    /// it chooses may.
    pub open spec fn can_generate(&self, r: Vec3) -> bool
        decreases self, 1int,
    {
        exists|x: Scalar| #[trigger] is_unit_sample(x) && self.can_generate_with(x, r)
    }

    /// The even mixture of `p0` and `p1`.
    pub fn new(p0: Arc<PDF>, p1: Arc<PDF>) -> (r: MixturePDF)
        ensures
            r.p == (p0, p1),
    {
        MixturePDF { p: (p0, p1) }
    }

    /// How densely the mixture draws directions around `direction`.
    #[verifier::when_used_as_spec(spec_value)]
    pub fn value(&self, direction: Vec3) -> (r: Scalar)
        requires
            self.is_real(),
        ensures
            r == self.spec_value(direction),
        decreases self, 0int,
    {
        Scalar::from_ratio(1, 2).mul(self.p.0.value(direction)).add(
            Scalar::from_ratio(1, 2).mul(self.p.1.value(direction)),
        )
    }

    /// Which of the two the unit sample `x` chooses.
    #[verifier::when_used_as_spec(spec_pick)]
    pub fn pick(x: Scalar) -> (r: usize)
        ensures
            r == MixturePDF::spec_pick(x),
            r < 2,
    {
        if x.raw < Scalar::from_ratio(1, 2).raw {
            0
        } else {
            1
        }
    }

    /// Draws a direction from the density that the unit sample `x`
    /// chooses: from the first below one half, from the second from one
    /// half on.
    pub fn generate_with(&self, x: Scalar) -> (r: Vec3)
        requires
            self.can_sample(),
        ensures
            self.can_generate_with(x, r),
        decreases self, 0int,
    {
        if MixturePDF::pick(x) == 0 {
            self.p.0.generate()
        } else {
            self.p.1.generate()
        }
    }

    /// Draws a direction from one of the two, chosen by the toss of a coin.
    pub fn generate(&self) -> (r: Vec3)
        requires
            self.can_sample(),
        ensures
            self.can_generate(r),
        decreases self, 1int,
    {
        let x = get_rand01();
        self.generate_with(x)
    }
}

impl PDF {
    /// How densely directions are drawn around `direction`.
    pub open spec fn spec_value(&self, direction: Vec3) -> Scalar
        decreases self, 1int,
    {
        match self {
            PDF::Cos(p) => p.spec_value(direction),
            PDF::Hittable(p) => p.spec_value(direction),
            PDF::Mixture(p) => p.spec_value(direction),
            PDF::No(p) => Scalar::zero(),
        }
    }

    /// The density is not the placeholder and holds none, so that it can be
    /// asked for a value.
    pub open spec fn is_real(&self) -> bool
        decreases self, 1int,
    {
        match self {
            PDF::Mixture(p) => p.is_real(),
            PDF::No(p) => false,
            _ => true,
        }
    }

    /// The density can be asked for a direction: it holds no placeholder,
    /// and every list that it draws from has a member.
    pub open spec fn can_sample(&self) -> bool
        decreases self, 1int,
    {
        match self {
            PDF::Cos(p) => true,
            PDF::Hittable(p) => p.ptr.can_sample(),
            PDF::Mixture(p) => p.can_sample(),
            PDF::No(p) => false,
        }
    }

    /// `generate` may return `r`.
    pub open spec fn can_generate(&self, r: Vec3) -> bool
        decreases self, 1int,
    {
        match self {
            PDF::Cos(p) => p.can_generate(r),
            PDF::Hittable(p) => p.can_generate(r),
            PDF::Mixture(p) => p.can_generate(r),
            PDF::No(p) => false,
        }
    }

    /// How densely directions are drawn around `direction`.
    #[verifier::when_used_as_spec(spec_value)]
    pub fn value(&self, direction: Vec3) -> (r: Scalar)
        requires
            self.is_real(),
        ensures
            r == self.spec_value(direction),
        decreases self, 1int,
    {
        match self {
            PDF::Cos(p) => p.value(direction),
            PDF::Hittable(p) => p.value(direction),
            PDF::Mixture(p) => p.value(direction),
            PDF::No(p) => Scalar::zero(),
        }
    }

    /// Draws a direction.
    pub fn generate(&self) -> (r: Vec3)
        requires
            self.can_sample(),
        ensures
            self.can_generate(r),
        decreases self, 1int,
    {
        match self {
            PDF::Cos(p) => p.generate(),
            PDF::Hittable(p) => p.generate(),
            PDF::Mixture(p) => p.generate(),
            PDF::No(p) => Vec3::zero(),
        }
    }
}

/// A density that can be asked for a direction can be asked for a value.
pub proof fn lemma_sampled_is_real(p: &PDF)
    requires
        p.can_sample(),
    ensures
        p.is_real(),
    decreases p,
{
    match p {
        PDF::Mixture(m) => {
            lemma_sampled_is_real(&*m.p.0);
            lemma_sampled_is_real(&*m.p.1);
        },
        _ => {},
    }
}

} // verus!
