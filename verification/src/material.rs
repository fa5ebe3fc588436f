//! Materials: how a surface emits and scatters light.
use vstd::prelude::*;
use std::sync::Arc;
use crate::hit::HitRecord;
use crate::onb::ONB;
use crate::pdf::{CosPDF, NOPDF, PDF};
use crate::random::{get_rand01, is_unit_sample, random_in_unit_sphere};
use crate::ray::Ray;
use crate::scalar::{
    lemma_mul_one, lemma_quotient_exact, lemma_sqrt, lemma_sqrt_at_most_one, Scalar, SCALE,
};
use crate::texture::{SolidColor, Texture};
use crate::vec3::{reflect, refract, spec_reflect, spec_refract, Vec3};

verus! {

/// What a material makes of a ray that hits it: a ray that leaves like a
/// reflection, to be followed as it is, or a density to draw the direction
/// of the leaving ray from; and the colour by which the light that comes
/// back along that ray is filtered.
pub struct ScatterRecord {
    /// The ray that leaves, where `is_specular` holds.
    pub specular_ray: Ray,
    pub is_specular: bool,
    pub atten_col: Vec3,
    /// The density to draw from, where `is_specular` does not hold.
    pub pdf_ptr: Arc<PDF>,
}

/// The record of a ray that leaves the hit point along `dir`, filtered by
/// `atten_col`.
pub open spec fn spec_bounce(rec: &HitRecord, dir: Vec3, atten_col: Vec3) -> ScatterRecord {
    ScatterRecord {
        specular_ray: Ray { ori: rec.p, dir, tm: Scalar::zero() },
        is_specular: true,
        atten_col,
        pdf_ptr: Arc::new(PDF::No(NOPDF {  })),
    }
}

/// The record of a ray that leaves the hit point along `dir`.
fn bounce(rec: &HitRecord, dir: Vec3, atten_col: Vec3) -> (r: ScatterRecord)
    ensures
        r == spec_bounce(rec, dir, atten_col),
{
    ScatterRecord {
        specular_ray: Ray::new(rec.p, dir, Scalar::zero()),
        is_specular: true,
        atten_col,
        pdf_ptr: Arc::new(PDF::No(NOPDF {  })),
    }
}

/// A diffuse surface coloured by a texture.
pub struct Lambertian {
    pub albedo: Arc<Texture>,
}

/// A mirror of colour `albedo`, blurred by `fuzz` in `[0, 1]`.
pub struct Metal {
    pub albedo: Vec3,
    pub fuzz: Scalar,
}

/// A clear refracting medium with refractive index `ref_idx`.
pub struct Dielectric {
    pub ref_idx: Scalar,
}

/// A surface that emits the colour of a texture from its front face.
pub struct DiffuseLight {
    pub emit: Arc<Texture>,
}

/// Stands where a material is needed but never asked anything.
pub struct NOMaterial {}

/// A material of any kind.
pub enum Material {
    Lambertian(Lambertian),
    Metal(Metal),
    Dielectric(Dielectric),
    DiffuseLight(DiffuseLight),
    NoMaterial(NOMaterial),
}

/// Schlick's approximation of the reflectance at the angle with cosine
/// `cosine`, for the ratio `ref_idx` of refractive indices:
/// `r0 + (1 - r0) (1 - cosine)^5` with `r0 = ((1 - n) / (1 + n))^2`.
pub open spec fn spec_schlick(cosine: Scalar, ref_idx: Scalar) -> Scalar {
    let r = Scalar::one().sub(ref_idx).div(Scalar::one().add(ref_idx));
    let r0 = r.mul(r);
    r0.add(Scalar::one().sub(r0).mul(Scalar::one().sub(cosine).spec_powi(5)))
}

/// Schlick's approximation of the reflectance.
#[verifier::when_used_as_spec(spec_schlick)]
pub fn schlick(cosine: Scalar, ref_idx: Scalar) -> (r: Scalar)
    ensures
        r == spec_schlick(cosine, ref_idx),
{
    let r = Scalar::one().sub(ref_idx).div(Scalar::one().add(ref_idx));
    let r0 = r.mul(r);
    r0.add(Scalar::one().sub(r0).mul(Scalar::one().sub(cosine).powi(5)))
}

impl Lambertian {
    /// The density with which the surface scatters toward `scattered`:
    /// `cos / pi` for the cosine of the angle between the normal and the
    /// scattered direction, and zero below the surface.
    pub open spec fn spec_scattering_pdf(&self, this_ray: &Ray, rec: &HitRecord, scattered: &Ray)
        -> Scalar {
        let cosine = rec.nor.unit().dot(scattered.dir.unit());
        if cosine.raw < 0 {
            Scalar::zero()
        } else {
            cosine.div(Scalar::pi())
        }
    }

    /// What the surface makes of a hit: the colour of the texture at the
    /// hit, and the cosine density around the normal.
    pub open spec fn spec_scatter(&self, this_ray: &Ray, rec: &HitRecord) -> ScatterRecord {
        ScatterRecord {
            specular_ray: Ray { ori: Vec3::zero(), dir: Vec3::zero(), tm: Scalar::zero() },
            is_specular: false,
            atten_col: self.albedo.spec_value(rec.u, rec.v, rec.p),
            pdf_ptr: Arc::new(PDF::Cos(CosPDF { uvw: ONB::buildw(rec.nor) })),
        }
    }

    /// The diffuse surface of the solid colour `albedo`.
    pub fn new(albedo: Vec3) -> (r: Lambertian)
        ensures
            *r.albedo == Texture::Solid(SolidColor { col: albedo }),
    {
        Lambertian { albedo: Arc::new(Texture::Solid(SolidColor::new(albedo))) }
    }

    /// The diffuse surface coloured by `albedo`.
    pub fn newarc(albedo: Arc<Texture>) -> (r: Lambertian)
        ensures
            r.albedo == albedo,
    {
        Lambertian { albedo }
    }

    /// What the surface makes of a hit: never a reflection, always the
    /// colour of the texture at the hit and the cosine density around the
    /// normal.
    pub fn scatter(&self, this_ray: &Ray, rec: &HitRecord) -> (r: Option<ScatterRecord>)
        ensures
            r == Some(self.spec_scatter(this_ray, rec)),
    {
        Some(
            ScatterRecord {
                specular_ray: Ray::new(Vec3::zero(), Vec3::zero(), Scalar::zero()),
                is_specular: false,
                atten_col: self.albedo.value(rec.u, rec.v, rec.p),
                pdf_ptr: Arc::new(PDF::Cos(CosPDF::new(rec.nor))),
            },
        )
    }

    /// The density with which the surface scatters toward `scattered`.
    #[verifier::when_used_as_spec(spec_scattering_pdf)]
    pub fn scattering_pdf(&self, this_ray: &Ray, rec: &HitRecord, scattered: &Ray) -> (r: Scalar)
        ensures
            r == self.spec_scattering_pdf(this_ray, rec, scattered),
    {
        let cosine = rec.nor.unit().dot(scattered.dir.unit());
        if cosine.raw < 0 {
            Scalar::zero()
        } else {
            cosine.div(Scalar::pi())
        }
    }
}

impl Metal {
    /// The fuzz that a mirror is given: `fuzz` brought into `[0, 1]`.
    pub open spec fn spec_fuzz(fuzz: Scalar) -> Scalar {
        fuzz.max(Scalar::zero()).min(Scalar::one())
    }

    /// The mirror of colour `albedo` whose fuzz is `fuzz` brought into
    /// `[0, 1]`.
    pub fn new(albedo: Vec3, fuzz: Scalar) -> (r: Metal)
        ensures
            r.albedo == albedo,
            r.fuzz == Metal::spec_fuzz(fuzz),
            0 <= r.fuzz.raw <= Scalar::one().raw,
    {
        Metal { albedo, fuzz: fuzz.max(Scalar::zero()).min(Scalar::one()) }
    }

    /// What the mirror makes of a hit, for the point `offset` of the unit
    /// ball: the ray that leaves along the mirror image of the unit
    /// direction of the incoming ray, displaced by `fuzz` times `offset`.
    pub open spec fn spec_scatter_with(&self, this_ray: &Ray, rec: &HitRecord, offset: Vec3)
        -> ScatterRecord {
        spec_bounce(
            rec,
            spec_reflect(this_ray.dir.unit(), rec.nor).add(offset.scale(self.fuzz)),
            self.albedo,
        )
    }

    /// What the mirror makes of a hit, for the point `offset` of the unit
    /// ball.
    pub fn scatter_with(&self, this_ray: &Ray, rec: &HitRecord, offset: Vec3) -> (r: Option<
        ScatterRecord,
    >)
        ensures
            r == Some(self.spec_scatter_with(this_ray, rec, offset)),
    {
        let reflected = reflect(this_ray.dir.unit(), rec.nor);
        Some(bounce(rec, reflected.add(offset.scale(self.fuzz)), self.albedo))
    }

    /// What the mirror makes of a hit: always a reflection, blurred by a
    /// random point of the unit ball.
    pub fn scatter(&self, this_ray: &Ray, rec: &HitRecord) -> (r: Option<ScatterRecord>)
        ensures
            exists|offset: Vec3|
                offset.length().raw < SCALE && r == Some(
                    #[trigger] self.spec_scatter_with(this_ray, rec, offset),
                ),
    {
        let offset = random_in_unit_sphere();
        self.scatter_with(this_ray, rec, offset)
    }
}

impl Dielectric {
    /// The medium with refractive index `ref_idx`.
    pub fn new(ref_idx: Scalar) -> (r: Dielectric)
        ensures
            r.ref_idx == ref_idx,
    {
        Dielectric { ref_idx }
    }

    /// The ratio of the refractive indices on the side the ray comes from
    /// and on the side it goes to: one over the index where the ray enters
    /// by the front face, the index where it leaves by the back.
    pub open spec fn spec_ratio(&self, rec: &HitRecord) -> Scalar {
        if rec.nor_dir {
            Scalar::one().div(self.ref_idx)
        } else {
            self.ref_idx
        }
    }

    /// The cosine of the angle between the reversed ray and the normal,
    /// capped at one.
    pub open spec fn spec_cos_theta(this_ray: &Ray, rec: &HitRecord) -> Scalar {
        this_ray.dir.unit().neg().dot(rec.nor).min(Scalar::one())
    }

    /// The sine of that angle: `sqrt(1 - cos^2)`.
    pub open spec fn spec_sin_theta(this_ray: &Ray, rec: &HitRecord) -> Scalar {
        let cos_theta = Dielectric::spec_cos_theta(this_ray, rec);
        Scalar::one().sub(cos_theta.mul(cos_theta)).sqrt()
    }

    /// No refracted ray exists: `ratio * sin > 1`.
    pub open spec fn spec_must_reflect(&self, this_ray: &Ray, rec: &HitRecord) -> bool {
        self.spec_ratio(rec).mul(Dielectric::spec_sin_theta(this_ray, rec)).raw > SCALE
    }

    /// What the medium makes of a hit, for the unit sample `sample`: the
    /// reflected ray where no refracted ray exists, or where the sample
    /// lies below Schlick's reflectance; the refracted ray elsewhere. The
    /// light is not filtered.
    pub open spec fn spec_scatter_with(&self, this_ray: &Ray, rec: &HitRecord, sample: Scalar)
        -> ScatterRecord {
        let unit_dir = this_ray.dir.unit();
        let ratio = self.spec_ratio(rec);
        if self.spec_must_reflect(this_ray, rec) || sample.raw < spec_schlick(
            Dielectric::spec_cos_theta(this_ray, rec),
            ratio,
        ).raw {
            spec_bounce(rec, spec_reflect(unit_dir, rec.nor), Vec3::ones())
        } else {
            spec_bounce(rec, spec_refract(unit_dir, rec.nor, ratio), Vec3::ones())
        }
    }

    /// What the medium makes of a hit, for the unit sample `sample`.
    pub fn scatter_with(&self, this_ray: &Ray, rec: &HitRecord, sample: Scalar) -> (r: Option<
        ScatterRecord,
    >)
        ensures
            r == Some(self.spec_scatter_with(this_ray, rec, sample)),
    {
        let atten_col = Vec3::ones();
        let etai_over_etat = if rec.nor_dir {
            Scalar::one().div(self.ref_idx)
        } else {
            self.ref_idx
        };
        let unit_dir = this_ray.dir.unit();
        let cos_theta = unit_dir.neg().dot(rec.nor).min(Scalar::one());
        let sin_theta = Scalar::one().sub(cos_theta.mul(cos_theta)).sqrt();
        if etai_over_etat.mul(sin_theta).raw > SCALE {
            let reflected = reflect(unit_dir, rec.nor);
            return Some(bounce(rec, reflected, atten_col));
        }
        let reflect_prob = schlick(cos_theta, etai_over_etat);
        if sample.raw < reflect_prob.raw {
            let reflected = reflect(unit_dir, rec.nor);
            return Some(bounce(rec, reflected, atten_col));
        }
        let refracted = refract(unit_dir, rec.nor, etai_over_etat);
        Some(bounce(rec, refracted, atten_col))
    }

    /// What the medium makes of a hit: always a reflection or a refraction,
    /// chosen at random with Schlick's reflectance where both exist.
    pub fn scatter(&self, this_ray: &Ray, rec: &HitRecord) -> (r: Option<ScatterRecord>)
        ensures
            exists|sample: Scalar|
                is_unit_sample(sample) && r == Some(
                    #[trigger] self.spec_scatter_with(this_ray, rec, sample),
                ),
    {
        let sample = get_rand01();
        self.scatter_with(this_ray, rec, sample)
    }
}

impl DiffuseLight {
    /// The light emitted toward the origin of `this_ray`: the texture's
    /// colour where the ray met the front face, black at the back.
    pub open spec fn spec_emitted(
        &self,
        this_ray: &Ray,
        rec: &HitRecord,
        u: Scalar,
        v: Scalar,
        p: Vec3,
    ) -> Vec3 {
        if rec.nor_dir {
            self.emit.spec_value(u, v, p)
        } else {
            Vec3::zero()
        }
    }

    /// The light of the solid colour `emit`.
    pub fn new(emit: Vec3) -> (r: DiffuseLight)
        ensures
            *r.emit == Texture::Solid(SolidColor { col: emit }),
    {
        DiffuseLight { emit: Arc::new(Texture::Solid(SolidColor::new(emit))) }
    }

    /// The light coloured by `emit`.
    pub fn newarc(emit: Arc<Texture>) -> (r: DiffuseLight)
        ensures
            r.emit == emit,
    {
        DiffuseLight { emit }
    }

    /// The light emitted toward the origin of `this_ray`.
    #[verifier::when_used_as_spec(spec_emitted)]
    pub fn emitted(&self, this_ray: &Ray, rec: &HitRecord, u: Scalar, v: Scalar, p: Vec3) -> (r:
        Vec3)
        ensures
            r == self.spec_emitted(this_ray, rec, u, v, p),
    {
        if rec.nor_dir {
            self.emit.value(u, v, p)
        } else {
            Vec3::zero()
        }
    }
}

impl Material {
    /// The material is not the placeholder, which answers no question.
    pub open spec fn is_real(&self) -> bool {
        !(self is NoMaterial)
    }

    /// The test for `is_real`.
    pub open spec fn that_is_real() -> spec_fn(Material) -> bool {
        |m: Material| m.is_real()
    }

    /// The material creates no light: it is matte or a mirror of a colour
    /// between black and white, or clear.
    pub open spec fn is_dim(&self) -> bool {
        match self {
            Material::Lambertian(m) => m.albedo.is_dim(),
            Material::Metal(m) => m.albedo.within(Vec3::ones()),
            Material::Dielectric(m) => true,
            Material::DiffuseLight(m) => false,
            Material::NoMaterial(m) => false,
        }
    }

    /// The test for `is_dim`.
    pub open spec fn that_is_dim() -> spec_fn(Material) -> bool {
        |m: Material| m.is_dim()
    }

    /// `scatter` may return `r`: what the diffuse surface makes of the hit;
    /// what the mirror makes of it for some point of the unit ball; what
    /// the clear medium makes of it for some unit sample; nothing for the
    /// light.
    #[verifier::opaque]
    pub open spec fn can_scatter(&self, this_ray: &Ray, rec: &HitRecord, r: Option<ScatterRecord>)
        -> bool {
        match self {
            Material::Lambertian(m) => r == Some(m.spec_scatter(this_ray, rec)),
            Material::Metal(m) => exists|offset: Vec3|
                offset.length().raw < SCALE && r == Some(
                    #[trigger] m.spec_scatter_with(this_ray, rec, offset),
                ),
            Material::Dielectric(m) => exists|sample: Scalar|
                is_unit_sample(sample) && r == Some(
                    #[trigger] m.spec_scatter_with(this_ray, rec, sample),
                ),
            Material::DiffuseLight(m) => r is None,
            Material::NoMaterial(m) => false,
        }
    }

    /// The density with which the surface scatters toward `scattered`; zero
    /// for every material but the diffuse one.
    pub open spec fn spec_scattering_pdf(&self, this_ray: &Ray, rec: &HitRecord, scattered: &Ray)
        -> Scalar {
        match self {
            Material::Lambertian(m) => m.spec_scattering_pdf(this_ray, rec, scattered),
            _ => Scalar::zero(),
        }
    }

    /// The light emitted toward the origin of `this_ray`; black for every
    /// material but the light.
    pub open spec fn spec_emitted(
        &self,
        this_ray: &Ray,
        rec: &HitRecord,
        u: Scalar,
        v: Scalar,
        p: Vec3,
    ) -> Vec3 {
        match self {
            Material::DiffuseLight(m) => m.spec_emitted(this_ray, rec, u, v, p),
            _ => Vec3::zero(),
        }
    }

    /// What the material makes of the hit `rec` of `this_ray`: nothing if
    /// it absorbs the light; else a reflected or refracted ray, or a density
    /// to draw the direction of the scattered ray from.
    pub fn scatter(&self, this_ray: &Ray, rec: &HitRecord) -> (r: Option<ScatterRecord>)
        requires
            self.is_real(),
        ensures
            self.can_scatter(this_ray, rec, r),
            r matches Some(s) ==> s.is_specular || s.pdf_ptr.can_sample(),
    {
        reveal(Material::can_scatter);
        match self {
            Material::Lambertian(m) => m.scatter(this_ray, rec),
            Material::Metal(m) => m.scatter(this_ray, rec),
            Material::Dielectric(m) => m.scatter(this_ray, rec),
            _ => None,
        }
    }

    /// The density with which the surface scatters toward `scattered`.
    #[verifier::when_used_as_spec(spec_scattering_pdf)]
    pub fn scattering_pdf(&self, this_ray: &Ray, rec: &HitRecord, scattered: &Ray) -> (r: Scalar)
        requires
            self.is_real(),
        ensures
            r == self.spec_scattering_pdf(this_ray, rec, scattered),
    {
        match self {
            Material::Lambertian(m) => m.scattering_pdf(this_ray, rec, scattered),
            _ => Scalar::zero(),
        }
    }

    /// The light emitted toward the origin of `this_ray`.
    #[verifier::when_used_as_spec(spec_emitted)]
    pub fn emitted(&self, this_ray: &Ray, rec: &HitRecord, u: Scalar, v: Scalar, p: Vec3) -> (r:
        Vec3)
        requires
            self.is_real(),
        ensures
            r == self.spec_emitted(this_ray, rec, u, v, p),
    {
        match self {
            Material::DiffuseLight(m) => m.emitted(this_ray, rec, u, v, p),
            _ => Vec3::zero(),
        }
    }
}

/// A medium with the refractive index of its surroundings always has a
/// refracted ray: with the index one, reflection is never forced, and
/// every sample from Schlick's reflectance on sends the ray on along the
/// refraction of its unit direction at the ratio one.
pub proof fn lemma_unit_index_always_refracts(
    m: &Dielectric,
    this_ray: &Ray,
    rec: &HitRecord,
    sample: Scalar,
)
    requires
        m.ref_idx == Scalar::one(),
    ensures
        m.spec_ratio(rec) == Scalar::one(),
        !m.spec_must_reflect(this_ray, rec),
        sample.raw >= spec_schlick(Dielectric::spec_cos_theta(this_ray, rec), Scalar::one()).raw
            ==> m.spec_scatter_with(this_ray, rec, sample).specular_ray.dir == spec_refract(
            this_ray.dir.unit(),
            rec.nor,
            Scalar::one(),
        ),
{
    lemma_quotient_exact(SCALE as int, SCALE as int);
    let cos_theta = Dielectric::spec_cos_theta(this_ray, rec);
    assert(cos_theta.raw * cos_theta.raw >= 0) by (nonlinear_arith);
    let inner = Scalar::one().sub(cos_theta.mul(cos_theta));
    lemma_sqrt_at_most_one(inner);
    lemma_sqrt(inner);
    lemma_mul_one(inner.sqrt());
}

} // verus!
