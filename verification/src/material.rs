//! Materials: given an incoming ray and a hit, each proposes an
//! attenuation color and a scattered ray, or signals absorption.  The
//! stochastic draws (a random unit vector and a random fraction) are
//! made explicit: `scatter_s` is a pure spec function of material, ray,
//! hit and draws, and the executable `scatter` promises its result is
//! `scatter_s` at some valid draw.

use vstd::prelude::*;

use crate::color::Color;
use crate::fixed::Fp;
use crate::fixed::SCALE;
use crate::fixed::fp_add_s;
use crate::fixed::fp_div_s;
use crate::fixed::fp_mul_s;
use crate::fixed::fp_sqrt_s;
use crate::fixed::fp_sub_s;
use crate::hittable::Hit;
use crate::hittable::HitV;
use crate::ray::Ray;
use crate::ray::RayV;
use crate::rng::random_01;
use crate::vec3::V3;
use crate::vec3::Vec3;
use crate::vec3::fp_min_s;
use crate::vec3::random_unit_vector;
use crate::vec3::unit_draw;
use crate::vec3::v3_add;
use crate::vec3::v3_dot;
use crate::vec3::v3_near_zero;
use crate::vec3::v3_neg;
use crate::vec3::v3_reflect;
use crate::vec3::v3_refract;
use crate::vec3::v3_scale;
use crate::vec3::v3_unit;
use crate::vec3::reflect;
use crate::vec3::refract;

verus! {

/// Spec model of a material.
pub enum MaterialV {
    Lambertian { albedo: V3 },
    Metal { albedo: V3, fuzz: int },
    Dielectric { refraction_index: int },
}

/// A diffuse material: scatters about the normal, attenuating by its
/// albedo; never absorbs.
#[derive(Clone, Copy, Debug)]
pub struct Lambertian {
    pub albedo: Color,
}

/// A reflective material with a roughness parameter; absorbs when the
/// perturbed reflection points into the surface.
#[derive(Clone, Copy, Debug)]
pub struct Metal {
    pub albedo: Color,
    pub fuzz: Fp,
}

/// A refractive material; redirects light without absorbing any.
#[derive(Clone, Copy, Debug)]
pub struct Dielectric {
    pub refraction_index: Fp,
}

/// A material, one of the three kinds the renderer knows.
#[derive(Clone, Copy, Debug)]
pub enum Material {
    Lambertian(Lambertian),
    Metal(Metal),
    Dielectric(Dielectric),
}

impl View for Material {
    type V = MaterialV;

    open spec fn view(&self) -> MaterialV {
        match self {
            Material::Lambertian(l) => MaterialV::Lambertian { albedo: l.albedo@ },
            Material::Metal(m) => MaterialV::Metal { albedo: m.albedo@, fuzz: m.fuzz@ },
            Material::Dielectric(d) => MaterialV::Dielectric {
                refraction_index: d.refraction_index@,
            },
        }
    }
}

impl Lambertian {
    /// Build a diffuse material from its albedo.
    pub fn new(albedo: Color) -> (r: Lambertian)
        ensures
            r.albedo@ == albedo@,
    {
        Lambertian { albedo }
    }
}

impl Metal {
    /// Build a reflective material from its albedo and roughness.
    pub fn new(albedo: Color, fuzz: Fp) -> (r: Metal)
        ensures
            r.albedo@ == albedo@,
            r.fuzz@ == fuzz@,
    {
        Metal { albedo, fuzz }
    }
}

impl Dielectric {
    /// Build a refractive material from its refractive index.
    pub fn new(refraction_index: Fp) -> (r: Dielectric)
        ensures
            r.refraction_index@ == refraction_index@,
    {
        Dielectric { refraction_index }
    }
}

/// Spec mirror of the diffuse scatter direction: the normal plus the
/// random unit draw, falling back to the normal when that sum vanishes.
pub open spec fn lambertian_dir_s(hit: HitV, ru: V3) -> V3 {
    let d = v3_add(hit.normal, ru);
    if v3_near_zero(d) {
        hit.normal
    } else {
        d
    }
}

/// Spec mirror of the perturbed metal reflection: the normalized mirror
/// reflection plus `fuzz` times the random unit draw.
pub open spec fn metal_dir_s(fuzz: int, r_in: RayV, hit: HitV, ru: V3) -> V3 {
    v3_add(v3_unit(v3_reflect(r_in.dir, hit.normal)), v3_scale(ru, fuzz))
}

/// Spec mirror of Schlick's reflectance approximation.
pub open spec fn reflectance_s(cosine: int, refraction_index: int) -> int {
    let r0 = fp_div_s(fp_sub_s(SCALE as int, refraction_index), fp_add_s(SCALE as int, refraction_index));
    let r0sq = fp_mul_s(r0, r0);
    let omc = fp_sub_s(SCALE as int, cosine);
    let p2 = fp_mul_s(omc, omc);
    let p4 = fp_mul_s(p2, p2);
    let p5 = fp_mul_s(p4, omc);
    fp_add_s(r0sq, fp_mul_s(fp_sub_s(SCALE as int, r0sq), p5))
}

/// Spec mirror of the dielectric scatter direction: reflect on total
/// internal reflection or when Schlick's reflectance beats the random
/// fraction, refract otherwise.
pub open spec fn dielectric_dir_s(refraction_index: int, r_in: RayV, hit: HitV, rp: int) -> V3 {
    let ri = if hit.front_face {
        fp_div_s(SCALE as int, refraction_index)
    } else {
        refraction_index
    };
    let unit_dir = v3_unit(r_in.dir);
    let cos_theta = fp_min_s(SCALE as int, v3_dot(v3_neg(unit_dir), hit.normal));
    let sin_theta = fp_sqrt_s(fp_sub_s(SCALE as int, fp_mul_s(cos_theta, cos_theta)));
    if fp_mul_s(sin_theta, ri) > SCALE as int || reflectance_s(cos_theta, ri) > rp {
        v3_reflect(unit_dir, hit.normal)
    } else {
        v3_refract(unit_dir, hit.normal, ri)
    }
}

/// Spec mirror of scattering: the attenuation and continuation ray a
/// material proposes for an incoming ray at a hit, given the random
/// draws, or nothing on absorption.
pub open spec fn scatter_s(m: MaterialV, r_in: RayV, hit: HitV, ru: V3, rp: int) -> Option<
    (V3, RayV),
> {
    match m {
        MaterialV::Lambertian { albedo } => Some(
            (albedo, RayV { origin: hit.p, dir: lambertian_dir_s(hit, ru) }),
        ),
        MaterialV::Metal { albedo, fuzz } => {
            let dir = metal_dir_s(fuzz, r_in, hit, ru);
            if v3_dot(dir, hit.normal) > 0 {
                Some((albedo, RayV { origin: hit.p, dir }))
            } else {
                None
            }
        },
        MaterialV::Dielectric { refraction_index } => Some(
            (
                V3 { x: SCALE as int, y: SCALE as int, z: SCALE as int },
                RayV { origin: hit.p, dir: dielectric_dir_s(refraction_index, r_in, hit, rp) },
            ),
        ),
    }
}

/// The view of a proposed scatter.
pub open spec fn opt_scatter_v(o: Option<(Color, Ray)>) -> Option<(V3, RayV)> {
    match o {
        Some((c, r)) => Some((c@, r@)),
        None => None,
    }
}

/// Schlick's reflectance approximation.
fn reflectance(cosine: Fp, refraction_index: Fp) -> (r: Fp)
    ensures
        r@ == reflectance_s(cosine@, refraction_index@),
{
    let one = Fp::one();
    let r0 = one.sub(refraction_index).div(one.add(refraction_index));
    let r0sq = r0.mul(r0);
    let omc = one.sub(cosine);
    let p2 = omc.mul(omc);
    let p4 = p2.mul(p2);
    let p5 = p4.mul(omc);
    r0sq.add(one.sub(r0sq).mul(p5))
}

impl Material {
    /// Scatter with the random draws supplied by the caller: the result
    /// is exactly `scatter_s` at those draws.
    pub fn scatter_with(&self, r_in: &Ray, hit: &Hit, ru: Vec3, rp: Fp) -> (res: Option<
        (Color, Ray),
    >)
        ensures
            opt_scatter_v(res) == scatter_s(self@, r_in@, hit@, ru@, rp@),
    {
        match self {
            Material::Lambertian(l) => {
                let d = hit.normal.add(ru);
                let dir = if d.near_zero() {
                    hit.normal
                } else {
                    d
                };
                Some((l.albedo, Ray::new(hit.p, dir)))
            },
            Material::Metal(m) => {
                let reflected = reflect(r_in.dir, hit.normal);
                let dir = reflected.unit().add(ru.scale(m.fuzz));
                if Fp::zero().lt(dir.dot(hit.normal)) {
                    Some((m.albedo, Ray::new(hit.p, dir)))
                } else {
                    None
                }
            },
            Material::Dielectric(d) => {
                let one = Fp::one();
                let ri = if hit.front_face {
                    one.div(d.refraction_index)
                } else {
                    d.refraction_index
                };
                let unit_dir = r_in.dir.unit();
                let dn = unit_dir.neg().dot(hit.normal);
                let cos_theta = if one.lt(dn) {
                    one
                } else {
                    dn
                };
                let sin_theta = one.sub(cos_theta.mul(cos_theta)).sqrt();
                let dir = if one.lt(sin_theta.mul(ri)) || rp.lt(reflectance(cos_theta, ri)) {
                    reflect(unit_dir, hit.normal)
                } else {
                    refract(unit_dir, hit.normal, ri)
                };
                Some((Vec3::new(one, one, one), Ray::new(hit.p, dir)))
            },
        }
    }

    /// Scatter with fresh random draws: the result is `scatter_s` at
    /// some random unit vector and some random fraction.
    pub fn scatter(&self, r_in: &Ray, hit: &Hit) -> (res: Option<(Color, Ray)>)
        ensures
            exists|ru: V3, rp: int|
                unit_draw(ru) && 0 <= rp < SCALE as int && opt_scatter_v(res) == scatter_s(
                    self@,
                    r_in@,
                    hit@,
                    ru,
                    rp,
                ),
    {
        let ru = random_unit_vector();
        let rp = random_01();
        let res = self.scatter_with(r_in, hit, ru, rp);
        proof {
            assert(unit_draw(ru@) && 0 <= rp@ < SCALE as int && opt_scatter_v(res) == scatter_s(
                self@, r_in@, hit@, ru@, rp@));
        }
        res
    }
}

/// A diffuse material never absorbs: its scatter always yields an
/// attenuation equal to its albedo and a continuation ray from the hit
/// point.
pub proof fn lemma_lambertian_always_scatters(albedo: V3, r_in: RayV, hit: HitV, ru: V3, rp: int)
    ensures
        scatter_s(MaterialV::Lambertian { albedo }, r_in, hit, ru, rp) matches Some((att, sray))
            && att == albedo && sray.origin == hit.p,
{
}

/// A metal scatter is absorbed exactly when the perturbed reflection
/// points into or along the surface.
pub proof fn lemma_metal_absorbs_iff(albedo: V3, fuzz: int, r_in: RayV, hit: HitV, ru: V3, rp: int)
    ensures
        (scatter_s(MaterialV::Metal { albedo, fuzz }, r_in, hit, ru, rp) is None) <==> v3_dot(
            metal_dir_s(fuzz, r_in, hit, ru),
            hit.normal,
        ) <= 0,
{
}

/// A refractive material never absorbs, and attenuates nothing: the
/// attenuation is one in every channel.
pub proof fn lemma_dielectric_always_scatters(
    refraction_index: int,
    r_in: RayV,
    hit: HitV,
    ru: V3,
    rp: int,
)
    ensures
        scatter_s(MaterialV::Dielectric { refraction_index }, r_in, hit, ru, rp) matches Some(
            (att, sray),
        ) && att == (V3 { x: SCALE as int, y: SCALE as int, z: SCALE as int }) && sray.origin
            == hit.p,
{
}

} // verus!
