//! Hit records and the closed set of surfaces a ray can strike.

use vstd::prelude::*;

use crate::fixed::Fp;
use crate::interval::Interval;
use crate::material::Material;
use crate::material::MaterialV;
use crate::ray::Ray;
use crate::ray::RayV;
use crate::sphere::Sphere;
use crate::sphere::SphereV;
use crate::sphere::sphere_hit_s;
use crate::vec3::Point;
use crate::vec3::V3;
use crate::vec3::Vec3;
use crate::vec3::v3_dot;
use crate::vec3::v3_neg;

verus! {

/// Spec model of a hit record.
pub struct HitV {
    pub p: V3,
    pub normal: V3,
    pub t: int,
    pub front_face: bool,
    pub mat: MaterialV,
}

/// Spec mirror of building a hit record: the stored normal is the
/// outward normal oriented against the incoming ray, and `front_face`
/// records whether the ray arrived from outside.
pub open spec fn hit_new_s(r: RayV, p: V3, t: int, outward: V3, mat: MaterialV) -> HitV {
    let front_face = v3_dot(r.dir, outward) < 0;
    HitV {
        p,
        normal: if front_face {
            outward
        } else {
            v3_neg(outward)
        },
        t,
        front_face,
        mat,
    }
}

/// A successful intersection: the point struck, the oriented unit
/// normal there, the ray parameter, the side struck, and the material.
#[derive(Clone, Copy, Debug)]
pub struct Hit {
    pub p: Point,
    pub normal: Vec3,
    pub t: Fp,
    pub front_face: bool,
    pub mat: Material,
}

impl View for Hit {
    type V = HitV;

    open spec fn view(&self) -> HitV {
        HitV {
            p: self.p@,
            normal: self.normal@,
            t: self.t@,
            front_face: self.front_face,
            mat: self.mat@,
        }
    }
}

/// The view of an optional hit.
pub open spec fn opt_hit_v(o: Option<Hit>) -> Option<HitV> {
    match o {
        Some(h) => Some(h@),
        None => None,
    }
}

impl Hit {
    /// Build a hit record, orienting the outward normal against the
    /// incoming ray.
    pub fn new(r: &Ray, p: Point, t: Fp, outward_normal: &Vec3, mat: Material) -> (h: Hit)
        ensures
            h@ == hit_new_s(r@, p@, t@, outward_normal@, mat@),
    {
        let front_face = r.dir.dot(*outward_normal).lt(Fp::zero());
        let normal = if front_face {
            *outward_normal
        } else {
            outward_normal.neg()
        };
        Hit { p, normal, t, front_face, mat }
    }
}

/// Spec model of a surface.
pub enum SurfaceV {
    Sphere(SphereV),
}

/// Spec mirror of intersecting one surface.
pub open spec fn surface_hit_s(s: SurfaceV, r: RayV, tmin: int, tmax: int) -> Option<HitV> {
    match s {
        SurfaceV::Sphere(sp) => sphere_hit_s(sp, r, tmin, tmax),
    }
}

/// A surface a ray can strike; the set of kinds is closed.
#[derive(Clone, Copy, Debug)]
pub enum Surface {
    Sphere(Sphere),
}

impl View for Surface {
    type V = SurfaceV;

    open spec fn view(&self) -> SurfaceV {
        match self {
            Surface::Sphere(s) => SurfaceV::Sphere(s@),
        }
    }
}

impl Surface {
    /// Intersect the surface with a ray, accepting parameters strictly
    /// inside the interval.
    pub fn hit(&self, r: &Ray, ray_t: Interval) -> (res: Option<Hit>)
        ensures
            opt_hit_v(res) == surface_hit_s(self@, r@, ray_t@.min, ray_t@.max),
    {
        match self {
            Surface::Sphere(s) => s.hit(r, ray_t),
        }
    }
}

/// Whatever hit a surface reports lies strictly inside the queried
/// interval.
pub proof fn lemma_surface_hit_in_interval(s: SurfaceV, r: RayV, tmin: int, tmax: int)
    ensures
        surface_hit_s(s, r, tmin, tmax) matches Some(h) ==> tmin < h.t < tmax,
{
    match s {
        SurfaceV::Sphere(sp) => crate::sphere::lemma_sphere_hit_in_interval(sp, r, tmin, tmax),
    }
}

/// Shrinking the upper bound never invents or moves a hit, for any
/// surface.
pub proof fn lemma_surface_hit_shrink(s: SurfaceV, r: RayV, tmin: int, m: int, tmax: int)
    requires
        m <= tmax,
    ensures
        match surface_hit_s(s, r, tmin, m) {
            Some(h) => surface_hit_s(s, r, tmin, tmax) == Some(h),
            None => match surface_hit_s(s, r, tmin, tmax) {
                Some(h2) => h2.t >= m,
                None => true,
            },
        },
{
    match s {
        SurfaceV::Sphere(sp) => crate::sphere::lemma_sphere_hit_shrink(sp, r, tmin, m, tmax),
    }
}

} // verus!
