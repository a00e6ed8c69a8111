//! Rays: an origin and a direction, evaluated parametrically.

use vstd::prelude::*;

use crate::fixed::Fp;
use crate::vec3::Point;
use crate::vec3::V3;
use crate::vec3::Vec3;
use crate::vec3::v3_add;
use crate::vec3::v3_scale;

verus! {

/// Spec model of a ray.
pub struct RayV {
    pub origin: V3,
    pub dir: V3,
}

/// Spec mirror of parametric evaluation: `origin + t * dir`.
pub open spec fn ray_at_s(r: RayV, t: int) -> V3 {
    v3_add(r.origin, v3_scale(r.dir, t))
}

/// A ray with an origin and a direction.  The direction need not be
/// normalized; the parameter `t` is read relative to its length.
#[derive(Clone, Copy, Debug, PartialEq, Eq, Structural)]
pub struct Ray {
    pub origin: Point,
    pub dir: Vec3,
}

impl View for Ray {
    type V = RayV;

    open spec fn view(&self) -> RayV {
        RayV { origin: self.origin@, dir: self.dir@ }
    }
}

impl Ray {
    /// Build a ray from an origin and a direction.
    pub fn new(origin: Point, dir: Vec3) -> (r: Ray)
        ensures
            r@ == (RayV { origin: origin@, dir: dir@ }),
    {
        Ray { origin, dir }
    }

    /// The point `origin + t * dir`.
    pub fn at(&self, t: Fp) -> (p: Point)
        ensures
            p@ == ray_at_s(self@, t@),
    {
        self.origin.add(self.dir.scale(t))
    }
}

} // verus!
