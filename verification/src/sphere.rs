//! Spheres and their ray intersection: solve the quadratic
//! `|ray.at(t) - center|^2 = radius^2`, preferring the nearer root
//! strictly inside the search interval.

use vstd::prelude::*;

use crate::fixed::FP_LIMIT;
use crate::fixed::Fp;
use crate::fixed::SCALE;
use crate::fixed::fp_add_s;
use crate::fixed::fp_div_s;
use crate::fixed::fp_mul_s;
use crate::fixed::fp_sqrt_s;
use crate::fixed::fp_sub_s;
use crate::fixed::lemma_fp_div_one;
use crate::fixed::lemma_fp_sqrt_nonneg;
use crate::fixed::lemma_sqrt_floor_unique;
use crate::fixed::lemma_tdiv_mul_exact;
use crate::fixed::lemma_tdiv_ordered;
use crate::hittable::Hit;
use crate::hittable::HitV;
use crate::hittable::hit_new_s;
use crate::interval::Interval;
use crate::material::Material;
use crate::material::MaterialV;
use crate::ray::Ray;
use crate::ray::RayV;
use crate::ray::ray_at_s;
use crate::vec3::Point;
use crate::vec3::V3;
use crate::vec3::v3_div_scalar;
use crate::vec3::v3_dot;
use crate::vec3::v3_norm_sq;
use crate::vec3::v3_sub;
use crate::vec3::v3_whole;
use crate::vec3::v3_bounded;
use crate::vec3::lemma_norm_sq_nonneg;
use crate::vec3::ORTHO_BOUND;

verus! {

/// Spec model of a sphere.
pub struct SphereV {
    pub center: V3,
    pub radius: int,
    pub mat: MaterialV,
}

/// The quadratic's coefficients for a ray against a sphere: with
/// `oc = center - origin`, they are `a = |dir|^2`, `h = dir . oc` and
/// `c = |oc|^2 - radius^2`; the discriminant is `h^2 - a c`.
pub open spec fn sphere_disc_s(s: SphereV, r: RayV) -> int {
    let oc = v3_sub(s.center, r.origin);
    let a = v3_norm_sq(r.dir);
    let h = v3_dot(r.dir, oc);
    let c = fp_sub_s(v3_norm_sq(oc), fp_mul_s(s.radius, s.radius));
    fp_sub_s(fp_mul_s(h, h), fp_mul_s(a, c))
}

/// The nearer root of the quadratic.
pub open spec fn sphere_root1_s(s: SphereV, r: RayV) -> int {
    let oc = v3_sub(s.center, r.origin);
    let a = v3_norm_sq(r.dir);
    let h = v3_dot(r.dir, oc);
    fp_div_s(fp_sub_s(h, fp_sqrt_s(sphere_disc_s(s, r))), a)
}

/// The farther root of the quadratic.
pub open spec fn sphere_root2_s(s: SphereV, r: RayV) -> int {
    let oc = v3_sub(s.center, r.origin);
    let a = v3_norm_sq(r.dir);
    let h = v3_dot(r.dir, oc);
    fp_div_s(fp_add_s(h, fp_sqrt_s(sphere_disc_s(s, r))), a)
}

/// The hit record a sphere reports for the root `t`.
pub open spec fn sphere_hit_at_s(s: SphereV, r: RayV, t: int) -> HitV {
    let p = ray_at_s(r, t);
    let outward = v3_div_scalar(v3_sub(p, s.center), s.radius);
    hit_new_s(r, p, t, outward, s.mat)
}

/// Spec mirror of sphere intersection: a miss when the discriminant is
/// negative or neither root lies strictly inside the interval;
/// otherwise the hit at the nearer acceptable root.
pub open spec fn sphere_hit_s(s: SphereV, r: RayV, tmin: int, tmax: int) -> Option<HitV> {
    if sphere_disc_s(s, r) < 0 {
        None
    } else {
        let root1 = sphere_root1_s(s, r);
        let root2 = sphere_root2_s(s, r);
        if tmin < root1 < tmax {
            Some(sphere_hit_at_s(s, r, root1))
        } else if tmin < root2 < tmax {
            Some(sphere_hit_at_s(s, r, root2))
        } else {
            None
        }
    }
}

/// A sphere: a center, a radius and a material.
#[derive(Clone, Copy, Debug)]
pub struct Sphere {
    pub center: Point,
    pub radius: Fp,
    pub mat: Material,
}

impl View for Sphere {
    type V = SphereV;

    open spec fn view(&self) -> SphereV {
        SphereV { center: self.center@, radius: self.radius@, mat: self.mat@ }
    }
}

impl Sphere {
    /// Build a sphere.
    pub fn new(center: Point, radius: Fp, mat: Material) -> (r: Sphere)
        ensures
            r@ == (SphereV { center: center@, radius: radius@, mat: mat@ }),
    {
        Sphere { center, radius, mat }
    }

    /// Intersect the sphere with a ray, accepting roots strictly inside
    /// the interval; prefer the nearer root.
    pub fn hit(&self, ray: &Ray, ray_t: Interval) -> (res: Option<Hit>)
        ensures
            crate::hittable::opt_hit_v(res) == sphere_hit_s(self@, ray@, ray_t@.min, ray_t@.max),
    {
        let oc = self.center.sub(ray.origin);
        let a = ray.dir.norm_sq();
        let h = ray.dir.dot(oc);
        let c = oc.norm_sq().sub(self.radius.mul(self.radius));
        let disc = h.mul(h).sub(a.mul(c));

        if disc.lt(Fp::zero()) {
            return None;
        }

        let sqrt_disc = disc.sqrt();
        let mut root = h.sub(sqrt_disc).div(a);
        if !ray_t.surrounds(root) {
            root = h.add(sqrt_disc).div(a);
            if !ray_t.surrounds(root) {
                return None;
            }
        }

        let p = ray.at(root);
        let outward_normal = p.sub(self.center).div(self.radius);
        Some(Hit::new(ray, p, root, &outward_normal, self.mat))
    }
}

/// The near root never exceeds the far root.
pub proof fn lemma_sphere_roots_ordered(s: SphereV, r: RayV)
    ensures
        sphere_root1_s(s, r) <= sphere_root2_s(s, r),
{
    let oc = v3_sub(s.center, r.origin);
    let a = v3_norm_sq(r.dir);
    let h = v3_dot(r.dir, oc);
    let sd = fp_sqrt_s(sphere_disc_s(s, r));
    lemma_fp_sqrt_nonneg(sphere_disc_s(s, r));
    lemma_norm_sq_nonneg(r.dir);
    let lo = fp_sub_s(h, sd);
    let hi = fp_add_s(h, sd);
    assert(lo <= hi);
    if a > 0 {
        lemma_tdiv_ordered(lo * SCALE, hi * SCALE, a);
    }
}

/// Whatever hit a sphere reports lies strictly inside the queried
/// interval, at the parameter of the accepted root.
pub proof fn lemma_sphere_hit_in_interval(s: SphereV, r: RayV, tmin: int, tmax: int)
    ensures
        sphere_hit_s(s, r, tmin, tmax) matches Some(h) ==> tmin < h.t < tmax,
{
}

/// Shrinking the upper bound never invents or moves a hit: a hit found
/// under a tighter bound is exactly the hit for the full interval, and
/// where the tighter query reports nothing, any hit for the full
/// interval lies at or beyond the tighter bound.
pub proof fn lemma_sphere_hit_shrink(s: SphereV, r: RayV, tmin: int, m: int, tmax: int)
    requires
        m <= tmax,
    ensures
        match sphere_hit_s(s, r, tmin, m) {
            Some(h) => sphere_hit_s(s, r, tmin, tmax) == Some(h),
            None => match sphere_hit_s(s, r, tmin, tmax) {
                Some(h2) => h2.t >= m,
                None => true,
            },
        },
{
    lemma_sphere_roots_ordered(s, r);
}

/// Helper: unit-level decomposition of a whole raw value.
proof fn lemma_whole_decomp(x: int)
    requires
        x % (SCALE as int) == 0,
    ensures
        x == (SCALE as int) * (x / (SCALE as int)),
{
    vstd::arithmetic::div_mod::lemma_fundamental_div_mod(x, SCALE as int);
}

/// A sphere dead ahead is struck at the distance to its center less its
/// radius: with the ray cast down the axis from `o` and the sphere's
/// center `d` units ahead, the reported parameter is exactly `d - rad`
/// whenever that value lies strictly inside the search interval.
/// Stated on whole-valued, moderate coordinates, where the fixed-point
/// arithmetic is exact.
#[verifier::rlimit(100)]
pub proof fn lemma_sphere_head_on_hit(
    o: V3,
    d: int,
    rad: int,
    tmin: int,
    tmax: int,
    mat: MaterialV,
)
    requires
        v3_whole(o),
        v3_bounded(o, ORTHO_BOUND as int * (SCALE as int)),
        d % (SCALE as int) == 0,
        rad % (SCALE as int) == 0,
        0 < rad < d,
        d <= ORTHO_BOUND as int * (SCALE as int),
        tmin < d - rad < tmax,
    ensures
        ({
            let sph = SphereV { center: V3 { x: o.x, y: o.y, z: o.z - d }, radius: rad, mat };
            let ray = RayV { origin: o, dir: V3 { x: 0, y: 0, z: -(SCALE as int) } };
            &&& sphere_hit_s(sph, ray, tmin, tmax) == Some(sphere_hit_at_s(sph, ray, d - rad))
            &&& sphere_hit_at_s(sph, ray, d - rad).t == d - rad
        }),
{
    let s = SCALE as int;
    let bb = ORTHO_BOUND as int;
    let lim = FP_LIMIT as int;
    let sph = SphereV { center: V3 { x: o.x, y: o.y, z: o.z - d }, radius: rad, mat };
    let ray = RayV { origin: o, dir: V3 { x: 0, y: 0, z: -s } };
    lemma_whole_decomp(d);
    lemma_whole_decomp(rad);
    let dd = d / s;
    let rr = rad / s;
    assert({ 0 < rr && rr < dd && dd <= bb }) by (nonlinear_arith)
        requires
            d == s * dd,
            rad == s * rr,
            0 < rad < d,
            d <= bb * s,
            s == 65536,
            bb == 4096;
    let oc = v3_sub(sph.center, ray.origin);
    assert(oc == (V3 { x: 0, y: 0, z: -d }));
    // the leading coefficient is exactly one
    assert(0 * 0 + 0 * 0 + (-s) * (-s) == s * s) by (nonlinear_arith);
    lemma_tdiv_mul_exact(s, s);
    let a = v3_norm_sq(ray.dir);
    assert(a == s);
    // the half-slope is exactly the distance to the center
    assert(0 * 0 + 0 * 0 + (-s) * (-d) == d * s) by (nonlinear_arith);
    lemma_tdiv_mul_exact(d, s);
    let h = v3_dot(ray.dir, oc);
    assert(h == d);
    // |oc|^2 and the squared radius compute exactly
    assert(0 * 0 + 0 * 0 + (-d) * (-d) == (dd * d) * s) by (nonlinear_arith)
        requires
            d == s * dd;
    lemma_tdiv_mul_exact(dd * d, s);
    assert({ 0 < dd * d <= (bb * bb) * s && (bb * bb) * s <= lim }) by (nonlinear_arith)
        requires
            d == s * dd,
            0 < dd <= bb,
            0 < d <= bb * s,
            s == 65536,
            bb == 4096,
            lim == 0x100_0000_0000_0000;
    assert(v3_norm_sq(oc) == dd * d);
    assert(rad * rad == (rr * rad) * s) by (nonlinear_arith)
        requires
            rad == s * rr;
    lemma_tdiv_mul_exact(rr * rad, s);
    assert({ 0 < rr * rad <= (bb * bb) * s }) by (nonlinear_arith)
        requires
            rad == s * rr,
            0 < rr <= bb,
            0 < rad <= bb * s;
    assert(fp_mul_s(rad, rad) == rr * rad);
    let cc = fp_sub_s(v3_norm_sq(oc), fp_mul_s(rad, rad));
    assert(cc == dd * d - rr * rad);
    // the discriminant reduces to the squared radius
    assert(d * d == (dd * d) * s) by (nonlinear_arith)
        requires
            d == s * dd;
    lemma_tdiv_mul_exact(dd * d, s);
    assert(fp_mul_s(h, h) == dd * d);
    assert(s * cc == cc * s) by (nonlinear_arith);
    lemma_tdiv_mul_exact(cc, s);
    assert({ -lim <= cc <= lim }) by (nonlinear_arith)
        requires
            cc == dd * d - rr * rad,
            0 < dd * d <= (bb * bb) * s,
            0 < rr * rad <= (bb * bb) * s,
            (bb * bb) * s <= lim;
    assert(fp_mul_s(a, cc) == cc);
    let disc = sphere_disc_s(sph, ray);
    assert(disc == rr * rad);
    assert(disc >= 0);
    // its square root is exactly the radius
    assert((rr * rad) * s == rad * rad) by (nonlinear_arith)
        requires
            rad == s * rr;
    assert(rad * rad < (rad + 1) * (rad + 1)) by (nonlinear_arith)
        requires
            rad > 0;
    lemma_sqrt_floor_unique((rr * rad) * s, rad);
    assert(fp_sqrt_s(disc) == rad);
    // the near root divides out exactly
    assert(fp_sub_s(h, rad) == d - rad);
    lemma_fp_div_one(d - rad);
    assert(fp_div_s(d - rad, s) == d - rad);
    assert(sphere_root1_s(sph, ray) == d - rad);
}

/// A ray that passes a sphere at a perpendicular offset greater than
/// its radius reports no hit: with the ray cast down the axis from `o`
/// and the sphere's center offset by `(bx, by)` across the ray, the
/// intersection misses whenever the squared offset exceeds the squared
/// radius.  Stated on whole-valued, moderate coordinates, where the
/// fixed-point arithmetic is exact.
#[verifier::rlimit(100)]
pub proof fn lemma_sphere_offset_miss(
    o: V3,
    bx: int,
    by: int,
    d: int,
    rad: int,
    tmin: int,
    tmax: int,
    mat: MaterialV,
)
    requires
        v3_whole(o),
        v3_bounded(o, ORTHO_BOUND as int * (SCALE as int)),
        bx % (SCALE as int) == 0 && by % (SCALE as int) == 0,
        d % (SCALE as int) == 0 && rad % (SCALE as int) == 0,
        -(ORTHO_BOUND as int * (SCALE as int)) <= bx <= ORTHO_BOUND as int * (SCALE as int),
        -(ORTHO_BOUND as int * (SCALE as int)) <= by <= ORTHO_BOUND as int * (SCALE as int),
        0 < rad <= ORTHO_BOUND as int * (SCALE as int),
        0 < d <= ORTHO_BOUND as int * (SCALE as int),
        bx * bx + by * by > rad * rad,
    ensures
        ({
            let sph = SphereV {
                center: V3 { x: o.x + bx, y: o.y + by, z: o.z - d },
                radius: rad,
                mat,
            };
            let ray = RayV { origin: o, dir: V3 { x: 0, y: 0, z: -(SCALE as int) } };
            sphere_hit_s(sph, ray, tmin, tmax) is None
        }),
{
    let s = SCALE as int;
    let bb = ORTHO_BOUND as int;
    let lim = FP_LIMIT as int;
    let sph = SphereV { center: V3 { x: o.x + bx, y: o.y + by, z: o.z - d }, radius: rad, mat };
    let ray = RayV { origin: o, dir: V3 { x: 0, y: 0, z: -s } };
    lemma_whole_decomp(d);
    lemma_whole_decomp(rad);
    lemma_whole_decomp(bx);
    lemma_whole_decomp(by);
    let dd = d / s;
    let rr = rad / s;
    let ux = bx / s;
    let uy = by / s;
    assert({ 0 < rr <= bb && 0 < dd <= bb && -bb <= ux <= bb && -bb <= uy <= bb })
        by (nonlinear_arith)
        requires
            d == s * dd,
            rad == s * rr,
            bx == s * ux,
            by == s * uy,
            0 < rad <= bb * s,
            0 < d <= bb * s,
            -(bb * s) <= bx <= bb * s,
            -(bb * s) <= by <= bb * s,
            s == 65536,
            bb == 4096;
    let oc = v3_sub(sph.center, ray.origin);
    assert(oc == (V3 { x: bx, y: by, z: -d }));
    assert(0 * bx + 0 * by + (-s) * (-s) == s * s) by (nonlinear_arith);
    assert(0 * bx + 0 * by + (-s) * (-d) == d * s) by (nonlinear_arith);
    lemma_tdiv_mul_exact(s, s);
    lemma_tdiv_mul_exact(d, s);
    let a = v3_norm_sq(ray.dir);
    let h = v3_dot(ray.dir, oc);
    assert(a == s);
    assert(h == d);
    // |oc|^2 computes exactly to whole units
    let q = ux * bx + uy * by + dd * d;
    assert(bx * bx + by * by + (-d) * (-d) == q * s) by (nonlinear_arith)
        requires
            bx == s * ux,
            by == s * uy,
            d == s * dd,
            q == ux * bx + uy * by + dd * d;
    lemma_tdiv_mul_exact(q, s);
    assert({ 0 <= q <= 3 * ((bb * bb) * s) && 3 * ((bb * bb) * s) <= lim }) by (nonlinear_arith)
        requires
            q == ux * bx + uy * by + dd * d,
            bx == s * ux,
            by == s * uy,
            d == s * dd,
            -bb <= ux <= bb,
            -bb <= uy <= bb,
            0 < dd <= bb,
            s == 65536,
            bb == 4096,
            lim == 0x100_0000_0000_0000;
    assert(v3_norm_sq(oc) == q);
    assert(rad * rad == (rr * rad) * s) by (nonlinear_arith)
        requires
            rad == s * rr;
    lemma_tdiv_mul_exact(rr * rad, s);
    assert({ 0 < rr * rad <= (bb * bb) * s }) by (nonlinear_arith)
        requires
            rad == s * rr,
            0 < rr <= bb,
            0 < rad <= bb * s;
    assert(fp_mul_s(rad, rad) == rr * rad);
    let cc = fp_sub_s(v3_norm_sq(oc), fp_mul_s(rad, rad));
    assert(cc == q - rr * rad);
    assert(d * d == (dd * d) * s) by (nonlinear_arith)
        requires
            d == s * dd;
    lemma_tdiv_mul_exact(dd * d, s);
    assert({ 0 < dd * d <= (bb * bb) * s }) by (nonlinear_arith)
        requires
            d == s * dd,
            0 < dd <= bb,
            0 < d <= bb * s;
    assert(fp_mul_s(h, h) == dd * d);
    assert(s * cc == cc * s) by (nonlinear_arith);
    lemma_tdiv_mul_exact(cc, s);
    assert(fp_mul_s(a, cc) == cc);
    let disc = sphere_disc_s(sph, ray);
    assert(disc == dd * d - (q - rr * rad));
    // the discriminant is the squared radius less the squared offset,
    // which the hypothesis makes negative
    assert(dd * d - (q - rr * rad) < 0) by (nonlinear_arith)
        requires
            q == ux * bx + uy * by + dd * d,
            bx == s * ux,
            by == s * uy,
            rad == s * rr,
            bx * bx + by * by > rad * rad,
            s > 0;
    assert(disc < 0);
}

} // verus!
