//! Three-component vectors over the fixed-point scalars, used
//! interchangeably for points, directions and colors.  The spec model
//! `V3` carries unbounded integer components; every executable
//! operation is pinned to a spec mirror (`v3_add`, `v3_dot`, ...).
//! Products are summed exactly and rounded once, so `dot(v, v)` is by
//! definition the squared norm.

use vstd::prelude::*;

use crate::fixed::Fp;
use crate::fixed::FP_LIMIT;
use crate::fixed::HALF_SCALE;
use crate::fixed::I126;
use crate::fixed::SCALE;
use crate::fixed::clamp_raw;
use crate::fixed::fp_add_s;
use crate::fixed::fp_div_s;
use crate::fixed::fp_mul_s;
use crate::fixed::fp_neg_s;
use crate::fixed::fp_sqrt_s;
use crate::fixed::fp_sub_s;
use crate::fixed::fp_wf;
use crate::fixed::lemma_mul_bounds;
use crate::fixed::lemma_tdiv_mul_exact;
use crate::fixed::lemma_tdiv_neg;
use crate::fixed::lemma_clamp_neg;
use crate::fixed::tdiv;
use crate::rng::random_symmetric;

verus! {

/// Below this raw magnitude a component counts as vanishing; one raw
/// step is the smallest representable positive scalar.
pub const NEAR_ZERO_EPS: i64 = 1;

/// Spec model of a vector: unbounded integer components, each standing
/// for a raw fixed-point value.
pub struct V3 {
    pub x: int,
    pub y: int,
    pub z: int,
}

/// All three components are within the saturation range.
pub open spec fn v3_wf(a: V3) -> bool {
    fp_wf(a.x) && fp_wf(a.y) && fp_wf(a.z)
}

/// The zero vector.
pub open spec fn v3_zero() -> V3 {
    V3 { x: 0, y: 0, z: 0 }
}

/// Spec mirror of component-wise addition.
pub open spec fn v3_add(a: V3, b: V3) -> V3 {
    V3 { x: fp_add_s(a.x, b.x), y: fp_add_s(a.y, b.y), z: fp_add_s(a.z, b.z) }
}

/// Spec mirror of component-wise subtraction.
pub open spec fn v3_sub(a: V3, b: V3) -> V3 {
    V3 { x: fp_sub_s(a.x, b.x), y: fp_sub_s(a.y, b.y), z: fp_sub_s(a.z, b.z) }
}

/// Spec mirror of negation.
pub open spec fn v3_neg(a: V3) -> V3 {
    V3 { x: fp_neg_s(a.x), y: fp_neg_s(a.y), z: fp_neg_s(a.z) }
}

/// Spec mirror of scaling by a scalar.
pub open spec fn v3_scale(a: V3, k: int) -> V3 {
    V3 { x: fp_mul_s(a.x, k), y: fp_mul_s(a.y, k), z: fp_mul_s(a.z, k) }
}

/// Spec mirror of component-wise (Hadamard) multiplication.
pub open spec fn v3_hadamard(a: V3, b: V3) -> V3 {
    V3 { x: fp_mul_s(a.x, b.x), y: fp_mul_s(a.y, b.y), z: fp_mul_s(a.z, b.z) }
}

/// Spec mirror of division by a scalar.
pub open spec fn v3_div_scalar(a: V3, k: int) -> V3 {
    V3 { x: fp_div_s(a.x, k), y: fp_div_s(a.y, k), z: fp_div_s(a.z, k) }
}

/// Spec mirror of the dot product: the three double-scaled products are
/// summed exactly and rounded back to scale once.
pub open spec fn v3_dot(a: V3, b: V3) -> int {
    clamp_raw(tdiv(a.x * b.x + a.y * b.y + a.z * b.z, SCALE as int))
}

/// Spec mirror of the squared Euclidean norm.
pub open spec fn v3_norm_sq(a: V3) -> int {
    v3_dot(a, a)
}

/// Spec mirror of the Euclidean norm.
pub open spec fn v3_norm(a: V3) -> int {
    fp_sqrt_s(v3_norm_sq(a))
}

/// Spec mirror of the cross product; each component is rounded back to
/// scale once.
pub open spec fn v3_cross(a: V3, b: V3) -> V3 {
    V3 {
        x: clamp_raw(tdiv(a.y * b.z - a.z * b.y, SCALE as int)),
        y: clamp_raw(tdiv(a.z * b.x - a.x * b.z, SCALE as int)),
        z: clamp_raw(tdiv(a.x * b.y - a.y * b.x, SCALE as int)),
    }
}

/// Spec mirror of normalization: each component divided by the norm.
/// Callers must keep the norm non-zero for the result to be meaningful.
pub open spec fn v3_unit(a: V3) -> V3 {
    v3_div_scalar(a, v3_norm(a))
}

/// Spec mirror of the vanishing test.  Unlike a test on the bare
/// components, the magnitude of each component is compared, so a tiny
/// vector with negative components also counts as vanishing.
pub open spec fn v3_near_zero(a: V3) -> bool {
    let e = NEAR_ZERO_EPS as int;
    -e < a.x < e && -e < a.y < e && -e < a.z < e
}

/// A vector of three fixed-point components.
#[derive(Clone, Copy, Debug, PartialEq, Eq, Structural)]
pub struct Vec3 {
    pub x: Fp,
    pub y: Fp,
    pub z: Fp,
}

/// A location in space; the same representation as a direction.
pub type Point = Vec3;

impl View for Vec3 {
    type V = V3;

    open spec fn view(&self) -> V3 {
        V3 { x: self.x@, y: self.y@, z: self.z@ }
    }
}

/// Sum of the three component products of two in-range raw triples,
/// rounded back to scale once: the shared core of `dot` and `norm_sq`.
fn dot_raw(ax: i64, ay: i64, az: i64, bx: i64, by: i64, bz: i64) -> (r: i64)
    requires
        fp_wf(ax as int) && fp_wf(ay as int) && fp_wf(az as int),
        fp_wf(bx as int) && fp_wf(by as int) && fp_wf(bz as int),
    ensures
        r as int == clamp_raw(
            tdiv(ax as int * bx as int + ay * by + az * bz, SCALE as int),
        ),
{
    proof {
        lemma_mul_bounds(ax as int, bx as int, FP_LIMIT as int);
        lemma_mul_bounds(ay as int, by as int, FP_LIMIT as int);
        lemma_mul_bounds(az as int, bz as int, FP_LIMIT as int);
        assert({ 3 * ((FP_LIMIT as int) * (FP_LIMIT as int)) < I126 as int }) by (nonlinear_arith)
            requires
                FP_LIMIT as int == 0x100_0000_0000_0000,
                I126 as int == 0x4000_0000_0000_0000_0000_0000_0000_0000;
    }
    let px: i128 = (ax as i128) * (bx as i128);
    let py: i128 = (ay as i128) * (by as i128);
    let pz: i128 = (az as i128) * (bz as i128);
    let sum: i128 = px + py + pz;
    crate::fixed::clamp_tdiv_scale(sum)
}

impl Vec3 {
    /// Build a vector from its three components.
    pub fn new(x: Fp, y: Fp, z: Fp) -> (r: Vec3)
        ensures
            r@ == (V3 { x: x@, y: y@, z: z@ }),
    {
        Vec3 { x, y, z }
    }

    /// Build a vector whose components hold the whole numbers given.
    pub fn from_ints(x: i64, y: i64, z: i64) -> (r: Vec3)
        ensures
            r@ == (V3 {
                x: clamp_raw(x * SCALE),
                y: clamp_raw(y * SCALE),
                z: clamp_raw(z * SCALE),
            }),
    {
        Vec3 { x: Fp::from_int(x), y: Fp::from_int(y), z: Fp::from_int(z) }
    }

    /// The zero vector.
    pub fn zero() -> (r: Vec3)
        ensures
            r@ == v3_zero(),
    {
        Vec3 { x: Fp::zero(), y: Fp::zero(), z: Fp::zero() }
    }

    /// The first component.
    pub fn x(&self) -> (r: Fp)
        ensures
            r@ == self@.x,
    {
        self.x
    }

    /// The second component.
    pub fn y(&self) -> (r: Fp)
        ensures
            r@ == self@.y,
    {
        self.y
    }

    /// The third component.
    pub fn z(&self) -> (r: Fp)
        ensures
            r@ == self@.z,
    {
        self.z
    }

    /// Component-wise addition.
    pub fn add(self, o: Vec3) -> (r: Vec3)
        ensures
            r@ == v3_add(self@, o@),
    {
        Vec3 { x: self.x.add(o.x), y: self.y.add(o.y), z: self.z.add(o.z) }
    }

    /// Component-wise subtraction.
    pub fn sub(self, o: Vec3) -> (r: Vec3)
        ensures
            r@ == v3_sub(self@, o@),
    {
        Vec3 { x: self.x.sub(o.x), y: self.y.sub(o.y), z: self.z.sub(o.z) }
    }

    /// Negation.
    pub fn neg(self) -> (r: Vec3)
        ensures
            r@ == v3_neg(self@),
    {
        Vec3 { x: self.x.neg(), y: self.y.neg(), z: self.z.neg() }
    }

    /// Scaling by a scalar.
    pub fn scale(self, k: Fp) -> (r: Vec3)
        ensures
            r@ == v3_scale(self@, k@),
    {
        Vec3 { x: self.x.mul(k), y: self.y.mul(k), z: self.z.mul(k) }
    }

    /// Component-wise (Hadamard) multiplication.
    pub fn mul(self, o: Vec3) -> (r: Vec3)
        ensures
            r@ == v3_hadamard(self@, o@),
    {
        Vec3 { x: self.x.mul(o.x), y: self.y.mul(o.y), z: self.z.mul(o.z) }
    }

    /// Division by a scalar.
    pub fn div(self, k: Fp) -> (r: Vec3)
        ensures
            r@ == v3_div_scalar(self@, k@),
    {
        Vec3 { x: self.x.div(k), y: self.y.div(k), z: self.z.div(k) }
    }

    /// Dot product.
    pub fn dot(&self, other: Vec3) -> (r: Fp)
        ensures
            r@ == v3_dot(self@, other@),
    {
        Fp::from_raw(
            dot_raw(self.x.raw(), self.y.raw(), self.z.raw(), other.x.raw(), other.y.raw(),
                other.z.raw()),
        )
    }

    /// Squared Euclidean norm.
    pub fn norm_sq(&self) -> (r: Fp)
        ensures
            r@ == v3_norm_sq(self@),
    {
        self.dot(*self)
    }

    /// Euclidean norm.
    pub fn norm(&self) -> (r: Fp)
        ensures
            r@ == v3_norm(self@),
    {
        self.norm_sq().sqrt()
    }

    /// Cross product.
    pub fn cross(&self, other: Vec3) -> (r: Vec3)
        ensures
            r@ == v3_cross(self@, other@),
    {
        Vec3 {
            x: cross_component(self.y.raw(), other.z.raw(), self.z.raw(), other.y.raw()),
            y: cross_component(self.z.raw(), other.x.raw(), self.x.raw(), other.z.raw()),
            z: cross_component(self.x.raw(), other.y.raw(), self.y.raw(), other.x.raw()),
        }
    }

    /// Normalization to unit length.  Callers must keep the norm
    /// non-zero for the result to be meaningful; a zero vector comes
    /// back unchanged, since division by zero yields zero.
    pub fn unit(&self) -> (r: Vec3)
        ensures
            r@ == v3_unit(self@),
    {
        self.div(self.norm())
    }

    /// Whether every component's magnitude is below the vanishing
    /// threshold.
    pub fn near_zero(&self) -> (r: bool)
        ensures
            r == v3_near_zero(self@),
    {
        let x = self.x.raw();
        let y = self.y.raw();
        let z = self.z.raw();
        -NEAR_ZERO_EPS < x && x < NEAR_ZERO_EPS && -NEAR_ZERO_EPS < y && y < NEAR_ZERO_EPS
            && -NEAR_ZERO_EPS < z && z < NEAR_ZERO_EPS
    }
}

/// One component of the cross product: `p * q - r * s`, rounded back to
/// scale once.
fn cross_component(p: i64, q: i64, r: i64, s: i64) -> (c: Fp)
    requires
        fp_wf(p as int) && fp_wf(q as int) && fp_wf(r as int) && fp_wf(s as int),
    ensures
        c@ == clamp_raw(tdiv(p as int * q as int - r * s, SCALE as int)),
{
    proof {
        lemma_mul_bounds(p as int, q as int, FP_LIMIT as int);
        lemma_mul_bounds(r as int, s as int, FP_LIMIT as int);
        assert({ 3 * ((FP_LIMIT as int) * (FP_LIMIT as int)) < I126 as int }) by (nonlinear_arith)
            requires
                FP_LIMIT as int == 0x100_0000_0000_0000,
                I126 as int == 0x4000_0000_0000_0000_0000_0000_0000_0000;
    }
    let a: i128 = (p as i128) * (q as i128);
    let b: i128 = (r as i128) * (s as i128);
    Fp::from_raw(crate::fixed::clamp_tdiv_scale(a - b))
}

/// Spec mirror of mirror reflection about a normal: `d - 2 (d . n) n`.
pub open spec fn v3_reflect(d: V3, n: V3) -> V3 {
    let k = fp_add_s(v3_dot(d, n), v3_dot(d, n));
    v3_sub(d, v3_scale(n, k))
}

/// Reflect a direction about a normal.
pub fn reflect(d: Vec3, n: Vec3) -> (r: Vec3)
    ensures
        r@ == v3_reflect(d@, n@),
{
    let dn = d.dot(n);
    d.sub(n.scale(dn.add(dn)))
}

/// The smaller of two raw values.
pub open spec fn fp_min_s(a: int, b: int) -> int {
    if a < b {
        a
    } else {
        b
    }
}

/// The magnitude of a raw value.
pub open spec fn fp_abs_s(a: int) -> int {
    if a < 0 {
        -a
    } else {
        a
    }
}

/// Spec mirror of refraction by Snell's law: the perpendicular part of
/// the refracted direction is `eta (uv + cos_theta n)`, the parallel
/// part `-sqrt(|1 - |perp|^2|) n`.
pub open spec fn v3_refract(uv: V3, n: V3, eta: int) -> V3 {
    let cos_theta = fp_min_s(SCALE as int, v3_dot(v3_neg(uv), n));
    let r_perp = v3_scale(v3_add(uv, v3_scale(n, cos_theta)), eta);
    let k = fp_abs_s(fp_sub_s(SCALE as int, v3_norm_sq(r_perp)));
    let r_par = v3_scale(n, fp_neg_s(fp_sqrt_s(k)));
    v3_add(r_perp, r_par)
}

/// Refract a unit direction `uv` about the normal `n` with the given
/// ratio of refractive indices.
pub fn refract(uv: Vec3, n: Vec3, eta: Fp) -> (r: Vec3)
    ensures
        r@ == v3_refract(uv@, n@, eta@),
{
    let one = Fp::one();
    let d = uv.neg().dot(n);
    let cos_theta = if one.lt(d) {
        one
    } else {
        d
    };
    let r_perp = uv.add(n.scale(cos_theta)).scale(eta);
    let k = one.sub(r_perp.norm_sq());
    let kabs = if k.lt(Fp::zero()) {
        k.neg()
    } else {
        k
    };
    let r_par = n.scale(kabs.sqrt().neg());
    r_perp.add(r_par)
}

/// A quarter unit, in raw fractional steps: the smallest squared norm a
/// candidate for normalization is allowed, so that the truncating
/// arithmetic stays accurate.
pub const QUARTER_SCALE: i64 = 16384;

/// The vector is the normalization of some vector whose squared norm
/// lies between one quarter and one: what `random_unit_vector` promises
/// of its draws.
pub open spec fn unit_draw(u: V3) -> bool {
    exists|c: V3| QUARTER_SCALE as int <= v3_norm_sq(c) <= SCALE as int && u == v3_unit(c)
}

/// A vector of unit length drawn at random: a candidate with squared
/// norm between one quarter and one is sampled by rejection and
/// normalized; if no candidate is accepted after a fixed number of
/// draws, a fixed axis direction is returned.  Either way the result is
/// the normalization of some vector with squared norm in that band.
pub fn random_unit_vector() -> (r: Vec3)
    ensures
        unit_draw(r@),
        SCALE as int - 13 <= v3_norm_sq(r@) <= SCALE as int + 13,
{
    let mut tries: u32 = 0;
    while tries < 32
        decreases 32 - tries,
    {
        let v = Vec3::new(random_symmetric(), random_symmetric(), random_symmetric());
        let nsq = v.norm_sq();
        let nraw = nsq.raw();
        if QUARTER_SCALE <= nraw && nraw <= SCALE {
            let u = v.unit();
            proof {
                assert(QUARTER_SCALE as int <= v3_norm_sq(v@) <= SCALE as int && u@ == v3_unit(
                    v@,
                ));
                lemma_unit_norm_in_band(v@);
            }
            return u;
        }
        tries = tries + 1;
    }
    let axis = Vec3::new(Fp::one(), Fp::zero(), Fp::zero());
    let u = axis.unit();
    proof {
        lemma_tdiv_mul_exact(SCALE as int, SCALE as int);
        assert(v3_norm_sq(axis@) == SCALE);
        assert(QUARTER_SCALE as int <= v3_norm_sq(axis@) <= SCALE as int && u@ == v3_unit(
            axis@,
        ));
        lemma_unit_norm_in_band(axis@);
    }
    u
}

/// Negating a vector twice gives the vector back.
pub proof fn lemma_neg_involution(v: V3)
    requires
        v3_wf(v),
    ensures
        v3_neg(v3_neg(v)) == v,
{
}

/// A vector and its negation sum to the zero vector.
pub proof fn lemma_add_neg_is_zero(v: V3)
    requires
        v3_wf(v),
    ensures
        v3_add(v, v3_neg(v)) == v3_zero(),
{
}

/// The dot product of a vector with itself is exactly its squared norm.
pub proof fn lemma_dot_self_is_norm_sq(v: V3)
    ensures
        v3_dot(v, v) == v3_norm_sq(v),
{
}

/// Swapping the arguments of the cross product negates it, for all
/// vectors, saturation included.
pub proof fn lemma_cross_antisym(u: V3, v: V3)
    ensures
        v3_cross(u, v) == v3_neg(v3_cross(v, u)),
{
    let s = SCALE as int;
    assert(v.y * u.z - v.z * u.y == -(u.y * v.z - u.z * v.y)) by (nonlinear_arith);
    assert(v.z * u.x - v.x * u.z == -(u.z * v.x - u.x * v.z)) by (nonlinear_arith);
    assert(v.x * u.y - v.y * u.x == -(u.x * v.y - u.y * v.x)) by (nonlinear_arith);
    lemma_tdiv_neg(u.y * v.z - u.z * v.y, s);
    lemma_tdiv_neg(u.z * v.x - u.x * v.z, s);
    lemma_tdiv_neg(u.x * v.y - u.y * v.x, s);
    lemma_clamp_neg(tdiv(u.y * v.z - u.z * v.y, s));
    lemma_clamp_neg(tdiv(u.z * v.x - u.x * v.z, s));
    lemma_clamp_neg(tdiv(u.x * v.y - u.y * v.x, s));
}

/// A squared norm is never negative.
pub proof fn lemma_norm_sq_nonneg(a: V3)
    ensures
        v3_norm_sq(a) >= 0,
{
    assert(a.x * a.x >= 0) by (nonlinear_arith);
    assert(a.y * a.y >= 0) by (nonlinear_arith);
    assert(a.z * a.z >= 0) by (nonlinear_arith);
    vstd::arithmetic::div_mod::lemma_div_pos_is_pos(
        a.x * a.x + a.y * a.y + a.z * a.z,
        SCALE as int,
    );
}

/// On a whole-valued vector along an axis, normalization is exact: the
/// result has squared norm exactly one, and norm exactly one.
pub proof fn lemma_unit_axis_norm(k: int)
    requires
        0 < k,
        k % (SCALE as int) == 0,
        k <= ORTHO_BOUND as int * (SCALE as int),
    ensures
        v3_norm_sq(v3_unit(V3 { x: k, y: 0, z: 0 })) == SCALE as int,
        v3_norm(v3_unit(V3 { x: k, y: 0, z: 0 })) == SCALE as int,
{
    let s = SCALE as int;
    let v = V3 { x: k, y: 0, z: 0 };
    vstd::arithmetic::div_mod::lemma_fundamental_div_mod(k, s);
    let kk = k / s;
    assert(k * k == (kk * k) * s) by (nonlinear_arith)
        requires
            k == s * kk;
    lemma_tdiv_mul_exact(kk * k, s);
    assert(0 < kk * k <= ORTHO_BOUND as int * k) by (nonlinear_arith)
        requires
            k == s * kk,
            0 < k <= ORTHO_BOUND as int * s,
            s == 65536;
    assert(ORTHO_BOUND as int * k <= FP_LIMIT as int) by (nonlinear_arith)
        requires
            0 < k <= ORTHO_BOUND as int * s,
            ORTHO_BOUND as int == 4096,
            s == 65536,
            FP_LIMIT as int == 0x100_0000_0000_0000;
    assert(v3_norm_sq(v) == kk * k);
    // the norm of `v` is exactly `k`
    assert(k * k == (kk * k) * s) by (nonlinear_arith)
        requires
            k == s * kk;
    assert((k + 1) * (k + 1) > (kk * k) * s) by (nonlinear_arith)
        requires
            k * k == (kk * k) * s,
            k > 0;
    crate::fixed::lemma_sqrt_floor_unique(kk * k * s, k);
    assert(v3_norm(v) == k);
    // each component of the normalization divides out exactly
    lemma_tdiv_mul_exact(s, k);
    assert(k * s == s * k) by (nonlinear_arith);
    assert(v3_unit(v) == (V3 { x: s, y: 0, z: 0 }));
    // and the unit vector's own norm is exactly one
    lemma_tdiv_mul_exact(s, s);
    assert(v3_norm_sq(V3 { x: s, y: 0, z: 0 }) == s);
    assert(s * s == s * s);
    assert((s + 1) * (s + 1) > s * s) by (nonlinear_arith)
        requires
            s > 0;
    crate::fixed::lemma_sqrt_floor_unique(s * s, s);
}

/// One component of a normalization: with the divisor `n` at least half
/// a unit, the scaled quotient stays within twice a unit plus slack, its
/// square never exceeds the component's own scaled square, and it falls
/// short of it by at most the division remainder's contribution.
proof fn lemma_unit_component(ci: int, n: int)
    requires
        -(SCALE as int) <= ci <= SCALE as int,
        HALF_SCALE as int <= n <= SCALE as int,
    ensures
        ({
            let s = SCALE as int;
            let q = tdiv(ci * s, n);
            &&& -(2 * s + 2) <= q <= 2 * s + 2
            &&& (n * q) * (n * q) <= ((ci * ci) * s) * s
            &&& ((ci * ci) * s) * s - ((2 * s) * n) * (if ci < 0 {
                -ci
            } else {
                ci
            }) <= (n * q) * (n * q)
        }),
{
    let s = SCALE as int;
    let q = tdiv(ci * s, n);
    crate::fixed::lemma_tdiv_remainder(ci * s, n);
    let e = ci * s - n * q;
    assert((n * q) * (n * q) == ((ci * ci) * s) * s - 2 * ((ci * s) * e) + e * e)
        by (nonlinear_arith)
        requires
            n * q == ci * s - e;
    assert(e * e >= 0) by (nonlinear_arith);
    if ci == 0 {
        assert(ci * s == 0) by (nonlinear_arith)
            requires
                ci == 0;
        vstd::arithmetic::div_mod::lemma_div_of0(n);
        assert(q == 0);
        assert({
            e == 0 && 2 * ((ci * s) * e) == 0 && ((2 * s) * n) * ci == 0
        }) by (nonlinear_arith)
            requires
                ci == 0,
                q == 0,
                e == ci * s - n * q;
    } else if ci >= 1 {
        assert(0 <= e < n);
        assert({ e * e <= ((2 * s) * ci) * e && (ci * s) * e >= ci * e && e * e <= ((2 * s) * n)
            * ci + 2 * ((ci * s) * e) }) by (nonlinear_arith)
            requires
                0 <= e < n,
                1 <= ci <= s,
                HALF_SCALE as int <= n <= s,
                s == 65536;
        assert({ 2 * ((ci * s) * e) <= ((2 * s) * n) * ci }) by (nonlinear_arith)
            requires
                0 <= e < n,
                1 <= ci,
                s > 0;
        assert({ e * e <= 2 * ((ci * s) * e) }) by (nonlinear_arith)
            requires
                0 <= e < n,
                1 <= ci,
                n <= s,
                s == 65536;
    } else {
        assert(-n < e <= 0);
        assert({ e * e <= 2 * ((ci * s) * e) }) by (nonlinear_arith)
            requires
                -n < e <= 0,
                ci <= -1,
                n <= s,
                s == 65536;
        assert({ 2 * ((ci * s) * e) <= ((2 * s) * n) * (-ci) }) by (nonlinear_arith)
            requires
                -n < e <= 0,
                ci <= -1,
                s > 0;
    }
    assert({ -(2 * s + 2) <= q <= 2 * s + 2 }) by (nonlinear_arith)
        requires
            n * q == ci * s - e,
            -n < e < n,
            -s <= ci <= s,
            HALF_SCALE as int <= n <= s,
            s == 65536,
            HALF_SCALE as int == 32768;
}

/// Normalization keeps the norm within a small tolerance of one: for
/// any vector whose squared norm lies between one quarter and one (the
/// band the unit sampler accepts), the squared norm of its
/// normalization is within 13/65536 of one.
#[verifier::rlimit(100)]
pub proof fn lemma_unit_norm_in_band(c: V3)
    requires
        QUARTER_SCALE as int <= v3_norm_sq(c) <= SCALE as int,
    ensures
        SCALE as int - 13 <= v3_norm_sq(v3_unit(c)) <= SCALE as int + 13,
{
    let s = SCALE as int;
    let half = HALF_SCALE as int;
    let t = c.x * c.x + c.y * c.y + c.z * c.z;
    assert(c.x * c.x >= 0) by (nonlinear_arith);
    assert(c.y * c.y >= 0) by (nonlinear_arith);
    assert(c.z * c.z >= 0) by (nonlinear_arith);
    let nsq = v3_norm_sq(c);
    vstd::arithmetic::div_mod::lemma_div_pos_is_pos(t, s);
    assert(nsq == t / s);
    vstd::arithmetic::div_mod::lemma_fundamental_div_mod(t, s);
    vstd::arithmetic::div_mod::lemma_mod_bound(t, s);
    assert(s * nsq <= t < s * nsq + s);
    assert({ nsq * s <= t < (nsq + 1) * s }) by (nonlinear_arith)
        requires
            s * nsq <= t < s * nsq + s;
    // the norm is the integer square root of the scaled squared norm
    assert(nsq * s > 0) by (nonlinear_arith)
        requires
            nsq >= QUARTER_SCALE as int,
            s == 65536,
            QUARTER_SCALE as int == 16384;
    crate::fixed::lemma_sqrt_floor_exists(nsq * s);
    let n = v3_norm(c);
    assert(n >= 0 && n * n <= nsq * s && nsq * s < (n + 1) * (n + 1));
    // the norm lies between half a unit and one unit
    assert({ half * half <= nsq * s && nsq * s <= s * s }) by (nonlinear_arith)
        requires
            QUARTER_SCALE as int <= nsq <= s,
            s == 65536,
            half == 32768,
            QUARTER_SCALE as int == 16384;
    if n + 1 <= half {
        crate::fixed::lemma_sq_mono(n + 1, half);
        assert(false);
    }
    if n > s {
        crate::fixed::lemma_sq_mono(s + 1, n);
        assert({ s * s < (s + 1) * (s + 1) }) by (nonlinear_arith)
            requires
                s > 0;
        assert(false);
    }
    assert(half <= n <= s);
    // every component is within one unit
    assert({ t < (s + 1) * (s + 1) }) by (nonlinear_arith)
        requires
            t < (nsq + 1) * s,
            nsq <= s,
            s == 65536;
    assert({ -s <= c.x <= s && -s <= c.y <= s && -s <= c.z <= s }) by (nonlinear_arith)
        requires
            c.x * c.x + c.y * c.y + c.z * c.z == t,
            c.x * c.x >= 0 && c.y * c.y >= 0 && c.z * c.z >= 0,
            t < (s + 1) * (s + 1),
            s == 65536;
    // the normalization's components are the scaled quotients
    lemma_unit_component(c.x, n);
    lemma_unit_component(c.y, n);
    lemma_unit_component(c.z, n);
    let qx = tdiv(c.x * s, n);
    let qy = tdiv(c.y * s, n);
    let qz = tdiv(c.z * s, n);
    let u = v3_unit(c);
    assert(u.x == qx && u.y == qy && u.z == qz);
    let uu = qx * qx + qy * qy + qz * qz;
    assert({
        (n * qx) * (n * qx) + (n * qy) * (n * qy) + (n * qz) * (n * qz) == (n * n) * uu
    }) by (nonlinear_arith)
        requires
            uu == qx * qx + qy * qy + qz * qz;
    assert({
        ((c.x * c.x) * s) * s + ((c.y * c.y) * s) * s + ((c.z * c.z) * s) * s == (t * s) * s
    }) by (nonlinear_arith)
        requires
            t == c.x * c.x + c.y * c.y + c.z * c.z;
    let ax = if c.x < 0 { -c.x } else { c.x };
    let ay = if c.y < 0 { -c.y } else { c.y };
    let az = if c.z < 0 { -c.z } else { c.z };
    assert((n * n) * uu <= (t * s) * s);
    assert({
        (t * s) * s - ((2 * s) * n) * (ax + ay + az) <= (n * n) * uu
    }) by (nonlinear_arith)
        requires
            (n * qx) * (n * qx) + (n * qy) * (n * qy) + (n * qz) * (n * qz) == (n * n) * uu,
            ((c.x * c.x) * s) * s - ((2 * s) * n) * ax <= (n * qx) * (n * qx),
            ((c.y * c.y) * s) * s - ((2 * s) * n) * ay <= (n * qy) * (n * qy),
            ((c.z * c.z) * s) * s - ((2 * s) * n) * az <= (n * qz) * (n * qz),
            ((c.x * c.x) * s) * s + ((c.y * c.y) * s) * s + ((c.z * c.z) * s) * s == (t * s) * s;
    // upper bound on the sum of squares
    assert({ uu <= s * s + 13 * s }) by (nonlinear_arith)
        requires
            (n * n) * uu <= (t * s) * s,
            t < (nsq + 1) * s,
            nsq * s < (n + 1) * (n + 1),
            half <= n <= s,
            uu >= 0 || uu < 0,
            s == 65536,
            half == 32768;
    // lower bound on the sum of squares
    assert({ s * s - 13 * s <= uu }) by (nonlinear_arith)
        requires
            (t * s) * s - ((2 * s) * n) * (ax + ay + az) <= (n * n) * uu,
            nsq * s <= t,
            n * n <= nsq * s,
            0 <= ax <= s && 0 <= ay <= s && 0 <= az <= s,
            half <= n <= s,
            s == 65536,
            half == 32768;
    // and back down to scale
    crate::fixed::lemma_tdiv_ordered((s - 13) * s, uu, s);
    crate::fixed::lemma_tdiv_ordered(uu, (s + 13) * s, s);
    lemma_tdiv_mul_exact(s - 13, s);
    lemma_tdiv_mul_exact(s + 13, s);
    assert({ s * s - 13 * s == (s - 13) * s && s * s + 13 * s == (s + 13) * s })
        by (nonlinear_arith);
    assert(v3_norm_sq(u) == clamp_raw(tdiv(uu, s)));
}

/// Bound, in whole units per component, under which the orthogonality
/// law is stated: small enough that no rounding or saturation occurs.
pub const ORTHO_BOUND: i64 = 4096;

/// Every component is a whole number of units.
pub open spec fn v3_whole(a: V3) -> bool {
    a.x % (SCALE as int) == 0 && a.y % (SCALE as int) == 0 && a.z % (SCALE as int) == 0
}

/// Every component's magnitude is at most `m` raw steps.
pub open spec fn v3_bounded(a: V3, m: int) -> bool {
    -m <= a.x <= m && -m <= a.y <= m && -m <= a.z <= m
}

/// Three terms summing to zero still sum to zero after each is scaled
/// by the square of the unit.
proof fn lemma_three_terms_vanish(t1: int, t2: int, t3: int, s: int)
    requires
        t1 + t2 + t3 == 0,
    ensures
        (t1 * s) * s + (t2 * s) * s + (t3 * s) * s == 0,
{
    assert({ (t1 * s) * s + (t2 * s) * s + (t3 * s) * s == ((t1 + t2 + t3) * s) * s })
        by (nonlinear_arith);
}

/// On whole-valued factors of at most `ORTHO_BOUND` units per
/// component, the cross product is computed without rounding or
/// saturation and is orthogonal to both factors: both dot products are
/// exactly zero.
#[verifier::rlimit(60)]
pub proof fn lemma_cross_orthogonal(u: V3, v: V3)
    requires
        v3_whole(u),
        v3_whole(v),
        v3_bounded(u, ORTHO_BOUND as int * (SCALE as int)),
        v3_bounded(v, ORTHO_BOUND as int * (SCALE as int)),
    ensures
        v3_dot(u, v3_cross(u, v)) == 0,
        v3_dot(v, v3_cross(u, v)) == 0,
{
    let s = SCALE as int;
    let bb = ORTHO_BOUND as int;
    vstd::arithmetic::div_mod::lemma_fundamental_div_mod(u.x, s);
    vstd::arithmetic::div_mod::lemma_fundamental_div_mod(u.y, s);
    vstd::arithmetic::div_mod::lemma_fundamental_div_mod(u.z, s);
    vstd::arithmetic::div_mod::lemma_fundamental_div_mod(v.x, s);
    vstd::arithmetic::div_mod::lemma_fundamental_div_mod(v.y, s);
    vstd::arithmetic::div_mod::lemma_fundamental_div_mod(v.z, s);
    let a1 = u.x / s;
    let a2 = u.y / s;
    let a3 = u.z / s;
    let b1 = v.x / s;
    let b2 = v.y / s;
    let b3 = v.z / s;
    assert({ -bb <= a1 <= bb && -bb <= a2 <= bb && -bb <= a3 <= bb }) by (nonlinear_arith)
        requires
            u.x == s * a1 && u.y == s * a2 && u.z == s * a3,
            -(bb * s) <= u.x <= bb * s && -(bb * s) <= u.y <= bb * s && -(bb * s) <= u.z <= bb
                * s,
            s == 65536;
    assert({ -bb <= b1 <= bb && -bb <= b2 <= bb && -bb <= b3 <= bb }) by (nonlinear_arith)
        requires
            v.x == s * b1 && v.y == s * b2 && v.z == s * b3,
            -(bb * s) <= v.x <= bb * s && -(bb * s) <= v.y <= bb * s && -(bb * s) <= v.z <= bb
                * s,
            s == 65536;
    let c1 = a2 * b3 - a3 * b2;
    let c2 = a3 * b1 - a1 * b3;
    let c3 = a1 * b2 - a2 * b1;
    assert({ u.y * v.z - u.z * v.y == (c1 * s) * s }) by (nonlinear_arith)
        requires
            u.y == s * a2 && u.z == s * a3 && v.y == s * b2 && v.z == s * b3,
            c1 == a2 * b3 - a3 * b2;
    assert({ u.z * v.x - u.x * v.z == (c2 * s) * s }) by (nonlinear_arith)
        requires
            u.x == s * a1 && u.z == s * a3 && v.x == s * b1 && v.z == s * b3,
            c2 == a3 * b1 - a1 * b3;
    assert({ u.x * v.y - u.y * v.x == (c3 * s) * s }) by (nonlinear_arith)
        requires
            u.x == s * a1 && u.y == s * a2 && v.x == s * b1 && v.y == s * b2,
            c3 == a1 * b2 - a2 * b1;
    lemma_tdiv_mul_exact(c1 * s, s);
    lemma_tdiv_mul_exact(c2 * s, s);
    lemma_tdiv_mul_exact(c3 * s, s);
    assert({
        let lim = FP_LIMIT as int;
        -lim <= c1 * s <= lim && -lim <= c2 * s <= lim && -lim <= c3 * s <= lim
    }) by (nonlinear_arith)
        requires
            -bb <= a1 <= bb && -bb <= a2 <= bb && -bb <= a3 <= bb,
            -bb <= b1 <= bb && -bb <= b2 <= bb && -bb <= b3 <= bb,
            c1 == a2 * b3 - a3 * b2 && c2 == a3 * b1 - a1 * b3 && c3 == a1 * b2 - a2 * b1,
            bb == 4096,
            s == 65536,
            FP_LIMIT as int == 0x100_0000_0000_0000;
    let w = v3_cross(u, v);
    assert(w.x == c1 * s && w.y == c2 * s && w.z == c3 * s);
    assert({ a1 * c1 + a2 * c2 + a3 * c3 == 0 }) by (nonlinear_arith)
        requires
            c1 == a2 * b3 - a3 * b2 && c2 == a3 * b1 - a1 * b3 && c3 == a1 * b2 - a2 * b1;
    assert({ b1 * c1 + b2 * c2 + b3 * c3 == 0 }) by (nonlinear_arith)
        requires
            c1 == a2 * b3 - a3 * b2 && c2 == a3 * b1 - a1 * b3 && c3 == a1 * b2 - a2 * b1;
    assert({ u.x * w.x == ((a1 * c1) * s) * s }) by (nonlinear_arith)
        requires
            u.x == s * a1 && w.x == c1 * s;
    assert({ u.y * w.y == ((a2 * c2) * s) * s }) by (nonlinear_arith)
        requires
            u.y == s * a2 && w.y == c2 * s;
    assert({ u.z * w.z == ((a3 * c3) * s) * s }) by (nonlinear_arith)
        requires
            u.z == s * a3 && w.z == c3 * s;
    assert({ v.x * w.x == ((b1 * c1) * s) * s }) by (nonlinear_arith)
        requires
            v.x == s * b1 && w.x == c1 * s;
    assert({ v.y * w.y == ((b2 * c2) * s) * s }) by (nonlinear_arith)
        requires
            v.y == s * b2 && w.y == c2 * s;
    assert({ v.z * w.z == ((b3 * c3) * s) * s }) by (nonlinear_arith)
        requires
            v.z == s * b3 && w.z == c3 * s;
    lemma_three_terms_vanish(a1 * c1, a2 * c2, a3 * c3, s);
    lemma_three_terms_vanish(b1 * c1, b2 * c2, b3 * c3, s);
    assert(u.x * w.x + u.y * w.y + u.z * w.z == 0);
    assert(v.x * w.x + v.y * w.y + v.z * w.z == 0);
    assert(tdiv(0, s) == 0);
}

} // verus!
