//! The camera: viewport geometry derived from field-of-view and
//! look-from/look-at/up configuration, per-pixel jittered sample rays,
//! the recursive color estimator, and the render loop that averages
//! samples and gamma-corrects each pixel.

use vstd::prelude::*;

use crate::color::Color;
use crate::color::Rgb;
use crate::color::quantize_s;
use crate::color::to_rgb;
use crate::fixed::FP_LIMIT;
use crate::fixed::Fp;
use crate::fixed::HALF_SCALE;
use crate::fixed::SCALE;
use crate::fixed::clamp_raw;
use crate::fixed::fp_add_s;
use crate::fixed::fp_div_s;
use crate::fixed::fp_mul_s;
use crate::fixed::fp_sub_s;
use crate::fixed::tdiv;
use crate::hittable_list::HittableList;
use crate::hittable_list::list_hit_s;
use crate::interval::Interval;
use crate::hittable::HitV;
use crate::hittable::SurfaceV;
use crate::material::opt_scatter_v;
use crate::material::scatter_s;
use crate::ray::Ray;
use crate::ray::RayV;
use crate::vec3::Point;
use crate::vec3::V3;
use crate::vec3::Vec3;
use crate::vec3::unit_draw;
use crate::vec3::v3_add;
use crate::vec3::v3_cross;
use crate::vec3::v3_hadamard;
use crate::vec3::v3_neg;
use crate::vec3::v3_norm;
use crate::vec3::v3_scale;
use crate::vec3::v3_sub;
use crate::vec3::v3_unit;
use crate::vec3::v3_zero;

verus! {

/// The ratio of a circle's circumference to its diameter, in raw
/// fixed-point steps.
pub const PI_RAW: i64 = 205887;

/// Lower bound of the intersection interval used by the color
/// estimator, in raw steps: strictly above zero so a scattered ray
/// cannot immediately re-hit the surface it just left.
pub const T_MIN_RAW: i64 = 66;

/// Largest raster dimension, in pixels, the renderer accepts.
pub const MAX_DIM: i64 = 4096;

/// Green channel of the zenith color, in raw steps.
pub const SKY_G_RAW: i64 = 45875;

/// Spec mirror of degree-to-radian conversion.
pub open spec fn deg_to_rad_s(d: int) -> int {
    fp_div_s(fp_mul_s(d, PI_RAW as int), 180 * (SCALE as int))
}

/// Spec mirror of the sine approximation: the Taylor polynomial
/// `x - x^3/6 + x^5/120 - x^7/5040` in fixed-point arithmetic.
pub open spec fn sin_s(x: int) -> int {
    let x2 = fp_mul_s(x, x);
    let x3 = fp_mul_s(x2, x);
    let x5 = fp_mul_s(x3, x2);
    let x7 = fp_mul_s(x5, x2);
    fp_sub_s(
        fp_add_s(fp_sub_s(x, fp_div_s(x3, 6 * (SCALE as int))), fp_div_s(x5, 120 * (SCALE as int))),
        fp_div_s(x7, 5040 * (SCALE as int)),
    )
}

/// Spec mirror of the cosine approximation: the Taylor polynomial
/// `1 - x^2/2 + x^4/24 - x^6/720` in fixed-point arithmetic.
pub open spec fn cos_s(x: int) -> int {
    let x2 = fp_mul_s(x, x);
    let x4 = fp_mul_s(x2, x2);
    let x6 = fp_mul_s(x4, x2);
    fp_sub_s(
        fp_add_s(
            fp_sub_s(SCALE as int, fp_div_s(x2, 2 * (SCALE as int))),
            fp_div_s(x4, 24 * (SCALE as int)),
        ),
        fp_div_s(x6, 720 * (SCALE as int)),
    )
}

/// Spec mirror of the tangent approximation: the quotient of the two
/// polynomials.
pub open spec fn tan_s(x: int) -> int {
    fp_div_s(sin_s(x), cos_s(x))
}

/// Degree-to-radian conversion.
fn deg_to_rad(d: Fp) -> (r: Fp)
    ensures
        r@ == deg_to_rad_s(d@),
{
    d.mul(Fp::from_raw(PI_RAW)).div(Fp::from_int(180))
}

/// Sine by its Taylor polynomial.
fn sin_fp(x: Fp) -> (r: Fp)
    ensures
        r@ == sin_s(x@),
{
    let x2 = x.mul(x);
    let x3 = x2.mul(x);
    let x5 = x3.mul(x2);
    let x7 = x5.mul(x2);
    x.sub(x3.div(Fp::from_int(6))).add(x5.div(Fp::from_int(120))).sub(x7.div(Fp::from_int(5040)))
}

/// Cosine by its Taylor polynomial.
fn cos_fp(x: Fp) -> (r: Fp)
    ensures
        r@ == cos_s(x@),
{
    let x2 = x.mul(x);
    let x4 = x2.mul(x2);
    let x6 = x4.mul(x2);
    Fp::one().sub(x2.div(Fp::from_int(2))).add(x4.div(Fp::from_int(24))).sub(
        x6.div(Fp::from_int(720)),
    )
}

/// Tangent as the quotient of the two polynomials.
fn tan_fp(x: Fp) -> (r: Fp)
    ensures
        r@ == tan_s(x@),
{
    sin_fp(x).div(cos_fp(x))
}

/// The camera: user-facing configuration plus state derived from it by
/// `initialize`, which must run before the derived fields are read.
pub struct Camera {
    /// Width over height of the image.
    pub aspect: Fp,
    /// Image width in pixels.
    pub img_width: u32,
    /// Image height in pixels; derived.
    pub img_height: u32,
    /// Eye point; derived (a copy of `look_from`).
    pub center: Point,
    /// World-space center of the top-left pixel; derived.
    pub anchor: Point,
    /// World-space step from one pixel column to the next; derived.
    pub pixel_delta_u: Vec3,
    /// World-space step from one pixel row to the next; derived.
    pub pixel_delta_v: Vec3,
    /// Rays averaged per pixel.
    pub samples_per_pixel: u32,
    /// Reciprocal of `samples_per_pixel`; derived.
    pub pixel_sample_scale: Fp,
    /// Bound on recursive scattering.
    pub max_depth: u32,
    /// Vertical field of view, in degrees.
    pub vfov: Fp,
    /// Eye point.
    pub look_from: Point,
    /// Point the camera looks at.
    pub look_at: Point,
    /// Up direction.
    pub v_up: Vec3,
    /// Right-pointing basis vector of the viewport; derived.
    pub u: Vec3,
    /// Up-pointing basis vector of the viewport; derived.
    pub v: Vec3,
    /// Basis vector pointing from the target to the eye; derived.
    pub w: Vec3,
}

/// The derived image height: width over aspect, truncated, kept within
/// `[1, MAX_DIM]`.
pub open spec fn cam_height_s(c: Camera) -> int {
    let h = tdiv(fp_div_s(clamp_raw(c.img_width as int * (SCALE as int)), c.aspect@), SCALE as int);
    if h < 1 {
        1
    } else if h > MAX_DIM as int {
        MAX_DIM as int
    } else {
        h
    }
}

/// The basis vector from the target toward the eye.
pub open spec fn cam_w_s(c: Camera) -> V3 {
    v3_unit(v3_sub(c.look_from@, c.look_at@))
}

/// The right-pointing basis vector.
pub open spec fn cam_u_s(c: Camera) -> V3 {
    v3_unit(v3_cross(c.v_up@, cam_w_s(c)))
}

/// The up-pointing basis vector.
pub open spec fn cam_v_s(c: Camera) -> V3 {
    v3_cross(cam_w_s(c), cam_u_s(c))
}

/// The focal length: the distance from the eye to the target.
pub open spec fn cam_focal_s(c: Camera) -> int {
    v3_norm(v3_sub(c.look_from@, c.look_at@))
}

/// The viewport height in world space:
/// `2 tan(vfov/2) * focal_length`.
pub open spec fn cam_viewport_h_s(c: Camera) -> int {
    let h = tan_s(fp_div_s(deg_to_rad_s(c.vfov@), 2 * (SCALE as int)));
    fp_mul_s(fp_mul_s(2 * (SCALE as int), h), cam_focal_s(c))
}

/// The viewport width in world space: the height scaled by the pixel
/// aspect ratio of the raster.
pub open spec fn cam_viewport_w_s(c: Camera) -> int {
    fp_div_s(
        fp_mul_s(cam_viewport_h_s(c), clamp_raw(c.img_width as int * (SCALE as int))),
        clamp_raw(cam_height_s(c) * (SCALE as int)),
    )
}

/// The step from one pixel column to the next.
pub open spec fn cam_pdu_s(c: Camera) -> V3 {
    v3_div_by_count(v3_scale(cam_u_s(c), cam_viewport_w_s(c)), c.img_width as int)
}

/// The step from one pixel row to the next.
pub open spec fn cam_pdv_s(c: Camera) -> V3 {
    v3_div_by_count(v3_scale(v3_neg(cam_v_s(c)), cam_viewport_h_s(c)), cam_height_s(c))
}

/// Division of a vector by a whole count.
pub open spec fn v3_div_by_count(a: V3, n: int) -> V3 {
    crate::vec3::v3_div_scalar(a, clamp_raw(n * (SCALE as int)))
}

/// The world-space center of the top-left pixel: half the viewport up
/// and to the left of the point one focal length ahead of the eye, then
/// half a pixel step in.
pub open spec fn cam_anchor_s(c: Camera) -> V3 {
    let vu = v3_scale(cam_u_s(c), cam_viewport_w_s(c));
    let vv = v3_scale(v3_neg(cam_v_s(c)), cam_viewport_h_s(c));
    let upper_left = v3_sub(
        v3_sub(
            v3_sub(c.look_from@, v3_scale(cam_w_s(c), cam_focal_s(c))),
            v3_div_by_count(vu, 2),
        ),
        v3_div_by_count(vv, 2),
    );
    v3_add(upper_left, v3_scale(v3_add(cam_pdu_s(c), cam_pdv_s(c)), HALF_SCALE as int))
}

/// The per-sample averaging factor: the reciprocal of the sample count.
pub open spec fn cam_scale_s(c: Camera) -> int {
    fp_div_s(SCALE as int, clamp_raw(c.samples_per_pixel as int * (SCALE as int)))
}

/// All derived fields hold the values `initialize` computes from the
/// configuration fields.
pub open spec fn cam_initialized(c: Camera) -> bool {
    c.img_height as int == cam_height_s(c) && c.center@ == c.look_from@ && c.w@ == cam_w_s(c)
        && c.u@ == cam_u_s(c) && c.v@ == cam_v_s(c) && c.pixel_delta_u@ == cam_pdu_s(c)
        && c.pixel_delta_v@ == cam_pdv_s(c) && c.anchor@ == cam_anchor_s(c)
        && c.pixel_sample_scale@ == cam_scale_s(c)
}

/// The two cameras share every configuration field.
pub open spec fn cam_same_config(a: Camera, b: Camera) -> bool {
    a.aspect == b.aspect && a.img_width == b.img_width && a.samples_per_pixel
        == b.samples_per_pixel && a.max_depth == b.max_depth && a.vfov == b.vfov && a.look_from
        == b.look_from && a.look_at == b.look_at && a.v_up == b.v_up
}


/// Spec mirror of the sky gradient returned on a miss: a vertical blend
/// from white at the horizon to sky blue at the zenith, keyed by the
/// normalized vertical component of the ray direction.
pub open spec fn background_s(r: RayV) -> V3 {
    let unit_dir = v3_unit(r.dir);
    let a = fp_mul_s(HALF_SCALE as int, fp_add_s(unit_dir.y, SCALE as int));
    v3_add(
        v3_scale(
            V3 { x: SCALE as int, y: SCALE as int, z: SCALE as int },
            fp_sub_s(SCALE as int, a),
        ),
        v3_scale(V3 { x: HALF_SCALE as int, y: SKY_G_RAW as int, z: SCALE as int }, a),
    )
}

/// The sky gradient for a ray that strikes nothing.
pub fn background(r: &Ray) -> (c: Color)
    ensures
        c@ == background_s(r@),
{
    let unit_dir = r.dir.unit();
    let a = Fp::from_raw(HALF_SCALE).mul(unit_dir.y().add(Fp::one()));
    let white = Vec3::new(Fp::one(), Fp::one(), Fp::one());
    let sky = Vec3::new(Fp::from_raw(HALF_SCALE), Fp::from_raw(SKY_G_RAW), Fp::one());
    white.scale(Fp::one().sub(a)).add(sky.scale(a))
}

/// One level of the estimate at a hit, with the recursion factored
/// out: the scan found a hit, the draws are valid, and the estimate is
/// the material's attenuation times the sub-estimate `sub`, or black on
/// absorption.
pub open spec fn scatter_out_ok(
    oh: Option<HitV>,
    r: RayV,
    ru: V3,
    rp: int,
    sub: V3,
    out: V3,
) -> bool {
    oh matches Some(h) && unit_draw(ru) && 0 <= rp < SCALE as int && (match scatter_s(
        h.mat,
        r,
        h,
        ru,
        rp,
    ) {
        Some(pair) => out == v3_hadamard(pair.0, sub),
        None => out == v3_zero(),
    })
}

/// The continuation ray of a scatter at a hit, where one exists.
pub open spec fn scatter_ray(oh: Option<HitV>, r: RayV, ru: V3, rp: int) -> Option<RayV> {
    match oh {
        Some(h) => match scatter_s(h.mat, r, h, ru, rp) {
            Some(pair) => Some(pair.1),
            None => None,
        },
        None => None,
    }
}

/// The relation an estimated color stands in to a ray.  At depth zero
/// the estimate is black.  Otherwise, on a miss it is the sky gradient;
/// on a hit it is, for some valid random draws, the estimate one level
/// down attenuated component-wise by the material's attenuation, or
/// black when the material absorbs the ray.
pub open spec fn ray_color_rel(objs: Seq<SurfaceV>, r: RayV, depth: nat, out: V3) -> bool
    decreases depth,
{
    if depth == 0 {
        out == v3_zero()
    } else {
        let oh = list_hit_s(objs, r, T_MIN_RAW as int, FP_LIMIT as int);
        if oh is None {
            out == background_s(r)
        } else {
            exists|ru: V3, rp: int, sub: V3|
                #[trigger] scatter_out_ok(oh, r, ru, rp, sub, out) && (match scatter_ray(
                    oh,
                    r,
                    ru,
                    rp,
                ) {
                    Some(sr) => ray_color_rel(objs, sr, (depth - 1) as nat, sub),
                    None => true,
                })
        }
    }
}

/// Estimates at a hit stand in the color relation: the witnesses are
/// the draws the scatter was made with and the recursive estimate.
proof fn lemma_ray_color_rel_hit(
    objs: Seq<SurfaceV>,
    r: RayV,
    depth: nat,
    h: HitV,
    ru: V3,
    rp: int,
    sub: V3,
    out: V3,
)
    requires
        depth > 0,
        list_hit_s(objs, r, T_MIN_RAW as int, FP_LIMIT as int) == Some(h),
        unit_draw(ru),
        0 <= rp < SCALE as int,
        match scatter_s(h.mat, r, h, ru, rp) {
            Some(pair) => ray_color_rel(objs, pair.1, (depth - 1) as nat, sub) && out
                == v3_hadamard(pair.0, sub),
            None => out == v3_zero(),
        },
    ensures
        ray_color_rel(objs, r, depth, out),
{
    let oh = list_hit_s(objs, r, T_MIN_RAW as int, FP_LIMIT as int);
    assert(scatter_out_ok(oh, r, ru, rp, sub, out) && (match scatter_ray(oh, r, ru, rp) {
        Some(sr) => ray_color_rel(objs, sr, (depth - 1) as nat, sub),
        None => true,
    }));
    reveal_with_fuel(ray_color_rel, 2);
    assert(ray_color_rel(objs, r, depth, out));
}

/// At depth zero the color estimate is black, whatever the scene holds.
pub proof fn lemma_ray_color_depth_zero(objs: Seq<SurfaceV>, r: RayV, out: V3)
    requires
        ray_color_rel(objs, r, 0, out),
    ensures
        out == v3_zero(),
{
}

/// The offset lies within half a pixel of the center in each raster
/// direction, with no third component.
pub open spec fn sample_offset_ok(off: V3) -> bool {
    -(HALF_SCALE as int) <= off.x < HALF_SCALE as int && -(HALF_SCALE as int) <= off.y
        < HALF_SCALE as int && off.z == 0
}

/// A random offset within half a pixel of the center, for antialiasing
/// jitter.
pub fn sample_square() -> (off: Vec3)
    ensures
        sample_offset_ok(off@),
{
    let half = Fp::from_raw(HALF_SCALE);
    let x = crate::rng::random_01().sub(half);
    let y = crate::rng::random_01().sub(half);
    Vec3::new(x, y, Fp::zero())
}

/// Spec mirror of the ray through pixel `(i, j)` jittered by `off`:
/// from the camera center through the jittered pixel position.
pub open spec fn cam_ray_s(c: Camera, i: int, j: int, off: V3) -> RayV {
    let px = v3_add(
        c.anchor@,
        v3_add(
            v3_scale(c.pixel_delta_u@, fp_add_s(clamp_raw(i * (SCALE as int)), off.x)),
            v3_scale(c.pixel_delta_v@, fp_add_s(clamp_raw(j * (SCALE as int)), off.y)),
        ),
    );
    RayV { origin: c.center@, dir: v3_sub(px, c.center@) }
}

/// One sample step of a pixel's sum: the new estimate came through an
/// in-bounds jittered ray and was added to the sum so far.
pub open spec fn sum_step_ok(
    c: Camera,
    objs: Seq<SurfaceV>,
    i: int,
    j: int,
    prev: V3,
    off: V3,
    col: V3,
    sum: V3,
) -> bool {
    sample_offset_ok(off) && ray_color_rel(objs, cam_ray_s(c, i, j, off), c.max_depth as nat, col)
        && sum == v3_add(prev, col)
}

/// The sum of `n` per-sample estimates for pixel `(i, j)`, each taken
/// through its own jittered ray.
pub open spec fn pixel_sum_ok(
    c: Camera,
    objs: Seq<SurfaceV>,
    i: int,
    j: int,
    n: nat,
    sum: V3,
) -> bool
    decreases n,
{
    if n == 0 {
        sum == v3_zero()
    } else {
        exists|prev: V3, off: V3, col: V3|
            #[trigger] sum_step_ok(c, objs, i, j, prev, off, col, sum) && pixel_sum_ok(
                c,
                objs,
                i,
                j,
                (n - 1) as nat,
                prev,
            )
    }
}

/// A row-major pixel index within a completed row block is within the
/// block.
proof fn lemma_row_index_bound(jj: int, ii: int, j: int, w: int)
    requires
        0 <= jj < j,
        0 <= ii < w,
    ensures
        0 <= jj * w + ii < j * w,
{
    assert({ 0 <= jj * w + ii < j * w }) by (nonlinear_arith)
        requires
            0 <= jj < j,
            0 <= ii < w;
}

/// The pixel holds the quantized, gamma-corrected average of the
/// camera's per-pixel count of sample estimates.
pub open spec fn pixel_ok(c: Camera, objs: Seq<SurfaceV>, i: int, j: int, px: Rgb) -> bool {
    exists|sum: V3|
        #[trigger] pixel_sum_ok(c, objs, i, j, c.samples_per_pixel as nat, sum) && {
            let avg = v3_scale(sum, c.pixel_sample_scale@);
            px.r as int == quantize_s(avg.x) && px.g as int == quantize_s(avg.y) && px.b as int
                == quantize_s(avg.z)
        }
}

impl Camera {
    /// Build a camera from its configuration; ten samples per pixel and
    /// a recursion depth of ten are the defaults.  The derived fields
    /// are zeroed until `initialize` runs.
    pub fn new(aspect: Fp, img_width: u32, vfov: Fp, look_from: Point, look_at: Point, v_up: Vec3)
        -> (r: Camera)
        ensures
            r.aspect == aspect && r.img_width == img_width && r.vfov == vfov && r.look_from
                == look_from && r.look_at == look_at && r.v_up == v_up,
            r.samples_per_pixel == 10 && r.max_depth == 10,
    {
        Camera {
            aspect,
            img_width,
            img_height: 0,
            center: Vec3::zero(),
            anchor: Vec3::zero(),
            pixel_delta_u: Vec3::zero(),
            pixel_delta_v: Vec3::zero(),
            samples_per_pixel: 10,
            pixel_sample_scale: Fp::zero(),
            max_depth: 10,
            vfov,
            look_from,
            look_at,
            v_up,
            u: Vec3::zero(),
            v: Vec3::zero(),
            w: Vec3::zero(),
        }
    }

    /// Compute the derived viewport state from the configuration.
    pub fn initialize(&mut self)
        ensures
            cam_same_config(*final(self), *old(self)),
            cam_initialized(*final(self)),
    {
        let width_fp = Fp::from_int(self.img_width as i64);
        let h_raw = width_fp.div(self.aspect).trunc();
        let h_px: i64 = if h_raw < 1 {
            1
        } else if h_raw > MAX_DIM {
            MAX_DIM
        } else {
            h_raw
        };
        self.img_height = h_px as u32;

        self.center = self.look_from;

        let gaze = self.look_from.sub(self.look_at);
        let focal_length = gaze.norm();
        let theta = deg_to_rad(self.vfov);
        let h = tan_fp(theta.div(Fp::from_int(2)));

        self.w = gaze.unit();
        self.u = self.v_up.cross(self.w).unit();
        self.v = self.w.cross(self.u);

        let viewport_height = Fp::from_int(2).mul(h).mul(focal_length);
        let viewport_width = viewport_height.mul(width_fp).div(Fp::from_int(h_px));

        let viewport_u = self.u.scale(viewport_width);
        let viewport_v = self.v.neg().scale(viewport_height);

        self.pixel_delta_u = viewport_u.div(width_fp);
        self.pixel_delta_v = viewport_v.div(Fp::from_int(h_px));

        let viewport_upper_left = self.center.sub(self.w.scale(focal_length)).sub(
            viewport_u.div(Fp::from_int(2)),
        ).sub(viewport_v.div(Fp::from_int(2)));
        self.anchor = viewport_upper_left.add(
            self.pixel_delta_u.add(self.pixel_delta_v).scale(Fp::from_raw(HALF_SCALE)),
        );

        self.pixel_sample_scale = Fp::one().div(Fp::from_int(self.samples_per_pixel as i64));
    }

    /// The ray through pixel `(i, j)` jittered by the given offset.
    pub fn get_ray_with(&self, i: u32, j: u32, offset: Vec3) -> (r: Ray)
        ensures
            r@ == cam_ray_s(*self, i as int, j as int, offset@),
    {
        let iu = Fp::from_int(i as i64).add(offset.x());
        let jv = Fp::from_int(j as i64).add(offset.y());
        let pixel_sample = self.anchor.add(
            self.pixel_delta_u.scale(iu).add(self.pixel_delta_v.scale(jv)),
        );
        Ray::new(self.center, pixel_sample.sub(self.center))
    }

    /// The ray through pixel `(i, j)` with fresh antialiasing jitter.
    pub fn get_ray(&self, i: u32, j: u32) -> (r: Ray)
        ensures
            exists|off: V3|
                sample_offset_ok(off) && r@ == cam_ray_s(*self, i as int, j as int, off),
    {
        let off = sample_square();
        let r = self.get_ray_with(i, j, off);
        proof {
            assert(sample_offset_ok(off@) && r@ == cam_ray_s(
                *self,
                i as int,
                j as int,
                off@,
            ));
        }
        r
    }

    /// Estimate the color carried along a ray: black at depth zero; on
    /// a hit, the material's attenuation times the estimate for the
    /// scattered ray one level down (black on absorption); on a miss,
    /// the sky gradient.
    pub fn ray_color(&self, r: &Ray, depth: u32, world: &HittableList) -> (c: Color)
        ensures
            ray_color_rel(world@, r@, depth as nat, c@),
        decreases depth,
    {
        if depth == 0 {
            return Vec3::zero();
        }
        let hit_res = world.hit(r, Interval::new(Fp::from_raw(T_MIN_RAW), Fp::max_value()));
        match hit_res {
            Some(hit) => {
                let sres = hit.mat.scatter(r, &hit);
                match sres {
                    Some(pair) => {
                        let sub = self.ray_color(&pair.1, depth - 1, world);
                        let out = pair.0.mul(sub);
                        proof {
                            let (ru, rp) = choose|ru: V3, rp: int|
                                unit_draw(ru) && 0 <= rp < SCALE as int && opt_scatter_v(sres)
                                    == scatter_s(hit.mat@, r@, hit@, ru, rp);
                            lemma_ray_color_rel_hit(
                                world@,
                                r@,
                                depth as nat,
                                hit@,
                                ru,
                                rp,
                                sub@,
                                out@,
                            );
                        }
                        out
                    },
                    None => {
                        proof {
                            let (ru, rp) = choose|ru: V3, rp: int|
                                unit_draw(ru) && 0 <= rp < SCALE as int && opt_scatter_v(sres)
                                    == scatter_s(hit.mat@, r@, hit@, ru, rp);
                            lemma_ray_color_rel_hit(
                                world@,
                                r@,
                                depth as nat,
                                hit@,
                                ru,
                                rp,
                                v3_zero(),
                                v3_zero(),
                            );
                        }
                        Vec3::zero()
                    },
                }
            },
            None => background(r),
        }
    }

    /// Render the scene: derive the viewport, then for every pixel in
    /// row-major order average the configured number of jittered sample
    /// estimates, gamma-correct and quantize.  The result holds one
    /// pixel per raster position, rows ordered top to bottom.
    #[verifier::rlimit(100)]
    pub fn render(&mut self, world: &HittableList) -> (pixels: Vec<Rgb>)
        requires
            1 <= old(self).img_width <= MAX_DIM as u32,
            1 <= old(self).samples_per_pixel,
        ensures
            cam_same_config(*final(self), *old(self)),
            cam_initialized(*final(self)),
            pixels.len() == final(self).img_height as int * final(self).img_width as int,
            forall|j: int, i: int|
                0 <= j < final(self).img_height as int && 0 <= i < final(self).img_width as int
                    ==> #[trigger] pixel_ok(
                    *final(self),
                    world@,
                    i,
                    j,
                    pixels[j * final(self).img_width as int + i],
                ),
    {
        self.initialize();
        let w = self.img_width;
        let h = self.img_height;
        let spp = self.samples_per_pixel;
        let ghost cam = *self;
        let mut pixels: Vec<Rgb> = Vec::new();
        let mut j: u32 = 0;
        while j < h
            invariant
                *self == cam,
                w == cam.img_width,
                h == cam.img_height,
                spp == cam.samples_per_pixel,
                1 <= w <= MAX_DIM as u32,
                1 <= h as int <= MAX_DIM as int,
                j <= h,
                pixels.len() == j as int * w as int,
                forall|jj: int, ii: int|
                    0 <= jj < j as int && 0 <= ii < w as int ==> #[trigger] pixel_ok(
                        cam,
                        world@,
                        ii,
                        jj,
                        pixels[jj * w as int + ii],
                    ),
            decreases h - j,
        {
            let mut i: u32 = 0;
            while i < w
                invariant
                    *self == cam,
                    w == cam.img_width,
                    h == cam.img_height,
                    spp == cam.samples_per_pixel,
                    1 <= w <= MAX_DIM as u32,
                    1 <= h as int <= MAX_DIM as int,
                    j < h,
                    i <= w,
                    pixels.len() == j as int * w as int + i as int,
                    forall|jj: int, ii: int|
                        0 <= jj < j as int && 0 <= ii < w as int ==> #[trigger] pixel_ok(
                            cam,
                            world@,
                            ii,
                            jj,
                            pixels[jj * w as int + ii],
                        ),
                    forall|ii: int|
                        0 <= ii < i as int ==> #[trigger] pixel_ok(
                            cam,
                            world@,
                            ii,
                            j as int,
                            pixels[j as int * w as int + ii],
                        ),
                decreases w - i,
            {
                let mut color = Vec3::zero();
                let mut s: u32 = 0;
                while s < spp
                    invariant
                        *self == cam,
                        spp == cam.samples_per_pixel,
                        s <= spp,
                        pixel_sum_ok(cam, world@, i as int, j as int, s as nat, color@),
                    decreases spp - s,
                {
                    let ray = self.get_ray(i, j);
                    let c = self.ray_color(&ray, self.max_depth, world);
                    let newcolor = color.add(c);
                    proof {
                        let off = choose|off: V3|
                            sample_offset_ok(off) && ray@ == cam_ray_s(
                                cam,
                                i as int,
                                j as int,
                                off,
                            );
                        reveal_with_fuel(pixel_sum_ok, 2);
                        assert(sum_step_ok(
                            cam,
                            world@,
                            i as int,
                            j as int,
                            color@,
                            off,
                            c@,
                            newcolor@,
                        ));
                        assert(pixel_sum_ok(
                            cam,
                            world@,
                            i as int,
                            j as int,
                            (s + 1) as nat,
                            newcolor@,
                        ));
                    }
                    color = newcolor;
                    s = s + 1;
                }
                let px = to_rgb(color.scale(self.pixel_sample_scale));
                proof {
                    assert(pixel_sum_ok(
                        cam,
                        world@,
                        i as int,
                        j as int,
                        cam.samples_per_pixel as nat,
                        color@,
                    ));
                    assert(pixel_ok(cam, world@, i as int, j as int, px));
                }
                let ghost old_pixels = pixels@;
                pixels.push(px);
                proof {
                    assert forall|jj: int, ii: int|
                        0 <= jj < j as int && 0 <= ii < w as int implies #[trigger] pixel_ok(
                        cam,
                        world@,
                        ii,
                        jj,
                        pixels@[jj * w as int + ii],
                    ) by {
                        lemma_row_index_bound(jj, ii, j as int, w as int);
                        assert(pixels@[jj * w as int + ii] == old_pixels[jj * w as int + ii]);
                    }
                    assert forall|ii: int|
                        0 <= ii < i as int + 1 implies #[trigger] pixel_ok(
                        cam,
                        world@,
                        ii,
                        j as int,
                        pixels@[j as int * w as int + ii],
                    ) by {
                        if ii < i as int {
                            assert(pixels@[j as int * w as int + ii] == old_pixels[j as int
                                * w as int + ii]);
                        } else {
                            assert(pixels@[j as int * w as int + ii] == px);
                        }
                    }
                }
                i = i + 1;
            }
            proof {
                assert((j as int + 1) * w as int == j as int * w as int + w as int)
                    by (nonlinear_arith);
                assert forall|jj: int, ii: int|
                    0 <= jj < j as int + 1 && 0 <= ii < w as int implies #[trigger] pixel_ok(
                    cam,
                    world@,
                    ii,
                    jj,
                    pixels@[jj * w as int + ii],
                ) by {
                }
            }
            j = j + 1;
        }
        proof {
            assert(pixels.len() == h as int * w as int);
        }
        pixels
    }
}

} // verus!
