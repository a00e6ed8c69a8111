//! Colors and the mapping from linear light to 8-bit display channels:
//! a fixed gamma curve (square root) followed by quantization.

use vstd::prelude::*;

use crate::fixed::Fp;
use crate::fixed::SCALE;
use crate::fixed::fp_mul_s;
use crate::fixed::fp_sqrt_s;
use crate::fixed::tdiv;
use crate::vec3::Vec3;

verus! {

/// A color: one linear intensity per channel, the same representation
/// as a vector.
pub type Color = Vec3;

/// Scaling factor taking a gamma-corrected channel in `[0, 1]` to just
/// under `[0, 256)` before truncation: `256 * SCALE - 1`.
pub const QUANT_FACTOR: i64 = 16777215;

/// Spec mirror of gamma correction: the square root for positive
/// intensities, zero for the rest.
pub open spec fn gamma_s(c: int) -> int {
    if c > 0 {
        fp_sqrt_s(c)
    } else {
        0
    }
}

/// Spec mirror of 8-bit quantization of a gamma-corrected channel:
/// scale by just under 256, truncate, and clamp into `[0, 255]`.
pub open spec fn quantize_s(c: int) -> int {
    let q = tdiv(fp_mul_s(gamma_s(c), QUANT_FACTOR as int), SCALE as int);
    if q < 0 {
        0
    } else if q > 255 {
        255
    } else {
        q
    }
}

/// An 8-bit pixel in red, green, blue order.
#[derive(Clone, Copy, Debug, PartialEq, Eq, Structural)]
pub struct Rgb {
    pub r: u8,
    pub g: u8,
    pub b: u8,
}

/// Gamma-correct one linear channel: `sqrt(c)` for `c > 0`, else `0`.
pub fn linear_to_gamma(c: Fp) -> (r: Fp)
    ensures
        r@ == gamma_s(c@),
{
    if Fp::zero().lt(c) {
        c.sqrt()
    } else {
        Fp::zero()
    }
}

/// Quantize one linear channel to 8 bits, gamma correction included.
pub fn quantize_channel(c: Fp) -> (r: u8)
    ensures
        r as int == quantize_s(c@),
{
    let g = linear_to_gamma(c);
    let scaled = g.mul(Fp::from_raw(QUANT_FACTOR));
    let q = scaled.trunc();
    if q < 0 {
        0
    } else if q > 255 {
        255
    } else {
        q as u8
    }
}

/// Quantize a linear color to an 8-bit pixel.
pub fn to_rgb(c: Color) -> (r: Rgb)
    ensures
        r.r as int == quantize_s(c@.x),
        r.g as int == quantize_s(c@.y),
        r.b as int == quantize_s(c@.z),
{
    Rgb { r: quantize_channel(c.x()), g: quantize_channel(c.y()), b: quantize_channel(c.z()) }
}

} // verus!
