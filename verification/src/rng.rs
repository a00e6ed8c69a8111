//! Randomness for the stochastic parts of the renderer: antialiasing
//! jitter, diffuse bounce directions, metal fuzz and the refraction
//! choice all draw from the thread-local generator of the `rand` crate
//! through the single trusted wrapper below.

use vstd::prelude::*;

use crate::fixed::Fp;
use crate::fixed::SCALE;

verus! {

/// Relies on rand::random_range over `0..n`: a value below `n` drawn
/// uniformly from the thread-local generator; the call panics only on
/// an empty range.
#[verifier::external_body]
fn rand_below(n: u64) -> (r: u64)
    requires
        n > 0,
    ensures
        r < n,
{
    rand::random_range(0..n)
}

/// A random scalar in `[0, 1)`.
pub fn random_01() -> (r: Fp)
    ensures
        0 <= r@ < SCALE,
{
    let raw = rand_below(SCALE as u64);
    Fp::from_raw(raw as i64)
}

/// A random scalar in `[-1, 1]`.
pub fn random_symmetric() -> (r: Fp)
    ensures
        -SCALE <= r@ <= SCALE,
{
    let raw = rand_below(2 * (SCALE as u64) + 1);
    Fp::from_raw((raw as i64) - SCALE)
}

} // verus!
