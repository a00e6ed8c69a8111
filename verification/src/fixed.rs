//! Saturating fixed-point scalars: the numeric ground the renderer is
//! built on.  A scalar is an `i64` count of 1/65536-units, kept within
//! `[-FP_LIMIT, FP_LIMIT]`; every operation saturates to that range
//! instead of overflowing, and division and square root truncate toward
//! zero.  Each executable operation is pinned to a spec-level mirror
//! (`fp_add_s`, `fp_mul_s`, ...) over unbounded integers.

use vstd::prelude::*;

verus! {

/// Number of fractional steps in one whole unit: scalars count 1/65536-units.
pub const SCALE: i64 = 65536;

/// Half a unit, in raw fractional steps.
pub const HALF_SCALE: i64 = 32768;

/// Largest raw magnitude a scalar may take; arithmetic saturates here.
pub const FP_LIMIT: i64 = 0x100_0000_0000_0000;

/// Two to the 126th power, a comfortable headroom bound for `i128`
/// intermediates.
pub const I126: i128 = 0x4000_0000_0000_0000_0000_0000_0000_0000;

/// Two to the 63rd power, the square root of the `i128` headroom bound.
pub const U63: u128 = 0x8000_0000_0000_0000;

/// Saturate an unbounded integer into the representable raw range.
pub open spec fn clamp_raw(x: int) -> int {
    if x > FP_LIMIT as int {
        FP_LIMIT as int
    } else if x < -(FP_LIMIT as int) {
        -(FP_LIMIT as int)
    } else {
        x
    }
}

/// A raw value the clamp leaves unchanged.
pub open spec fn fp_wf(x: int) -> bool {
    -(FP_LIMIT as int) <= x <= FP_LIMIT as int
}

/// Division truncating toward zero, for a positive divisor.
pub open spec fn tdiv(a: int, b: int) -> int
    recommends
        b > 0,
{
    if a >= 0 {
        a / b
    } else {
        -((-a) / b)
    }
}

/// Spec mirror of scalar addition.
pub open spec fn fp_add_s(a: int, b: int) -> int {
    clamp_raw(a + b)
}

/// Spec mirror of scalar subtraction.
pub open spec fn fp_sub_s(a: int, b: int) -> int {
    clamp_raw(a - b)
}

/// Spec mirror of scalar negation.
pub open spec fn fp_neg_s(a: int) -> int {
    clamp_raw(-a)
}

/// Spec mirror of scalar multiplication: the double-scaled product is
/// brought back to scale by a truncating division.
pub open spec fn fp_mul_s(a: int, b: int) -> int {
    clamp_raw(tdiv(a * b, SCALE as int))
}

/// Spec mirror of scalar division.  Division by zero is given the fixed
/// result zero; the quotient truncates toward zero.
pub open spec fn fp_div_s(a: int, b: int) -> int {
    if b == 0 {
        0
    } else if b > 0 {
        clamp_raw(tdiv(a * SCALE, b))
    } else {
        clamp_raw(-tdiv(a * SCALE, -b))
    }
}

/// `r` is the integer square root (floor) of `n`.
pub open spec fn is_sqrt_floor(n: int, r: int) -> bool {
    0 <= r && r * r <= n && n < (r + 1) * (r + 1)
}

/// The integer square root (floor) of `n`; zero for negative `n`.
pub open spec fn sqrt_floor(n: int) -> int {
    if n < 0 {
        0
    } else {
        choose|r: int| is_sqrt_floor(n, r)
    }
}

/// Spec mirror of the scalar square root: the root of a non-negative
/// scalar is the integer square root of its single-scaled raw value;
/// negative scalars map to zero.
pub open spec fn fp_sqrt_s(a: int) -> int {
    if a <= 0 {
        0
    } else {
        sqrt_floor(a * SCALE)
    }
}

/// Negating the dividend negates the truncated quotient.
pub proof fn lemma_tdiv_neg(a: int, b: int)
    requires
        b > 0,
    ensures
        tdiv(-a, b) == -tdiv(a, b),
{
}

/// Truncated division is exact on multiples of the divisor.
pub proof fn lemma_tdiv_mul_exact(k: int, b: int)
    requires
        b > 0,
    ensures
        tdiv(k * b, b) == k,
{
    if k >= 0 {
        assert(k * b >= 0) by (nonlinear_arith)
            requires
                k >= 0,
                b > 0;
        assert(k * b == b * k) by (nonlinear_arith);
        vstd::arithmetic::div_mod::lemma_div_multiples_vanish(k, b);
    } else {
        assert(k * b < 0) by (nonlinear_arith)
            requires
                k < 0,
                b > 0;
        assert(-(k * b) == b * (-k)) by (nonlinear_arith);
        vstd::arithmetic::div_mod::lemma_div_multiples_vanish(-k, b);
    }
}

/// Dividing by the scalar one leaves a value unchanged, up to
/// saturation.
pub proof fn lemma_fp_div_one(a: int)
    ensures
        fp_div_s(a, SCALE as int) == clamp_raw(a),
{
    lemma_tdiv_mul_exact(a, SCALE as int);
}

/// Truncated division leaves a remainder below the divisor in
/// magnitude, with the dividend's own sign.
pub proof fn lemma_tdiv_remainder(a: int, b: int)
    requires
        b > 0,
    ensures
        ({
            let q = tdiv(a, b);
            let e = a - b * q;
            &&& a >= 0 ==> 0 <= e < b && q >= 0
            &&& a < 0 ==> -b < e <= 0 && q <= 0
        }),
{
    if a >= 0 {
        vstd::arithmetic::div_mod::lemma_fundamental_div_mod(a, b);
        vstd::arithmetic::div_mod::lemma_mod_bound(a, b);
        vstd::arithmetic::div_mod::lemma_div_pos_is_pos(a, b);
    } else {
        vstd::arithmetic::div_mod::lemma_fundamental_div_mod(-a, b);
        vstd::arithmetic::div_mod::lemma_mod_bound(-a, b);
        vstd::arithmetic::div_mod::lemma_div_pos_is_pos(-a, b);
        let q0 = (-a) / b;
        assert(-a == b * q0 + (-a) % b);
        assert(a - b * (-q0) == -((-a) % b)) by (nonlinear_arith)
            requires
                -a == b * q0 + (-a) % b;
    }
}

/// Truncated division is monotone in the dividend.
pub proof fn lemma_tdiv_ordered(x: int, y: int, b: int)
    requires
        x <= y,
        b > 0,
    ensures
        tdiv(x, b) <= tdiv(y, b),
{
    if x >= 0 {
        vstd::arithmetic::div_mod::lemma_div_is_ordered(x, y, b);
    } else if y >= 0 {
        vstd::arithmetic::div_mod::lemma_div_pos_is_pos(-x, b);
        vstd::arithmetic::div_mod::lemma_div_pos_is_pos(y, b);
    } else {
        vstd::arithmetic::div_mod::lemma_div_is_ordered(-y, -x, b);
    }
}

/// A square root is never negative.
pub proof fn lemma_fp_sqrt_nonneg(a: int)
    ensures
        fp_sqrt_s(a) >= 0,
{
    if a > 0 {
        assert(a * SCALE > 0) by (nonlinear_arith)
            requires
                a > 0,
                SCALE as int == 65536;
        lemma_sqrt_floor_exists(a * SCALE);
    }
}

/// Saturation commutes with negation.
pub proof fn lemma_clamp_neg(t: int)
    ensures
        clamp_raw(-clamp_raw(-t)) == clamp_raw(t),
{
}

/// A product of two integers bounded by `m` in magnitude is bounded by
/// `m * m` in magnitude.
pub proof fn lemma_mul_bounds(a: int, b: int, m: int)
    requires
        -m <= a <= m,
        -m <= b <= m,
        0 <= m,
    ensures
        -(m * m) <= a * b <= m * m,
{
    assert({ -(m * m) <= a * b <= m * m }) by (nonlinear_arith)
        requires
            -m <= a <= m,
            -m <= b <= m,
            0 <= m;
}

/// Squaring is monotone over the non-negative integers.
pub proof fn lemma_sq_mono(a: int, b: int)
    requires
        0 <= a <= b,
    ensures
        a * a <= b * b,
{
    assert(a * a <= b * b) by (nonlinear_arith)
        requires
            0 <= a <= b;
}

/// Every non-negative integer has an integer square root.
pub proof fn lemma_sqrt_floor_exists(n: int)
    requires
        n >= 0,
    ensures
        is_sqrt_floor(n, sqrt_floor(n)),
    decreases n,
{
    if n == 0 {
        assert(is_sqrt_floor(0, 0));
    } else {
        lemma_sqrt_floor_exists(n - 1);
        let r0 = sqrt_floor(n - 1);
        if (r0 + 1) * (r0 + 1) <= n {
            assert(n - 1 < (r0 + 1) * (r0 + 1));
            assert((r0 + 1) * (r0 + 1) == n);
            assert((r0 + 2) * (r0 + 2) == (r0 + 1) * (r0 + 1) + 2 * (r0 + 1) + 1) by (nonlinear_arith);
            assert(is_sqrt_floor(n, r0 + 1));
        } else {
            assert(is_sqrt_floor(n, r0));
        }
    }
    assert(exists|r: int| is_sqrt_floor(n, r));
}

/// The integer square root is unique, so `sqrt_floor` returns exactly
/// the witness of `is_sqrt_floor`.
pub proof fn lemma_sqrt_floor_unique(n: int, r: int)
    requires
        is_sqrt_floor(n, r),
    ensures
        sqrt_floor(n) == r,
{
    let s = sqrt_floor(n);
    assert(exists|q: int| is_sqrt_floor(n, q));
    assert(is_sqrt_floor(n, s));
    if s < r {
        lemma_sq_mono(s + 1, r);
        assert(false);
    } else if r < s {
        lemma_sq_mono(r + 1, s);
        assert(false);
    }
}

/// A fixed-point scalar.  The stored raw value is always within the
/// saturation range, and the spec-level view re-applies the clamp so
/// that every contract speaks of an in-range integer.
#[derive(Clone, Copy, Debug, PartialEq, Eq, Structural)]
pub struct Fp(i64);

impl View for Fp {
    type V = int;

    closed spec fn view(&self) -> int {
        clamp_raw(self.0 as int)
    }
}

/// Saturate an `i64` into the raw range.
fn clamp_i64(x: i64) -> (r: i64)
    ensures
        r as int == clamp_raw(x as int),
{
    if x > FP_LIMIT {
        FP_LIMIT
    } else if x < -FP_LIMIT {
        -FP_LIMIT
    } else {
        x
    }
}

/// Saturate an `i128` into the raw range.
fn clamp_i128(x: i128) -> (r: i64)
    ensures
        r as int == clamp_raw(x as int),
{
    if x > FP_LIMIT as i128 {
        FP_LIMIT
    } else if x < -(FP_LIMIT as i128) {
        -FP_LIMIT
    } else {
        x as i64
    }
}

/// Division of an `i128` by a positive divisor, truncating toward zero.
fn tdiv_i128(n: i128, d: i128) -> (q: i128)
    requires
        d > 0,
        -I126 < n < I126,
    ensures
        q as int == tdiv(n as int, d as int),
        -I126 < q < I126,
{
    if n >= 0 {
        let m: u128 = n as u128;
        let q0: u128 = m / (d as u128);
        assert(q0 <= m);
        q0 as i128
    } else {
        let m: u128 = (-n) as u128;
        let q0: u128 = m / (d as u128);
        assert(q0 <= m);
        -(q0 as i128)
    }
}

/// Integer square root (floor) of a `u128`, by bisection.
fn isqrt_u128(n: u128) -> (r: u128)
    requires
        n < I126 as u128,
    ensures
        is_sqrt_floor(n as int, r as int),
{
    let mut lo: u128 = 0;
    let mut hi: u128 = U63;
    proof {
        assert(U63 as int * U63 as int == (I126 as int)) by (nonlinear_arith);
    }
    while lo + 1 < hi
        invariant
            lo < hi <= U63,
            lo as int * lo as int <= n as int,
            (n as int) < hi as int * hi as int,
        decreases hi - lo,
    {
        let mid: u128 = lo + (hi - lo) / 2;
        assert(lo < mid < hi);
        proof {
            lemma_sq_mono(mid as int, U63 as int);
            assert(U63 as int * U63 as int == (I126 as int)) by (nonlinear_arith);
        }
        let sq: u128 = mid * mid;
        if sq <= n {
            lo = mid;
        } else {
            hi = mid;
        }
    }
    proof {
        lemma_sq_mono(hi as int, lo as int + 1);
    }
    lo
}

/// Round a double-scaled intermediate back to scale and saturate.
pub(crate) fn clamp_tdiv_scale(x: i128) -> (r: i64)
    requires
        -I126 < x < I126,
    ensures
        r as int == clamp_raw(tdiv(x as int, SCALE as int)),
{
    clamp_i128(tdiv_i128(x, SCALE as i128))
}

impl Fp {
    /// Build a scalar from a raw count of 1/65536-units, saturating.
    pub fn from_raw(raw: i64) -> (r: Fp)
        ensures
            r@ == clamp_raw(raw as int),
    {
        Fp(clamp_i64(raw))
    }

    /// Build a scalar holding the whole number `i`, saturating.
    pub fn from_int(i: i64) -> (r: Fp)
        ensures
            r@ == clamp_raw(i * SCALE),
    {
        Fp(clamp_i128((i as i128) * (SCALE as i128)))
    }

    /// The raw count of 1/65536-units.
    pub fn raw(self) -> (r: i64)
        ensures
            r as int == self@,
            fp_wf(r as int),
    {
        clamp_i64(self.0)
    }

    /// The zero scalar.
    pub fn zero() -> (r: Fp)
        ensures
            r@ == 0,
    {
        Fp(0)
    }

    /// The scalar one.
    pub fn one() -> (r: Fp)
        ensures
            r@ == SCALE,
    {
        Fp(SCALE)
    }

    /// The largest representable scalar, standing in for an unbounded
    /// upper range endpoint.
    pub fn max_value() -> (r: Fp)
        ensures
            r@ == FP_LIMIT,
    {
        Fp(FP_LIMIT)
    }

    /// Saturating addition.
    pub fn add(self, o: Fp) -> (r: Fp)
        ensures
            r@ == fp_add_s(self@, o@),
    {
        let a = self.raw();
        let b = o.raw();
        Fp(clamp_i128(a as i128 + b as i128))
    }

    /// Saturating subtraction.
    pub fn sub(self, o: Fp) -> (r: Fp)
        ensures
            r@ == fp_sub_s(self@, o@),
    {
        let a = self.raw();
        let b = o.raw();
        Fp(clamp_i128(a as i128 - b as i128))
    }

    /// Negation.
    pub fn neg(self) -> (r: Fp)
        ensures
            r@ == fp_neg_s(self@),
    {
        let a = self.raw();
        Fp(clamp_i128(-(a as i128)))
    }

    /// Saturating multiplication with truncation back to scale.
    pub fn mul(self, o: Fp) -> (r: Fp)
        ensures
            r@ == fp_mul_s(self@, o@),
    {
        let a = self.raw();
        let b = o.raw();
        proof {
            assert({
                let p = a as int * b as int;
                p < I126 as int && -(I126 as int) < p
            })
                by (nonlinear_arith)
                requires
                    -(FP_LIMIT as int) <= a as int <= FP_LIMIT as int,
                    -(FP_LIMIT as int) <= b as int <= FP_LIMIT as int,
                    FP_LIMIT as int == 0x100_0000_0000_0000,
                    I126 as int == 0x4000_0000_0000_0000_0000_0000_0000_0000;
        }
        let p: i128 = (a as i128) * (b as i128);
        Fp(clamp_i128(tdiv_i128(p, SCALE as i128)))
    }

    /// Saturating division, truncating toward zero; division by zero
    /// yields zero.
    pub fn div(self, o: Fp) -> (r: Fp)
        ensures
            r@ == fp_div_s(self@, o@),
    {
        let a = self.raw();
        let b = o.raw();
        if b == 0 {
            Fp(0)
        } else {
            proof {
                assert({
                    let n = a as int * SCALE as int;
                    n < I126 as int && -(I126 as int) < n
                })
                    by (nonlinear_arith)
                    requires
                        -(FP_LIMIT as int) <= a as int <= FP_LIMIT as int,
                        FP_LIMIT as int == 0x100_0000_0000_0000,
                        SCALE as int == 65536,
                        I126 as int == 0x4000_0000_0000_0000_0000_0000_0000_0000;
            }
            let n: i128 = (a as i128) * (SCALE as i128);
            if b > 0 {
                Fp(clamp_i128(tdiv_i128(n, b as i128)))
            } else {
                Fp(clamp_i128(-tdiv_i128(n, -(b as i128))))
            }
        }
    }

    /// Square root, truncating toward zero; negative scalars map to zero.
    pub fn sqrt(self) -> (r: Fp)
        ensures
            r@ == fp_sqrt_s(self@),
    {
        let a = self.raw();
        if a <= 0 {
            Fp(0)
        } else {
            let n: u128 = (a as u128) * (SCALE as u128);
            proof {
                assert({ (a as int) * (SCALE as int) < I126 as int }) by (nonlinear_arith)
                    requires
                        0 < a as int <= FP_LIMIT as int,
                        FP_LIMIT as int == 0x100_0000_0000_0000,
                        SCALE as int == 65536,
                        I126 as int == 0x4000_0000_0000_0000_0000_0000_0000_0000;
            }
            let root: u128 = isqrt_u128(n);
            proof {
                if root as int > FP_LIMIT as int {
                    lemma_sq_mono(FP_LIMIT as int + 1, root as int);
                    assert({ (FP_LIMIT as int + 1) * (FP_LIMIT as int + 1) > FP_LIMIT as int * SCALE as int })
                        by (nonlinear_arith)
                        requires
                            FP_LIMIT as int == 0x100_0000_0000_0000,
                            SCALE as int == 65536;
                    assert({ n as int <= FP_LIMIT as int * SCALE as int }) by (nonlinear_arith)
                        requires
                            n as int == a as int * SCALE as int,
                            0 < a as int <= FP_LIMIT as int,
                            SCALE as int == 65536;
                    assert(false);
                }
                lemma_sqrt_floor_unique(n as int, root as int);
            }
            Fp(root as i64)
        }
    }

    /// Comparison on the underlying values: `self < o`.
    pub fn lt(self, o: Fp) -> (r: bool)
        ensures
            r == (self@ < o@),
    {
        self.raw() < o.raw()
    }

    /// Comparison on the underlying values: `self <= o`.
    pub fn le(self, o: Fp) -> (r: bool)
        ensures
            r == (self@ <= o@),
    {
        self.raw() <= o.raw()
    }

    /// The whole-unit part, truncating toward zero.
    pub fn trunc(self) -> (r: i64)
        ensures
            r as int == tdiv(self@, SCALE as int),
    {
        tdiv_i128(self.raw() as i128, SCALE as i128) as i64
    }
}

} // verus!
