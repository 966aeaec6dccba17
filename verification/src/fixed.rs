//! Exact scaled-integer ("fixed-point") arithmetic.
//!
//! A stored integer `n` stands for the real number `n / SCALE`.  Products are
//! rescaled with a division that truncates toward zero, and square roots take
//! the integer floor; both are specified exactly by the spec functions here.

use vstd::arithmetic::div_mod::*;
use vstd::prelude::*;

verus! {

/// Number of stored units per real unit: the stored value `SCALE` is 1.0.
pub const SCALE: i64 = 100_000;

/// Magnitude cap on ray-direction components accepted by the integrator.
pub const DIR_LIMIT: i64 = 1_000_000_000;

/// Magnitude cap on ray-origin components accepted by the intersector.
pub const POS_LIMIT: i64 = 100_000_000_000_000;

/// Magnitude cap on scene data: sphere centers, radii, camera vectors.
pub const COORD_LIMIT: i64 = 100_000_000_000;

/// Largest ray parameter the intersector accepts as `t_max`.
pub const T_LIMIT: i64 = 1_000_000_000_000;

/// Largest color channel the integrator can produce: one real unit.
/// Normalized directions stay within one stored unit per component, so the
/// sky blend parameter stays in `[0, 1]` and the attenuation chain never
/// leaves `[0, 1]`.
pub const COLOR_LIMIT: i64 = 100_000;

/// Magnitude cap on the screen coordinates handed to a camera.
pub const UV_LIMIT: i64 = 100_000_000;

/// Magnitude cap on vector components accepted by `length` and `unit_vector`.
pub const VEC_LIMIT: i64 = 100_000_000_000_000_000;

/// Lower ray-parameter cutoff used by the integrator (0.001 in real units).
pub const EPS_T: i64 = 100;

/// Intermediate values are kept strictly below 2^126 in magnitude.
pub const WIDE_LIMIT: i128 = 0x4000_0000_0000_0000_0000_0000_0000_0000;

/// Magnitude of `a`.
pub open spec fn iabs(a: int) -> int {
    if a >= 0 {
        a
    } else {
        -a
    }
}

/// Division truncating toward zero, the rounding used by all rescalings.
pub open spec fn tdiv(a: int, b: int) -> int
    recommends
        b >= 1,
{
    if a >= 0 {
        a / b
    } else {
        -((-a) / b)
    }
}

/// Product of two scaled values, rescaled back: the model's multiplication.
pub open spec fn mul_fx(a: int, b: int) -> int {
    tdiv(a * b, SCALE as int)
}

/// `r` is the integer floor of the square root of `n`.
pub open spec fn is_sqrt_floor(n: int, r: int) -> bool {
    0 <= r && r * r <= n && n < (r + 1) * (r + 1)
}

/// The integer floor of the square root of `n` (for `n >= 0`).
pub open spec fn sqrt_floor(n: int) -> int {
    choose|r: int| #[trigger] is_sqrt_floor(n, r)
}

proof fn lemma_sqrt_floor_exists(n: int)
    requires
        n >= 0,
    ensures
        exists|r: int| #[trigger] is_sqrt_floor(n, r),
    decreases n,
{
    if n == 0 {
        assert(is_sqrt_floor(0, 0));
    } else {
        lemma_sqrt_floor_exists(n - 1);
        let r = choose|r: int| #[trigger] is_sqrt_floor(n - 1, r);
        if (r + 1) * (r + 1) <= n {
            assert(is_sqrt_floor(n, r + 1)) by (nonlinear_arith)
                requires
                    r >= 0,
                    (r + 1) * (r + 1) <= n,
                    n - 1 < (r + 1) * (r + 1),
            ;
        } else {
            assert(is_sqrt_floor(n, r));
        }
    }
}

/// The floor square root is unique, so any witness equals `sqrt_floor`.
pub proof fn lemma_sqrt_floor_is(n: int, r: int)
    requires
        is_sqrt_floor(n, r),
    ensures
        sqrt_floor(n) == r,
{
    let r2 = sqrt_floor(n);
    assert(is_sqrt_floor(n, r2));
    if r2 != r {
        assert(false) by (nonlinear_arith)
            requires
                is_sqrt_floor(n, r),
                is_sqrt_floor(n, r2),
                r2 != r,
        ;
    }
}

/// `sqrt_floor` meets its defining property whenever `n >= 0`.
pub proof fn lemma_sqrt_floor_def(n: int)
    requires
        n >= 0,
    ensures
        is_sqrt_floor(n, sqrt_floor(n)),
{
    lemma_sqrt_floor_exists(n);
}

/// Truncating division shrinks magnitudes: `|n / d| * d <= |n|`.
pub proof fn lemma_tdiv_bounds(n: int, d: int)
    requires
        d >= 1,
    ensures
        iabs(tdiv(n, d)) * d <= iabs(n),
        iabs(tdiv(n, d)) <= iabs(n),
        n >= 0 ==> tdiv(n, d) >= 0,
        n <= 0 ==> tdiv(n, d) <= 0,
{
    let m = iabs(n);
    lemma_fundamental_div_mod(m, d);
    lemma_div_is_ordered_by_denominator(m, 1, d);
    assert(m / 1 == m) by (nonlinear_arith);
    assert((m / d) * d <= m) by (nonlinear_arith)
        requires
            d >= 1,
            m >= 0,
            m == d * (m / d) + m % d,
            0 <= m % d,
    ;
    if n >= 0 {
        lemma_div_pos_is_pos(n, d);
    } else {
        lemma_div_pos_is_pos(-n, d);
    }
}

/// Any two magnitudes below these caps multiply without overflowing `i128`.
pub proof fn lemma_mul_abs_bound(a: int, b: int, ma: int, mb: int)
    by (nonlinear_arith)
    requires
        iabs(a) <= ma,
        iabs(b) <= mb,
    ensures
        iabs(a * b) <= ma * mb,
{
}

/// A scaled product is bounded by the product of its argument bounds.
pub proof fn lemma_mul_fx_bound(a: int, b: int, ma: int, mb: int)
    requires
        iabs(a) <= ma,
        iabs(b) <= mb,
    ensures
        iabs(mul_fx(a, b)) * (SCALE as int) <= ma * mb,
        iabs(mul_fx(a, b)) <= ma * mb,
        a * b >= 0 ==> mul_fx(a, b) >= 0,
        a * b <= 0 ==> mul_fx(a, b) <= 0,
{
    lemma_mul_abs_bound(a, b, ma, mb);
    lemma_tdiv_bounds(a * b, SCALE as int);
    assert(iabs(mul_fx(a, b)) <= iabs(mul_fx(a, b)) * (SCALE as int)) by (nonlinear_arith)
        requires
            iabs(mul_fx(a, b)) >= 0,
            SCALE as int >= 1,
    ;
}

/// Exact product of two wide integers.
pub fn mul_i128(x: i128, y: i128) -> (p: i128)
    requires
        (i128::MIN as int) < x * y <= i128::MAX as int,
    ensures
        p == x * y,
{
    x * y
}

/// Exact truncating division of wide integers.
pub fn tdiv_i128(n: i128, d: i128) -> (q: i128)
    requires
        1 <= d,
        (i128::MIN as int) < n,
    ensures
        q == tdiv(n as int, d as int),
{
    if n >= 0 {
        ((n as u128) / (d as u128)) as i128
    } else {
        let m: u128 = (-n) as u128;
        -((m / (d as u128)) as i128)
    }
}

/// Exact scaled product: multiply, then rescale back to stored units.
pub fn mul_fx_wide(a: i128, b: i128) -> (r: i128)
    requires
        (i128::MIN as int) < a * b <= i128::MAX as int,
    ensures
        r == mul_fx(a as int, b as int),
        iabs(r as int) * (SCALE as int) <= iabs((a as int) * (b as int)),
        (a as int) * (b as int) >= 0 ==> r >= 0,
        (a as int) * (b as int) <= 0 ==> r <= 0,
{
    let p: i128 = mul_i128(a, b);
    proof {
        lemma_tdiv_bounds(p as int, SCALE as int);
    }
    tdiv_i128(p, SCALE as i128)
}

/// Integer floor square root by bisection.
pub fn isqrt_u128(n: u128) -> (r: u128)
    requires
        n < WIDE_LIMIT as u128,
    ensures
        is_sqrt_floor(n as int, r as int),
        r <= 0x8000_0000_0000_0000u128,
{
    let mut lo: u128 = 0;
    let mut hi: u128 = 0x8000_0000_0000_0000;
    assert((hi as int) * (hi as int) == WIDE_LIMIT as int) by (nonlinear_arith)
        requires
            hi == 0x8000_0000_0000_0000u128,
    ;
    while lo + 1 < hi
        invariant
            lo < hi <= 0x8000_0000_0000_0000u128,
            (lo as int) * (lo as int) <= n as int,
            (n as int) < (hi as int) * (hi as int),
        decreases hi - lo,
    {
        let mid: u128 = lo + (hi - lo) / 2;
        assert(lo < mid < hi);
        assert((mid as int) * (mid as int) < WIDE_LIMIT as int) by (nonlinear_arith)
            requires
                0 <= mid as int,
                (mid as int) < (0x8000_0000_0000_0000 as int),
                WIDE_LIMIT as int == 0x4000_0000_0000_0000_0000_0000_0000_0000 as int,
        ;
        if mid * mid <= n {
            lo = mid;
        } else {
            hi = mid;
        }
    }
    assert(hi == lo + 1);
    lo
}

/// Exact floor square root of a non-negative wide integer.
pub fn sqrt_floor_i128(n: i128) -> (r: i128)
    requires
        0 <= n < WIDE_LIMIT,
    ensures
        r == sqrt_floor(n as int),
        0 <= r,
{
    let s: u128 = isqrt_u128(n as u128);
    proof {
        lemma_sqrt_floor_is(n as int, s as int);
    }
    s as i128
}

} // verus!
