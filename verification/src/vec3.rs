//! Three-component vectors over scaled integers.
//!
//! A `Vec3` serves as point, direction and color alike; a stored component
//! `n` stands for the real number `n / SCALE`.  Component-wise products and
//! normalization follow the exact rules of [`crate::fixed`].

use crate::fixed::{
    iabs, is_sqrt_floor, lemma_mul_abs_bound, lemma_sqrt_floor_def, lemma_tdiv_bounds, mul_fx,
    mul_fx_wide, mul_i128, sqrt_floor, sqrt_floor_i128, tdiv, tdiv_i128, SCALE, VEC_LIMIT,
    WIDE_LIMIT,
};
use crate::rng::rand_below;
use vstd::arithmetic::div_mod::lemma_fundamental_div_mod;
use vstd::prelude::*;

verus! {

#[derive(Debug, Clone, Copy, PartialEq, Eq, Structural)]
pub struct Vec3(pub i64, pub i64, pub i64);

/// Every component of `v` has magnitude at most `m`.
pub open spec fn bounded(v: Vec3, m: int) -> bool {
    iabs(v.0 as int) <= m && iabs(v.1 as int) <= m && iabs(v.2 as int) <= m
}

/// The model's dot product: component products, each rescaled.
pub open spec fn dot3(a: Vec3, b: Vec3) -> int {
    mul_fx(a.0 as int, b.0 as int) + mul_fx(a.1 as int, b.1 as int) + mul_fx(
        a.2 as int,
        b.2 as int,
    )
}

/// The exact squared length in stored units: the plain sum of the squared
/// components, with no intermediate rescaling.
pub open spec fn sq_sum(v: Vec3) -> int {
    (v.0 as int) * (v.0 as int) + (v.1 as int) * (v.1 as int) + (v.2 as int) * (v.2 as int)
}

/// Stored length of `v`: the floor square root of the exact sum of squared
/// components (the real length scaled by `SCALE`, rounded down).
pub open spec fn len_fx(v: Vec3) -> int {
    sqrt_floor(sq_sum(v))
}

/// One component of the normalized vector: scaled, divided by the length.
pub open spec fn unit_comp(c: int, l: int) -> int {
    tdiv(c * (SCALE as int), l)
}

/// Normalization: each component is scaled and divided by the stored
/// length.  The stored length is at least every component's magnitude, so
/// for a nonzero vector each quotient lies within one stored unit.
pub open spec fn unit_spec(v: Vec3) -> Vec3 {
    let l = len_fx(v);
    Vec3(
        unit_comp(v.0 as int, l) as i64,
        unit_comp(v.1 as int, l) as i64,
        unit_comp(v.2 as int, l) as i64,
    )
}

/// Clamping to a closed interval.
pub open spec fn clamp_val(num: int, lo: int, hi: int) -> int {
    if num > hi {
        hi
    } else if num < lo {
        lo
    } else {
        num
    }
}

/// A color channel as an 8-bit value: clamp to `[0, 1]`, scale to `[0, 255]`.
pub open spec fn channel_byte(x: int) -> int {
    tdiv(clamp_val(x, 0, SCALE as int) * 255, SCALE as int)
}

/// Exact component-wise magnitude test.
pub(crate) fn in_box(v: &Vec3, m: i64) -> (b: bool)
    requires
        m >= 0,
    ensures
        b == bounded(*v, m as int),
{
    -m <= v.0 && v.0 <= m && -m <= v.1 && v.1 <= m && -m <= v.2 && v.2 <= m
}

/// Clamps `num` into `[lo, hi]` (callers pass `lo <= hi`).
pub fn clamp(num: i64, lo: i64, hi: i64) -> (r: i64)
    ensures
        r == clamp_val(num as int, lo as int, hi as int),
{
    if num > hi {
        hi
    } else if num < lo {
        lo
    } else {
        num
    }
}

/// The three dot-product terms stay far inside the wide range.
proof fn lemma_dot_terms(a: Vec3, b: Vec3)
    ensures
        iabs((a.0 as int) * (b.0 as int)) <= WIDE_LIMIT as int,
        iabs((a.1 as int) * (b.1 as int)) <= WIDE_LIMIT as int,
        iabs((a.2 as int) * (b.2 as int)) <= WIDE_LIMIT as int,
        iabs(mul_fx(a.0 as int, b.0 as int)) * (SCALE as int) <= iabs((a.0 as int) * (b.0 as int)),
        iabs(mul_fx(a.1 as int, b.1 as int)) * (SCALE as int) <= iabs((a.1 as int) * (b.1 as int)),
        iabs(mul_fx(a.2 as int, b.2 as int)) * (SCALE as int) <= iabs((a.2 as int) * (b.2 as int)),
{
    let m: int = 0x8000_0000_0000_0000;
    lemma_mul_abs_bound(a.0 as int, b.0 as int, m, m);
    lemma_mul_abs_bound(a.1 as int, b.1 as int, m, m);
    lemma_mul_abs_bound(a.2 as int, b.2 as int, m, m);
    assert(m * m == WIDE_LIMIT as int) by (nonlinear_arith)
        requires
            m == 0x8000_0000_0000_0000,
    ;
    lemma_tdiv_bounds((a.0 as int) * (b.0 as int), SCALE as int);
    lemma_tdiv_bounds((a.1 as int) * (b.1 as int), SCALE as int);
    lemma_tdiv_bounds((a.2 as int) * (b.2 as int), SCALE as int);
}

/// Dot product in wide precision; exact for all `i64` components.
pub(crate) fn dot_wide(a: &Vec3, b: &Vec3) -> (r: i128)
    ensures
        r == dot3(*a, *b),
{
    proof {
        lemma_dot_terms(*a, *b);
    }
    let t0: i128 = mul_fx_wide(a.0 as i128, b.0 as i128);
    let t1: i128 = mul_fx_wide(a.1 as i128, b.1 as i128);
    let t2: i128 = mul_fx_wide(a.2 as i128, b.2 as i128);
    t0 + t1 + t2
}

/// Scaled product of two stored values, exact when the result fits.
pub(crate) fn mul_fx_i64(a: i64, b: i64) -> (r: i64)
    requires
        iabs(mul_fx(a as int, b as int)) <= i64::MAX as int,
    ensures
        r as int == mul_fx(a as int, b as int),
{
    proof {
        let m: int = 0x8000_0000_0000_0000;
        lemma_mul_abs_bound(a as int, b as int, m, m);
        assert(m * m == WIDE_LIMIT as int) by (nonlinear_arith)
            requires
                m == 0x8000_0000_0000_0000,
        ;
    }
    let w: i128 = mul_fx_wide(a as i128, b as i128);
    w as i64
}

impl Vec3 {
    /// The origin / black.
    pub fn zeros() -> (r: Vec3)
        ensures
            r == Vec3(0i64, 0i64, 0i64),
    {
        Vec3(0, 0, 0)
    }

    /// The all-ones vector / white.
    pub fn ones() -> (r: Vec3)
        ensures
            r == Vec3(SCALE, SCALE, SCALE),
    {
        Vec3(SCALE, SCALE, SCALE)
    }

    /// Component-wise sum.
    pub fn add(&self, other: &Vec3) -> (r: Vec3)
        requires
            (i64::MIN as int) <= self.0 + other.0 <= i64::MAX as int,
            (i64::MIN as int) <= self.1 + other.1 <= i64::MAX as int,
            (i64::MIN as int) <= self.2 + other.2 <= i64::MAX as int,
        ensures
            r.0 == self.0 + other.0,
            r.1 == self.1 + other.1,
            r.2 == self.2 + other.2,
    {
        Vec3(self.0 + other.0, self.1 + other.1, self.2 + other.2)
    }

    /// Component-wise difference.
    pub fn sub(&self, other: &Vec3) -> (r: Vec3)
        requires
            (i64::MIN as int) <= self.0 - other.0 <= i64::MAX as int,
            (i64::MIN as int) <= self.1 - other.1 <= i64::MAX as int,
            (i64::MIN as int) <= self.2 - other.2 <= i64::MAX as int,
        ensures
            r.0 == self.0 - other.0,
            r.1 == self.1 - other.1,
            r.2 == self.2 - other.2,
    {
        Vec3(self.0 - other.0, self.1 - other.1, self.2 - other.2)
    }

    /// Component-wise scaled product (colors filtering colors).
    pub fn mul(&self, other: &Vec3) -> (r: Vec3)
        requires
            iabs(mul_fx(self.0 as int, other.0 as int)) <= i64::MAX as int,
            iabs(mul_fx(self.1 as int, other.1 as int)) <= i64::MAX as int,
            iabs(mul_fx(self.2 as int, other.2 as int)) <= i64::MAX as int,
        ensures
            r.0 as int == mul_fx(self.0 as int, other.0 as int),
            r.1 as int == mul_fx(self.1 as int, other.1 as int),
            r.2 as int == mul_fx(self.2 as int, other.2 as int),
    {
        Vec3(
            mul_fx_i64(self.0, other.0),
            mul_fx_i64(self.1, other.1),
            mul_fx_i64(self.2, other.2),
        )
    }

    /// Scaled product with the scalar `k` (a stored real).
    pub fn scale(&self, k: i64) -> (r: Vec3)
        requires
            iabs(mul_fx(k as int, self.0 as int)) <= i64::MAX as int,
            iabs(mul_fx(k as int, self.1 as int)) <= i64::MAX as int,
            iabs(mul_fx(k as int, self.2 as int)) <= i64::MAX as int,
        ensures
            r.0 as int == mul_fx(k as int, self.0 as int),
            r.1 as int == mul_fx(k as int, self.1 as int),
            r.2 as int == mul_fx(k as int, self.2 as int),
    {
        Vec3(mul_fx_i64(k, self.0), mul_fx_i64(k, self.1), mul_fx_i64(k, self.2))
    }

    /// Exact division of each component by a positive integer count.
    pub fn div_count(&self, n: i64) -> (r: Vec3)
        requires
            n >= 1,
        ensures
            r.0 as int == tdiv(self.0 as int, n as int),
            r.1 as int == tdiv(self.1 as int, n as int),
            r.2 as int == tdiv(self.2 as int, n as int),
    {
        proof {
            lemma_tdiv_bounds(self.0 as int, n as int);
            lemma_tdiv_bounds(self.1 as int, n as int);
            lemma_tdiv_bounds(self.2 as int, n as int);
        }
        let x: i128 = tdiv_i128(self.0 as i128, n as i128);
        let y: i128 = tdiv_i128(self.1 as i128, n as i128);
        let z: i128 = tdiv_i128(self.2 as i128, n as i128);
        Vec3(x as i64, y as i64, z as i64)
    }

    /// Dot product, exact when the result fits in a stored value.
    pub fn dot(&self, other: &Vec3) -> (r: i64)
        requires
            (i64::MIN as int) <= dot3(*self, *other) <= i64::MAX as int,
        ensures
            r == dot3(*self, *other),
    {
        let w: i128 = dot_wide(self, other);
        w as i64
    }

    /// Squared length; never negative.
    pub fn length_squared(&self) -> (r: i64)
        requires
            dot3(*self, *self) <= i64::MAX as int,
        ensures
            r == dot3(*self, *self),
            r >= 0,
    {
        proof {
            lemma_self_dot_nonneg(*self);
        }
        let w: i128 = dot_wide(self, self);
        w as i64
    }

    /// Stored length: the floor square root of the exact sum of squared
    /// components.
    pub fn length(&self) -> (r: i64)
        requires
            bounded(*self, VEC_LIMIT as int),
        ensures
            r == len_fx(*self),
            r >= 0,
    {
        proof {
            lemma_sq_sum_bounds(*self);
        }
        let s2: i128 = mul_i128(self.0 as i128, self.0 as i128) + mul_i128(
            self.1 as i128,
            self.1 as i128,
        ) + mul_i128(self.2 as i128, self.2 as i128);
        let l: i128 = sqrt_floor_i128(s2);
        proof {
            lemma_sqrt_floor_def(s2 as int);
            assert((l as int) * (l as int) <= s2 as int);
            assert(l <= 0x7fff_ffff_ffff_ffffi128) by (nonlinear_arith)
                requires
                    0 <= l,
                    (l as int) * (l as int) <= s2 as int,
                    (s2 as int) < 0x4000_0000_0000_0000_0000_0000_0000_0000,
            ;
        }
        l as i64
    }

    /// Normalization; the caller keeps zero-length vectors out.  The result
    /// components never exceed one stored unit.
    pub fn unit_vector(&self) -> (r: Vec3)
        requires
            bounded(*self, VEC_LIMIT as int),
            dot3(*self, *self) > 0,
        ensures
            r == unit_spec(*self),
            r.0 as int == unit_comp(self.0 as int, len_fx(*self)),
            r.1 as int == unit_comp(self.1 as int, len_fx(*self)),
            r.2 as int == unit_comp(self.2 as int, len_fx(*self)),
            bounded(r, SCALE as int),
    {
        proof {
            lemma_sq_sum_bounds(*self);
            lemma_dot_pos_sq_sum(*self);
            lemma_unit_comp_cap(*self);
            lemma_unit_comp_fits(self.0 as int);
            lemma_unit_comp_fits(self.1 as int);
            lemma_unit_comp_fits(self.2 as int);
        }
        let s2: i128 = mul_i128(self.0 as i128, self.0 as i128) + mul_i128(
            self.1 as i128,
            self.1 as i128,
        ) + mul_i128(self.2 as i128, self.2 as i128);
        let l: i128 = sqrt_floor_i128(s2);
        let x: i128 = tdiv_i128(mul_i128(self.0 as i128, SCALE as i128), l);
        let y: i128 = tdiv_i128(mul_i128(self.1 as i128, SCALE as i128), l);
        let z: i128 = tdiv_i128(mul_i128(self.2 as i128, SCALE as i128), l);
        Vec3(x as i64, y as i64, z as i64)
    }

    /// Cross product.
    pub fn cross(&self, other: &Vec3) -> (r: Vec3)
        requires
            (i64::MIN as int) <= mul_fx(self.1 as int, other.2 as int) - mul_fx(
                self.2 as int,
                other.1 as int,
            ) <= i64::MAX as int,
            (i64::MIN as int) <= mul_fx(self.2 as int, other.0 as int) - mul_fx(
                self.0 as int,
                other.2 as int,
            ) <= i64::MAX as int,
            (i64::MIN as int) <= mul_fx(self.0 as int, other.1 as int) - mul_fx(
                self.1 as int,
                other.0 as int,
            ) <= i64::MAX as int,
        ensures
            r.0 as int == mul_fx(self.1 as int, other.2 as int) - mul_fx(
                self.2 as int,
                other.1 as int,
            ),
            r.1 as int == mul_fx(self.2 as int, other.0 as int) - mul_fx(
                self.0 as int,
                other.2 as int,
            ),
            r.2 as int == mul_fx(self.0 as int, other.1 as int) - mul_fx(
                self.1 as int,
                other.0 as int,
            ),
    {
        proof {
            lemma_dot_terms(Vec3(self.1, self.2, self.0), Vec3(other.2, other.0, other.1));
            lemma_dot_terms(Vec3(self.2, self.0, self.1), Vec3(other.1, other.2, other.0));
        }
        let a: i128 = mul_fx_wide(self.1 as i128, other.2 as i128) - mul_fx_wide(
            self.2 as i128,
            other.1 as i128,
        );
        let b: i128 = mul_fx_wide(self.2 as i128, other.0 as i128) - mul_fx_wide(
            self.0 as i128,
            other.2 as i128,
        );
        let c: i128 = mul_fx_wide(self.0 as i128, other.1 as i128) - mul_fx_wide(
            self.1 as i128,
            other.0 as i128,
        );
        Vec3(a as i64, b as i64, c as i64)
    }

    /// A vector with each component drawn uniformly from `[0, 1)`.
    pub fn random(rng: &mut rand::rngs::StdRng) -> (r: Vec3)
        ensures
            0 <= r.0 < SCALE,
            0 <= r.1 < SCALE,
            0 <= r.2 < SCALE,
    {
        let x: u64 = rand_below(rng, SCALE as u64);
        let y: u64 = rand_below(rng, SCALE as u64);
        let z: u64 = rand_below(rng, SCALE as u64);
        Vec3(x as i64, y as i64, z as i64)
    }

    /// Rejection sampling: draw vectors in `[0, 1)^3` until one has length at
    /// most one.  The number of attempts is capped; if every draw is rejected
    /// (vanishingly unlikely for a uniform source) the center stands in.
    pub fn random_in_unit_sphere(rng: &mut rand::rngs::StdRng) -> (r: Vec3)
        ensures
            0 <= r.0 < SCALE,
            0 <= r.1 < SCALE,
            0 <= r.2 < SCALE,
            len_fx(r) <= SCALE as int,
    {
        let mut tries: u32 = 0;
        while tries < 64
            invariant
                true,
            decreases 64 - tries,
        {
            let v = Self::random(rng);
            proof {
                lemma_small_vec_bounds(v);
            }
            let l: i64 = v.length();
            if l <= SCALE {
                return v;
            }
            tries = tries + 1;
        }
        proof {
            lemma_zero_len();
        }
        Vec3(0, 0, 0)
    }

    /// The color as a `"R G B"` line of decimal 8-bit channels.
    pub fn color_string(&self) -> (s: String)
        ensures
            s@ == dec_chars(channel_byte(self.0 as int)) + seq![' '] + dec_chars(
                channel_byte(self.1 as int),
            ) + seq![' '] + dec_chars(channel_byte(self.2 as int)),
    {
        let p = self.as_pixel();
        let mut s = String::new();
        append_u8(&mut s, p.0);
        proof {
            reveal_strlit(" ");
        }
        s.append(" ");
        append_u8(&mut s, p.1);
        s.append(" ");
        append_u8(&mut s, p.2);
        proof {
            assert(s@ =~= dec_chars(channel_byte(self.0 as int)) + seq![' '] + dec_chars(
                channel_byte(self.1 as int),
            ) + seq![' '] + dec_chars(channel_byte(self.2 as int)));
        }
        s
    }

    /// The color as an 8-bit pixel, each channel clamped and scaled.
    pub fn as_pixel(&self) -> (r: (u8, u8, u8))
        ensures
            r.0 as int == channel_byte(self.0 as int),
            r.1 as int == channel_byte(self.1 as int),
            r.2 as int == channel_byte(self.2 as int),
    {
        (channel_u8(self.0), channel_u8(self.1), channel_u8(self.2))
    }
}

/// The digit character for `d` in `0..10`.
pub open spec fn digit_char(d: int) -> char {
    if d == 0 {
        '0'
    } else if d == 1 {
        '1'
    } else if d == 2 {
        '2'
    } else if d == 3 {
        '3'
    } else if d == 4 {
        '4'
    } else if d == 5 {
        '5'
    } else if d == 6 {
        '6'
    } else if d == 7 {
        '7'
    } else if d == 8 {
        '8'
    } else {
        '9'
    }
}

/// The decimal digits of `n` in `0..1000`, without leading zeros.
pub open spec fn dec_chars(n: int) -> Seq<char> {
    if n < 10 {
        seq![digit_char(n)]
    } else if n < 100 {
        seq![digit_char(n / 10), digit_char(n % 10)]
    } else {
        seq![digit_char(n / 100), digit_char((n / 10) % 10), digit_char(n % 10)]
    }
}

/// Appends one decimal digit.
fn append_digit(s: &mut String, d: u8)
    requires
        d < 10,
    ensures
        final(s)@ == old(s)@ + seq![digit_char(d as int)],
{
    match d {
        0 => {
            proof {
                reveal_strlit("0");
            }
            s.append("0");
        },
        1 => {
            proof {
                reveal_strlit("1");
            }
            s.append("1");
        },
        2 => {
            proof {
                reveal_strlit("2");
            }
            s.append("2");
        },
        3 => {
            proof {
                reveal_strlit("3");
            }
            s.append("3");
        },
        4 => {
            proof {
                reveal_strlit("4");
            }
            s.append("4");
        },
        5 => {
            proof {
                reveal_strlit("5");
            }
            s.append("5");
        },
        6 => {
            proof {
                reveal_strlit("6");
            }
            s.append("6");
        },
        7 => {
            proof {
                reveal_strlit("7");
            }
            s.append("7");
        },
        8 => {
            proof {
                reveal_strlit("8");
            }
            s.append("8");
        },
        _ => {
            proof {
                reveal_strlit("9");
            }
            s.append("9");
        },
    }
    proof {
        assert(s@ =~= old(s)@ + seq![digit_char(d as int)]);
    }
}

/// Appends the decimal representation of an 8-bit value.
pub(crate) fn append_u8(s: &mut String, n: u8)
    ensures
        final(s)@ == old(s)@ + dec_chars(n as int),
{
    if n >= 100 {
        append_digit(s, n / 100);
        append_digit(s, (n / 10) % 10);
        append_digit(s, n % 10);
    } else if n >= 10 {
        append_digit(s, n / 10);
        append_digit(s, n % 10);
    } else {
        append_digit(s, n);
    }
    proof {
        assert(s@ =~= old(s)@ + dec_chars(n as int));
    }
}

/// One clamped 8-bit channel.
fn channel_u8(x: i64) -> (r: u8)
    ensures
        r as int == channel_byte(x as int),
{
    let c: i64 = clamp(x, 0, SCALE);
    proof {
        lemma_tdiv_bounds((c as int) * 255, SCALE as int);
        assert(iabs((c as int) * 255) <= (SCALE as int) * 255) by (nonlinear_arith)
            requires
                0 <= c as int <= SCALE as int,
        ;
    }
    let w: i128 = tdiv_i128(mul_i128(c as i128, 255), SCALE as i128);
    w as u8
}

/// A vector dotted with itself is never negative.
proof fn lemma_self_dot_nonneg(v: Vec3)
    ensures
        dot3(v, v) >= 0,
        mul_fx(v.0 as int, v.0 as int) >= 0,
        mul_fx(v.1 as int, v.1 as int) >= 0,
        mul_fx(v.2 as int, v.2 as int) >= 0,
{
    assert((v.0 as int) * (v.0 as int) >= 0) by (nonlinear_arith);
    assert((v.1 as int) * (v.1 as int) >= 0) by (nonlinear_arith);
    assert((v.2 as int) * (v.2 as int) >= 0) by (nonlinear_arith);
    lemma_tdiv_bounds((v.0 as int) * (v.0 as int), SCALE as int);
    lemma_tdiv_bounds((v.1 as int) * (v.1 as int), SCALE as int);
    lemma_tdiv_bounds((v.2 as int) * (v.2 as int), SCALE as int);
}

/// A normalized component never exceeds one stored unit: the stored length
/// is the floor square root of the exact sum of squares, which is at least
/// every component's magnitude.
pub proof fn lemma_unit_comp_cap(v: Vec3)
    requires
        bounded(v, VEC_LIMIT as int),
        sq_sum(v) >= 1,
    ensures
        len_fx(v) >= 1,
        iabs(unit_comp(v.0 as int, len_fx(v))) <= SCALE as int,
        iabs(unit_comp(v.1 as int, len_fx(v))) <= SCALE as int,
        iabs(unit_comp(v.2 as int, len_fx(v))) <= SCALE as int,
{
    lemma_sq_sum_bounds(v);
    lemma_sqrt_floor_def(sq_sum(v));
    let l = len_fx(v);
    if l == 0 {
        assert((0 + 1) * (0 + 1) == 1);
        assert(false);
    }
    lemma_unit_comp_cap_one(v.0 as int, sq_sum(v), l);
    lemma_unit_comp_cap_one(v.1 as int, sq_sum(v), l);
    lemma_unit_comp_cap_one(v.2 as int, sq_sum(v), l);
}

/// The cap for one component `c` of a vector whose exact squared length is
/// `s2` and whose stored length is `l`.
proof fn lemma_unit_comp_cap_one(c: int, s2: int, l: int)
    requires
        1 <= l,
        l * l <= s2,
        s2 < (l + 1) * (l + 1),
        c * c <= s2,
    ensures
        iabs(unit_comp(c, l)) <= SCALE as int,
{
    let sc: int = SCALE as int;
    let m = iabs(c);
    assert(c * c == m * m) by (nonlinear_arith)
        requires
            m == iabs(c),
    ;
    assert(m <= l) by (nonlinear_arith)
        requires
            m >= 0,
            l >= 0,
            m * m <= s2,
            s2 < (l + 1) * (l + 1),
    ;
    lemma_tdiv_bounds(c * sc, l);
    assert(iabs(c * sc) == m * sc) by (nonlinear_arith)
        requires
            m == iabs(c),
            sc == 100_000,
    ;
    assert(iabs(tdiv(c * sc, l)) <= sc) by (nonlinear_arith)
        requires
            iabs(tdiv(c * sc, l)) * l <= iabs(c * sc),
            iabs(c * sc) == m * sc,
            m <= l,
            l >= 1,
            sc == 100_000,
            iabs(tdiv(c * sc, l)) >= 0,
    ;
}

/// The exact squared length is in wide range for bounded components.
proof fn lemma_sq_sum_bounds(v: Vec3)
    requires
        bounded(v, VEC_LIMIT as int),
    ensures
        0 <= (v.0 as int) * (v.0 as int),
        0 <= (v.1 as int) * (v.1 as int),
        0 <= (v.2 as int) * (v.2 as int),
        (v.0 as int) * (v.0 as int) <= 10_000_000_000_000_000_000_000_000_000_000_000,
        (v.1 as int) * (v.1 as int) <= 10_000_000_000_000_000_000_000_000_000_000_000,
        (v.2 as int) * (v.2 as int) <= 10_000_000_000_000_000_000_000_000_000_000_000,
        0 <= sq_sum(v),
        sq_sum(v) < WIDE_LIMIT as int,
{
    let m: int = VEC_LIMIT as int;
    assert((v.0 as int) * (v.0 as int) >= 0) by (nonlinear_arith);
    assert((v.1 as int) * (v.1 as int) >= 0) by (nonlinear_arith);
    assert((v.2 as int) * (v.2 as int) >= 0) by (nonlinear_arith);
    lemma_mul_abs_bound(v.0 as int, v.0 as int, m, m);
    lemma_mul_abs_bound(v.1 as int, v.1 as int, m, m);
    lemma_mul_abs_bound(v.2 as int, v.2 as int, m, m);
    assert(m * m == 10_000_000_000_000_000_000_000_000_000_000_000) by (nonlinear_arith)
        requires
            m == 100_000_000_000_000_000,
    ;
}

/// A positive truncated dot product forces an exact squared length of at
/// least one real unit.
proof fn lemma_dot_pos_sq_sum(v: Vec3)
    requires
        dot3(v, v) > 0,
    ensures
        sq_sum(v) >= SCALE as int,
{
    let sc: int = SCALE as int;
    lemma_self_dot_nonneg(v);
    assert((v.0 as int) * (v.0 as int) >= 0) by (nonlinear_arith);
    assert((v.1 as int) * (v.1 as int) >= 0) by (nonlinear_arith);
    assert((v.2 as int) * (v.2 as int) >= 0) by (nonlinear_arith);
    if mul_fx(v.0 as int, v.0 as int) >= 1 {
        lemma_square_at_least_scale((v.0 as int) * (v.0 as int));
    } else if mul_fx(v.1 as int, v.1 as int) >= 1 {
        lemma_square_at_least_scale((v.1 as int) * (v.1 as int));
    } else {
        lemma_square_at_least_scale((v.2 as int) * (v.2 as int));
    }
}

/// A value whose truncated rescale is positive is at least `SCALE`.
proof fn lemma_square_at_least_scale(n: int)
    requires
        n >= 0,
        tdiv(n, SCALE as int) >= 1,
    ensures
        n >= SCALE as int,
{
    lemma_fundamental_div_mod(n, SCALE as int);
    assert(n >= SCALE as int) by (nonlinear_arith)
        requires
            n == (SCALE as int) * (n / (SCALE as int)) + n % (SCALE as int),
            n / (SCALE as int) >= 1,
            0 <= n % (SCALE as int),
            SCALE as int == 100_000,
    ;
}

/// The scaled numerator of a normalization quotient stays in wide range.
proof fn lemma_unit_comp_fits(c: int)
    requires
        iabs(c) <= VEC_LIMIT as int,
    ensures
        iabs(c * (SCALE as int)) < WIDE_LIMIT as int,
        (i128::MIN as int) < c * (SCALE as int) <= i128::MAX as int,
{
    lemma_mul_abs_bound(c, SCALE as int, VEC_LIMIT as int, SCALE as int);
    assert((VEC_LIMIT as int) * (SCALE as int) < WIDE_LIMIT as int) by (nonlinear_arith)
        requires
            VEC_LIMIT as int == 100_000_000_000_000_000,
            SCALE as int == 100_000,
            WIDE_LIMIT as int == 0x4000_0000_0000_0000_0000_0000_0000_0000,
    ;
}

/// Vectors from the unit cube satisfy the requirements of `length`.
proof fn lemma_small_vec_bounds(v: Vec3)
    requires
        0 <= v.0 < SCALE,
        0 <= v.1 < SCALE,
        0 <= v.2 < SCALE,
    ensures
        bounded(v, VEC_LIMIT as int),
        dot3(v, v) <= i64::MAX as int,
{
    let m: int = SCALE as int;
    lemma_mul_abs_bound(v.0 as int, v.0 as int, m, m);
    lemma_mul_abs_bound(v.1 as int, v.1 as int, m, m);
    lemma_mul_abs_bound(v.2 as int, v.2 as int, m, m);
    lemma_tdiv_bounds((v.0 as int) * (v.0 as int), m);
    lemma_tdiv_bounds((v.1 as int) * (v.1 as int), m);
    lemma_tdiv_bounds((v.2 as int) * (v.2 as int), m);
    assert(m * m == 10_000_000_000) by (nonlinear_arith)
        requires
            m == 100_000,
    ;
    lemma_self_dot_nonneg(v);
    assert(mul_fx(v.0 as int, v.0 as int) * m <= 10_000_000_000) by (nonlinear_arith)
        requires
            iabs(mul_fx(v.0 as int, v.0 as int)) * m <= iabs((v.0 as int) * (v.0 as int)),
            iabs((v.0 as int) * (v.0 as int)) <= 10_000_000_000,
            mul_fx(v.0 as int, v.0 as int) >= 0,
            m == 100_000,
    ;
    assert(mul_fx(v.1 as int, v.1 as int) * m <= 10_000_000_000) by (nonlinear_arith)
        requires
            iabs(mul_fx(v.1 as int, v.1 as int)) * m <= iabs((v.1 as int) * (v.1 as int)),
            iabs((v.1 as int) * (v.1 as int)) <= 10_000_000_000,
            mul_fx(v.1 as int, v.1 as int) >= 0,
            m == 100_000,
    ;
    assert(mul_fx(v.2 as int, v.2 as int) * m <= 10_000_000_000) by (nonlinear_arith)
        requires
            iabs(mul_fx(v.2 as int, v.2 as int)) * m <= iabs((v.2 as int) * (v.2 as int)),
            iabs((v.2 as int) * (v.2 as int)) <= 10_000_000_000,
            mul_fx(v.2 as int, v.2 as int) >= 0,
            m == 100_000,
    ;
    assert(mul_fx(v.0 as int, v.0 as int) <= 100_000) by (nonlinear_arith)
        requires
            mul_fx(v.0 as int, v.0 as int) * m <= 10_000_000_000,
            mul_fx(v.0 as int, v.0 as int) >= 0,
            m == 100_000,
    ;
    assert(mul_fx(v.1 as int, v.1 as int) <= 100_000) by (nonlinear_arith)
        requires
            mul_fx(v.1 as int, v.1 as int) * m <= 10_000_000_000,
            mul_fx(v.1 as int, v.1 as int) >= 0,
            m == 100_000,
    ;
    assert(mul_fx(v.2 as int, v.2 as int) <= 100_000) by (nonlinear_arith)
        requires
            mul_fx(v.2 as int, v.2 as int) * m <= 10_000_000_000,
            mul_fx(v.2 as int, v.2 as int) >= 0,
            m == 100_000,
    ;
}

/// The zero vector has stored length zero.
proof fn lemma_zero_len()
    ensures
        len_fx(Vec3(0i64, 0i64, 0i64)) == 0,
{
    let z = Vec3(0i64, 0i64, 0i64);
    assert(sq_sum(z) == 0);
    assert(is_sqrt_floor(0, 0));
    crate::fixed::lemma_sqrt_floor_is(0, 0);
}

} // verus!
