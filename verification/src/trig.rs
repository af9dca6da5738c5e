//! Fixed-point circular functions.
//!
//! Angles are 16.16 fixed-point turns: `SCALE` units make one full
//! revolution, so range reduction is a remainder and the track file's
//! one-byte tilt (256 steps per turn) converts by a shift. Sine uses a
//! cubic-in-the-square polynomial on the first quarter turn, folded by
//! symmetry, clamped into [-1, 1]; the arc tangent uses a polynomial on
//! one octant. The contracts state the exact integers computed; the
//! polynomial's distance to the real functions is not part of any
//! contract.
use vstd::prelude::*;
use crate::math::{abs_i, tdiv, fx_mul_s, fx_div_s, clamp_s, tdiv_i64, clamp_i64, SCALE};

verus! {

/// A quarter turn.
pub const QUARTER: i64 = 16384;

/// A half turn.
pub const HALF_TURN: i64 = 32768;

/// Euclidean remainder: the representative of `a` in `[0, b)`.
pub fn rem_euclid_i64(a: i64, b: i64) -> (r: i64)
    requires
        b >= 1,
        a > i64::MIN,
    ensures
        r as int == (a as int) % (b as int),
        0 <= r < b,
{
    if a >= 0 {
        let m = ((a as u64) % (b as u64)) as i64;
        proof {
            vstd::arithmetic::div_mod::lemma_mod_bound(a as int, b as int);
        }
        m
    } else {
        let n: u64 = (-a) as u64;
        let m = (n % (b as u64)) as i64;
        proof {
            vstd::arithmetic::div_mod::lemma_mod_bound((-a) as int, b as int);
            vstd::arithmetic::div_mod::lemma_fundamental_div_mod((-a) as int, b as int);
            vstd::arithmetic::div_mod::lemma_fundamental_div_mod(a as int, b as int);
            vstd::arithmetic::div_mod::lemma_mod_bound(a as int, b as int);
            let q = ((-a) as int) / (b as int);
            let bb = b as int;
            let aa = a as int;
            if m == 0 {
                assert(aa == bb * (-q) + 0) by (nonlinear_arith)
                    requires
                        -aa == bb * q + (m as int),
                        m == 0,
                ;
                vstd::arithmetic::div_mod::lemma_mod_multiples_vanish(-q, 0, bb);
            } else {
                assert(aa == bb * (-q - 1) + (bb - m)) by (nonlinear_arith)
                    requires
                        -aa == bb * q + (m as int),
                ;
                vstd::arithmetic::div_mod::lemma_mod_multiples_vanish(-q - 1, bb - (m as int), bb);
                vstd::arithmetic::div_mod::lemma_small_mod((bb - m) as nat, bb as nat);
            }
        }
        if m == 0 {
            0
        } else {
            b - m
        }
    }
}

/// The quarter-wave sine polynomial on `[0, QUARTER]`, in exact
/// fixed-point arithmetic.
pub open spec fn sin_quarter_s(t: int) -> int {
    let x = t * 4;  // map the quarter turn onto [0, SCALE]
    let x2 = fx_mul_s(x, x);
    let inner = 4766 + fx_mul_s(x2, -1569);
    let mid = -42157 + fx_mul_s(x2, inner);
    fx_mul_s(x, 102941 + fx_mul_s(x2, mid))
}

/// Sine of an angle in fixed-point turns, folded by quarter-wave
/// symmetry and clamped into `[-SCALE, SCALE]`.
pub open spec fn sin_s(a: int) -> int {
    let u = a % 65536;
    let q = u / (QUARTER as int);
    let t = u % (QUARTER as int);
    let raw = if q == 0 {
        sin_quarter_s(t)
    } else if q == 1 {
        sin_quarter_s((QUARTER as int) - t)
    } else if q == 2 {
        -sin_quarter_s(t)
    } else {
        -sin_quarter_s((QUARTER as int) - t)
    };
    clamp_s(raw, -(SCALE as int), SCALE as int)
}

/// Cosine as the sine of the angle plus a quarter turn.
pub open spec fn cos_s(a: int) -> int {
    sin_s(a + QUARTER)
}

fn sin_quarter(t: i64) -> (r: i64)
    requires
        0 <= t <= QUARTER,
    ensures
        r as int == sin_quarter_s(t as int),
        abs_i(r as int) <= 4 * (SCALE as int),
{
    let x: i64 = t * 4;
    let x2: i64 = crate::math::fx_mul(x, x);
    proof {
        crate::math::lemma_fx_mul_bound(x as int, x as int, SCALE as int, SCALE as int);
    }
    proof {
        crate::math::lemma_fx_mul_bound(x2 as int, -1569, SCALE as int, 1569);
    }
    let inner: i64 = 4766 + crate::math::fx_mul(x2, -1569);
    proof {
        crate::math::lemma_fx_mul_bound(x2 as int, inner as int, SCALE as int, 6335);
    }
    let mid: i64 = -42157 + crate::math::fx_mul(x2, inner);
    proof {
        crate::math::lemma_fx_mul_bound(x2 as int, mid as int, SCALE as int, 48492);
    }
    let outer: i64 = 102941 + crate::math::fx_mul(x2, mid);
    proof {
        crate::math::lemma_fx_mul_bound(x as int, outer as int, SCALE as int, 4 * (SCALE as int));
    }
    crate::math::fx_mul(x, outer)
}

/// Sine of an angle in fixed-point turns, within `[-SCALE, SCALE]`.
pub fn fx_sin(a: i64) -> (r: i64)
    requires
        a > i64::MIN,
    ensures
        r as int == sin_s(a as int),
        abs_i(r as int) <= SCALE as int,
{
    let u = rem_euclid_i64(a, 65536);
    let q = u / QUARTER;
    let t = u % QUARTER;
    proof {
        assert(q == (u as int) / (QUARTER as int) && t == (u as int) % (QUARTER as int)) by {
            vstd::arithmetic::div_mod::lemma_fundamental_div_mod(u as int, QUARTER as int);
        }
        assert(0 <= q < 4) by {
            vstd::arithmetic::div_mod::lemma_mod_bound(u as int, QUARTER as int);
        }
    }
    let raw = if q == 0 {
        sin_quarter(t)
    } else if q == 1 {
        sin_quarter(QUARTER - t)
    } else if q == 2 {
        -sin_quarter(t)
    } else {
        -sin_quarter(QUARTER - t)
    };
    clamp_i64(raw, -SCALE, SCALE)
}

/// Cosine of an angle in fixed-point turns, within `[-SCALE, SCALE]`.
pub fn fx_cos(a: i64) -> (r: i64)
    requires
        i64::MIN < a < i64::MAX - QUARTER,
    ensures
        r as int == cos_s(a as int),
        abs_i(r as int) <= SCALE as int,
{
    fx_sin(a + QUARTER)
}


/// The one-octant arc tangent polynomial: for a ratio `t` in [0, 1]
/// (unit scale), an eighth of a turn times `t`, corrected by a linear
/// falloff term.
pub open spec fn atan_octant_s(t: int) -> int {
    fx_mul_s(t, 8192 + fx_mul_s(2848, (SCALE as int) - t))
}

/// The nonnegative arc tangent of `y / x` in fixed-point turns, for
/// `y >= 0`, folded over octants and quadrants; zero for the origin.
pub open spec fn atan2_s(y: int, x: int) -> int {
    if y == 0 && x == 0 {
        0
    } else if x > 0 && y <= x {
        atan_octant_s(tdiv(y * (SCALE as int), x))
    } else if x > 0 {
        (QUARTER as int) - atan_octant_s(tdiv(x * (SCALE as int), y))
    } else if x == 0 {
        QUARTER as int
    } else if y >= -x {
        (QUARTER as int) + atan_octant_s(tdiv((-x) * (SCALE as int), y))
    } else {
        (HALF_TURN as int) - atan_octant_s(tdiv(y * (SCALE as int), -x))
    }
}

fn atan_octant(t: i64) -> (r: i64)
    requires
        0 <= t <= SCALE,
    ensures
        r as int == atan_octant_s(t as int),
        0 <= r <= QUARTER,
{
    proof {
        crate::math::lemma_fx_mul_bound(2848, (SCALE - t) as int, 2848, SCALE as int);
        crate::math::lemma_fx_mul_bound(t as int, 11040, SCALE as int, 11040);
        crate::math::lemma_div_facts(2848 * ((SCALE - t) as int), SCALE as int);
        crate::math::lemma_div_facts((t as int) * (8192 + fx_mul_s(2848, (SCALE - t) as int)), SCALE as int);
        assert(2848 * ((SCALE - t) as int) >= 0) by (nonlinear_arith)
            requires
                t <= SCALE,
        ;
        assert((t as int) * (8192 + fx_mul_s(2848, (SCALE - t) as int)) >= 0) by (nonlinear_arith)
            requires
                t >= 0,
                fx_mul_s(2848, (SCALE - t) as int) >= 0,
        ;
        assert((t as int) * (8192 + fx_mul_s(2848, (SCALE - t) as int)) <= (SCALE as int) * 11040)
            by (nonlinear_arith)
            requires
                0 <= t <= SCALE as int,
                0 <= fx_mul_s(2848, (SCALE - t) as int) <= 2848,
        ;
        vstd::arithmetic::div_mod::lemma_div_is_ordered(
            (t as int) * (8192 + fx_mul_s(2848, (SCALE - t) as int)),
            (SCALE as int) * 11040,
            SCALE as int,
        );
        vstd::arithmetic::div_mod::lemma_div_multiples_vanish(11040, SCALE as int);
    }
    crate::math::fx_mul(t, 8192 + crate::math::fx_mul(2848, SCALE - t))
}

/// The arc tangent of `y / x` in fixed-point turns, for `y >= 0`:
/// between zero and a half turn.
pub fn fx_atan2(y: i64, x: i64) -> (r: i64)
    requires
        0 <= y <= crate::math::VAL_MAX as int,
        abs_i(x as int) <= crate::math::VAL_MAX as int,
    ensures
        r as int == atan2_s(y as int, x as int),
        0 <= r <= HALF_TURN,
{
    if y == 0 && x == 0 {
        return 0;
    }
    if x > 0 && y <= x {
        let t = crate::math::fx_div(y, x);
        proof {
            lemma_ratio_unit(y as int, x as int);
        }
        atan_octant(t)
    } else if x > 0 {
        let t = crate::math::fx_div(x, y);
        proof {
            lemma_ratio_unit(x as int, y as int);
        }
        QUARTER - atan_octant(t)
    } else if x == 0 {
        QUARTER
    } else if y >= -x {
        let t = crate::math::fx_div(-x, y);
        proof {
            lemma_ratio_unit((-x) as int, y as int);
        }
        QUARTER + atan_octant(t)
    } else {
        let t = crate::math::fx_div(y, -x);
        proof {
            lemma_ratio_unit(y as int, (-x) as int);
        }
        HALF_TURN - atan_octant(t)
    }
}

/// A ratio of a smaller nonnegative numerator stays within the unit.
proof fn lemma_ratio_unit(a: int, b: int)
    requires
        0 <= a <= b,
        1 <= b,
    ensures
        0 <= fx_div_s(a, b) <= SCALE as int,
{
    crate::math::lemma_div_facts(a * (SCALE as int), b);
    assert(0 <= a * (SCALE as int) <= b * (SCALE as int)) by (nonlinear_arith)
        requires
            0 <= a <= b,
    ;
    vstd::arithmetic::div_mod::lemma_div_is_ordered(a * (SCALE as int), b * (SCALE as int), b);
    vstd::arithmetic::div_mod::lemma_div_multiples_vanish(SCALE as int, b);
}

} // verus!
