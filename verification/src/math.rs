//! Fixed-point scalar arithmetic.
//!
//! A scalar is an `i64` holding a real value times `SCALE` (16.16 fixed
//! point, matching the track file format's 8.8 values widened by 8 bits).
//! Division and square root truncate toward zero; the spec functions here
//! give each operation its exact integer meaning, and every contract in
//! the crate is stated over them.
use vstd::prelude::*;

verus! {

/// Number of fixed-point units in 1.0.
pub const SCALE: i64 = 65536;

/// Magnitude bound for general fixed-point values (positions, offsets);
/// two to the forty-fourth power.
pub const VAL_MAX: i64 = 0x1000_0000_0000;

/// Magnitude bound for the smaller operand of a product (unit vectors,
/// rates, model constants); two to the thirty-fourth power.
pub const COEF_MAX: i64 = 0x4_0000_0000;

/// Exclusive bound on integer square-root results; two to the forty-third
/// power.
pub const ISQRT_CAP: i64 = 0x800_0000_0000;

/// Magnitude bound for a vector component; two to the thirty-eighth power.
pub const VEC_MAX: i64 = 0x40_0000_0000;

/// Magnitude bound for a dot product of `VEC_MAX`-bounded vectors;
/// three times two to the sixtieth power.
pub const DOT_MAX: i64 = 0x3000_0000_0000_0000;

/// Bound on the magnitude of a `VEC_MAX`-bounded vector; two to the
/// fortieth power.
pub const MAG_MAX: i64 = 0x100_0000_0000;

/// Absolute value of a mathematical integer.
pub open spec fn abs_i(a: int) -> int {
    if a >= 0 {
        a
    } else {
        -a
    }
}

/// Division truncating toward zero, as the executable code computes it.
/// Unspecified for b == 0, like `/` itself.
pub open spec fn tdiv(a: int, b: int) -> int {
    if (a >= 0) == (b >= 0) {
        abs_i(a) / abs_i(b)
    } else {
        -(abs_i(a) / abs_i(b))
    }
}

/// Product of two fixed-point scalars, rescaled.
pub open spec fn fx_mul_s(a: int, b: int) -> int {
    tdiv(a * b, SCALE as int)
}

/// Quotient of two fixed-point scalars, rescaled.
pub open spec fn fx_div_s(a: int, b: int) -> int {
    tdiv(a * (SCALE as int), b)
}

/// Clamping to an interval.
pub open spec fn clamp_s(x: int, lo: int, hi: int) -> int {
    if x < lo {
        lo
    } else if x > hi {
        hi
    } else {
        x
    }
}

/// The basic facts of nonnegative integer division.
pub proof fn lemma_div_facts(a: int, b: int)
    requires
        a >= 0,
        b >= 1,
    ensures
        0 <= a / b <= a,
        (a / b) * b <= a,
        a < ((a / b) + 1) * b,
{
    vstd::arithmetic::div_mod::lemma_fundamental_div_mod(a, b);
    let q = a / b;
    let r = a % b;
    vstd::arithmetic::div_mod::lemma_mod_bound(a, b);
    assert(0 <= q <= a && q * b <= a && a < (q + 1) * b) by (nonlinear_arith)
        requires
            a >= 0,
            b >= 1,
            a == b * q + r,
            0 <= r < b,
    ;
}

/// The magnitude of a truncating quotient, bounded by a bound on the
/// numerator.
pub proof fn lemma_tdiv_bound(a: int, c: int, b: int)
    requires
        abs_i(a) <= c,
        b >= 1,
    ensures
        abs_i(tdiv(a, b)) <= c / b <= c,
        abs_i(tdiv(a, b)) * b <= abs_i(a),
{
    lemma_div_facts(abs_i(a), b);
    lemma_div_facts(c, b);
    vstd::arithmetic::div_mod::lemma_div_is_ordered(abs_i(a), c, b);
}

/// Magnitude bound for a rescaled product, from bounds on its factors.
pub proof fn lemma_fx_mul_bound(a: int, b: int, ba: int, bb: int)
    requires
        abs_i(a) <= ba,
        abs_i(b) <= bb,
        ba >= 0,
        bb >= 0,
    ensures
        abs_i(a * b) <= ba * bb,
        abs_i(fx_mul_s(a, b)) <= (ba * bb) / (SCALE as int),
{
    assert(abs_i(a * b) <= ba * bb) by (nonlinear_arith)
        requires
            abs_i(a) <= ba,
            abs_i(b) <= bb,
            ba >= 0,
            bb >= 0,
    ;
    lemma_tdiv_bound(a * b, ba * bb, SCALE as int);
}

/// Magnitude bound for a product, from bounds on its factors.
pub proof fn lemma_abs_mul(a: int, b: int, ba: int, bb: int)
    requires
        abs_i(a) <= ba,
        abs_i(b) <= bb,
        ba >= 0,
        bb >= 0,
    ensures
        abs_i(a * b) <= ba * bb,
{
    assert(abs_i(a * b) <= ba * bb) by (nonlinear_arith)
        requires
            abs_i(a) <= ba,
            abs_i(b) <= bb,
            ba >= 0,
            bb >= 0,
    ;
}

/// The integer square root, rounded down: the unique `r >= 0` with
/// `r * r <= n < (r + 1) * (r + 1)`.
pub open spec fn sqrt_floor(n: int) -> int
    decreases n,
{
    if n < 1 {
        0
    } else {
        let p = sqrt_floor(n - 1);
        if (p + 1) * (p + 1) <= n {
            p + 1
        } else {
            p
        }
    }
}

/// `sqrt_floor` satisfies its defining inequalities.
pub proof fn lemma_sqrt_floor(n: int)
    requires
        n >= 0,
    ensures
        sqrt_floor(n) >= 0,
        sqrt_floor(n) * sqrt_floor(n) <= n,
        n < (sqrt_floor(n) + 1) * (sqrt_floor(n) + 1),
    decreases n,
{
    if n == 0 {
        assert(sqrt_floor(0) == 0);
    } else {
        lemma_sqrt_floor(n - 1);
        let p = sqrt_floor(n - 1);
        if (p + 1) * (p + 1) <= n {
            assert(n < (p + 2) * (p + 2)) by (nonlinear_arith)
                requires
                    p >= 0,
                    n - 1 < (p + 1) * (p + 1),
            ;
        }
    }
}

/// Only one integer satisfies the square-root inequalities.
pub proof fn lemma_sqrt_floor_unique(n: int, r: int)
    requires
        n >= 0,
        r >= 0,
        r * r <= n,
        n < (r + 1) * (r + 1),
    ensures
        r == sqrt_floor(n),
{
    lemma_sqrt_floor(n);
    let s = sqrt_floor(n);
    assert(r == s) by (nonlinear_arith)
        requires
            r >= 0,
            s >= 0,
            r * r <= n,
            n < (r + 1) * (r + 1),
            s * s <= n,
            n < (s + 1) * (s + 1),
    ;
}

/// Truncating division of `a` by `b > 0`, with its exact result stated.
pub fn tdiv_i64(a: i64, b: i64) -> (r: i64)
    requires
        b >= 1,
        a > i64::MIN,
    ensures
        r as int == tdiv(a as int, b as int),
        abs_i(r as int) <= abs_i(a as int),
{
    proof {
        lemma_tdiv_bound(a as int, abs_i(a as int), b as int);
    }
    if a >= 0 {
        (a as u64 / b as u64) as i64
    } else {
        let m: u64 = (-a) as u64;
        -((m / b as u64) as i64)
    }
}

/// Fixed-point product. The smaller operand is bounded by `COEF_MAX`
/// so the wide product stays well inside `i128`.
pub fn fx_mul(a: i64, b: i64) -> (r: i64)
    requires
        abs_i(a as int) <= VAL_MAX as int,
        abs_i(b as int) <= COEF_MAX as int,
    ensures
        r as int == fx_mul_s(a as int, b as int),
        abs_i(r as int) <= ((VAL_MAX as int) * (COEF_MAX as int)) / (SCALE as int),
{
    proof {
        lemma_fx_mul_bound(a as int, b as int, VAL_MAX as int, COEF_MAX as int);
    }
    let wide: i128 = (a as i128) * (b as i128);
    if wide >= 0 {
        ((wide as u128) / (SCALE as u128)) as i64
    } else {
        let m: u128 = (-wide) as u128;
        -((m / (SCALE as u128)) as i64)
    }
}

/// Fixed-point quotient by a positive divisor.
pub fn fx_div(a: i64, b: i64) -> (r: i64)
    requires
        abs_i(a as int) <= VAL_MAX as int,
        b >= 1,
    ensures
        r as int == fx_div_s(a as int, b as int),
        abs_i(r as int) <= (VAL_MAX as int) * (SCALE as int),
{
    proof {
        lemma_tdiv_bound(
            (a as int) * (SCALE as int),
            (VAL_MAX as int) * (SCALE as int),
            b as int,
        );
    }
    let wide: i128 = (a as i128) * (SCALE as i128);
    if wide >= 0 {
        ((wide as u128) / (b as u128)) as i64
    } else {
        let m: u128 = (-wide) as u128;
        -((m / (b as u128)) as i64)
    }
}

/// Truncating division for wide intermediate values.
pub fn tdiv_i128(a: i128, b: i128) -> (r: i128)
    requires
        b >= 1,
        a > i128::MIN,
    ensures
        r as int == tdiv(a as int, b as int),
        abs_i(r as int) <= abs_i(a as int),
{
    proof {
        lemma_tdiv_bound(a as int, abs_i(a as int), b as int);
    }
    if a >= 0 {
        ((a as u128) / (b as u128)) as i128
    } else {
        let m: u128 = (-a) as u128;
        -((m / (b as u128)) as i128)
    }
}

/// One implicit-Euler smoothing step toward `to` at rate `s` (the rate
/// already multiplied by the tick length): `(x + to * s) / (1 + s)`,
/// carried out as the executable code does, with the division last.
pub open spec fn approach_s(x: int, s: int, to: int) -> int {
    tdiv(x * (SCALE as int), (SCALE as int) + s) + fx_mul_s(to, s)
}

/// Exact smoothing step on scalars.
pub fn fx_approach(x: i64, s: i64, to: i64) -> (r: i64)
    requires
        abs_i(x as int) <= VAL_MAX as int,
        abs_i(to as int) <= VAL_MAX as int,
        0 <= s <= 16 * (SCALE as int),
    ensures
        r as int == approach_s(x as int, s as int, to as int),
        abs_i(r as int) <= 17 * (VAL_MAX as int),
{
    proof {
        lemma_tdiv_bound((x as int) * (SCALE as int), (VAL_MAX as int) * (SCALE as int), (SCALE as int) + (s as int));
        lemma_fx_mul_bound(to as int, s as int, VAL_MAX as int, 16 * (SCALE as int));
        // the first summand is at most VAL_MAX * SCALE / (SCALE + s) <= VAL_MAX
        vstd::arithmetic::div_mod::lemma_div_is_ordered_by_denominator(
            (VAL_MAX as int) * (SCALE as int),
            SCALE as int,
            (SCALE as int) + (s as int),
        );
        vstd::arithmetic::div_mod::lemma_div_multiples_vanish(VAL_MAX as int, SCALE as int);
    }
    let lhs: i128 = (x as i128) * (SCALE as i128);
    let quot: i64 = tdiv_i128(lhs, (SCALE as i128) + (s as i128)) as i64;
    let rhs: i64 = fx_mul(to, s);
    quot + rhs
}

/// A smoothing step at a modest rate between two values inside a window
/// stays inside twice the window.
pub proof fn lemma_approach_window(x: int, s: int, to: int, w: int)
    requires
        abs_i(x) <= w,
        abs_i(to) <= w,
        0 <= s <= 16384,
        w >= 0,
    ensures
        abs_i(approach_s(x, s, to)) <= 2 * w,
{
    lemma_tdiv_bound(x * (SCALE as int), w * (SCALE as int), (SCALE as int) + s);
    vstd::arithmetic::div_mod::lemma_div_is_ordered_by_denominator(
        w * (SCALE as int),
        SCALE as int,
        (SCALE as int) + s,
    );
    vstd::arithmetic::div_mod::lemma_div_multiples_vanish(w, SCALE as int);
    lemma_abs_mul(x, SCALE as int, w, SCALE as int);
    lemma_fx_mul_bound(to, s, w, 16384);
    assert(w * 16384 <= w * (SCALE as int)) by (nonlinear_arith)
        requires
            w >= 0,
    ;
    vstd::arithmetic::div_mod::lemma_div_is_ordered(w * 16384, w * (SCALE as int), SCALE as int);
}

/// Componentwise magnitude of a modest-rate smoothing step.
pub proof fn lemma_approach_abs(x: int, s: int, to: int, bx: int, bto: int)
    requires
        abs_i(x) <= bx,
        abs_i(to) <= bto,
        0 <= s <= 16384,
        bx >= 0,
        bto >= 0,
    ensures
        abs_i(approach_s(x, s, to)) <= bx + bto,
{
    lemma_tdiv_bound(x * (SCALE as int), bx * (SCALE as int), (SCALE as int) + s);
    vstd::arithmetic::div_mod::lemma_div_is_ordered_by_denominator(
        bx * (SCALE as int),
        SCALE as int,
        (SCALE as int) + s,
    );
    vstd::arithmetic::div_mod::lemma_div_multiples_vanish(bx, SCALE as int);
    lemma_abs_mul(x, SCALE as int, bx, SCALE as int);
    lemma_fx_mul_bound(to, s, bto, 16384);
    assert(bto * 16384 <= bto * (SCALE as int)) by (nonlinear_arith)
        requires
            bto >= 0,
    ;
    vstd::arithmetic::div_mod::lemma_div_is_ordered(bto * 16384, bto * (SCALE as int), SCALE as int);
    vstd::arithmetic::div_mod::lemma_div_multiples_vanish(bto, SCALE as int);
}

/// Largest `r` with `r * r <= n`.
pub fn isqrt_u128(n: u128) -> (r: u64)
    requires
        (n as int) < (ISQRT_CAP as int) * (ISQRT_CAP as int),
    ensures
        (r as int) * (r as int) <= n as int,
        (n as int) < (r as int + 1) * (r as int + 1),
        (r as int) < ISQRT_CAP as int,
        r as int == sqrt_floor(n as int),
{
    let mut lo: u64 = 0;
    let mut hi: u64 = ISQRT_CAP as u64;
    while lo + 1 < hi
        invariant
            (lo as int) * (lo as int) <= n as int,
            (n as int) < (hi as int) * (hi as int),
            lo < hi,
            hi <= ISQRT_CAP as u64,
        decreases hi - lo,
    {
        let mid: u64 = lo + (hi - lo) / 2;
        proof {
            assert((mid as int) * (mid as int) < 0x8000_0000_0000_0000_0000_0000_0000_0000int)
                by (nonlinear_arith)
                requires
                    0 <= mid as int,
                    (mid as int) <= 0x800_0000_0000int,
            ;
        }
        if (mid as u128) * (mid as u128) <= n {
            lo = mid;
        } else {
            hi = mid;
        }
    }
    proof {
        lemma_sqrt_floor_unique(n as int, lo as int);
    }
    lo
}

/// Exact absolute value; `i64::MIN` is below every bound used here.
pub fn abs_i64(a: i64) -> (r: i64)
    requires
        a > i64::MIN,
    ensures
        r as int == abs_i(a as int),
{
    if a < 0 {
        -a
    } else {
        a
    }
}

/// Exact clamp.
pub fn clamp_i64(x: i64, lo: i64, hi: i64) -> (r: i64)
    requires
        lo <= hi,
    ensures
        r as int == clamp_s(x as int, lo as int, hi as int),
{
    if x < lo {
        lo
    } else if x > hi {
        hi
    } else {
        x
    }
}

} // verus!
