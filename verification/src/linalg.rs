//! Three-component fixed-point vectors.
//!
//! Components are 16.16 fixed-point scalars. Sums of products are formed
//! exactly in wide arithmetic and rescaled with one truncating division,
//! so each operation's contract states its result to the last unit.
use vstd::prelude::*;
use crate::math::{
    abs_i, tdiv, fx_mul_s, approach_s, sqrt_floor, fx_mul, fx_approach, lemma_abs_mul,
    lemma_tdiv_bound, lemma_sqrt_floor_unique, isqrt_u128, tdiv_i128, SCALE, VEC_MAX, DOT_MAX,
    MAG_MAX, VAL_MAX,
};

verus! {

/// A point or direction, each component a 16.16 fixed-point scalar.
#[derive(Clone, Copy, PartialEq, Eq, Structural, Debug)]
pub struct Vector {
    pub x: i64,
    pub y: i64,
    pub z: i64,
}

/// All three components within magnitude `m`.
pub open spec fn in_bounds(v: Vector, m: int) -> bool {
    abs_i(v.x as int) <= m && abs_i(v.y as int) <= m && abs_i(v.z as int) <= m
}

/// Exact dot product, rescaled by one truncating division.
pub open spec fn dot_s(a: Vector, b: Vector) -> int {
    tdiv(a.x * b.x + a.y * b.y + a.z * b.z, SCALE as int)
}

/// Sum of squared components, before rescaling (twice the usual scale).
pub open spec fn mag_sq_wide(v: Vector) -> int {
    v.x * v.x + v.y * v.y + v.z * v.z
}

/// Magnitude: the floor square root of the wide squared magnitude.
pub open spec fn mag_s(v: Vector) -> int {
    sqrt_floor(mag_sq_wide(v))
}

/// Wide squared distance (twice the usual scale).
pub open spec fn dist_sq_wide(a: Vector, b: Vector) -> int {
    (a.x - b.x) * (a.x - b.x) + (a.y - b.y) * (a.y - b.y) + (a.z - b.z) * (a.z - b.z)
}

/// Squared distance at the usual scale.
pub open spec fn dist_sq_s(a: Vector, b: Vector) -> int {
    tdiv(dist_sq_wide(a, b), SCALE as int)
}

/// Distance: the floor square root of the wide squared distance.
/// Hidden behind its name; `dist` computes it exactly, and
/// `lemma_dist_facts` gives its defining inequalities.
#[verifier::opaque]
pub open spec fn dist_s(a: Vector, b: Vector) -> int {
    sqrt_floor(dist_sq_wide(a, b))
}

/// The defining inequalities of the distance.
pub proof fn lemma_dist_facts(a: Vector, b: Vector)
    requires
        in_bounds(a, VEC_MAX as int),
        in_bounds(b, VEC_MAX as int),
    ensures
        0 <= dist_s(a, b) <= 2 * (MAG_MAX as int),
        dist_s(a, b) * dist_s(a, b) <= dist_sq_wide(a, b),
        dist_sq_wide(a, b) < (dist_s(a, b) + 1) * (dist_s(a, b) + 1),
{
    reveal(dist_s);
    let d = Vector { x: (a.x - b.x) as i64, y: (a.y - b.y) as i64, z: (a.z - b.z) as i64 };
    lemma_squares_nonneg(d);
    lemma_wide_products(d, d, 2 * (VEC_MAX as int));
    assert(dist_sq_wide(a, b) == mag_sq_wide(d));
    crate::math::lemma_sqrt_floor(dist_sq_wide(a, b));
    let r = sqrt_floor(dist_sq_wide(a, b));
    assert(mag_sq_wide(d) <= 48 * (VEC_MAX as int) * (VEC_MAX as int)) by (nonlinear_arith)
        requires
            abs_i(d.x * d.x) <= (2 * (VEC_MAX as int)) * (2 * (VEC_MAX as int)),
            abs_i(d.y * d.y) <= (2 * (VEC_MAX as int)) * (2 * (VEC_MAX as int)),
            abs_i(d.z * d.z) <= (2 * (VEC_MAX as int)) * (2 * (VEC_MAX as int)),
    ;
    assert(r <= 2 * (MAG_MAX as int)) by (nonlinear_arith)
        requires
            r >= 0,
            r * r <= 48 * (VEC_MAX as int) * (VEC_MAX as int),
    ;
}

/// Componentwise product with a scalar, each rescaled.
pub open spec fn scale_s(v: Vector, k: int) -> Vector {
    Vector {
        x: fx_mul_s(v.x as int, k) as i64,
        y: fx_mul_s(v.y as int, k) as i64,
        z: fx_mul_s(v.z as int, k) as i64,
    }
}

/// The vector rescaled to unit length (componentwise `c * SCALE / mag`),
/// or unchanged when its magnitude is zero.
pub open spec fn normalized_s(v: Vector) -> Vector {
    let m = mag_s(v);
    if m == 0 {
        v
    } else {
        Vector {
            x: tdiv(v.x * (SCALE as int), m) as i64,
            y: tdiv(v.y * (SCALE as int), m) as i64,
            z: tdiv(v.z * (SCALE as int), m) as i64,
        }
    }
}

/// Exact cross product, each component rescaled once.
pub open spec fn cross_s(a: Vector, b: Vector) -> Vector {
    Vector {
        x: tdiv(a.y * b.z - a.z * b.y, SCALE as int) as i64,
        y: tdiv(a.z * b.x - a.x * b.z, SCALE as int) as i64,
        z: tdiv(a.x * b.y - a.y * b.x, SCALE as int) as i64,
    }
}

/// Componentwise smoothing step (see `approach_s`).
pub open spec fn approach_v(v: Vector, s: int, to: Vector) -> Vector {
    Vector {
        x: approach_s(v.x as int, s, to.x as int) as i64,
        y: approach_s(v.y as int, s, to.y as int) as i64,
        z: approach_s(v.z as int, s, to.z as int) as i64,
    }
}

impl Vector {
    /// The zero vector.
    pub fn zero() -> (r: Vector)
        ensures
            r == (Vector { x: 0 as i64, y: 0 as i64, z: 0 as i64 }),
    {
        Vector { x: 0, y: 0, z: 0 }
    }

    /// The unit vector along the vertical (gravity) axis.
    pub fn y_axis() -> (r: Vector)
        ensures
            r == (Vector { x: 0 as i64, y: SCALE, z: 0 as i64 }),
    {
        Vector { x: 0, y: SCALE, z: 0 }
    }

    /// The unit vector along the lateral axis.
    pub fn x_axis() -> (r: Vector)
        ensures
            r == (Vector { x: SCALE, y: 0 as i64, z: 0 as i64 }),
    {
        Vector { x: SCALE, y: 0, z: 0 }
    }

    /// The unit vector along the forward axis.
    pub fn z_axis() -> (r: Vector)
        ensures
            r == (Vector { x: 0 as i64, y: 0 as i64, z: SCALE }),
    {
        Vector { x: 0, y: 0, z: SCALE }
    }

    pub fn new(x: i64, y: i64, z: i64) -> (r: Vector)
        ensures
            r == (Vector { x, y, z }),
    {
        Vector { x, y, z }
    }

    /// Exact componentwise sum.
    pub fn add(self, o: Vector) -> (r: Vector)
        requires
            in_bounds(self, 0x1000_0000_0000_0000 as int),
            in_bounds(o, 0x1000_0000_0000_0000 as int),
        ensures
            r.x == self.x + o.x,
            r.y == self.y + o.y,
            r.z == self.z + o.z,
    {
        Vector { x: self.x + o.x, y: self.y + o.y, z: self.z + o.z }
    }

    /// Exact componentwise difference.
    pub fn sub(self, o: Vector) -> (r: Vector)
        requires
            in_bounds(self, 0x1000_0000_0000_0000 as int),
            in_bounds(o, 0x1000_0000_0000_0000 as int),
        ensures
            r.x == self.x - o.x,
            r.y == self.y - o.y,
            r.z == self.z - o.z,
    {
        Vector { x: self.x - o.x, y: self.y - o.y, z: self.z - o.z }
    }

    /// Exact componentwise negation.
    pub fn neg(self) -> (r: Vector)
        requires
            in_bounds(self, 0x1000_0000_0000_0000 as int),
        ensures
            r.x == -self.x,
            r.y == -self.y,
            r.z == -self.z,
    {
        Vector { x: -self.x, y: -self.y, z: -self.z }
    }

    /// Product with a fixed-point scalar.
    pub fn scale(self, k: i64) -> (r: Vector)
        requires
            in_bounds(self, VAL_MAX as int),
            abs_i(k as int) <= crate::math::COEF_MAX as int,
        ensures
            r == scale_s(self, k as int),
    {
        Vector { x: fx_mul(self.x, k), y: fx_mul(self.y, k), z: fx_mul(self.z, k) }
    }

    /// Exact dot product.
    pub fn dot(&self, o: &Vector) -> (r: i64)
        requires
            in_bounds(*self, VEC_MAX as int),
            in_bounds(*o, VEC_MAX as int),
        ensures
            r as int == dot_s(*self, *o),
            abs_i(r as int) <= DOT_MAX as int,
    {
        proof {
            lemma_wide_products(*self, *o, VEC_MAX as int);
            lemma_tdiv_bound(
                (self.x * o.x + self.y * o.y + self.z * o.z) as int,
                3 * (VEC_MAX as int) * (VEC_MAX as int),
                SCALE as int,
            );
        }
        let px: i128 = (self.x as i128) * (o.x as i128);
        let py: i128 = (self.y as i128) * (o.y as i128);
        let pz: i128 = (self.z as i128) * (o.z as i128);
        tdiv_i128(px + py + pz, SCALE as i128) as i64
    }

    /// Squared magnitude at the usual scale.
    pub fn mag_sq(&self) -> (r: i64)
        requires
            in_bounds(*self, VEC_MAX as int),
        ensures
            r as int == tdiv(mag_sq_wide(*self), SCALE as int),
            0 <= r as int <= DOT_MAX as int,
    {
        proof {
            lemma_squares_nonneg(*self);
            lemma_wide_products(*self, *self, VEC_MAX as int);
            lemma_tdiv_bound(
                mag_sq_wide(*self),
                3 * (VEC_MAX as int) * (VEC_MAX as int),
                SCALE as int,
            );
            crate::math::lemma_div_facts(mag_sq_wide(*self), SCALE as int);
        }
        let px: i128 = (self.x as i128) * (self.x as i128);
        let py: i128 = (self.y as i128) * (self.y as i128);
        let pz: i128 = (self.z as i128) * (self.z as i128);
        tdiv_i128(px + py + pz, SCALE as i128) as i64
    }

    /// Magnitude (exact floor square root).
    pub fn mag(&self) -> (r: i64)
        requires
            in_bounds(*self, VEC_MAX as int),
        ensures
            r as int == mag_s(*self),
            0 <= r as int <= 2 * (MAG_MAX as int),
    {
        proof {
            lemma_squares_nonneg(*self);
            lemma_wide_products(*self, *self, VEC_MAX as int);
        }
        let px: i128 = (self.x as i128) * (self.x as i128);
        let py: i128 = (self.y as i128) * (self.y as i128);
        let pz: i128 = (self.z as i128) * (self.z as i128);
        let n: u128 = (px + py + pz) as u128;
        let r: u64 = isqrt_u128(n);
        proof {
            lemma_sqrt_bound(mag_sq_wide(*self), r as int);
        }
        r as i64
    }

    /// Squared distance at the usual scale.
    pub fn dist_sq(self, o: Vector) -> (r: i64)
        requires
            in_bounds(self, (VEC_MAX as int) / 2),
            in_bounds(o, (VEC_MAX as int) / 2),
        ensures
            r as int == dist_sq_s(self, o),
            0 <= r as int <= DOT_MAX as int,
    {
        let d = self.sub(o);
        proof {
            lemma_squares_nonneg(d);
            lemma_wide_products(d, d, VEC_MAX as int);
            lemma_tdiv_bound(
                mag_sq_wide(d),
                3 * (VEC_MAX as int) * (VEC_MAX as int),
                SCALE as int,
            );
            crate::math::lemma_div_facts(mag_sq_wide(d), SCALE as int);
        }
        let px: i128 = (d.x as i128) * (d.x as i128);
        let py: i128 = (d.y as i128) * (d.y as i128);
        let pz: i128 = (d.z as i128) * (d.z as i128);
        tdiv_i128(px + py + pz, SCALE as i128) as i64
    }

    /// Distance (exact floor square root of the wide squared distance).
    pub fn dist(self, o: Vector) -> (r: i64)
        requires
            in_bounds(self, VEC_MAX as int),
            in_bounds(o, VEC_MAX as int),
        ensures
            r as int == dist_s(self, o),
            0 <= r as int <= 2 * (MAG_MAX as int),
    {
        let d = self.sub(o);
        proof {
            reveal(dist_s);
            lemma_squares_nonneg(d);
            lemma_wide_products(d, d, 2 * (VEC_MAX as int));
        }
        let px: i128 = (d.x as i128) * (d.x as i128);
        let py: i128 = (d.y as i128) * (d.y as i128);
        let pz: i128 = (d.z as i128) * (d.z as i128);
        let n: u128 = (px + py + pz) as u128;
        let r: u64 = isqrt_u128(n);
        proof {
            lemma_sqrt_bound(mag_sq_wide(d), r as int);
        }
        r as i64
    }

    /// The vector rescaled to unit length, or unchanged if zero.
    /// A nonzero result has every component within `SCALE` (length one).
    pub fn normalized(self) -> (r: Vector)
        requires
            in_bounds(self, VEC_MAX as int),
        ensures
            r == normalized_s(self),
            mag_s(self) != 0 ==> in_bounds(r, SCALE as int),
            mag_s(self) == 0 ==> r == self,
    {
        proof {
            lemma_squares_nonneg(self);
            lemma_wide_products(self, self, VEC_MAX as int);
        }
        let px: i128 = (self.x as i128) * (self.x as i128);
        let py: i128 = (self.y as i128) * (self.y as i128);
        let pz: i128 = (self.z as i128) * (self.z as i128);
        let n: u128 = (px + py + pz) as u128;
        let m: u64 = isqrt_u128(n);
        proof {
            lemma_sqrt_bound(mag_sq_wide(self), m as int);
        }
        if m == 0 {
            self
        } else {
            proof {
                lemma_norm_component(self.x as int, mag_sq_wide(self), m as int);
                lemma_norm_component(self.y as int, mag_sq_wide(self), m as int);
                lemma_norm_component(self.z as int, mag_sq_wide(self), m as int);
            }
            let mi: i64 = m as i64;
            Vector {
                x: tdiv_i128((self.x as i128) * (SCALE as i128), mi as i128) as i64,
                y: tdiv_i128((self.y as i128) * (SCALE as i128), mi as i128) as i64,
                z: tdiv_i128((self.z as i128) * (SCALE as i128), mi as i128) as i64,
            }
        }
    }

    /// Exact cross product.
    pub fn cross(&self, o: &Vector) -> (r: Vector)
        requires
            in_bounds(*self, VEC_MAX as int),
            in_bounds(*o, VEC_MAX as int),
        ensures
            r == cross_s(*self, *o),
    {
        proof {
            lemma_wide_products(*self, *o, VEC_MAX as int);
            lemma_wide_products(*o, *self, VEC_MAX as int);
            lemma_tdiv_bound(
                (self.y * o.z - self.z * o.y) as int,
                2 * (VEC_MAX as int) * (VEC_MAX as int),
                SCALE as int,
            );
            lemma_tdiv_bound(
                (self.z * o.x - self.x * o.z) as int,
                2 * (VEC_MAX as int) * (VEC_MAX as int),
                SCALE as int,
            );
            lemma_tdiv_bound(
                (self.x * o.y - self.y * o.x) as int,
                2 * (VEC_MAX as int) * (VEC_MAX as int),
                SCALE as int,
            );
        }
        let cx: i128 = (self.y as i128) * (o.z as i128) - (self.z as i128) * (o.y as i128);
        let cy: i128 = (self.z as i128) * (o.x as i128) - (self.x as i128) * (o.z as i128);
        let cz: i128 = (self.x as i128) * (o.y as i128) - (self.y as i128) * (o.x as i128);
        Vector {
            x: tdiv_i128(cx, SCALE as i128) as i64,
            y: tdiv_i128(cy, SCALE as i128) as i64,
            z: tdiv_i128(cz, SCALE as i128) as i64,
        }
    }

    /// Componentwise smoothing step toward `to` at rate `s`.
    pub fn approach(self, s: i64, to: &Vector) -> (r: Vector)
        requires
            in_bounds(self, VAL_MAX as int),
            in_bounds(*to, VAL_MAX as int),
            0 <= s <= 16 * (SCALE as int),
        ensures
            r == approach_v(self, s as int, *to),
            in_bounds(r, 17 * (VAL_MAX as int)),
    {
        Vector {
            x: fx_approach(self.x, s, to.x),
            y: fx_approach(self.y, s, to.y),
            z: fx_approach(self.z, s, to.z),
        }
    }
}

/// Wide products of bounded components fit comfortably in the wide type.
proof fn lemma_wide_products(a: Vector, b: Vector, m: int)
    requires
        0 <= m,
        in_bounds(a, m),
        in_bounds(b, m),
    ensures
        abs_i(a.x * b.x) <= m * m,
        abs_i(a.y * b.y) <= m * m,
        abs_i(a.z * b.z) <= m * m,
        abs_i(a.y * b.z) <= m * m,
        abs_i(a.z * b.y) <= m * m,
        abs_i(a.z * b.x) <= m * m,
        abs_i(a.x * b.z) <= m * m,
        abs_i(a.x * b.y) <= m * m,
        abs_i(a.y * b.x) <= m * m,
{
    lemma_abs_mul(a.x as int, b.x as int, m, m);
    lemma_abs_mul(a.y as int, b.y as int, m, m);
    lemma_abs_mul(a.z as int, b.z as int, m, m);
    lemma_abs_mul(a.y as int, b.z as int, m, m);
    lemma_abs_mul(a.z as int, b.y as int, m, m);
    lemma_abs_mul(a.z as int, b.x as int, m, m);
    lemma_abs_mul(a.x as int, b.z as int, m, m);
    lemma_abs_mul(a.x as int, b.y as int, m, m);
    lemma_abs_mul(a.y as int, b.x as int, m, m);
}

/// A square root of a bounded square sum is within `MAG_MAX`.
proof fn lemma_sqrt_bound(n: int, r: int)
    requires
        0 <= n <= 48 * (VEC_MAX as int) * (VEC_MAX as int),
        r >= 0,
        r * r <= n,
        n < (r + 1) * (r + 1),
    ensures
        r <= 2 * (MAG_MAX as int),
        r == sqrt_floor(n),
{
    lemma_sqrt_floor_unique(n, r);
    assert(r <= 2 * (MAG_MAX as int)) by (nonlinear_arith)
        requires
            r >= 0,
            r * r <= 48 * (VEC_MAX as int) * (VEC_MAX as int),
    ;
}

/// A component divided by the vector's magnitude is at most one
/// (the magnitude bounds every component).
pub proof fn lemma_norm_component_pub(c: int, n: int, m: int)
    requires
        m >= 1,
        c * c <= n,
        n < (m + 1) * (m + 1),
    ensures
        abs_i(tdiv(c * (SCALE as int), m)) <= SCALE as int,
        abs_i(c) <= m,
{
    lemma_norm_component(c, n, m);
}

/// A component divided by the vector's magnitude is at most one
/// (the magnitude bounds every component).
proof fn lemma_norm_component(c: int, n: int, m: int)
    requires
        m >= 1,
        c * c <= n,
        n < (m + 1) * (m + 1),
    ensures
        abs_i(tdiv(c * (SCALE as int), m)) <= SCALE as int,
        abs_i(c) <= m,
{
    assert(abs_i(c) <= m) by (nonlinear_arith)
        requires
            m >= 0,
            c * c <= n,
            n < (m + 1) * (m + 1),
    ;
    lemma_abs_mul(c, SCALE as int, m, SCALE as int);
    lemma_tdiv_bound(c * (SCALE as int), m * (SCALE as int), m);
    assert((m * (SCALE as int)) / m == SCALE as int) by {
        vstd::arithmetic::div_mod::lemma_div_multiples_vanish(SCALE as int, m);
    }
}

/// Squares of components are nonnegative.
pub proof fn lemma_squares_nonneg_pub(a: Vector)
    ensures
        a.x * a.x >= 0,
        a.y * a.y >= 0,
        a.z * a.z >= 0,
        mag_sq_wide(a) >= 0,
{
    lemma_squares_nonneg(a);
}

/// Squares of components are nonnegative.
proof fn lemma_squares_nonneg(a: Vector)
    ensures
        a.x * a.x >= 0,
        a.y * a.y >= 0,
        a.z * a.z >= 0,
{
    assert(a.x * a.x >= 0 && a.y * a.y >= 0 && a.z * a.z >= 0) by (nonlinear_arith);
}


/// A row-major three-by-three matrix of fixed-point scalars.
#[derive(Clone, Copy, PartialEq, Eq, Structural, Debug)]
pub struct Mtx {
    pub xx: i64,
    pub xy: i64,
    pub xz: i64,
    pub yx: i64,
    pub yy: i64,
    pub yz: i64,
    pub zx: i64,
    pub zy: i64,
    pub zz: i64,
}

/// All nine entries within magnitude `m`.
pub open spec fn mtx_in_bounds(m: Mtx, b: int) -> bool {
    &&& abs_i(m.xx as int) <= b && abs_i(m.xy as int) <= b && abs_i(m.xz as int) <= b
    &&& abs_i(m.yx as int) <= b && abs_i(m.yy as int) <= b && abs_i(m.yz as int) <= b
    &&& abs_i(m.zx as int) <= b && abs_i(m.zy as int) <= b && abs_i(m.zz as int) <= b
}

/// Row vectors of a matrix.
pub open spec fn mtx_row_x(m: Mtx) -> Vector {
    Vector { x: m.xx, y: m.xy, z: m.xz }
}

pub open spec fn mtx_row_y(m: Mtx) -> Vector {
    Vector { x: m.yx, y: m.yy, z: m.yz }
}

pub open spec fn mtx_row_z(m: Mtx) -> Vector {
    Vector { x: m.zx, y: m.zy, z: m.zz }
}

/// A row vector times a matrix: each result component is a dot product
/// of the vector with a matrix column.
pub open spec fn vec_mul_mtx_s(v: Vector, m: Mtx) -> Vector {
    Vector {
        x: tdiv(v.x * m.xx + v.y * m.yx + v.z * m.zx, SCALE as int) as i64,
        y: tdiv(v.x * m.xy + v.y * m.yy + v.z * m.zy, SCALE as int) as i64,
        z: tdiv(v.x * m.xz + v.y * m.yz + v.z * m.zz, SCALE as int) as i64,
    }
}

/// The orientation matrix whose rows are the frame built from a view
/// direction and an up hint, as `looking_at` computes it.
pub open spec fn looking_at_s(at: Vector, up: Vector) -> Mtx {
    let z = normalized_s(Vector { x: (-at.x) as i64, y: (-at.y) as i64, z: (-at.z) as i64 });
    let x = normalized_s(cross_s(up, z));
    let y = cross_s(z, x);
    Mtx {
        xx: x.x,
        xy: x.y,
        xz: x.z,
        yx: y.x,
        yy: y.y,
        yz: y.z,
        zx: z.x,
        zy: z.y,
        zz: z.z,
    }
}

/// The rotation matrix about `axis` by `angle` (fixed-point turns),
/// from the axis-angle formula over the crate's sine and cosine.
pub open spec fn mtx_axis_angle_s(axis: Vector, angle: int) -> Mtx {
    let cos = crate::trig::cos_s(angle);
    let sin = crate::trig::sin_s(angle);
    let omc = (SCALE as int) - cos;
    let xx = fx_mul_s(axis.x as int, axis.x as int) + fx_mul_s(
        cos,
        (SCALE as int) - fx_mul_s(axis.x as int, axis.x as int),
    );
    let yy = fx_mul_s(axis.y as int, axis.y as int) + fx_mul_s(
        cos,
        (SCALE as int) - fx_mul_s(axis.y as int, axis.y as int),
    );
    let zz = fx_mul_s(axis.z as int, axis.z as int) + fx_mul_s(
        cos,
        (SCALE as int) - fx_mul_s(axis.z as int, axis.z as int),
    );
    let axy = fx_mul_s(fx_mul_s(axis.x as int, axis.y as int), omc);
    let bz = fx_mul_s(axis.z as int, sin);
    let axz = fx_mul_s(fx_mul_s(axis.x as int, axis.z as int), omc);
    let by = fx_mul_s(axis.y as int, sin);
    let ayz = fx_mul_s(fx_mul_s(axis.y as int, axis.z as int), omc);
    let bx = fx_mul_s(axis.x as int, sin);
    Mtx {
        xx: xx as i64,
        xy: (axy - bz) as i64,
        xz: (axz + by) as i64,
        yx: (axy + bz) as i64,
        yy: yy as i64,
        yz: (ayz - bx) as i64,
        zx: (axz - by) as i64,
        zy: (ayz + bx) as i64,
        zz: zz as i64,
    }
}

impl Mtx {
    /// The identity matrix.
    pub fn ident() -> (r: Mtx)
        ensures
            r == (Mtx {
                xx: SCALE,
                xy: 0 as i64,
                xz: 0 as i64,
                yx: 0 as i64,
                yy: SCALE,
                yz: 0 as i64,
                zx: 0 as i64,
                zy: 0 as i64,
                zz: SCALE,
            }),
    {
        Mtx { xx: SCALE, xy: 0, xz: 0, yx: 0, yy: SCALE, yz: 0, zx: 0, zy: 0, zz: SCALE }
    }

    /// An orientation frame looking along `at` with `up` as the vertical
    /// hint: the exact frame `looking_at_s` describes, rows within unit
    /// bounds.
    pub fn looking_at(at: Vector, up: Vector) -> (r: Mtx)
        requires
            in_bounds(at, SCALE as int),
            in_bounds(up, SCALE as int),
        ensures
            r == looking_at_s(at, up),
            mtx_in_bounds(r, 8 * (SCALE as int)),
    {
        let z = at.neg().normalized();
        proof {
            if mag_s(Vector { x: (-at.x) as i64, y: (-at.y) as i64, z: (-at.z) as i64 }) != 0 {
            }
            assert(in_bounds(z, SCALE as int));
            lemma_cross_bound(up, z, SCALE as int, SCALE as int);
        }
        let x = up.cross(&z).normalized();
        proof {
            assert(in_bounds(x, 3 * (SCALE as int)));
            lemma_cross_bound(z, x, SCALE as int, 3 * (SCALE as int));
        }
        let y = z.cross(&x);
        Mtx { xx: x.x, xy: x.y, xz: x.z, yx: y.x, yy: y.y, yz: y.z, zx: z.x, zy: z.y, zz: z.z }
    }

    /// The rotation about `axis` (a unit vector) by `angle` fixed-point
    /// turns, with every entry within twice the unit scale.
    pub fn axis_angle(axis: &Vector, angle: i64) -> (r: Mtx)
        requires
            in_bounds(*axis, SCALE as int),
            i64::MIN < angle < i64::MAX - crate::trig::QUARTER,
        ensures
            r == mtx_axis_angle_s(*axis, angle as int),
            mtx_in_bounds(r, 3 * (SCALE as int)),
    {
        let cos = crate::trig::fx_cos(angle);
        let sin = crate::trig::fx_sin(angle);
        proof {
            lemma_unit_products(*axis, cos as int, sin as int);
        }
        let sq_x = fx_mul(axis.x, axis.x);
        let sq_y = fx_mul(axis.y, axis.y);
        let sq_z = fx_mul(axis.z, axis.z);
        proof {
            crate::math::lemma_fx_mul_bound(
                (SCALE - sq_x) as int,
                cos as int,
                2 * (SCALE as int),
                SCALE as int,
            );
            crate::math::lemma_fx_mul_bound(
                (SCALE - sq_y) as int,
                cos as int,
                2 * (SCALE as int),
                SCALE as int,
            );
            crate::math::lemma_fx_mul_bound(
                (SCALE - sq_z) as int,
                cos as int,
                2 * (SCALE as int),
                SCALE as int,
            );
        }
        let xx = sq_x + fx_mul(SCALE - sq_x, cos);
        let yy = sq_y + fx_mul(SCALE - sq_y, cos);
        let zz = sq_z + fx_mul(SCALE - sq_z, cos);
        let omc = SCALE - cos;
        proof {
            crate::math::lemma_fx_mul_bound(
                fx_mul_s(axis.x as int, axis.y as int),
                omc as int,
                SCALE as int,
                2 * (SCALE as int),
            );
            crate::math::lemma_fx_mul_bound(
                fx_mul_s(axis.x as int, axis.z as int),
                omc as int,
                SCALE as int,
                2 * (SCALE as int),
            );
            crate::math::lemma_fx_mul_bound(
                fx_mul_s(axis.y as int, axis.z as int),
                omc as int,
                SCALE as int,
                2 * (SCALE as int),
            );
        }
        let axy = fx_mul(fx_mul(axis.x, axis.y), omc);
        let bz = fx_mul(axis.z, sin);
        let axz = fx_mul(fx_mul(axis.x, axis.z), omc);
        let by = fx_mul(axis.y, sin);
        let ayz = fx_mul(fx_mul(axis.y, axis.z), omc);
        let bx = fx_mul(axis.x, sin);
        Mtx {
            xx,
            xy: axy - bz,
            xz: axz + by,
            yx: axy + bz,
            yy,
            yz: ayz - bx,
            zx: axz - by,
            zy: ayz + bx,
            zz,
        }
    }

    /// A row vector times this matrix, each component exact.
    pub fn mul_vec(&self, v: &Vector) -> (r: Vector)
        requires
            mtx_in_bounds(*self, 8 * (SCALE as int)),
            in_bounds(*v, 0x4000_0000 as int),
        ensures
            r == vec_mul_mtx_s(*v, *self),
    {
        proof {
            lemma_mtx_mul_bounds(*v, *self);
        }
        let px: i128 = (v.x as i128) * (self.xx as i128) + (v.y as i128) * (self.yx as i128) + (
        v.z as i128) * (self.zx as i128);
        let py: i128 = (v.x as i128) * (self.xy as i128) + (v.y as i128) * (self.yy as i128) + (
        v.z as i128) * (self.zy as i128);
        let pz: i128 = (v.x as i128) * (self.xz as i128) + (v.y as i128) * (self.yz as i128) + (
        v.z as i128) * (self.zz as i128);
        Vector {
            x: tdiv_i128(px, SCALE as i128) as i64,
            y: tdiv_i128(py, SCALE as i128) as i64,
            z: tdiv_i128(pz, SCALE as i128) as i64,
        }
    }
}

/// A componentwise bound for a scaled vector, from bounds on the vector
/// and the scalar.
pub proof fn lemma_scale_bound(v: Vector, k: int, bv: int, bk: int)
    requires
        0 <= bv,
        0 <= bk,
        in_bounds(v, bv),
        abs_i(k) <= bk,
    ensures
        in_bounds(scale_s(v, k), (bv * bk) / (SCALE as int)),
{
    crate::math::lemma_fx_mul_bound(v.x as int, k, bv, bk);
    crate::math::lemma_fx_mul_bound(v.y as int, k, bv, bk);
    crate::math::lemma_fx_mul_bound(v.z as int, k, bv, bk);
}

/// Cross products of bounded vectors stay within the product of the
/// bounds (after rescaling).
proof fn lemma_cross_bound(a: Vector, b: Vector, ba: int, bb: int)
    requires
        0 <= ba,
        0 <= bb,
        in_bounds(a, ba),
        in_bounds(b, bb),
    ensures
        in_bounds(cross_s(a, b), 2 * ((ba * bb) / (SCALE as int)) + 1),
{
    lemma_abs_mul(a.y as int, b.z as int, ba, bb);
    lemma_abs_mul(a.z as int, b.y as int, ba, bb);
    lemma_abs_mul(a.z as int, b.x as int, ba, bb);
    lemma_abs_mul(a.x as int, b.z as int, ba, bb);
    lemma_abs_mul(a.x as int, b.y as int, ba, bb);
    lemma_abs_mul(a.y as int, b.x as int, ba, bb);
    lemma_tdiv_bound(a.y * b.z - a.z * b.y, 2 * (ba * bb), SCALE as int);
    lemma_tdiv_bound(a.z * b.x - a.x * b.z, 2 * (ba * bb), SCALE as int);
    lemma_tdiv_bound(a.x * b.y - a.y * b.x, 2 * (ba * bb), SCALE as int);
    vstd::arithmetic::div_mod::lemma_div_multiples_vanish(2, SCALE as int);
    assert((2 * (ba * bb)) / (SCALE as int) <= 2 * ((ba * bb) / (SCALE as int)) + 1) by {
        vstd::arithmetic::div_mod::lemma_fundamental_div_mod(ba * bb, SCALE as int);
        vstd::arithmetic::div_mod::lemma_mod_bound(ba * bb, SCALE as int);
        let q = (ba * bb) / (SCALE as int);
        let rr = (ba * bb) % (SCALE as int);
        assert(2 * (ba * bb) == (SCALE as int) * (2 * q) + 2 * rr) by (nonlinear_arith)
            requires
                ba * bb == (SCALE as int) * q + rr,
        ;
        if 2 * rr < SCALE as int {
            vstd::arithmetic::div_mod::lemma_div_multiples_vanish_fancy(2 * q, 2 * rr, SCALE as int);
        } else {
            assert(2 * (ba * bb) == (SCALE as int) * (2 * q + 1) + (2 * rr - (SCALE as int)));
            vstd::arithmetic::div_mod::lemma_div_multiples_vanish_fancy(
                2 * q + 1,
                2 * rr - (SCALE as int),
                SCALE as int,
            );
        }
    }
}

/// Products of unit-bounded values with a matrix-entry budget.
proof fn lemma_unit_products(axis: Vector, cos: int, sin: int)
    requires
        in_bounds(axis, SCALE as int),
        abs_i(cos) <= SCALE as int,
        abs_i(sin) <= SCALE as int,
    ensures
        abs_i(fx_mul_s(axis.x as int, axis.x as int)) <= SCALE as int,
        abs_i(fx_mul_s(axis.y as int, axis.y as int)) <= SCALE as int,
        abs_i(fx_mul_s(axis.z as int, axis.z as int)) <= SCALE as int,
        abs_i(fx_mul_s(axis.x as int, axis.y as int)) <= SCALE as int,
        abs_i(fx_mul_s(axis.x as int, axis.z as int)) <= SCALE as int,
        abs_i(fx_mul_s(axis.y as int, axis.z as int)) <= SCALE as int,
        abs_i(fx_mul_s(axis.x as int, sin)) <= SCALE as int,
        abs_i(fx_mul_s(axis.y as int, sin)) <= SCALE as int,
        abs_i(fx_mul_s(axis.z as int, sin)) <= SCALE as int,
{
    crate::math::lemma_fx_mul_bound(axis.x as int, axis.x as int, SCALE as int, SCALE as int);
    crate::math::lemma_fx_mul_bound(axis.y as int, axis.y as int, SCALE as int, SCALE as int);
    crate::math::lemma_fx_mul_bound(axis.z as int, axis.z as int, SCALE as int, SCALE as int);
    crate::math::lemma_fx_mul_bound(axis.x as int, axis.y as int, SCALE as int, SCALE as int);
    crate::math::lemma_fx_mul_bound(axis.x as int, axis.z as int, SCALE as int, SCALE as int);
    crate::math::lemma_fx_mul_bound(axis.y as int, axis.z as int, SCALE as int, SCALE as int);
    crate::math::lemma_fx_mul_bound(axis.x as int, sin, SCALE as int, SCALE as int);
    crate::math::lemma_fx_mul_bound(axis.y as int, sin, SCALE as int, SCALE as int);
    crate::math::lemma_fx_mul_bound(axis.z as int, sin, SCALE as int, SCALE as int);
}

/// A bound for every component of a vector-matrix product, from bounds
/// on the vector and on the matrix entries.
pub proof fn lemma_vec_mul_mtx_bound(v: Vector, m: Mtx, bv: int, bm: int)
    requires
        0 <= bv,
        0 <= bm,
        in_bounds(v, bv),
        mtx_in_bounds(m, bm),
    ensures
        in_bounds(vec_mul_mtx_s(v, m), (3 * (bv * bm)) / (SCALE as int)),
{
    lemma_abs_mul(v.x as int, m.xx as int, bv, bm);
    lemma_abs_mul(v.y as int, m.yx as int, bv, bm);
    lemma_abs_mul(v.z as int, m.zx as int, bv, bm);
    lemma_abs_mul(v.x as int, m.xy as int, bv, bm);
    lemma_abs_mul(v.y as int, m.yy as int, bv, bm);
    lemma_abs_mul(v.z as int, m.zy as int, bv, bm);
    lemma_abs_mul(v.x as int, m.xz as int, bv, bm);
    lemma_abs_mul(v.y as int, m.yz as int, bv, bm);
    lemma_abs_mul(v.z as int, m.zz as int, bv, bm);
    lemma_tdiv_bound(v.x * m.xx + v.y * m.yx + v.z * m.zx, 3 * (bv * bm), SCALE as int);
    lemma_tdiv_bound(v.x * m.xy + v.y * m.yy + v.z * m.zy, 3 * (bv * bm), SCALE as int);
    lemma_tdiv_bound(v.x * m.xz + v.y * m.yz + v.z * m.zz, 3 * (bv * bm), SCALE as int);
}

/// Bounds for the vector-matrix product's intermediate sums, for the
/// executable code's wide arithmetic.
proof fn lemma_mtx_mul_bounds(v: Vector, m: Mtx)
    requires
        in_bounds(v, 0x4000_0000 as int),
        mtx_in_bounds(m, 8 * (SCALE as int)),
    ensures
        abs_i(v.x * m.xx) <= 8 * (0x4000_0000 as int) * (SCALE as int),
        abs_i(v.y * m.yx) <= 8 * (0x4000_0000 as int) * (SCALE as int),
        abs_i(v.z * m.zx) <= 8 * (0x4000_0000 as int) * (SCALE as int),
        abs_i(v.x * m.xy) <= 8 * (0x4000_0000 as int) * (SCALE as int),
        abs_i(v.y * m.yy) <= 8 * (0x4000_0000 as int) * (SCALE as int),
        abs_i(v.z * m.zy) <= 8 * (0x4000_0000 as int) * (SCALE as int),
        abs_i(v.x * m.xz) <= 8 * (0x4000_0000 as int) * (SCALE as int),
        abs_i(v.y * m.yz) <= 8 * (0x4000_0000 as int) * (SCALE as int),
        abs_i(v.z * m.zz) <= 8 * (0x4000_0000 as int) * (SCALE as int),
        abs_i(v.x * m.xx + v.y * m.yx + v.z * m.zx) <= 24 * (0x4000_0000 as int) * (SCALE as int),
        abs_i(v.x * m.xy + v.y * m.yy + v.z * m.zy) <= 24 * (0x4000_0000 as int) * (SCALE as int),
        abs_i(v.x * m.xz + v.y * m.yz + v.z * m.zz) <= 24 * (0x4000_0000 as int) * (SCALE as int),
        abs_i(tdiv(v.x * m.xx + v.y * m.yx + v.z * m.zx, SCALE as int)) <= 24 * (
        0x4000_0000 as int),
        abs_i(tdiv(v.x * m.xy + v.y * m.yy + v.z * m.zy, SCALE as int)) <= 24 * (
        0x4000_0000 as int),
        abs_i(tdiv(v.x * m.xz + v.y * m.yz + v.z * m.zz, SCALE as int)) <= 24 * (
        0x4000_0000 as int),
{
    let bv = 0x4000_0000 as int;
    let bm = 8 * (SCALE as int);
    lemma_abs_mul(v.x as int, m.xx as int, bv, bm);
    lemma_abs_mul(v.y as int, m.yx as int, bv, bm);
    lemma_abs_mul(v.z as int, m.zx as int, bv, bm);
    lemma_abs_mul(v.x as int, m.xy as int, bv, bm);
    lemma_abs_mul(v.y as int, m.yy as int, bv, bm);
    lemma_abs_mul(v.z as int, m.zy as int, bv, bm);
    lemma_abs_mul(v.x as int, m.xz as int, bv, bm);
    lemma_abs_mul(v.y as int, m.yz as int, bv, bm);
    lemma_abs_mul(v.z as int, m.zz as int, bv, bm);
    lemma_tdiv_bound(v.x * m.xx + v.y * m.yx + v.z * m.zx, 24 * bv * (SCALE as int), SCALE as int);
    lemma_tdiv_bound(v.x * m.xy + v.y * m.yy + v.z * m.zy, 24 * bv * (SCALE as int), SCALE as int);
    lemma_tdiv_bound(v.x * m.xz + v.y * m.yz + v.z * m.zz, 24 * bv * (SCALE as int), SCALE as int);
    vstd::arithmetic::div_mod::lemma_div_multiples_vanish(24 * bv, SCALE as int);
}


/// A rotation quaternion of fixed-point components.
#[derive(Clone, Copy, PartialEq, Eq, Structural, Debug)]
pub struct Quat {
    pub w: i64,
    pub x: i64,
    pub y: i64,
    pub z: i64,
}

/// All four components within magnitude `m`.
pub open spec fn quat_in_bounds(q: Quat, m: int) -> bool {
    abs_i(q.w as int) <= m && abs_i(q.x as int) <= m && abs_i(q.y as int) <= m && abs_i(
        q.z as int,
    ) <= m
}

/// The Hamilton product, each component rescaled once.
pub open spec fn quat_mul_s(a: Quat, b: Quat) -> Quat {
    Quat {
        w: tdiv(a.w * b.w - a.x * b.x - a.y * b.y - a.z * b.z, SCALE as int) as i64,
        x: tdiv(a.w * b.x + a.x * b.w + a.y * b.z - a.z * b.y, SCALE as int) as i64,
        y: tdiv(a.w * b.y - a.x * b.z + a.y * b.w + a.z * b.x, SCALE as int) as i64,
        z: tdiv(a.w * b.z + a.x * b.y - a.y * b.x + a.z * b.w, SCALE as int) as i64,
    }
}

/// The rotation quaternion for `axis` (a unit vector) and `angle`
/// fixed-point turns: cosine and sine of the half angle.
pub open spec fn quat_axis_angle_s(axis: Vector, angle: int) -> Quat {
    let half = tdiv(angle, 2);
    let s = crate::trig::sin_s(half);
    Quat {
        w: crate::trig::cos_s(half) as i64,
        x: fx_mul_s(axis.x as int, s) as i64,
        y: fx_mul_s(axis.y as int, s) as i64,
        z: fx_mul_s(axis.z as int, s) as i64,
    }
}

/// Wide squared norm of a quaternion.
pub open spec fn quat_norm_sq_wide(q: Quat) -> int {
    q.w * q.w + q.x * q.x + q.y * q.y + q.z * q.z
}

/// The quaternion rescaled to unit norm, or unchanged when zero.
pub open spec fn quat_normalized_s(q: Quat) -> Quat {
    let m = sqrt_floor(quat_norm_sq_wide(q));
    if m == 0 {
        q
    } else {
        Quat {
            w: tdiv(q.w * (SCALE as int), m) as i64,
            x: tdiv(q.x * (SCALE as int), m) as i64,
            y: tdiv(q.y * (SCALE as int), m) as i64,
            z: tdiv(q.z * (SCALE as int), m) as i64,
        }
    }
}

/// The rotation matrix of a quaternion, by the standard polynomial.
pub open spec fn mtx_from_quat_s(q: Quat) -> Mtx {
    let a = fx_mul_s(q.x as int, q.x as int);
    let b = fx_mul_s(q.y as int, q.y as int);
    let c = fx_mul_s(q.z as int, q.z as int);
    let xy = fx_mul_s(q.x as int, q.y as int);
    let zw = fx_mul_s(q.z as int, q.w as int);
    let xz = fx_mul_s(q.x as int, q.z as int);
    let yw = fx_mul_s(q.y as int, q.w as int);
    let yz = fx_mul_s(q.y as int, q.z as int);
    let xw = fx_mul_s(q.x as int, q.w as int);
    Mtx {
        xx: ((SCALE as int) - 2 * (b + c)) as i64,
        xy: (2 * (xy - zw)) as i64,
        xz: (2 * (xz + yw)) as i64,
        yx: (2 * (xy + zw)) as i64,
        yy: ((SCALE as int) - 2 * (a + c)) as i64,
        yz: (2 * (yz - xw)) as i64,
        zx: (2 * (xz - yw)) as i64,
        zy: (2 * (yz + xw)) as i64,
        zz: ((SCALE as int) - 2 * (a + b)) as i64,
    }
}

impl Quat {
    /// The identity rotation.
    pub fn ident() -> (r: Quat)
        ensures
            r == (Quat { w: SCALE, x: 0 as i64, y: 0 as i64, z: 0 as i64 }),
    {
        Quat { w: SCALE, x: 0, y: 0, z: 0 }
    }

    /// Exact Hamilton product of two bounded quaternions.
    pub fn mul(self, o: Quat) -> (r: Quat)
        requires
            quat_in_bounds(self, 4 * (SCALE as int)),
            quat_in_bounds(o, 4 * (SCALE as int)),
        ensures
            r == quat_mul_s(self, o),
            quat_in_bounds(r, 64 * (SCALE as int)),
    {
        proof {
            lemma_quat_products(self, o, 4 * (SCALE as int));
            assert((4 * (SCALE as int)) * (4 * (SCALE as int)) == 0x10_0000_0000int)
                by (nonlinear_arith);
            lemma_quat_sum_div(self, o);
        }
        let w: i128 = (self.w as i128) * (o.w as i128) - (self.x as i128) * (o.x as i128) - (
        self.y as i128) * (o.y as i128) - (self.z as i128) * (o.z as i128);
        let x: i128 = (self.w as i128) * (o.x as i128) + (self.x as i128) * (o.w as i128) + (
        self.y as i128) * (o.z as i128) - (self.z as i128) * (o.y as i128);
        let y: i128 = (self.w as i128) * (o.y as i128) - (self.x as i128) * (o.z as i128) + (
        self.y as i128) * (o.w as i128) + (self.z as i128) * (o.x as i128);
        let z: i128 = (self.w as i128) * (o.z as i128) + (self.x as i128) * (o.y as i128) - (
        self.y as i128) * (o.x as i128) + (self.z as i128) * (o.w as i128);
        Quat {
            w: tdiv_i128(w, SCALE as i128) as i64,
            x: tdiv_i128(x, SCALE as i128) as i64,
            y: tdiv_i128(y, SCALE as i128) as i64,
            z: tdiv_i128(z, SCALE as i128) as i64,
        }
    }

    /// The rotation quaternion about a unit axis by an angle in
    /// fixed-point turns.
    pub fn axis_angle(axis: &Vector, angle: i64) -> (r: Quat)
        requires
            in_bounds(*axis, SCALE as int),
            i64::MIN + 2 < angle < i64::MAX - 2 * crate::trig::QUARTER,
        ensures
            r == quat_axis_angle_s(*axis, angle as int),
            quat_in_bounds(r, SCALE as int),
    {
        let half = crate::math::tdiv_i64(angle, 2);
        let s = crate::trig::fx_sin(half);
        let c = crate::trig::fx_cos(half);
        proof {
            crate::math::lemma_fx_mul_bound(axis.x as int, s as int, SCALE as int, SCALE as int);
            crate::math::lemma_fx_mul_bound(axis.y as int, s as int, SCALE as int, SCALE as int);
            crate::math::lemma_fx_mul_bound(axis.z as int, s as int, SCALE as int, SCALE as int);
        }
        Quat { w: c, x: fx_mul(axis.x, s), y: fx_mul(axis.y, s), z: fx_mul(axis.z, s) }
    }

    /// The quaternion rescaled to unit norm (unchanged when zero), each
    /// component then within the unit scale.
    pub fn normalized(self) -> (r: Quat)
        requires
            quat_in_bounds(self, 64 * (SCALE as int)),
        ensures
            r == quat_normalized_s(self),
            sqrt_floor(quat_norm_sq_wide(self)) != 0 ==> quat_in_bounds(r, SCALE as int),
            sqrt_floor(quat_norm_sq_wide(self)) == 0 ==> r == self,
    {
        proof {
            lemma_quat_products(self, self, 64 * (SCALE as int));
            assert((64 * (SCALE as int)) * (64 * (SCALE as int)) == 0x1000_0000_0000int)
                by (nonlinear_arith);
            assert(self.w * self.w >= 0 && self.x * self.x >= 0 && self.y * self.y >= 0 && self.z
                * self.z >= 0) by (nonlinear_arith);
        }
        let nw: i128 = (self.w as i128) * (self.w as i128) + (self.x as i128) * (self.x as i128)
            + (self.y as i128) * (self.y as i128) + (self.z as i128) * (self.z as i128);
        let m64: u64 = isqrt_u128(nw as u128);
        if m64 == 0 {
            self
        } else {
            let m: i64 = m64 as i64;
            proof {
                lemma_norm_component(self.w as int, quat_norm_sq_wide(self), m as int);
                lemma_norm_component(self.x as int, quat_norm_sq_wide(self), m as int);
                lemma_norm_component(self.y as int, quat_norm_sq_wide(self), m as int);
                lemma_norm_component(self.z as int, quat_norm_sq_wide(self), m as int);
            }
            Quat {
                w: tdiv_i128((self.w as i128) * (SCALE as i128), m as i128) as i64,
                x: tdiv_i128((self.x as i128) * (SCALE as i128), m as i128) as i64,
                y: tdiv_i128((self.y as i128) * (SCALE as i128), m as i128) as i64,
                z: tdiv_i128((self.z as i128) * (SCALE as i128), m as i128) as i64,
            }
        }
    }

    /// The rotation matrix of this quaternion, entries bounded when the
    /// quaternion is.
    pub fn to_mtx(&self) -> (r: Mtx)
        requires
            quat_in_bounds(*self, SCALE as int),
        ensures
            r == mtx_from_quat_s(*self),
            mtx_in_bounds(r, 5 * (SCALE as int)),
    {
        proof {
            lemma_quat_sq_bounds(*self);
        }
        let a = fx_mul(self.x, self.x);
        let b = fx_mul(self.y, self.y);
        let c = fx_mul(self.z, self.z);
        let xy = fx_mul(self.x, self.y);
        let zw = fx_mul(self.z, self.w);
        let xz = fx_mul(self.x, self.z);
        let yw = fx_mul(self.y, self.w);
        let yz = fx_mul(self.y, self.z);
        let xw = fx_mul(self.x, self.w);
        Mtx {
            xx: SCALE - 2 * (b + c),
            xy: 2 * (xy - zw),
            xz: 2 * (xz + yw),
            yx: 2 * (xy + zw),
            yy: SCALE - 2 * (a + c),
            yz: 2 * (yz - xw),
            zx: 2 * (xz - yw),
            zy: 2 * (yz + xw),
            zz: SCALE - 2 * (a + b),
        }
    }
}

/// Pairwise products of bounded quaternion components fit in the wide
/// type, and each rescaled four-product sum is bounded.
proof fn lemma_quat_products(a: Quat, b: Quat, m: int)
    requires
        0 <= m,
        quat_in_bounds(a, m),
        quat_in_bounds(b, m),
    ensures
        forall|p: int, q: int|
            abs_i(p) <= m && abs_i(q) <= m ==> abs_i(#[trigger] (p * q)) <= m * m,
{
    assert forall|p: int, q: int| abs_i(p) <= m && abs_i(q) <= m implies abs_i(
        #[trigger] (p * q),
    ) <= m * m by {
        lemma_abs_mul(p, q, m, m);
    }
}

/// Each rescaled four-product combination of two bounded quaternions is
/// within sixty-four unit scales.
proof fn lemma_quat_sum_div(a: Quat, b: Quat)
    requires
        quat_in_bounds(a, 4 * (SCALE as int)),
        quat_in_bounds(b, 4 * (SCALE as int)),
    ensures
        abs_i(tdiv(a.w * b.w - a.x * b.x - a.y * b.y - a.z * b.z, SCALE as int)) <= 64 * (
        SCALE as int),
        abs_i(tdiv(a.w * b.x + a.x * b.w + a.y * b.z - a.z * b.y, SCALE as int)) <= 64 * (
        SCALE as int),
        abs_i(tdiv(a.w * b.y - a.x * b.z + a.y * b.w + a.z * b.x, SCALE as int)) <= 64 * (
        SCALE as int),
        abs_i(tdiv(a.w * b.z + a.x * b.y - a.y * b.x + a.z * b.w, SCALE as int)) <= 64 * (
        SCALE as int),
{
    let m = 4 * (SCALE as int);
    lemma_abs_mul(a.w as int, b.w as int, m, m);
    lemma_abs_mul(a.x as int, b.x as int, m, m);
    lemma_abs_mul(a.y as int, b.y as int, m, m);
    lemma_abs_mul(a.z as int, b.z as int, m, m);
    lemma_abs_mul(a.w as int, b.x as int, m, m);
    lemma_abs_mul(a.x as int, b.w as int, m, m);
    lemma_abs_mul(a.y as int, b.z as int, m, m);
    lemma_abs_mul(a.z as int, b.y as int, m, m);
    lemma_abs_mul(a.w as int, b.y as int, m, m);
    lemma_abs_mul(a.x as int, b.z as int, m, m);
    lemma_abs_mul(a.y as int, b.w as int, m, m);
    lemma_abs_mul(a.z as int, b.x as int, m, m);
    lemma_abs_mul(a.w as int, b.z as int, m, m);
    lemma_abs_mul(a.x as int, b.y as int, m, m);
    lemma_abs_mul(a.y as int, b.x as int, m, m);
    lemma_abs_mul(a.z as int, b.w as int, m, m);
    assert(4 * (m * m) == 64 * (SCALE as int) * (SCALE as int)) by (nonlinear_arith)
        requires
            m == 4 * (SCALE as int),
    ;
    lemma_tdiv_bound(
        a.w * b.w - a.x * b.x - a.y * b.y - a.z * b.z,
        64 * (SCALE as int) * (SCALE as int),
        SCALE as int,
    );
    lemma_tdiv_bound(
        a.w * b.x + a.x * b.w + a.y * b.z - a.z * b.y,
        64 * (SCALE as int) * (SCALE as int),
        SCALE as int,
    );
    lemma_tdiv_bound(
        a.w * b.y - a.x * b.z + a.y * b.w + a.z * b.x,
        64 * (SCALE as int) * (SCALE as int),
        SCALE as int,
    );
    lemma_tdiv_bound(
        a.w * b.z + a.x * b.y - a.y * b.x + a.z * b.w,
        64 * (SCALE as int) * (SCALE as int),
        SCALE as int,
    );
    vstd::arithmetic::div_mod::lemma_div_multiples_vanish(64 * (SCALE as int), SCALE as int);
}

/// Squares and cross products of a unit-bounded quaternion.
proof fn lemma_quat_sq_bounds(q: Quat)
    requires
        quat_in_bounds(q, SCALE as int),
    ensures
        abs_i(fx_mul_s(q.x as int, q.x as int)) <= SCALE as int,
        abs_i(fx_mul_s(q.y as int, q.y as int)) <= SCALE as int,
        abs_i(fx_mul_s(q.z as int, q.z as int)) <= SCALE as int,
        abs_i(fx_mul_s(q.x as int, q.y as int)) <= SCALE as int,
        abs_i(fx_mul_s(q.z as int, q.w as int)) <= SCALE as int,
        abs_i(fx_mul_s(q.x as int, q.z as int)) <= SCALE as int,
        abs_i(fx_mul_s(q.y as int, q.w as int)) <= SCALE as int,
        abs_i(fx_mul_s(q.y as int, q.z as int)) <= SCALE as int,
        abs_i(fx_mul_s(q.x as int, q.w as int)) <= SCALE as int,
{
    let m = SCALE as int;
    crate::math::lemma_fx_mul_bound(q.x as int, q.x as int, m, m);
    crate::math::lemma_fx_mul_bound(q.y as int, q.y as int, m, m);
    crate::math::lemma_fx_mul_bound(q.z as int, q.z as int, m, m);
    crate::math::lemma_fx_mul_bound(q.x as int, q.y as int, m, m);
    crate::math::lemma_fx_mul_bound(q.z as int, q.w as int, m, m);
    crate::math::lemma_fx_mul_bound(q.x as int, q.z as int, m, m);
    crate::math::lemma_fx_mul_bound(q.y as int, q.w as int, m, m);
    crate::math::lemma_fx_mul_bound(q.y as int, q.z as int, m, m);
    crate::math::lemma_fx_mul_bound(q.x as int, q.w as int, m, m);
}


/// The signed angle from one vector to another about an axis, in
/// fixed-point turns: the arc tangent of the cross product's magnitude
/// against the dot product, negated when the cross product points along
/// the axis.
pub open spec fn signed_angle_s(a: Vector, to: Vector, axis: Vector) -> int {
    let c = cross_s(a, to);
    let unsigned = crate::trig::atan2_s(mag_s(c), dot_s(a, to));
    if dot_s(c, axis) > 0 {
        -unsigned
    } else {
        unsigned
    }
}

impl Vector {
    /// The signed angle from this vector to `to` about `axis`.
    pub fn signed_angle(&self, to: &Vector, axis: &Vector) -> (r: i64)
        requires
            in_bounds(*self, 0x400_0000 as int),
            in_bounds(*to, 0x400_0000 as int),
            in_bounds(*axis, VEC_MAX as int),
        ensures
            r as int == signed_angle_s(*self, *to, *axis),
            abs_i(r as int) <= crate::trig::HALF_TURN as int,
    {
        let c = self.cross(to);
        proof {
            lemma_cross_bound(*self, *to, 0x400_0000 as int, 0x400_0000 as int);
        }
        let m = c.mag();
        let d = self.dot(to);
        proof {
            assert(abs_i(d as int) <= crate::math::VAL_MAX as int) by {
                lemma_abs_mul(self.x as int, to.x as int, 0x400_0000 as int, 0x400_0000 as int);
                lemma_abs_mul(self.y as int, to.y as int, 0x400_0000 as int, 0x400_0000 as int);
                lemma_abs_mul(self.z as int, to.z as int, 0x400_0000 as int, 0x400_0000 as int);
                lemma_tdiv_bound(
                    self.x * to.x + self.y * to.y + self.z * to.z,
                    3 * (0x400_0000 as int) * (0x400_0000 as int),
                    SCALE as int,
                );
            }
        }
        let unsigned = crate::trig::fx_atan2(m, d);
        let sign_dot = c.dot(axis);
        if sign_dot > 0 {
            -unsigned
        } else {
            unsigned
        }
    }
}


/// A unit axis times a matrix selects a matrix row exactly.
pub proof fn lemma_axis_rows(m: Mtx)
    ensures
        vec_mul_mtx_s(Vector { x: 0 as i64, y: SCALE, z: 0 as i64 }, m) == (Vector {
            x: m.yx,
            y: m.yy,
            z: m.yz,
        }),
        vec_mul_mtx_s(Vector { x: 0 as i64, y: 0 as i64, z: SCALE }, m) == (Vector {
            x: m.zx,
            y: m.zy,
            z: m.zz,
        }),
        vec_mul_mtx_s(Vector { x: SCALE, y: 0 as i64, z: 0 as i64 }, m) == (Vector {
            x: m.xx,
            y: m.xy,
            z: m.xz,
        }),
{
    lemma_scale_div_exact(m.xx as int);
    lemma_scale_div_exact(m.xy as int);
    lemma_scale_div_exact(m.xz as int);
    lemma_scale_div_exact(m.yx as int);
    lemma_scale_div_exact(m.yy as int);
    lemma_scale_div_exact(m.yz as int);
    lemma_scale_div_exact(m.zx as int);
    lemma_scale_div_exact(m.zy as int);
    lemma_scale_div_exact(m.zz as int);
    let ya = Vector { x: 0 as i64, y: SCALE, z: 0 as i64 };
    let za = Vector { x: 0 as i64, y: 0 as i64, z: SCALE };
    let xa = Vector { x: SCALE, y: 0 as i64, z: 0 as i64 };
    assert(ya.x * m.xx == 0 && ya.z * m.zx == 0 && ya.x * m.xy == 0 && ya.z * m.zy == 0 && ya.x
        * m.xz == 0 && ya.z * m.zz == 0) by (nonlinear_arith)
        requires
            ya.x == 0 && ya.z == 0,
    ;
    assert(za.x * m.xx == 0 && za.y * m.yx == 0 && za.x * m.xy == 0 && za.y * m.yy == 0 && za.x
        * m.xz == 0 && za.y * m.yz == 0) by (nonlinear_arith)
        requires
            za.x == 0 && za.y == 0,
    ;
    assert(xa.y * m.yx == 0 && xa.z * m.zx == 0 && xa.y * m.yy == 0 && xa.z * m.zy == 0 && xa.y
        * m.yz == 0 && xa.z * m.zz == 0) by (nonlinear_arith)
        requires
            xa.y == 0 && xa.z == 0,
    ;
}

/// Scaling up by the unit and dividing back is the identity.
pub proof fn lemma_scale_div_exact(v: int)
    ensures
        tdiv((SCALE as int) * v, SCALE as int) == v,
        tdiv(v * (SCALE as int), SCALE as int) == v,
{
    if v >= 0 {
        vstd::arithmetic::div_mod::lemma_div_multiples_vanish(v, SCALE as int);
    } else {
        vstd::arithmetic::div_mod::lemma_div_multiples_vanish(-v, SCALE as int);
        assert(abs_i((SCALE as int) * v) == (SCALE as int) * (-v)) by (nonlinear_arith)
            requires
                v < 0,
        ;
    }
}

} // verus!
