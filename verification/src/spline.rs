//! The track spline: control points, adaptive baking, arc-length queries.
//!
//! A closed loop of control points with per-point banking is widened into
//! quadratic Bezier segments, then "baked" by adaptive bisection into a
//! polyline whose cumulative arc lengths drive binary-search lookups.
//! Offsets are fixed-point arc lengths; positions are fixed-point
//! fractional control-point indices; tilts are fixed-point turns.
use vstd::prelude::*;
use crate::assets::Asset;
use crate::linalg::{
    Vector, Mtx, in_bounds, dist_s, scale_s, normalized_s, mag_s, vec_mul_mtx_s, looking_at_s,
    mtx_axis_angle_s, mtx_in_bounds, lemma_vec_mul_mtx_bound,
};
use crate::math::{
    abs_i, tdiv, fx_mul_s, clamp_s, fx_mul, clamp_i64, tdiv_i64, tdiv_i128, lemma_tdiv_bound,
    lemma_abs_mul, lemma_fx_mul_bound, lemma_div_facts, SCALE, VEC_MAX,
};
use crate::trig::rem_euclid_i64;

verus! {

/// Track half-width used for wall collision.
pub const TRACK_RADIUS: i64 = 131072;

/// Extended half-width used for out-of-bounds checks.
pub const BOUNDS_RADIUS: i64 = 327680;

/// Height of the side walls.
pub const WALL_HEIGHT: i64 = 16384;

/// Maximum recursion depth of adaptive baking.
pub const MAX_BAKE_DEPTH: usize = 5;

/// Squared chord length (at the usual scale) above which a span is
/// subdivided: one squared unit.
pub const BAKE_LENGTH_SQ: i64 = 65536;

/// Arc-length step used for the tangent's central difference: an eighth
/// of a unit.
pub const FORWARD_VECTOR_SIZE: i64 = 8192;

/// Magnitude bound for control points read from a track file.
pub const PT_FILE_MAX: i64 = 0x80_0000;

/// Magnitude bound for computed Bezier control handles (validated at
/// load).
pub const CTL_MAX: i64 = 0x400_0000;

/// Magnitude bound for single-segment Bezier evaluations.
pub const BEZ_MAX: i64 = 0x1000_0000;

/// Magnitude bound for points on the interpolated curve.
pub const INTERP_MAX: i64 = 0x2000_0000;

/// Bound on the total track arc length (validated at load).
pub const LEN_MAX: i64 = 0x100_0000_0000;

/// Bound on unwrapped tilt values.
pub const TILT_MAX: i64 = 0x400_0000;

/// The Bezier parametrization blend is kept away from its poles: a
/// spline whose neighboring chord lengths differ by more than roughly
/// two hundred fifty to one is rejected at load.
pub const MID_MIN: i64 = 256;

/// One control point of the loaded track.
pub struct ControlPoint {
    /// The point the curve passes through.
    pub point: Vector,
    /// The quadratic Bezier control handle.
    pub control: Vector,
    /// The parametrization split between adjacent segments, in (0, 1).
    pub control_mid: i64,
    /// Unwrapped cumulative banking, in fixed-point turns.
    pub tilt: i64,
    /// Arc length at which this control point sits.
    pub tilt_offset: i64,
}

/// One point of the baked polyline.
pub struct Baked {
    /// The exact curve point.
    pub point: Vector,
    /// Fractional control-point index (16.16).
    pub position: i64,
    /// Cumulative arc length from the start.
    pub offset: i64,
}

/// The track spline.
pub struct Spline {
    pub points: Vec<ControlPoint>,
    pub baked: Vec<Baked>,
    /// Unwrapped tilt after one full loop.
    pub total_tilt: i64,
    /// Total arc length, including the closing chord.
    pub length: i64,
}

/// Well-formedness of one control point's fields.
pub open spec fn point_wf(p: ControlPoint, length: int) -> bool {
    &&& in_bounds(p.point, PT_FILE_MAX as int)
    &&& in_bounds(p.control, CTL_MAX as int)
    &&& MID_MIN as int <= p.control_mid <= (SCALE - MID_MIN) as int
    &&& abs_i(p.tilt as int) <= TILT_MAX as int
    &&& 0 <= p.tilt_offset <= length
}

/// The baked polyline's structural invariant: offsets start at zero and
/// each step adds exactly the chord distance, which is never zero, so
/// offsets ascend strictly; the total length closes the loop.
pub open spec fn baked_wf(baked: Seq<Baked>, length: int) -> bool {
    &&& baked.len() >= 2
    &&& baked[0].offset == 0
    &&& forall|i: int|
        0 <= i < baked.len() - 1 ==> (#[trigger] baked[i + 1].offset) == baked[i].offset + dist_s(
            baked[i].point,
            baked[i + 1].point,
        )
    &&& forall|i: int|
        0 <= i < baked.len() - 1 ==> dist_s((#[trigger] baked[i]).point, baked[i + 1].point) >= 1
    &&& forall|i: int|
        0 <= i < baked.len() ==> in_bounds((#[trigger] baked[i]).point, INTERP_MAX as int)
    &&& forall|i: int| 0 <= i < baked.len() ==> 0 <= (#[trigger] baked[i]).position <= 256 * (
    SCALE as int)
    &&& length == baked[baked.len() - 1].offset + dist_s(
        baked[baked.len() - 1].point,
        baked[0].point,
    )
    &&& dist_s(baked[baked.len() - 1].point, baked[0].point) >= 1
    &&& length <= LEN_MAX
}

/// What curve evaluation needs of the control points alone: enough
/// points, bounded coordinates and handles, and blend splits away from
/// their poles. This holds already while the polyline is being baked.
pub open spec fn curve_wf(s: Spline) -> bool {
    &&& 3 <= s.points@.len() <= 255
    &&& forall|i: int|
        0 <= i < s.points@.len() ==> in_bounds((#[trigger] s.points@[i]).point, PT_FILE_MAX as int)
            && in_bounds(s.points@[i].control, CTL_MAX as int) && MID_MIN as int
            <= s.points@[i].control_mid <= (SCALE - MID_MIN) as int
}

/// The spline's full invariant.
pub open spec fn spline_wf(s: Spline) -> bool {
    &&& curve_wf(s)
    &&& forall|i: int| 0 <= i < s.points@.len() ==> point_wf(#[trigger] s.points@[i], s.length as int)
    &&& s.points@[0].tilt_offset == 0
    &&& forall|i: int|
        0 <= i < s.points@.len() - 1 ==> (#[trigger] s.points@[i].tilt_offset)
            < s.points@[i + 1].tilt_offset
    &&& s.points@[s.points@.len() - 1].tilt_offset < s.length
    &&& baked_wf(s.baked@, s.length as int)
    &&& abs_i(s.total_tilt as int) <= TILT_MAX as int
    &&& 1 <= s.length <= LEN_MAX
}

/// Baked offsets ascend strictly.
pub proof fn lemma_offsets_ascend(baked: Seq<Baked>, length: int, i: int, j: int)
    requires
        baked_wf(baked, length),
        0 <= i <= j < baked.len(),
    ensures
        baked[i].offset <= baked[j].offset,
        i < j ==> baked[i].offset < baked[j].offset,
    decreases j - i,
{
    if i < j {
        lemma_offsets_ascend(baked, length, i, j - 1);
    }
}

/// Every baked offset sits within [0, length).
pub proof fn lemma_offset_below_length(baked: Seq<Baked>, length: int, j: int)
    requires
        baked_wf(baked, length),
        0 <= j < baked.len(),
    ensures
        0 <= baked[j].offset < length,
{
    lemma_offsets_ascend(baked, length, 0, j);
    lemma_offsets_ascend(baked, length, j, baked.len() - 1);
}

/// The quadratic Bezier weights and evaluation for segment `i` at
/// parameter `o` (both at the usual scale): the segment runs from point
/// `i` through its control handle to point `i + 2` around the loop.
pub open spec fn bezier_s(s: Spline, i: int, o: int) -> Vector {
    let other = if i + 2 < s.points@.len() {
        i + 2
    } else {
        i + 2 - s.points@.len()
    };
    let fac_a = fx_mul_s((SCALE as int) - o, (SCALE as int) - o);
    let fac_b = fx_mul_s(2 * ((SCALE as int) - o), o);
    let fac_c = fx_mul_s(o, o);
    let pa = scale_s(s.points@[i].point, fac_a);
    let pb = scale_s(s.points@[i].control, fac_b);
    let pc = scale_s(s.points@[other].point, fac_c);
    Vector {
        x: (pa.x + pb.x + pc.x) as i64,
        y: (pa.y + pb.y + pc.y) as i64,
        z: (pa.z + pb.z + pc.z) as i64,
    }
}

/// Curve evaluation at a fractional control-point index (any integer
/// argument; the index wraps around the loop). Blends the previous and
/// current segments' parametrizations across the stored split point.
pub open spec fn interpolate_s(s: Spline, position: int) -> Vector {
    let n = s.points@.len() as int;
    let pos = position % (n * (SCALE as int));
    let index = pos / (SCALE as int);
    let frac = pos % (SCALE as int);
    let prev = if index == 0 {
        n - 1
    } else {
        index - 1
    };
    let prev_mid = s.points@[prev].control_mid as int;
    let next_mid = s.points@[index].control_mid as int;
    let a = bezier_s(s, prev, fx_mul_s(frac, (SCALE as int) - prev_mid) + prev_mid);
    let b = bezier_s(s, index, fx_mul_s(frac, next_mid));
    let wa = scale_s(a, (SCALE as int) - frac);
    let wb = scale_s(b, frac);
    Vector { x: (wa.x + wb.x) as i64, y: (wa.y + wb.y) as i64, z: (wa.z + wb.z) as i64 }
}

impl Spline {
    /// The number of control points, always within a byte.
    pub fn num_points(&self) -> (r: u8)
        requires
            curve_wf(*self),
        ensures
            r == self.points@.len(),
    {
        self.points.len() as u8
    }

    /// Exact quadratic Bezier evaluation for segment `index` at
    /// parameter `offset` in [0, 1].
    pub fn bezier(&self, index: usize, offset: i64) -> (r: Vector)
        requires
            curve_wf(*self),
            index < self.points@.len(),
            0 <= offset <= SCALE as int,
        ensures
            r == bezier_s(*self, index as int, offset as int),
            in_bounds(r, BEZ_MAX as int),
    {
        let n = self.points.len();
        let other = if index + 2 < n {
            index + 2
        } else {
            index + 2 - n
        };
        proof {
            lemma_bezier_weights(offset as int);
        }
        let fac_a = fx_mul(SCALE - offset, SCALE - offset);
        let fac_b = fx_mul(2 * (SCALE - offset), offset);
        let fac_c = fx_mul(offset, offset);
        let pa = self.points[index].point.scale(fac_a);
        let pb = self.points[index].control.scale(fac_b);
        let pc = self.points[other].point.scale(fac_c);
        proof {
            lemma_fx_mul_bound(
                self.points@[index as int].point.x as int,
                fac_a as int,
                PT_FILE_MAX as int,
                SCALE as int,
            );
            lemma_bezier_term_bounds(*self, index as int, other as int, fac_a as int, fac_b as int, fac_c as int);
        }
        pa.add(pb).add(pc)
    }

    /// Exact curve evaluation at a fractional control-point index. The
    /// index wraps around the closed loop.
    pub fn interpolate(&self, position: i64) -> (r: Vector)
        requires
            curve_wf(*self),
            position > i64::MIN,
        ensures
            r == interpolate_s(*self, position as int),
            in_bounds(r, INTERP_MAX as int),
    {
        let n = self.points.len();
        let modulus: i64 = (n as i64) * SCALE;
        let pos = rem_euclid_i64(position, modulus);
        proof {
            lemma_div_facts(pos as int, SCALE as int);
            vstd::arithmetic::div_mod::lemma_mod_bound(pos as int, SCALE as int);
            assert((pos as int) / (SCALE as int) < n as int) by {
                vstd::arithmetic::div_mod::lemma_div_multiples_vanish(n as int, SCALE as int);
                vstd::arithmetic::div_mod::lemma_div_is_ordered(
                    pos as int,
                    (n as int) * (SCALE as int) - 1,
                    SCALE as int,
                );
                vstd::arithmetic::div_mod::lemma_div_minus_one(
                    (n as int) * (SCALE as int),
                    SCALE as int,
                );
            }
        }
        let index = (pos / SCALE) as usize;
        let frac = pos % SCALE;
        proof {
            assert(index as int == (pos as int) / (SCALE as int));
            assert(frac as int == (pos as int) % (SCALE as int));
        }
        let prev = if index == 0 {
            n - 1
        } else {
            index - 1
        };
        let prev_mid = self.points[prev].control_mid;
        let next_mid = self.points[index].control_mid;
        proof {
            lemma_fx_mul_bound(frac as int, (SCALE as int) - prev_mid, SCALE as int, SCALE as int);
            lemma_fx_mul_bound(frac as int, next_mid as int, SCALE as int, SCALE as int);
            lemma_blend_param(frac as int, prev_mid as int);
        }
        let a = self.bezier(prev, fx_mul(frac, SCALE - prev_mid) + prev_mid);
        let b = self.bezier(index, fx_mul(frac, next_mid));
        let wa = a.scale(SCALE - frac);
        let wb = b.scale(frac);
        proof {
            lemma_fx_mul_bound(a.x as int, (SCALE as int) - frac, INTERP_MAX as int, SCALE as int);
            lemma_interp_term_bounds(a, b, frac as int);
        }
        wa.add(wb)
    }
}

/// Bezier weights lie within twice the unit scale.
proof fn lemma_bezier_weights(o: int)
    requires
        0 <= o <= SCALE as int,
    ensures
        0 <= fx_mul_s((SCALE as int) - o, (SCALE as int) - o) <= SCALE as int,
        abs_i(fx_mul_s(2 * ((SCALE as int) - o), o)) <= 2 * (SCALE as int),
        0 <= fx_mul_s(o, o) <= SCALE as int,
{
    lemma_fx_mul_bound((SCALE as int) - o, (SCALE as int) - o, SCALE as int, SCALE as int);
    lemma_fx_mul_bound(2 * ((SCALE as int) - o), o, 2 * (SCALE as int), SCALE as int);
    lemma_fx_mul_bound(o, o, SCALE as int, SCALE as int);
    lemma_div_facts(((SCALE as int) - o) * ((SCALE as int) - o), SCALE as int);
    lemma_div_facts(o * o, SCALE as int);
    assert(((SCALE as int) - o) * ((SCALE as int) - o) >= 0) by (nonlinear_arith)
        requires
            0 <= o <= SCALE as int,
    ;
    assert(o * o >= 0) by (nonlinear_arith);
}

/// The three weighted Bezier terms are small enough to sum.
proof fn lemma_bezier_term_bounds(s: Spline, i: int, other: int, fa: int, fb: int, fc: int)
    requires
        curve_wf(s),
        0 <= i < s.points@.len(),
        0 <= other < s.points@.len(),
        abs_i(fa) <= SCALE as int,
        abs_i(fb) <= 2 * (SCALE as int),
        abs_i(fc) <= SCALE as int,
    ensures
        in_bounds(scale_s(s.points@[i].point, fa), PT_FILE_MAX as int),
        in_bounds(scale_s(s.points@[i].control, fb), 2 * (CTL_MAX as int)),
        in_bounds(scale_s(s.points@[other].point, fc), PT_FILE_MAX as int),
{
    let p = s.points@[i].point;
    let c = s.points@[i].control;
    let q = s.points@[other].point;
    lemma_fx_mul_bound(p.x as int, fa, PT_FILE_MAX as int, SCALE as int);
    lemma_fx_mul_bound(p.y as int, fa, PT_FILE_MAX as int, SCALE as int);
    lemma_fx_mul_bound(p.z as int, fa, PT_FILE_MAX as int, SCALE as int);
    lemma_fx_mul_bound(c.x as int, fb, CTL_MAX as int, 2 * (SCALE as int));
    lemma_fx_mul_bound(c.y as int, fb, CTL_MAX as int, 2 * (SCALE as int));
    lemma_fx_mul_bound(c.z as int, fb, CTL_MAX as int, 2 * (SCALE as int));
    lemma_fx_mul_bound(q.x as int, fc, PT_FILE_MAX as int, SCALE as int);
    lemma_fx_mul_bound(q.y as int, fc, PT_FILE_MAX as int, SCALE as int);
    lemma_fx_mul_bound(q.z as int, fc, PT_FILE_MAX as int, SCALE as int);
}

/// The blended Bezier parameter stays within [0, 1].
proof fn lemma_blend_param(frac: int, mid: int)
    requires
        0 <= frac < SCALE as int,
        MID_MIN as int <= mid <= (SCALE - MID_MIN) as int,
    ensures
        0 <= fx_mul_s(frac, (SCALE as int) - mid) + mid <= SCALE as int,
        0 <= fx_mul_s(frac, mid) <= SCALE as int,
{
    let sm = (SCALE as int) - mid;
    lemma_div_facts(frac * sm, SCALE as int);
    lemma_div_facts(frac * mid, SCALE as int);
    assert(frac * sm >= 0 && frac * sm <= (SCALE as int) * sm && frac * mid >= 0 && frac * mid
        <= (SCALE as int) * mid) by (nonlinear_arith)
        requires
            0 <= frac < SCALE as int,
            0 <= sm,
            0 <= mid,
    ;
    vstd::arithmetic::div_mod::lemma_div_is_ordered(frac * sm, (SCALE as int) * sm, SCALE as int);
    vstd::arithmetic::div_mod::lemma_div_multiples_vanish(sm, SCALE as int);
    vstd::arithmetic::div_mod::lemma_div_is_ordered(frac * mid, (SCALE as int) * mid, SCALE as int);
    vstd::arithmetic::div_mod::lemma_div_multiples_vanish(mid, SCALE as int);
}

/// The two blended interpolation terms are small enough to sum.
proof fn lemma_interp_term_bounds(a: Vector, b: Vector, frac: int)
    requires
        in_bounds(a, BEZ_MAX as int),
        in_bounds(b, BEZ_MAX as int),
        0 <= frac < SCALE as int,
    ensures
        in_bounds(scale_s(a, (SCALE as int) - frac), BEZ_MAX as int),
        in_bounds(scale_s(b, frac), BEZ_MAX as int),
{
    lemma_fx_mul_bound(a.x as int, (SCALE as int) - frac, BEZ_MAX as int, SCALE as int);
    lemma_fx_mul_bound(a.y as int, (SCALE as int) - frac, BEZ_MAX as int, SCALE as int);
    lemma_fx_mul_bound(a.z as int, (SCALE as int) - frac, BEZ_MAX as int, SCALE as int);
    lemma_fx_mul_bound(b.x as int, frac, BEZ_MAX as int, SCALE as int);
    lemma_fx_mul_bound(b.y as int, frac, BEZ_MAX as int, SCALE as int);
    lemma_fx_mul_bound(b.z as int, frac, BEZ_MAX as int, SCALE as int);
}


/// The polyline invariant while baking is underway: like `baked_wf` but
/// possibly empty and without the closing chord, with `length` equal to
/// the last offset so far.
pub open spec fn baking_wf(baked: Seq<Baked>, length: int) -> bool {
    &&& baked.len() >= 1 ==> baked[0].offset == 0
    &&& forall|i: int|
        0 <= i < baked.len() - 1 ==> (#[trigger] baked[i + 1].offset) == baked[i].offset + dist_s(
            baked[i].point,
            baked[i + 1].point,
        )
    &&& forall|i: int|
        0 <= i < baked.len() - 1 ==> dist_s((#[trigger] baked[i]).point, baked[i + 1].point) >= 1
    &&& forall|i: int|
        0 <= i < baked.len() ==> in_bounds((#[trigger] baked[i]).point, INTERP_MAX as int)
    &&& forall|i: int| 0 <= i < baked.len() ==> 0 <= (#[trigger] baked[i]).position <= 256 * (
    SCALE as int)
    &&& length == if baked.len() == 0 {
        0
    } else {
        baked[baked.len() - 1].offset as int
    }
    &&& 0 <= length <= LEN_MAX
}

/// The polyline after one baking step at `position`: the first point
/// starts the line; later points are appended with the exact chord
/// distance added to the running length, except that a point at zero
/// chord distance from its predecessor adds nothing and is not stored,
/// which keeps offsets strictly ascending.
pub open spec fn baked_step(s: Spline, position: int) -> Seq<Baked> {
    let pt = interpolate_s(s, position);
    if s.baked@.len() == 0 {
        seq![Baked { point: pt, position: position as i64, offset: 0 as i64 }]
    } else {
        let last = s.baked@[s.baked@.len() - 1];
        let d = dist_s(last.point, pt);
        if d == 0 {
            s.baked@
        } else {
            s.baked@.push(
                Baked { point: pt, position: position as i64, offset: (last.offset + d) as i64 },
            )
        }
    }
}

impl Spline {
    /// One baking step: evaluates the curve at `position` and appends it
    /// with its cumulative arc length (see `baked_step`). Returns false
    /// (leaving the spline unchanged) when the running length would pass
    /// `LEN_MAX`.
    pub fn add_baked(&mut self, position: i64) -> (ok: bool)
        requires
            curve_wf(*old(self)),
            baking_wf(old(self).baked@, old(self).length as int),
            0 <= position <= 256 * (SCALE as int),
        ensures
            final(self).points == old(self).points,
            final(self).total_tilt == old(self).total_tilt,
            curve_wf(*final(self)),
            baking_wf(final(self).baked@, final(self).length as int),
            ok ==> final(self).baked@ == baked_step(*old(self), position as int),
            !ok ==> *final(self) == *old(self),
            old(self).baked@.is_prefix_of(final(self).baked@),
            old(self).length <= final(self).length,
    {
        let pt = self.interpolate(position);
        let n = self.baked.len();
        if n == 0 {
            self.baked.push(Baked { point: pt, position, offset: 0 });
            proof {
                assert(old(self).baked@.is_prefix_of(self.baked@)) by {
                    assert(old(self).baked@ =~= self.baked@.subrange(0, 0));
                }
            }
            return true;
        }
        let last_pt = self.baked[n - 1].point;
        let last_off = self.baked[n - 1].offset;
        let d = last_pt.dist(pt);
        if d == 0 {
            proof {
                assert(old(self).baked@.is_prefix_of(self.baked@)) by {
                    assert(old(self).baked@ =~= self.baked@.subrange(
                        0,
                        self.baked@.len() as int,
                    ));
                }
            }
            return true;
        }
        if last_off > LEN_MAX - d {
            return false;
        }
        let off = last_off + d;
        self.baked.push(Baked { point: pt, position, offset: off });
        self.length = off;
        proof {
            assert(old(self).baked@.is_prefix_of(self.baked@)) by {
                assert(old(self).baked@ =~= self.baked@.subrange(
                    0,
                    self.baked@.len() as int - 1,
                ));
            }
        }
        true
    }

    /// Adaptive baking of the span `[begin, end]` of segment `index`:
    /// while the chord between the span's curve endpoints is longer than
    /// one unit (squared), bisect, bake the midpoint, and recurse, down
    /// to `MAX_BAKE_DEPTH`. Returns false when the length cap was hit.
    pub fn bake_recursive(&mut self, index: u8, begin: i64, end: i64, depth: usize) -> (ok: bool)
        requires
            curve_wf(*old(self)),
            baking_wf(old(self).baked@, old(self).length as int),
            (index as int) < old(self).points@.len(),
            0 <= begin <= end <= SCALE as int,
        ensures
            final(self).points == old(self).points,
            final(self).total_tilt == old(self).total_tilt,
            curve_wf(*final(self)),
            baking_wf(final(self).baked@, final(self).length as int),
            old(self).baked@.is_prefix_of(final(self).baked@),
            old(self).length <= final(self).length,
        decreases MAX_BAKE_DEPTH - depth,
    {
        if depth >= MAX_BAKE_DEPTH {
            proof {
                assert(self.baked@.is_prefix_of(self.baked@)) by {
                    assert(self.baked@ =~= self.baked@.subrange(0, self.baked@.len() as int));
                }
            }
            return true;
        }
        let base: i64 = (index as i64) * SCALE;
        let v1 = self.interpolate(base + begin);
        let v2 = self.interpolate(base + end);
        if v1.dist_sq(v2) > BAKE_LENGTH_SQ {
            let mid = (begin + end) / 2;
            if !self.bake_recursive(index, begin, mid, depth + 1) {
                return false;
            }
            if !self.add_baked(base + mid) {
                return false;
            }
            if !self.bake_recursive(index, mid, end, depth + 1) {
                return false;
            }
            true
        } else {
            proof {
                assert(self.baked@.is_prefix_of(self.baked@)) by {
                    assert(self.baked@ =~= self.baked@.subrange(0, self.baked@.len() as int));
                }
            }
            true
        }
    }
}



/// The bucket of an offset: the largest index whose stored offset is
/// strictly below it (zero when there is none), scanned from `c` down.
pub open spec fn bucket_r(baked: Seq<Baked>, o: int, c: int) -> int
    decreases c,
{
    if c <= 0 {
        0
    } else if baked[c].offset < o {
        c
    } else {
        bucket_r(baked, o, c - 1)
    }
}

/// The bucket over the whole polyline.
pub open spec fn bucket(baked: Seq<Baked>, o: int) -> int {
    bucket_r(baked, o, baked.len() - 1)
}

/// The bucket's characterization.
pub proof fn lemma_bucket_char(baked: Seq<Baked>, length: int, o: int)
    requires
        baked_wf(baked, length),
    ensures
        0 <= bucket(baked, o) < baked.len(),
        bucket(baked, o) == 0 || baked[bucket(baked, o)].offset < o,
        bucket(baked, o) == baked.len() - 1 || o <= baked[bucket(baked, o) + 1].offset,
{
    lemma_bucket_char_r(baked, length, o, baked.len() - 1);
}

proof fn lemma_bucket_char_r(baked: Seq<Baked>, length: int, o: int, c: int)
    requires
        baked_wf(baked, length),
        0 <= c < baked.len(),
    ensures
        0 <= bucket_r(baked, o, c) <= c,
        bucket_r(baked, o, c) == 0 || baked[bucket_r(baked, o, c)].offset < o,
        bucket_r(baked, o, c) == c || o <= baked[bucket_r(baked, o, c) + 1].offset,
    decreases c,
{
    if c > 0 && !(baked[c].offset < o) {
        lemma_bucket_char_r(baked, length, o, c - 1);
        let b = bucket_r(baked, o, c - 1);
        if b < c - 1 {
        } else {
            assert(o <= baked[b + 1].offset);
        }
    }
}

/// Only one index satisfies the bucket's characterization.
pub proof fn lemma_bucket_unique(baked: Seq<Baked>, length: int, o: int, c: int)
    requires
        baked_wf(baked, length),
        0 <= c < baked.len(),
        c == 0 || baked[c].offset < o,
        c == baked.len() - 1 || o <= baked[c + 1].offset,
    ensures
        c == bucket(baked, o),
{
    lemma_bucket_char(baked, length, o);
    let b = bucket(baked, o);
    if c < b {
        lemma_offsets_ascend(baked, length, c + 1, b);
        assert(baked[b].offset < o);
        assert(o <= baked[c + 1].offset);
    } else if b < c {
        lemma_offsets_ascend(baked, length, b + 1, c);
        assert(baked[c].offset < o);
        assert(o <= baked[b + 1].offset);
    }
}

/// The fractional control-point position of an arc-length offset in
/// [0, length): the offset is bracketed between two stored polyline
/// points (wrapping past the end onto the closing chord) and the
/// position is interpolated linearly between theirs.
pub open spec fn convert_s(s: Spline, o: int) -> int {
    let baked = s.baked@;
    let n = s.points@.len() as int;
    let c = bucket(baked, o);
    let wrap = c + 1 == baked.len();
    let ob = baked[c].offset as int;
    let oe = if wrap {
        s.length as int
    } else {
        baked[c + 1].offset as int
    };
    let pb = baked[c].position as int;
    let pe = if wrap {
        baked[0].position + n * (SCALE as int)
    } else {
        baked[c + 1].position as int
    };
    let interp = tdiv((o - ob) * (SCALE as int), oe - ob);
    fx_mul_s((SCALE as int) - interp, pb) + fx_mul_s(interp, pe)
}

/// The curve point at an arc-length offset, wrapping modulo the track
/// length: binary search finds the bracketing polyline points, the
/// position is interpolated between them, and the true curve is
/// evaluated there.
pub open spec fn get_baked_s(s: Spline, offset: int) -> Vector {
    interpolate_s(s, convert_s(s, offset % (s.length as int)))
}

/// `get_baked` is periodic in the track length: advancing any offset by
/// one full loop gives exactly the same point.
pub proof fn lemma_get_baked_periodic(s: Spline, offset: int)
    requires
        spline_wf(s),
    ensures
        get_baked_s(s, offset) == get_baked_s(s, offset + s.length),
{
    vstd::arithmetic::div_mod::lemma_mod_add_multiples_vanish(offset, s.length as int);
}

impl Spline {
    /// The bracketing polyline index and interpolated position for an
    /// offset in [0, length), by binary search over the strictly
    /// ascending stored offsets.
    #[verifier::rlimit(100)]
    #[verifier::spinoff_prover]
    pub fn convert_baked_offset(&self, offset: i64) -> (r: i64)
        requires
            spline_wf(*self),
            0 <= offset < self.length,
        ensures
            r as int == convert_s(*self, offset as int),
            abs_i(r as int) <= 1024 * (SCALE as int),
    {
        let len = self.baked.len();
        let mut start: usize = 0;
        let mut end: usize = len;
        let mut current: usize = start + (end - start) / 2;
        while start < current
            invariant
                len == self.baked@.len(),
                len >= 2,
                0 <= start < end <= len,
                current == start + (end - start) / 2,
                start == 0 || self.baked@[start as int].offset < offset,
                end == len || offset <= self.baked@[end as int].offset,
            decreases end - start,
        {
            if offset <= self.baked[current].offset {
                end = current;
            } else {
                start = current;
            }
            current = start + (end - start) / 2;
        }
        proof {
            lemma_bucket_unique(self.baked@, self.length as int, offset as int, current as int);
        }
        let c = current;
        let wrap = c + 1 == len;
        let ob = self.baked[c].offset;
        let oe = if wrap {
            self.length
        } else {
            self.baked[c + 1].offset
        };
        let pb = self.baked[c].position;
        let pe = if wrap {
            self.baked[0].position + (self.points.len() as i64) * SCALE
        } else {
            self.baked[c + 1].position
        };
        proof {
            lemma_offset_below_length(self.baked@, self.length as int, c as int);
            if !wrap {
                lemma_offset_below_length(self.baked@, self.length as int, c as int + 1);
                assert(oe == ob + dist_s(
                    self.baked@[c as int].point,
                    self.baked@[c as int + 1].point,
                ));
            } else {
                lemma_offsets_ascend(self.baked@, self.length as int, c as int, len as int - 1);
            }
            assert(ob < oe);
            if c > 0 {
                assert(self.baked@[c as int].offset < offset);
            }
            lemma_convert_interp_bounds(offset as int, ob as int, oe as int);
        }
        let interp = tdiv_i64((offset - ob) * SCALE, oe - ob);
        proof {
            lemma_fx_mul_bound(
                (SCALE as int) - interp,
                pb as int,
                SCALE as int,
                512 * (SCALE as int),
            );
            lemma_fx_mul_bound(interp as int, pe as int, SCALE as int, 512 * (SCALE as int));
        }
        fx_mul(SCALE - interp, pb) + fx_mul(interp, pe)
    }

    /// The exact curve point at any arc-length offset, wrapping modulo
    /// the track length.
    pub fn get_baked(&self, offset: i64) -> (r: Vector)
        requires
            spline_wf(*self),
            offset > i64::MIN,
        ensures
            r == get_baked_s(*self, offset as int),
            in_bounds(r, INTERP_MAX as int),
    {
        let o = rem_euclid_i64(offset, self.length);
        let position = self.convert_baked_offset(o);
        self.interpolate(position)
    }
}

/// The linear interpolation parameter between two bracketing offsets
/// lies in [0, 1].
proof fn lemma_convert_interp_bounds(o: int, ob: int, oe: int)
    requires
        ob < oe,
        ob <= o <= oe,
        0 <= ob,
        oe <= LEN_MAX as int,
    ensures
        0 <= tdiv((o - ob) * (SCALE as int), oe - ob) <= SCALE as int,
        abs_i((o - ob) * (SCALE as int)) <= (LEN_MAX as int) * (SCALE as int),
{
    let num = (o - ob) * (SCALE as int);
    let den = oe - ob;
    assert(0 <= (o - ob) * (SCALE as int) <= den * (SCALE as int)) by (nonlinear_arith)
        requires
            0 <= o - ob <= den,
    ;
    lemma_div_facts(num, den);
    vstd::arithmetic::div_mod::lemma_div_is_ordered(num, den * (SCALE as int), den);
    vstd::arithmetic::div_mod::lemma_div_multiples_vanish(SCALE as int, den);
    lemma_abs_mul(o - ob, SCALE as int, LEN_MAX as int, SCALE as int);
}


/// Whether the bytes from `pos` hold a complete track header: a count of
/// at least three, and one seven-byte record per counted point.
pub open spec fn spline_header_ok(data: Seq<u8>, pos: int) -> bool {
    &&& 0 <= pos < data.len()
    &&& data[pos] >= 3
    &&& pos + 1 + 7 * (data[pos] as int) <= data.len()
}

/// The i-th control point's position as decoded from its record.
pub open spec fn raw_point(data: Seq<u8>, pos: int, i: int) -> Vector {
    Vector {
        x: crate::assets::fixed_from(data[pos + 1 + 7 * i], data[pos + 2 + 7 * i]) as i64,
        y: crate::assets::fixed_from(data[pos + 3 + 7 * i], data[pos + 4 + 7 * i]) as i64,
        z: crate::assets::fixed_from(data[pos + 5 + 7 * i], data[pos + 6 + 7 * i]) as i64,
    }
}

/// The i-th control point's raw banking, in fixed-point turns.
pub open spec fn raw_tilt(data: Seq<u8>, pos: int, i: int) -> int {
    (data[pos + 7 + 7 * i] as int) * 256
}

/// The shortest-direction angular step from `a` to `b`: the
/// representative of their difference in the half-open half-turn range.
pub open spec fn tilt_delta(a: int, b: int) -> int {
    let d = (b - a) % 65536;
    if d <= 32768 {
        d
    } else {
        d - 65536
    }
}

/// The unwrapped cumulative banking after `i` shortest-direction steps
/// around the loop of `n` points: interpolation between unwrapped values
/// never crosses a full-turn seam.
pub open spec fn unwrapped_tilt(data: Seq<u8>, pos: int, n: int, i: nat) -> int
    decreases i,
{
    if i == 0 {
        raw_tilt(data, pos, 0)
    } else {
        unwrapped_tilt(data, pos, n, (i - 1) as nat) + tilt_delta(
            raw_tilt(data, pos, i - 1),
            raw_tilt(
                data,
                pos,
                if i as int == n {
                    0
                } else {
                    i as int
                },
            ),
        )
    }
}

impl Spline {
    /// Loads a track: one byte of control-point count (at least three),
    /// then per point a three-component 8.8 fixed-point position and one
    /// byte of tilt (256 steps per turn). Tilts are unwrapped along the
    /// loop by shortest angular steps; Bezier handles are derived from
    /// neighboring chord lengths; the curve is baked adaptively.
    ///
    /// `None` is returned for truncated input or fewer than three
    /// points, and also when validation rejects degenerate geometry:
    /// coincident neighboring control points (a division by zero in the
    /// handle construction), an extreme chord-length ratio, an
    /// out-of-bounds handle, a track whose baked loop does not close, a
    /// non-ascending banking parametrization, or a track longer than
    /// `LEN_MAX`.
    pub fn load(asset: &mut Asset) -> (r: Option<Spline>)
        ensures
            r is Some ==> spline_wf(r->Some_0),
            !spline_header_ok(old(asset).data(), old(asset).pos()) ==> r is None,
            old(asset).pos() >= old(asset).data().len() ==> r is None,
            old(asset).pos() < old(asset).data().len() && old(asset).data()[old(asset).pos()] < 3
                ==> r is None,
            r is Some ==> ({
                let data = old(asset).data();
                let pos = old(asset).pos();
                let n = data[pos] as int;
                let sp = r->Some_0;
                &&& spline_header_ok(data, pos)
                &&& sp.points@.len() == n
                &&& forall|i: int| 0 <= i < n ==> (#[trigger] sp.points@[i]).point == raw_point(
                    data,
                    pos,
                    i,
                )
                &&& forall|i: int|
                    0 <= i < n ==> ((#[trigger] sp.points@[i]).tilt as int) == unwrapped_tilt(
                        data,
                        pos,
                        n,
                        i as nat,
                    )
                &&& sp.total_tilt as int == unwrapped_tilt(data, pos, n, n as nat)
            }),
    {
        proof {
            asset.lemma_pos_nonneg();
        }
        let ghost p0 = asset.pos();
        let ghost data = asset.data();
        let num_points = match asset.read_byte() {
            Some(b) => b,
            None => {
                return None;
            },
        };
        if num_points < 3 {
            return None;
        }
        let n = num_points as usize;
        let mut points: Vec<ControlPoint> = Vec::new();
        let mut k: usize = 0;
        while k < n
            invariant
                k <= n,
                3 <= n <= 255,
                points@.len() == k,
                data == old(asset).data(),
                asset.data() == data,
                0 <= p0,
                p0 == old(asset).pos(),
                p0 < data.len(),
                data[p0] as int == n,
                asset.pos() == p0 + 1 + 7 * k,
                asset.pos() <= data.len(),
                forall|i: int|
                    0 <= i < k ==> (#[trigger] points@[i]).point == raw_point(data, p0, i)
                        && points@[i].tilt as int == raw_tilt(data, p0, i),
                forall|i: int|
                    0 <= i < k ==> in_bounds((#[trigger] points@[i]).point, PT_FILE_MAX as int)
                        && in_bounds(points@[i].control, CTL_MAX as int) && points@[i].control_mid
                        == 32768 && 0 <= points@[i].tilt <= 65280 && points@[i].tilt_offset == 0,
            decreases n - k,
        {
            let point = match asset.read_vector() {
                Some(v) => v,
                None => {
                    proof {
                        assert(!spline_header_ok(data, p0));
                    }
                    return None;
                },
            };
            proof {
                crate::assets::lemma_fixed_from_bounds(
                    data[p0 + 1 + 7 * (k as int)],
                    data[p0 + 2 + 7 * (k as int)],
                );
                crate::assets::lemma_fixed_from_bounds(
                    data[p0 + 3 + 7 * (k as int)],
                    data[p0 + 4 + 7 * (k as int)],
                );
                crate::assets::lemma_fixed_from_bounds(
                    data[p0 + 5 + 7 * (k as int)],
                    data[p0 + 6 + 7 * (k as int)],
                );
            }
            let tilt_byte = match asset.read_byte() {
                Some(b) => b,
                None => {
                    proof {
                        assert(!spline_header_ok(data, p0));
                    }
                    return None;
                },
            };
            let tilt: i64 = (tilt_byte as i64) * 256;
            points.push(
                ControlPoint {
                    point,
                    control: Vector::zero(),
                    control_mid: 32768,
                    tilt,
                    tilt_offset: 0,
                },
            );
            k += 1;
        }
        proof {
            assert(spline_header_ok(data, p0));
        }
        // unwrap tilts: accumulate each delta by its shortest direction,
        // so interpolation never crosses a full-turn seam
        let mut total_tilt: i64 = points[0].tilt;
        let mut i: usize = 0;
        while i < n
            invariant
                i <= n,
                3 <= n <= 255,
                points@.len() == n,
                data == old(asset).data(),
                0 <= p0,
                p0 == old(asset).pos(),
                abs_i(total_tilt as int) <= 65536 + (i as int) * 32768,
                total_tilt as int == unwrapped_tilt(data, p0, n as int, i as nat),
                forall|j: int|
                    0 <= j < n ==> (#[trigger] points@[j]).point == raw_point(data, p0, j),
                forall|j: int|
                    0 <= j < i ==> ((#[trigger] points@[j]).tilt as int) == unwrapped_tilt(
                        data,
                        p0,
                        n as int,
                        j as nat,
                    ),
                forall|j: int|
                    i <= j < n ==> ((#[trigger] points@[j]).tilt as int) == raw_tilt(data, p0, j),
                forall|j: int|
                    0 <= j < n ==> in_bounds((#[trigger] points@[j]).point, PT_FILE_MAX as int)
                        && in_bounds(points@[j].control, CTL_MAX as int) && points@[j].control_mid
                        == 32768 && points@[j].tilt_offset == 0,
                forall|j: int| i <= j < n ==> 0 <= (#[trigger] points@[j]).tilt <= 65280,
                forall|j: int|
                    0 <= j < i ==> abs_i((#[trigger] points@[j]).tilt as int) <= 65536 + j * 32768,
            decreases n - i,
        {
            let next = if i + 1 == n {
                points[0].tilt
            } else {
                points[i + 1].tilt
            };
            proof {
                if i + 1 == n {
                    assert(unwrapped_tilt(data, p0, n as int, 0) == raw_tilt(data, p0, 0));
                }
            }
            let cur = points[i].tilt;
            let delta = rem_euclid_i64(next - cur, 65536);
            points[i].tilt = total_tilt;
            if delta <= 32768 {
                total_tilt = total_tilt + delta;
            } else {
                total_tilt = total_tilt + (delta - 65536);
            }
            i += 1;
        }
        // Bezier control handles from neighboring chord lengths
        let mut i: usize = 0;
        while i < n
            invariant
                i <= n,
                3 <= n <= 255,
                points@.len() == n,
                data == old(asset).data(),
                0 <= p0,
                p0 == old(asset).pos(),
                p0 < data.len(),
                data[p0] as int == n,
                forall|j: int|
                    0 <= j < n ==> (#[trigger] points@[j]).point == raw_point(data, p0, j),
                forall|j: int|
                    0 <= j < n ==> ((#[trigger] points@[j]).tilt as int) == unwrapped_tilt(
                        data,
                        p0,
                        n as int,
                        j as nat,
                    ),
                total_tilt as int == unwrapped_tilt(data, p0, n as int, n as nat),
                forall|j: int|
                    0 <= j < n ==> in_bounds((#[trigger] points@[j]).point, PT_FILE_MAX as int)
                        && abs_i(points@[j].tilt as int) <= TILT_MAX as int && points@[j].tilt_offset
                        == 0,
                forall|j: int|
                    0 <= j < n ==> in_bounds((#[trigger] points@[j]).control, CTL_MAX as int)
                        && MID_MIN as int <= points@[j].control_mid <= (SCALE - MID_MIN) as int,
            decreases n - i,
        {
            let b = if i + 1 >= n {
                i + 1 - n
            } else {
                i + 1
            };
            let c = if i + 2 >= n {
                i + 2 - n
            } else {
                i + 2
            };
            let pa = points[i].point;
            let pb = points[b].point;
            let pc = points[c].point;
            let da = pa.dist(pb);
            let db = pb.dist(pc);
            if da + db == 0 {
                // coincident neighboring control points
                return None;
            }
            let mid = crate::math::fx_div(da, da + db);
            if mid < MID_MIN || mid > SCALE - MID_MIN {
                // extreme chord-length ratio
                return None;
            }
            // the three quadratic-through-three-points weights
            let fac_a = crate::math::fx_div(mid - SCALE, 2 * mid);
            proof {
                lemma_tdiv_bound(
                    ((mid - SCALE) as int) * (SCALE as int),
                    (SCALE as int) * (SCALE as int),
                    2 * (mid as int),
                );
                vstd::arithmetic::div_mod::lemma_div_is_ordered_by_denominator(
                    (SCALE as int) * (SCALE as int),
                    2 * (MID_MIN as int),
                    2 * (mid as int),
                );
                lemma_fx_mul_bound(
                    2 * (mid as int),
                    (SCALE - mid) as int,
                    2 * (SCALE as int),
                    SCALE as int,
                );
                assert(fx_mul_s(2 * (mid as int), (SCALE - mid) as int) >= 2) by {
                    assert(2 * (mid as int) * ((SCALE - mid) as int) >= 131072) by (nonlinear_arith)
                        requires
                            mid as int >= MID_MIN as int,
                            (SCALE - mid) as int >= MID_MIN as int,
                            MID_MIN == 256,
                    ;
                    vstd::arithmetic::div_mod::lemma_div_is_ordered(
                        131072,
                        2 * (mid as int) * ((SCALE - mid) as int),
                        SCALE as int,
                    );
                }
            }
            let t = fx_mul(2 * mid, SCALE - mid);
            let fac_b = crate::math::fx_div(SCALE, t);
            proof {
                lemma_tdiv_bound(
                    (SCALE as int) * (SCALE as int),
                    (SCALE as int) * (SCALE as int),
                    t as int,
                );
                vstd::arithmetic::div_mod::lemma_div_is_ordered_by_denominator(
                    (SCALE as int) * (SCALE as int),
                    2,
                    t as int,
                );
                lemma_tdiv_bound(
                    (mid as int) * (SCALE as int),
                    (SCALE as int) * (SCALE as int),
                    2 * ((SCALE - mid) as int),
                );
                vstd::arithmetic::div_mod::lemma_div_is_ordered_by_denominator(
                    (SCALE as int) * (SCALE as int),
                    2 * (MID_MIN as int),
                    2 * ((SCALE - mid) as int),
                );
            }
            // the third weight's divisor is negative; divide by its
            // magnitude and negate, which is the same truncated value
            let fac_c = -crate::math::fx_div(mid, 2 * (SCALE - mid));
            proof {
                crate::linalg::lemma_scale_bound(
                    pa,
                    fac_a as int,
                    PT_FILE_MAX as int,
                    0x80_0000 as int,
                );
                crate::linalg::lemma_scale_bound(
                    pb,
                    fac_b as int,
                    PT_FILE_MAX as int,
                    0x8000_0000 as int,
                );
                crate::linalg::lemma_scale_bound(
                    pc,
                    fac_c as int,
                    PT_FILE_MAX as int,
                    0x80_0000 as int,
                );
            }
            let ta = pa.scale(fac_a);
            let tb = pb.scale(fac_b);
            let tc = pc.scale(fac_c);
            let control = ta.add(tb).add(tc);
            if control.x < -CTL_MAX || control.x > CTL_MAX || control.y < -CTL_MAX || control.y
                > CTL_MAX || control.z < -CTL_MAX || control.z > CTL_MAX {
                // handle outside the curve bound
                return None;
            }
            points[i].control = control;
            points[i].control_mid = mid;
            i += 1;
        }
        // bake the polyline
        let mut spline = Spline { points, baked: Vec::new(), total_tilt, length: 0 };
        if spline.total_tilt > TILT_MAX || spline.total_tilt < -TILT_MAX {
            return None;
        }
        let mut i: usize = 0;
        while i < n
            invariant
                i <= n,
                3 <= n <= 255,
                spline.points@.len() == n,
                data == old(asset).data(),
                0 <= p0,
                p0 == old(asset).pos(),
                p0 < data.len(),
                data[p0] as int == n,
                forall|j: int|
                    0 <= j < n ==> (#[trigger] spline.points@[j]).point == raw_point(data, p0, j),
                forall|j: int|
                    0 <= j < n ==> ((#[trigger] spline.points@[j]).tilt as int) == unwrapped_tilt(
                        data,
                        p0,
                        n as int,
                        j as nat,
                    ),
                spline.total_tilt as int == unwrapped_tilt(data, p0, n as int, n as nat),
                curve_wf(spline),
                baking_wf(spline.baked@, spline.length as int),
                abs_i(spline.total_tilt as int) <= TILT_MAX as int,
                forall|j: int|
                    0 <= j < n ==> abs_i((#[trigger] spline.points@[j]).tilt as int)
                        <= TILT_MAX as int,
                forall|j: int| 0 <= j < n ==> 0 <= (#[trigger] spline.points@[j]).tilt_offset
                    <= spline.length,
            decreases n - i,
        {
            if !spline.add_baked((i as i64) * SCALE) {
                return None;
            }
            let cur_len = spline.length;
            spline.points[i].tilt_offset = cur_len;
            if !spline.bake_recursive(i as u8, 0, SCALE, 0) {
                return None;
            }
            i += 1;
        }
        // close the loop and validate the final invariants
        let m = spline.baked.len();
        if m < 2 {
            return None;
        }
        let closing = spline.baked[m - 1].point.dist(spline.baked[0].point);
        if closing == 0 {
            return None;
        }
        let last_off = spline.baked[m - 1].offset;
        if last_off > LEN_MAX - closing {
            return None;
        }
        let total_len = last_off + closing;
        spline.length = total_len;
        // banking parametrization must ascend strictly and stay inside
        // the loop
        if spline.points[0].tilt_offset != 0 {
            return None;
        }
        let mut i: usize = 0;
        while i < n
            invariant
                i <= n,
                3 <= n <= 255,
                spline.points@.len() == n,
                forall|j: int|
                    0 <= j < i ==> 0 <= (#[trigger] spline.points@[j]).tilt_offset < total_len,
                forall|j: int|
                    0 <= j < i - 1 ==> (#[trigger] spline.points@[j].tilt_offset) < spline.points@[
                        j + 1
                    ].tilt_offset,
            decreases n - i,
        {
            if spline.points[i].tilt_offset < 0 || spline.points[i].tilt_offset >= total_len {
                return None;
            }
            if i > 0 && spline.points[i - 1].tilt_offset >= spline.points[i].tilt_offset {
                return None;
            }
            i += 1;
        }
        proof {
            assert(baked_wf(spline.baked@, spline.length as int));
            assert(spline_wf(spline));
        }
        Some(spline)
    }
}


/// Magnitude bound for query points handed to the projection and
/// collision functions.
pub const QUERY_MAX: i64 = 0x1_0000_0000;

/// The direction of one linear segment: the chord divided by the
/// offset interval, componentwise.
pub open spec fn seg_dir_s(origin: Vector, npt: Vector, interval: int) -> Vector {
    Vector {
        x: tdiv((npt.x - origin.x) * (SCALE as int), interval) as i64,
        y: tdiv((npt.y - origin.y) * (SCALE as int), interval) as i64,
        z: tdiv((npt.z - origin.z) * (SCALE as int), interval) as i64,
    }
}

/// The clamped projection parameter of a point onto a segment.
pub open spec fn seg_param_s(origin: Vector, dir: Vector, interval: int, q: Vector) -> int {
    clamp_s(
        tdiv((q.x - origin.x) * dir.x + (q.y - origin.y) * dir.y + (q.z - origin.z) * dir.z,
            SCALE as int),
        0,
        interval,
    )
}

/// The projected point: the direction scaled back by the parameter,
/// from the origin.
pub open spec fn seg_point_s(origin: Vector, dir: Vector, d: int) -> Vector {
    Vector {
        x: (tdiv(dir.x * d, SCALE as int) + origin.x) as i64,
        y: (tdiv(dir.y * d, SCALE as int) + origin.y) as i64,
        z: (tdiv(dir.z * d, SCALE as int) + origin.z) as i64,
    }
}

/// The projection of a point onto one linear segment: the pair of
/// arc-length offset and squared distance to the projected point.
/// Hidden behind its name; `project_seg` computes it exactly.
#[verifier::opaque]
pub open spec fn project_seg_s(
    origin: Vector,
    npt: Vector,
    off: int,
    interval: int,
    q: Vector,
) -> (int, int) {
    let dir = seg_dir_s(origin, npt, interval);
    let d = seg_param_s(origin, dir, interval, q);
    let rp = seg_point_s(origin, dir, d);
    let dist = tdiv(
        (rp.x - q.x) * (rp.x - q.x) + (rp.y - q.y) * (rp.y - q.y) + (rp.z - q.z) * (rp.z - q.z),
        SCALE as int,
    );
    (off + d, dist)
}

/// The projection of a point onto one baked linear segment, indexed in
/// the polyline (wrapping to the first point after the last).
pub open spec fn gods_s(s: Spline, q: Vector, i: int) -> (int, int) {
    let baked = s.baked@;
    let next = if i + 1 == baked.len() {
        0
    } else {
        i + 1
    };
    let off = baked[i].offset as int;
    let interval = abs_i(baked[next].offset - off);
    project_seg_s(baked[i].point, baked[next].point, off, interval, q)
}

/// A direction component scaled back by the clamped parameter never
/// exceeds the chord component it came from.
proof fn lemma_proj_comp(diffc: int, interval: int, d: int, dirc: int)
    requires
        interval >= 1,
        abs_i(dirc) * interval <= abs_i(diffc * (SCALE as int)),
        0 <= d <= interval,
    ensures
        abs_i(tdiv(dirc * d, SCALE as int)) <= abs_i(diffc),
{
    assert(abs_i(dirc * d) <= abs_i(diffc) * (SCALE as int)) by (nonlinear_arith)
        requires
            interval >= 1,
            abs_i(dirc) * interval <= abs_i(diffc * (SCALE as int)),
            0 <= d <= interval,
    ;
    lemma_tdiv_bound(dirc * d, abs_i(diffc) * (SCALE as int), SCALE as int);
    vstd::arithmetic::div_mod::lemma_div_multiples_vanish(abs_i(diffc), SCALE as int);
}

/// Exact segment direction, with per-component bounds tied back to the
/// chord via the truncating-division law.
#[verifier::spinoff_prover]
fn seg_dir(origin: Vector, npt: Vector, interval: i64) -> (dir: Vector)
    requires
        in_bounds(origin, INTERP_MAX as int),
        in_bounds(npt, INTERP_MAX as int),
        1 <= interval <= LEN_MAX as int,
    ensures
        dir == seg_dir_s(origin, npt, interval as int),
        in_bounds(dir, 2 * (INTERP_MAX as int) * (SCALE as int)),
        abs_i(dir.x as int) * interval <= abs_i((npt.x - origin.x) * (SCALE as int)),
        abs_i(dir.y as int) * interval <= abs_i((npt.y - origin.y) * (SCALE as int)),
        abs_i(dir.z as int) * interval <= abs_i((npt.z - origin.z) * (SCALE as int)),
{
    let wx: i128 = ((npt.x - origin.x) as i128) * (SCALE as i128);
    let wy: i128 = ((npt.y - origin.y) as i128) * (SCALE as i128);
    let wz: i128 = ((npt.z - origin.z) as i128) * (SCALE as i128);
    proof {
        lemma_abs_mul(
            (npt.x - origin.x) as int,
            SCALE as int,
            2 * (INTERP_MAX as int),
            SCALE as int,
        );
        lemma_abs_mul(
            (npt.y - origin.y) as int,
            SCALE as int,
            2 * (INTERP_MAX as int),
            SCALE as int,
        );
        lemma_abs_mul(
            (npt.z - origin.z) as int,
            SCALE as int,
            2 * (INTERP_MAX as int),
            SCALE as int,
        );
        lemma_tdiv_bound(wx as int, 2 * (INTERP_MAX as int) * (SCALE as int), interval as int);
        lemma_tdiv_bound(wy as int, 2 * (INTERP_MAX as int) * (SCALE as int), interval as int);
        lemma_tdiv_bound(wz as int, 2 * (INTERP_MAX as int) * (SCALE as int), interval as int);
    }
    Vector {
        x: tdiv_i128(wx, interval as i128) as i64,
        y: tdiv_i128(wy, interval as i128) as i64,
        z: tdiv_i128(wz, interval as i128) as i64,
    }
}

/// Exact clamped projection parameter.
#[verifier::spinoff_prover]
fn seg_param(origin: Vector, dir: Vector, interval: i64, q: Vector) -> (d: i64)
    requires
        in_bounds(origin, INTERP_MAX as int),
        in_bounds(dir, 2 * (INTERP_MAX as int) * (SCALE as int)),
        in_bounds(q, QUERY_MAX as int),
        1 <= interval <= LEN_MAX as int,
    ensures
        d as int == seg_param_s(origin, dir, interval as int, q),
        0 <= d <= interval,
{
    let px = q.x - origin.x;
    let py = q.y - origin.y;
    let pz = q.z - origin.z;
    proof {
        lemma_abs_mul(px as int, dir.x as int, 3 * (QUERY_MAX as int), 2 * (INTERP_MAX as int) * (
        SCALE as int));
        lemma_abs_mul(py as int, dir.y as int, 3 * (QUERY_MAX as int), 2 * (INTERP_MAX as int) * (
        SCALE as int));
        lemma_abs_mul(pz as int, dir.z as int, 3 * (QUERY_MAX as int), 2 * (INTERP_MAX as int) * (
        SCALE as int));
    }
    let dot: i128 = (px as i128) * (dir.x as i128) + (py as i128) * (dir.y as i128) + (pz as i128)
        * (dir.z as i128);
    let draw: i128 = tdiv_i128(dot, SCALE as i128);
    if draw < 0 {
        0
    } else if draw > interval as i128 {
        interval
    } else {
        draw as i64
    }
}

/// Exact projection of a point onto one linear segment.
#[verifier::spinoff_prover]
fn project_seg(origin: Vector, npt: Vector, off: i64, interval: i64, q: Vector) -> (r: (i64, i64))
    requires
        in_bounds(origin, INTERP_MAX as int),
        in_bounds(npt, INTERP_MAX as int),
        in_bounds(q, QUERY_MAX as int),
        1 <= interval <= LEN_MAX as int,
        0 <= off <= LEN_MAX as int,
    ensures
        (r.0 as int, r.1 as int) == project_seg_s(origin, npt, off as int, interval as int, q),
        0 <= r.1,
        0 <= r.0 <= 2 * (LEN_MAX as int),
{
    let dir = seg_dir(origin, npt, interval);
    let d = seg_param(origin, dir, interval, q);
    proof {
        reveal(project_seg_s);
        lemma_proj_comp((npt.x - origin.x) as int, interval as int, d as int, dir.x as int);
        lemma_proj_comp((npt.y - origin.y) as int, interval as int, d as int, dir.y as int);
        lemma_proj_comp((npt.z - origin.z) as int, interval as int, d as int, dir.z as int);
    }
    let rx: i64 = tdiv_i128((dir.x as i128) * (d as i128), SCALE as i128) as i64 + origin.x;
    let ry: i64 = tdiv_i128((dir.y as i128) * (d as i128), SCALE as i128) as i64 + origin.y;
    let rz: i64 = tdiv_i128((dir.z as i128) * (d as i128), SCALE as i128) as i64 + origin.z;
    let ex = rx - q.x;
    let ey = ry - q.y;
    let ez = rz - q.z;
    proof {
        lemma_abs_mul(ex as int, ex as int, 6 * (QUERY_MAX as int), 6 * (QUERY_MAX as int));
        lemma_abs_mul(ey as int, ey as int, 6 * (QUERY_MAX as int), 6 * (QUERY_MAX as int));
        lemma_abs_mul(ez as int, ez as int, 6 * (QUERY_MAX as int), 6 * (QUERY_MAX as int));
        lemma_tdiv_bound(
            (ex as int) * (ex as int) + (ey as int) * (ey as int) + (ez as int) * (ez as int),
            3 * 6 * 6 * (QUERY_MAX as int) * (QUERY_MAX as int),
            SCALE as int,
        );
        assert((ex as int) * (ex as int) >= 0 && (ey as int) * (ey as int) >= 0 && (ez as int) * (
        ez as int) >= 0) by (nonlinear_arith);
        lemma_div_facts(
            (ex as int) * (ex as int) + (ey as int) * (ey as int) + (ez as int) * (ez as int),
            SCALE as int,
        );
    }
    let dist: i64 = tdiv_i128(
        (ex as i128) * (ex as i128) + (ey as i128) * (ey as i128) + (ez as i128) * (ez as i128),
        SCALE as i128,
    ) as i64;
    (off + d, dist)
}



impl Spline {
    /// Projects a point onto one baked linear segment, clamping the
    /// projection parameter to the segment's offset interval, and
    /// returns the arc-length offset of the projection together with
    /// the squared distance to it: the primitive the octree's
    /// closest-point search minimizes over.
    #[verifier::rlimit(100)]
    #[verifier::spinoff_prover]
    pub fn get_offset_and_dist_sq(&self, point: Vector, index: usize) -> (r: (i64, i64))
        requires
            baked_wf(self.baked@, self.length as int),
            index < self.baked@.len(),
            in_bounds(point, QUERY_MAX as int),
        ensures
            (r.0 as int, r.1 as int) == gods_s(*self, point, index as int),
            0 <= r.1,
            0 <= r.0 <= 2 * (LEN_MAX as int),
    {
        let m = self.baked.len();
        let next = if index + 1 == m {
            0
        } else {
            index + 1
        };
        let off = self.baked[index].offset;
        let next_off = self.baked[next].offset;
        proof {
            lemma_offset_below_length(self.baked@, self.length as int, index as int);
            lemma_offset_below_length(self.baked@, self.length as int, next as int);
        }
        let interval = if next_off >= off {
            next_off - off
        } else {
            off - next_off
        };
        proof {
            if index as int + 1 == m {
                lemma_offsets_ascend(self.baked@, self.length as int, 0, index as int);
            }
            assert(interval as int == abs_i(self.baked@[next as int].offset - off));
            assert(interval >= 1);
        }
        project_seg(self.baked[index].point, self.baked[next].point, off, interval, point)
    }
}


/// Lagrange tilt terms are clamped into this budget before blending; a
/// real track's unwrapped tilts sit far below it.
pub const TILT_TERM_MAX: i64 = 0x100_0000_0000;

/// The wrapped control-point index and the loop count for a possibly
/// out-of-range index (the banking window reaches one point before and
/// two past the current one).
pub open spec fn floor_div_s(n: int, i: int) -> (int, int) {
    if i < 0 {
        (-1, i + n)
    } else if i < n {
        (0, i)
    } else {
        (1, i - n)
    }
}

/// Arc length of a control point, shifted by whole loops.
pub open spec fn tilt_offset_s(s: Spline, i: int) -> int {
    let n = s.points@.len() as int;
    if i < 0 {
        s.points@[i + n].tilt_offset - s.length
    } else if i < n {
        s.points@[i].tilt_offset as int
    } else {
        s.points@[i - n].tilt_offset + s.length
    }
}

/// Unwrapped tilt of a control point, shifted by whole loops.
pub open spec fn tilt_radian_s(s: Spline, i: int) -> int {
    let n = s.points@.len() as int;
    if i < 0 {
        s.points@[i + n].tilt - s.total_tilt
    } else if i < n {
        s.points@[i].tilt as int
    } else {
        s.points@[i - n].tilt + s.total_tilt
    }
}

/// One clamped quadratic-Lagrange basis term: the tilt value at `i`
/// weighted by the two offset ratios, evaluated with truncating
/// divisions and clamped into the term budget.
pub open spec fn lagrange_term_s(y: int, x: int, x0: int, x1: int, x2: int) -> int {
    let t1 = tdiv(y * (x - x1), x0 - x1);
    let t2 = clamp_s(t1, -(TILT_TERM_MAX as int), TILT_TERM_MAX as int);
    let t3 = tdiv(t2 * (x - x2), x0 - x2);
    clamp_s(t3, -(TILT_TERM_MAX as int), TILT_TERM_MAX as int)
}

/// The quadratic Lagrange interpolation of unwrapped tilt over three
/// consecutive control points, keyed by arc length.
pub open spec fn lagrange_s(s: Spline, i: int, x: int) -> int {
    let x0 = tilt_offset_s(s, i);
    let x1 = tilt_offset_s(s, i + 1);
    let x2 = tilt_offset_s(s, i + 2);
    let y0 = tilt_radian_s(s, i);
    let y1 = tilt_radian_s(s, i + 1);
    let y2 = tilt_radian_s(s, i + 2);
    lagrange_term_s(y0, x, x0, x1, x2) + lagrange_term_s(y1, x, x1, x0, x2) + lagrange_term_s(
        y2,
        x,
        x2,
        x0,
        x1,
    )
}

/// The banking angle at an arc-length offset: two Lagrange windows
/// around the bracketing control point, blended by the fractional
/// position, in fixed-point turns.
pub open spec fn get_tilt_s(s: Spline, offset: int) -> int {
    let pre = offset % (s.length as int);
    let n = s.points@.len() as int;
    let cpos = clamp_s(convert_s(s, pre), 0, n * (SCALE as int));
    let index = cpos / (SCALE as int);
    let frac = cpos % (SCALE as int);
    let a = lagrange_s(s, index - 1, pre);
    let b = lagrange_s(s, index, pre);
    fx_mul_s(a, (SCALE as int) - frac) + fx_mul_s(b, frac)
}

/// Strictly ascending shifted tilt offsets over the window the
/// interpolation reads.
#[verifier::spinoff_prover]
proof fn lemma_tilt_offsets_strict(s: Spline, i: int)
    requires
        spline_wf(s),
        -1 <= i,
        i + 1 <= s.points@.len() + 2,
    ensures
        tilt_offset_s(s, i) < tilt_offset_s(s, i + 1),
        abs_i(tilt_offset_s(s, i)) <= 2 * (LEN_MAX as int),
        abs_i(tilt_radian_s(s, i)) <= 2 * (TILT_MAX as int),
{
    let n = s.points@.len() as int;
    assert(point_wf(s.points@[if i < 0 { i + n } else if i < n { i } else { i - n }], s.length as int));
    assert(point_wf(
        s.points@[if i + 1 < n { i + 1 } else { i + 1 - n }],
        s.length as int,
    ));
    if 0 <= i && i + 1 < n {
        assert(s.points@[i].tilt_offset < s.points@[i + 1].tilt_offset);
    } else if i == -1 {
        assert(s.points@[n - 1].tilt_offset < s.length);
        assert(s.points@[0].tilt_offset == 0);
    } else if i + 1 == n {
        assert(s.points@[n - 1].tilt_offset < s.length);
        assert(s.points@[0].tilt_offset == 0);
    } else {
        assert(i >= n);
        assert(s.points@[i - n].tilt_offset < s.points@[i + 1 - n].tilt_offset);
    }
}

impl Spline {
    /// The wrapped control-point reference for a window index.
    fn floor_div(&self, i: i64) -> (r: (i64, usize))
        requires
            spline_wf(*self),
            -1 <= i <= self.points@.len() + 2,
        ensures
            (r.0 as int, r.1 as int) == floor_div_s(self.points@.len() as int, i as int),
            r.1 < self.points@.len(),
            -1 <= r.0 <= 1,
    {
        let n = self.points.len() as i64;
        if i < 0 {
            (-1, (i + n) as usize)
        } else if i < n {
            (0, i as usize)
        } else {
            (1, (i - n) as usize)
        }
    }

    /// Shifted arc length of a window index.
    fn get_tilt_offset(&self, i: i64) -> (r: i64)
        requires
            spline_wf(*self),
            -1 <= i <= self.points@.len() + 2,
        ensures
            r as int == tilt_offset_s(*self, i as int),
            abs_i(r as int) <= 2 * (LEN_MAX as int),
    {
        let (d, j) = self.floor_div(i);
        proof {
            assert(point_wf(self.points@[j as int], self.length as int));
        }
        if d < 0 {
            self.points[j].tilt_offset - self.length
        } else if d == 0 {
            self.points[j].tilt_offset
        } else {
            self.points[j].tilt_offset + self.length
        }
    }

    /// Shifted unwrapped tilt of a window index.
    fn get_tilt_radian(&self, i: i64) -> (r: i64)
        requires
            spline_wf(*self),
            -1 <= i <= self.points@.len() + 2,
        ensures
            r as int == tilt_radian_s(*self, i as int),
            abs_i(r as int) <= 2 * (TILT_MAX as int),
    {
        let (d, j) = self.floor_div(i);
        proof {
            assert(point_wf(self.points@[j as int], self.length as int));
        }
        if d < 0 {
            self.points[j].tilt - self.total_tilt
        } else if d == 0 {
            self.points[j].tilt
        } else {
            self.points[j].tilt + self.total_tilt
        }
    }

    /// One Lagrange window: the clamped quadratic basis combination of
    /// three consecutive tilts, keyed by arc length.
    #[verifier::rlimit(60)]
    #[verifier::spinoff_prover]
    fn lagrange(&self, i: i64, x: i64) -> (r: i64)
        requires
            spline_wf(*self),
            -1 <= i,
            i <= self.points@.len(),
            0 <= x <= LEN_MAX as int,
        ensures
            r as int == lagrange_s(*self, i as int, x as int),
            abs_i(r as int) <= 3 * (TILT_TERM_MAX as int),
    {
        let x0 = self.get_tilt_offset(i);
        let x1 = self.get_tilt_offset(i + 1);
        let x2 = self.get_tilt_offset(i + 2);
        let y0 = self.get_tilt_radian(i);
        let y1 = self.get_tilt_radian(i + 1);
        let y2 = self.get_tilt_radian(i + 2);
        proof {
            lemma_tilt_offsets_strict(*self, i as int);
            lemma_tilt_offsets_strict(*self, i as int + 1);
        }
        let t0 = lagrange_term(y0, x, x0, x1, x2);
        let t1 = lagrange_term(y1, x, x1, x0, x2);
        let t2 = lagrange_term(y2, x, x2, x0, x1);
        t0 + t1 + t2
    }

    /// The banking angle at an arc-length offset, in fixed-point turns.
    #[verifier::rlimit(60)]
    #[verifier::spinoff_prover]
    pub fn get_tilt(&self, offset: i64) -> (r: i64)
        requires
            spline_wf(*self),
            offset > i64::MIN,
        ensures
            r as int == get_tilt_s(*self, offset as int),
            abs_i(r as int) <= 6 * (TILT_TERM_MAX as int),
    {
        let pre = rem_euclid_i64(offset, self.length);
        let raw = self.convert_baked_offset(pre);
        // positions sit inside the loop for well-formed tracks; the
        // window index is clamped so the banking window always reads
        // existing control points
        let nw = self.points.len() as i64;
        let cpos = clamp_i64(raw, 0, nw * SCALE);
        proof {
            lemma_div_facts(cpos as int, SCALE as int);
            vstd::arithmetic::div_mod::lemma_mod_bound(cpos as int, SCALE as int);
            vstd::arithmetic::div_mod::lemma_fundamental_div_mod(cpos as int, SCALE as int);
            assert((cpos as int) / (SCALE as int) <= nw as int) by (nonlinear_arith)
                requires
                    0 <= cpos as int <= (nw as int) * (SCALE as int),
                    (cpos as int) == (SCALE as int) * ((cpos as int) / (SCALE as int)) + (
                    cpos as int) % (SCALE as int),
                    0 <= (cpos as int) % (SCALE as int) < SCALE as int,
                    nw >= 3,
            ;
        }
        let index = cpos / SCALE;
        let frac = cpos % SCALE;
        let a = self.lagrange(index - 1, pre);
        let b = self.lagrange(index, pre);
        proof {
            lemma_fx_mul_bound(a as int, (SCALE as int) - frac, 3 * (TILT_TERM_MAX as int), SCALE as int);
            lemma_fx_mul_bound(b as int, frac as int, 3 * (TILT_TERM_MAX as int), SCALE as int);
        }
        fx_mul(a, SCALE - frac) + fx_mul(b, frac)
    }
}

/// One clamped Lagrange basis term, exactly as `lagrange_term_s` states.
#[verifier::rlimit(60)]
#[verifier::spinoff_prover]
fn lagrange_term(y: i64, x: i64, x0: i64, x1: i64, x2: i64) -> (r: i64)
    requires
        abs_i(y as int) <= 2 * (TILT_MAX as int),
        abs_i(x as int) <= 2 * (LEN_MAX as int),
        abs_i(x0 as int) <= 2 * (LEN_MAX as int),
        abs_i(x1 as int) <= 2 * (LEN_MAX as int),
        abs_i(x2 as int) <= 2 * (LEN_MAX as int),
        x0 != x1,
        x0 != x2,
    ensures
        r as int == lagrange_term_s(y as int, x as int, x0 as int, x1 as int, x2 as int),
        abs_i(r as int) <= TILT_TERM_MAX as int,
{
    proof {
        lemma_abs_mul(y as int, (x - x1) as int, 2 * (TILT_MAX as int), 4 * (LEN_MAX as int));
        assert(2 * (TILT_MAX as int) * (4 * (LEN_MAX as int)) == 0x20_0000_0000_0000_0000int)
            by (nonlinear_arith);
        assert(abs_i((y as int) * ((x - x1) as int)) <= 0x20_0000_0000_0000_0000int);
    }
    let num1: i128 = (y as i128) * ((x - x1) as i128);
    let den1: i64 = x0 - x1;
    proof {
        assert(num1 > i128::MIN && den1 as i128 != 0 && den1 as i128 > i128::MIN);
    }
    let q1: i128 = tdiv_i128_any(num1, den1 as i128);
    let t2: i64 = if q1 < -(TILT_TERM_MAX as i128) {
        -TILT_TERM_MAX
    } else if q1 > TILT_TERM_MAX as i128 {
        TILT_TERM_MAX
    } else {
        q1 as i64
    };
    proof {
        lemma_abs_mul(t2 as int, (x - x2) as int, TILT_TERM_MAX as int, 4 * (LEN_MAX as int));
    }
    let num2: i128 = (t2 as i128) * ((x - x2) as i128);
    let den2: i64 = x0 - x2;
    let q2: i128 = tdiv_i128_any(num2, den2 as i128);
    if q2 < -(TILT_TERM_MAX as i128) {
        -TILT_TERM_MAX
    } else if q2 > TILT_TERM_MAX as i128 {
        TILT_TERM_MAX
    } else {
        q2 as i64
    }
}

/// Truncating division by a nonzero divisor of either sign.
fn tdiv_i128_any(a: i128, b: i128) -> (r: i128)
    requires
        b != 0,
        a > i128::MIN,
        b > i128::MIN,
    ensures
        r as int == tdiv(a as int, b as int),
        abs_i(r as int) <= abs_i(a as int),
{
    proof {
        crate::math::lemma_tdiv_bound(a as int, abs_i(a as int), abs_i(b as int));
        assert(tdiv(a as int, b as int) == if (a as int >= 0) == (b as int >= 0) {
            abs_i(a as int) / abs_i(b as int)
        } else {
            -(abs_i(a as int) / abs_i(b as int))
        });
    }
    let na: u128 = if a >= 0 {
        a as u128
    } else {
        (-a) as u128
    };
    let nb: u128 = if b >= 0 {
        b as u128
    } else {
        (-b) as u128
    };
    let q = na / nb;
    if (a >= 0) == (b >= 0) {
        q as i128
    } else {
        -(q as i128)
    }
}


/// Componentwise bound of the spline frame vectors.
pub const UPR_MAX: i64 = 0x100_0000;

/// The local track frame at an arc-length offset: a forward tangent from
/// a central difference an eighth of a unit to each side (replaced by
/// the forward axis in the degenerate zero-tangent case), a look-at
/// frame over the vertical axis, and the banking rotation about the
/// tangent applied to the frame's up and right rows.
pub open spec fn get_up_right_s(s: Spline, offset: int) -> (Vector, Vector) {
    let pa = get_baked_s(s, offset - (FORWARD_VECTOR_SIZE as int));
    let pb = get_baked_s(s, offset + (FORWARD_VECTOR_SIZE as int));
    let d = Vector { x: (pb.x - pa.x) as i64, y: (pb.y - pa.y) as i64, z: (pb.z - pa.z) as i64 };
    let t0 = normalized_s(d);
    let target = if in_bounds(t0, SCALE as int) {
        t0
    } else {
        Vector { x: 0 as i64, y: 0 as i64, z: SCALE }
    };
    let y_axis = Vector { x: 0 as i64, y: SCALE, z: 0 as i64 };
    let x_axis = Vector { x: SCALE, y: 0 as i64, z: 0 as i64 };
    let look = looking_at_s(target, y_axis);
    let tiltm = mtx_axis_angle_s(target, get_tilt_s(s, offset));
    (
        vec_mul_mtx_s(vec_mul_mtx_s(y_axis, look), tiltm),
        vec_mul_mtx_s(vec_mul_mtx_s(x_axis, look), tiltm),
    )
}

impl Spline {
    /// The local track frame (up and right vectors) at an offset.
    pub fn get_up_right(&self, offset: i64) -> (r: (Vector, Vector))
        requires
            spline_wf(*self),
            abs_i(offset as int) <= 2 * (LEN_MAX as int),
        ensures
            r == get_up_right_s(*self, offset as int),
            in_bounds(r.0, UPR_MAX as int),
            in_bounds(r.1, UPR_MAX as int),
    {
        let pa = self.get_baked(offset - FORWARD_VECTOR_SIZE);
        let pb = self.get_baked(offset + FORWARD_VECTOR_SIZE);
        let d = pb.sub(pa);
        let t0 = d.normalized();
        let target = if -SCALE <= t0.x && t0.x <= SCALE && -SCALE <= t0.y && t0.y <= SCALE
            && -SCALE <= t0.z && t0.z <= SCALE {
            t0
        } else {
            Vector::z_axis()
        };
        let look = Mtx::looking_at(target, Vector::y_axis());
        let tilt_angle = self.get_tilt(offset);
        let tiltm = Mtx::axis_angle(&target, tilt_angle);
        let u0 = look.mul_vec(&Vector::y_axis());
        let r0 = look.mul_vec(&Vector::x_axis());
        proof {
            let ya = Vector { x: 0 as i64, y: SCALE, z: 0 as i64 };
            let xa = Vector { x: SCALE, y: 0 as i64, z: 0 as i64 };
            lemma_vec_mul_mtx_bound(ya, look, SCALE as int, 8 * (SCALE as int));
            lemma_vec_mul_mtx_bound(xa, look, SCALE as int, 8 * (SCALE as int));
        }
        let up = tiltm.mul_vec(&u0);
        let right = tiltm.mul_vec(&r0);
        proof {
            lemma_vec_mul_mtx_bound(u0, tiltm, 24 * (SCALE as int), 3 * (SCALE as int));
            lemma_vec_mul_mtx_bound(r0, tiltm, 24 * (SCALE as int), 3 * (SCALE as int));
        }
        (up, right)
    }
}


/// The local track frame and signed position of a query point relative
/// to the nearest spline segment.
pub struct CollisionState {
    /// The track's up vector at the closest offset.
    pub up: Vector,
    /// The track's right vector at the closest offset.
    pub right: Vector,
    /// Height of the point above (or slightly below) the track.
    pub height: i64,
    /// Signed lateral offset on the track.
    pub horizontal: i64,
    /// The closest arc-length offset.
    pub offset: i64,
}

/// The fields a returned collision state carries for a closest offset
/// `o`: the frame at `o`, and the point's coordinates in it.
pub open spec fn collision_fields(s: Spline, pos: Vector, o: int, c: CollisionState) -> bool {
    let point = get_baked_s(s, o);
    let fr = get_up_right_s(s, o);
    let d = Vector {
        x: (pos.x - point.x) as i64,
        y: (pos.y - point.y) as i64,
        z: (pos.z - point.z) as i64,
    };
    &&& c.up == fr.0
    &&& c.right == fr.1
    &&& c.horizontal as int == crate::linalg::dot_s(fr.1, d)
    &&& c.height as int == crate::linalg::dot_s(fr.0, d)
    &&& c.offset as int == o
    &&& abs_i(c.horizontal as int) <= BOUNDS_RADIUS as int
    &&& -(crate::vehicle::COLLISION_DEPTH as int) <= c.height
        <= crate::vehicle::MAX_GRAVITY_HEIGHT as int
    &&& in_bounds(c.up, UPR_MAX as int)
    &&& in_bounds(c.right, UPR_MAX as int)
    &&& 0 <= c.offset <= 2 * (LEN_MAX as int)
}

/// An arc-length offset the octree's closest-segment search can return
/// for a point: the projection offset of some segment box containing the
/// point, with minimal squared distance among all containing boxes.
pub open spec fn is_closest_offset(
    s: Spline,
    oct: crate::octree::Octree,
    pos: Vector,
    off: int,
) -> bool {
    exists|k: int|
        0 <= k < oct.segment_log().len() && crate::octree::box_contains(
            (#[trigger] oct.segment_log()[k]).min,
            oct.segment_log()[k].max,
            pos,
        ) && off == gods_s(s, pos, oct.segment_log()[k].index as int).0 && (forall|j: int|
            0 <= j < oct.segment_log().len() && crate::octree::box_contains(
                (#[trigger] oct.segment_log()[j]).min,
                oct.segment_log()[j].max,
                pos,
            ) ==> gods_s(s, pos, oct.segment_log()[j].index as int).1 >= gods_s(
                s,
                pos,
                oct.segment_log()[k].index as int,
            ).1)
}

/// Whether the point sits inside the track tube at an offset: lateral
/// position within the bounds radius and height within the collision
/// window, measured in the frame at that offset.
pub open spec fn tube_checks_pass(s: Spline, pos: Vector, off: int) -> bool {
    let point = get_baked_s(s, off);
    let fr = get_up_right_s(s, off);
    let d = Vector {
        x: (pos.x - point.x) as i64,
        y: (pos.y - point.y) as i64,
        z: (pos.z - point.z) as i64,
    };
    &&& abs_i(crate::linalg::dot_s(fr.1, d)) <= BOUNDS_RADIUS as int
    &&& -(crate::vehicle::COLLISION_DEPTH as int) <= crate::linalg::dot_s(fr.0, d)
        <= crate::vehicle::MAX_GRAVITY_HEIGHT as int
}

/// A point has some containing segment box, and every closest offset the
/// search may choose passes the tube checks: success is then owed.
pub open spec fn collision_owed(s: Spline, oct: crate::octree::Octree, pos: Vector) -> bool {
    &&& exists|k: int|
        0 <= k < oct.segment_log().len() && crate::octree::box_contains(
            (#[trigger] oct.segment_log()[k]).min,
            oct.segment_log()[k].max,
            pos,
        )
    &&& forall|off: int| is_closest_offset(s, oct, pos, off) ==> tube_checks_pass(s, pos, off)
}

/// What a collision query may return for a point: on `Some`, the exact
/// frame and coordinates at a closest offset; on `None`, either no
/// segment box contains the point, or some closest offset fails the
/// tube checks.
pub open spec fn collision_result_valid(
    s: Spline,
    oct: crate::octree::Octree,
    pos: Vector,
    col: Option<CollisionState>,
) -> bool {
    match col {
        Some(c) => collision_fields(s, pos, c.offset as int, c) && is_closest_offset(
            s,
            oct,
            pos,
            c.offset as int,
        ),
        None => (forall|k: int|
            0 <= k < oct.segment_log().len() ==> !crate::octree::box_contains(
                (#[trigger] oct.segment_log()[k]).min,
                oct.segment_log()[k].max,
                pos,
            )) || (exists|off: int|
            is_closest_offset(s, oct, pos, off) && !tube_checks_pass(s, pos, off)),
    }
}

impl Spline {
    /// Queries the octree for the closest track segment and projects the
    /// point onto its local frame. `None` exactly when the octree finds
    /// no candidate segment (in particular, whenever the point is
    /// outside every segment's box) or the lateral offset or height at
    /// the closest offset falls outside the track tube; when some box
    /// contains the point and every closest offset passes the tube
    /// checks, success is owed. The returned state carries the exact
    /// frame and signed coordinates at the closest offset.
    pub fn get_collision(&self, octree: &crate::octree::Octree, pos: Vector) -> (r: Option<
        CollisionState,
    >)
        requires
            spline_wf(*self),
            octree.wf(),
            crate::octree::segments_match(*octree, *self),
            in_bounds(pos, QUERY_MAX as int),
        ensures
            collision_result_valid(*self, *octree, pos, r),
            collision_owed(*self, *octree, pos) ==> r is Some,
            (forall|k: int|
                0 <= k < octree.segment_log().len() ==> !crate::octree::box_contains(
                    (#[trigger] octree.segment_log()[k]).min,
                    octree.segment_log()[k].max,
                    pos,
                )) ==> r is None,
            r is Some ==> collision_fields(*self, pos, r->Some_0.offset as int, r->Some_0),
    {
        let offset = match octree.find_closest_offset(self, pos) {
            Some(o) => o,
            None => {
                return None;
            },
        };
        proof {
            assert(is_closest_offset(*self, *octree, pos, offset as int));
        }
        let point = self.get_baked(offset);
        let fr = self.get_up_right(offset);
        let up = fr.0;
        let right = fr.1;
        let d = pos.sub(point);
        proof {
            assert(in_bounds(d, 2 * (QUERY_MAX as int)));
        }
        let horizontal = right.dot(&d);
        let radius = crate::math::abs_i64(horizontal);
        if radius > BOUNDS_RADIUS {
            proof {
                assert(!tube_checks_pass(*self, pos, offset as int));
            }
            return None;
        }
        let height = up.dot(&d);
        if -crate::vehicle::COLLISION_DEPTH <= height && height
            <= crate::vehicle::MAX_GRAVITY_HEIGHT {
            proof {
                assert(tube_checks_pass(*self, pos, offset as int));
            }
            Some(CollisionState { up, right, height, horizontal, offset })
        } else {
            proof {
                assert(!tube_checks_pass(*self, pos, offset as int));
            }
            None
        }
    }
}


/// The baked polyline's law: for every well-formed spline, offsets
/// ascend strictly from zero, each step is exactly the chord distance
/// between the stored points, and the total length is the sum of those
/// chords plus the closing chord back to the first point.
pub proof fn lemma_baked_sorted_and_length(s: Spline)
    requires
        spline_wf(s),
    ensures
        s.baked@[0].offset == 0,
        forall|i: int, j: int|
            0 <= i < j < s.baked@.len() ==> (#[trigger] s.baked@[i]).offset < (
            #[trigger] s.baked@[j]).offset,
        forall|i: int|
            0 <= i < s.baked@.len() - 1 ==> (#[trigger] s.baked@[i + 1].offset) == s.baked@[
                i
            ].offset + dist_s(s.baked@[i].point, s.baked@[i + 1].point),
        s.length == s.baked@[s.baked@.len() - 1].offset + dist_s(
            s.baked@[s.baked@.len() - 1].point,
            s.baked@[0].point,
        ),
{
    assert forall|i: int, j: int| 0 <= i < j < s.baked@.len() implies (
    #[trigger] s.baked@[i]).offset < (#[trigger] s.baked@[j]).offset by {
        lemma_offsets_ascend(s.baked@, s.length as int, i, j);
    }
}


/// The collision-result characterization reads only the octree's segment
/// log: trees with equal segment logs validate the same results.
pub proof fn lemma_collision_valid_segments_only(
    s: Spline,
    a: crate::octree::Octree,
    b: crate::octree::Octree,
    pos: Vector,
    col: Option<CollisionState>,
)
    requires
        a.segment_log() == b.segment_log(),
        collision_result_valid(s, a, pos, col),
    ensures
        collision_result_valid(s, b, pos, col),
        collision_owed(s, b, pos) ==> collision_owed(s, a, pos),
{
    match col {
        Some(c) => {
            assert(is_closest_offset(s, a, pos, c.offset as int));
            assert(is_closest_offset(s, b, pos, c.offset as int));
        },
        None => {
            if exists|off: int| is_closest_offset(s, a, pos, off) && !tube_checks_pass(s, pos, off) {
                let off = choose|off: int|
                    is_closest_offset(s, a, pos, off) && !tube_checks_pass(s, pos, off);
                assert(is_closest_offset(s, b, pos, off));
            }
        },
    }
    if collision_owed(s, b, pos) {
        assert forall|off: int| is_closest_offset(s, a, pos, off) implies tube_checks_pass(
            s,
            pos,
            off,
        ) by {
            assert(is_closest_offset(s, b, pos, off));
        }
    }
}

} // verus!
