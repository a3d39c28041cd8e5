//! Cubic Bezier segments.
//!
//! A segment stores its four control points, the power-basis coefficients of
//! its position polynomial, a 33-entry cumulative arc-length table
//! (trapezoidal rule over the fixed parameter grid), and an axis-aligned
//! bounding box that contains every grid sample of the curve. All of that is
//! computed once at construction and never changes.

use vstd::prelude::*;
use crate::fx::{
    FX_ONE, tdiv, fx_abs_of, fx_mul_of, fx_clamp_of, fx_mul, fx_clamp, isqrt_u128,
    lemma_fx_mul_unit,
};
use crate::vec2::{Vec2, coords_bounded, dist_sq_of};
use crate::root::{
    FX_VAL_MAX, Objective, FunctionObservation, dom_on, grid_of, min_obs_rel,
    find_min_differentiable,
};

verus! {

/// Largest control-point coordinate magnitude accepted (about 512 units).
pub const FX_CTRL_MAX: i64 = 2199023255552;

/// Largest query-point coordinate magnitude accepted (about 4096 units).
pub const FX_QUERY_MAX: i64 = 17592186044416;

/// Largest value an arc-length table entry can take.
pub const FX_ARC_MAX: i64 = 1125899906842624;

/// The parameter-space width of one grid cell: `FX_ONE / 32`.
pub const FX_T_STEP: i64 = 134217728;

/// The tolerance handed to the nearest-point minimization (0.01).
pub const FX_CP_EPS: i64 = 42949673;

/// The rounded Horner evaluation of a cubic in the curve parameter.
pub open spec fn poly_at(a3: int, a2: int, a1: int, a0: int, t: int) -> int {
    fx_mul_of(fx_mul_of(fx_mul_of(a3, t) + a2, t) + a1, t) + a0
}

/// Whether all four cubic coefficients are bounded by `m` in magnitude.
pub open spec fn poly_bounded(a3: int, a2: int, a1: int, a0: int, m: int) -> bool {
    fx_abs_of(a3) <= m && fx_abs_of(a2) <= m && fx_abs_of(a1) <= m && fx_abs_of(a0) <= m
}

/// On `[0, FX_ONE]`, the Horner value is bounded by the sum of the
/// coefficient magnitudes.
pub proof fn lemma_poly_bound(a3: int, a2: int, a1: int, a0: int, t: int)
    requires
        0 <= t <= FX_ONE as int,
    ensures
        fx_abs_of(poly_at(a3, a2, a1, a0, t))
            <= fx_abs_of(a3) + fx_abs_of(a2) + fx_abs_of(a1) + fx_abs_of(a0),
{
    lemma_fx_mul_unit(a3, t, fx_abs_of(a3));
    lemma_fx_mul_unit(fx_mul_of(a3, t) + a2, t, fx_abs_of(a3) + fx_abs_of(a2));
    lemma_fx_mul_unit(fx_mul_of(fx_mul_of(a3, t) + a2, t) + a1, t,
        fx_abs_of(a3) + fx_abs_of(a2) + fx_abs_of(a1));
}

/// Evaluate a cubic by the rounded Horner form.
fn poly_eval(a3: i64, a2: i64, a1: i64, a0: i64, t: i64) -> (r: i64)
    requires
        poly_bounded(a3 as int, a2 as int, a1 as int, a0 as int, 140737488355328int),
        0 <= t <= FX_ONE,
    ensures
        r as int == poly_at(a3 as int, a2 as int, a1 as int, a0 as int, t as int),
        fx_abs_of(r as int) <= fx_abs_of(a3 as int) + fx_abs_of(a2 as int)
            + fx_abs_of(a1 as int) + fx_abs_of(a0 as int),
{
    proof {
        lemma_fx_mul_unit(a3 as int, t as int, fx_abs_of(a3 as int));
    }
    let h1: i64 = fx_mul(a3, t);
    proof {
        lemma_fx_mul_unit(h1 as int + a2 as int, t as int,
            fx_abs_of(a3 as int) + fx_abs_of(a2 as int));
    }
    let h2: i64 = fx_mul(h1 + a2, t);
    proof {
        lemma_fx_mul_unit(h2 as int + a1 as int, t as int,
            fx_abs_of(a3 as int) + fx_abs_of(a2 as int) + fx_abs_of(a1 as int));
    }
    let h3: i64 = fx_mul(h2 + a1, t);
    h3 + a0
}

/// An axis-aligned bounding box.
#[derive(Clone, Copy, Debug)]
pub struct BoundingBox {
    pub min_x: i64,
    pub max_x: i64,
    pub min_y: i64,
    pub max_y: i64,
}

/// Well-formedness of a box: ordered edges within the evaluation range.
pub open spec fn box_wf(b: BoundingBox) -> bool {
    &&& b.min_x <= b.max_x
    &&& b.min_y <= b.max_y
    &&& fx_abs_of(b.min_x as int) <= 70368744177664int
    &&& fx_abs_of(b.max_x as int) <= 70368744177664int
    &&& fx_abs_of(b.min_y as int) <= 70368744177664int
    &&& fx_abs_of(b.max_y as int) <= 70368744177664int
}

/// Whether a point lies in a box.
pub open spec fn box_contains(b: BoundingBox, q: Vec2) -> bool {
    b.min_x <= q.0 <= b.max_x && b.min_y <= q.1 <= b.max_y
}

/// Componentwise closeness implies squared-distance closeness.
pub proof fn lemma_dist_mono(p: Vec2, r: Vec2, q: Vec2)
    requires
        fx_abs_of(p.0 - r.0) <= fx_abs_of(p.0 - q.0),
        fx_abs_of(p.1 - r.1) <= fx_abs_of(p.1 - q.1),
    ensures
        dist_sq_of(p, r) <= dist_sq_of(p, q),
{
    let s = FX_ONE as int;
    assert((p.0 - r.0) * (p.0 - r.0) <= (p.0 - q.0) * (p.0 - q.0)) by (nonlinear_arith)
        requires
            fx_abs_of(p.0 - r.0) <= fx_abs_of(p.0 - q.0),
    ;
    assert((p.1 - r.1) * (p.1 - r.1) <= (p.1 - q.1) * (p.1 - q.1)) by (nonlinear_arith)
        requires
            fx_abs_of(p.1 - r.1) <= fx_abs_of(p.1 - q.1),
    ;
    assert((p.0 - r.0) * (p.0 - r.0) >= 0) by (nonlinear_arith);
    assert((p.1 - r.1) * (p.1 - r.1) >= 0) by (nonlinear_arith);
    let nr = (p.0 - r.0) * (p.0 - r.0) + (p.1 - r.1) * (p.1 - r.1);
    let nq = (p.0 - q.0) * (p.0 - q.0) + (p.1 - q.1) * (p.1 - q.1);
    assert(tdiv(nr, s) <= tdiv(nq, s)) by (nonlinear_arith)
        requires
            0 <= nr <= nq,
            s > 0,
    ;
}

/// A squared distance is never negative.
pub proof fn lemma_dist_nonneg(p: Vec2, q: Vec2)
    ensures
        dist_sq_of(p, q) >= 0,
{
    assert((p.0 - q.0) * (p.0 - q.0) >= 0) by (nonlinear_arith);
    assert((p.1 - q.1) * (p.1 - q.1) >= 0) by (nonlinear_arith);
    let n = (p.0 - q.0) * (p.0 - q.0) + (p.1 - q.1) * (p.1 - q.1);
    assert(tdiv(n, FX_ONE as int) >= 0) by (nonlinear_arith)
        requires
            n >= 0,
    ;
}

impl BoundingBox {
    /// The closest point of the box to a point: the componentwise clamp.
    /// No point of the box is closer.
    pub fn closest_point(&self, point: Vec2) -> (r: Vec2)
        requires
            box_wf(*self),
            coords_bounded(point, FX_QUERY_MAX as int),
        ensures
            r.0 == fx_clamp_of(point.0 as int, self.min_x as int, self.max_x as int),
            r.1 == fx_clamp_of(point.1 as int, self.min_y as int, self.max_y as int),
            box_contains(*self, r),
            forall |q: Vec2| box_contains(*self, q)
                ==> dist_sq_of(point, r) <= #[trigger] dist_sq_of(point, q),
    {
        let rx: i64 = fx_clamp(point.0, self.min_x, self.max_x);
        let ry: i64 = fx_clamp(point.1, self.min_y, self.max_y);
        let r: Vec2 = Vec2(rx, ry);
        proof {
            assert forall |q: Vec2| box_contains(*self, q)
                implies dist_sq_of(point, r) <= #[trigger] dist_sq_of(point, q) by {
                lemma_dist_mono(point, r, q);
            }
        }
        r
    }

    /// The farthest point of the box from a point: the corner with the
    /// largest squared distance. No point of the box is farther.
    pub fn farthest_point(&self, point: Vec2) -> (r: Vec2)
        requires
            box_wf(*self),
            coords_bounded(point, FX_QUERY_MAX as int),
        ensures
            box_contains(*self, r),
            forall |q: Vec2| box_contains(*self, q)
                ==> #[trigger] dist_sq_of(point, q) <= dist_sq_of(point, r),
    {
        let cx: i64 = if point.0 - self.min_x >= self.max_x - point.0 {
            self.min_x
        } else {
            self.max_x
        };
        let cy: i64 = if point.1 - self.min_y >= self.max_y - point.1 {
            self.min_y
        } else {
            self.max_y
        };
        let r: Vec2 = Vec2(cx, cy);
        proof {
            assert forall |q: Vec2| box_contains(*self, q)
                implies #[trigger] dist_sq_of(point, q) <= dist_sq_of(point, r) by {
                lemma_dist_mono(point, q, r);
            }
        }
        r
    }
}

/// A single spline point with the tangent velocity the spline passes it at.
#[derive(Clone, Copy, Debug)]
pub struct BezierControl {
    pub point: Vec2,
    pub velocity: Vec2,
}

/// A parameter on the curve with the squared distance observed there.
#[derive(Clone, Copy, Debug, PartialEq, Eq, Structural)]
pub struct ClosestPointOutput {
    pub parameter: i64,
    pub distance_sq: i64,
}

/// A cubic Bezier segment with its cached derived data.
pub struct CubicBezier {
    pub start: Vec2,
    pub p1: Vec2,
    pub p2: Vec2,
    pub end: Vec2,
    pub c1: Vec2,
    pub c2: Vec2,
    pub c3: Vec2,
    pub cum: Vec<i64>,
    pub bounding_box: BoundingBox,
}

/// The position on a segment, by the exact rounded Horner form.
pub open spec fn bez_at(b: CubicBezier, t: int) -> Vec2 {
    Vec2(
        poly_at(b.c3.0 as int, b.c2.0 as int, b.c1.0 as int, b.start.0 as int, t) as i64,
        poly_at(b.c3.1 as int, b.c2.1 as int, b.c1.1 as int, b.start.1 as int, t) as i64,
    )
}

/// The velocity on a segment.
pub open spec fn vel_at(b: CubicBezier, t: int) -> Vec2 {
    Vec2(
        poly_at(0, 3 * b.c3.0 as int, 2 * b.c2.0 as int, b.c1.0 as int, t) as i64,
        poly_at(0, 3 * b.c3.1 as int, 2 * b.c2.1 as int, b.c1.1 as int, t) as i64,
    )
}

/// The `i`-th fixed grid parameter: `i * FX_ONE / 32`.
pub open spec fn grid_t(i: int) -> int {
    i * FX_T_STEP as int
}

/// Well-formedness of a segment: bounded control points, coefficients that
/// are exactly the power-basis combination of the control points, a
/// monotone arc table starting at zero, and a bounding box containing every
/// grid sample of the curve.
pub open spec fn bez_wf(b: CubicBezier) -> bool {
    &&& coords_bounded(b.start, FX_CTRL_MAX as int)
    &&& coords_bounded(b.p1, FX_CTRL_MAX as int)
    &&& coords_bounded(b.p2, FX_CTRL_MAX as int)
    &&& coords_bounded(b.end, FX_CTRL_MAX as int)
    &&& b.c1.0 == 3 * (b.p1.0 - b.start.0) && b.c1.1 == 3 * (b.p1.1 - b.start.1)
    &&& b.c2.0 == 3 * b.start.0 - 6 * b.p1.0 + 3 * b.p2.0
        && b.c2.1 == 3 * b.start.1 - 6 * b.p1.1 + 3 * b.p2.1
    &&& b.c3.0 == -b.start.0 + 3 * b.p1.0 - 3 * b.p2.0 + b.end.0
        && b.c3.1 == -b.start.1 + 3 * b.p1.1 - 3 * b.p2.1 + b.end.1
    &&& b.cum@.len() == 33
    &&& b.cum@[0] == 0
    &&& forall |i: int| 0 <= i < 32 ==> #[trigger] b.cum@[i] <= b.cum@[i + 1]
    &&& forall |i: int| 0 <= i <= 32 ==> 0 <= #[trigger] b.cum@[i] <= FX_ARC_MAX
    &&& box_wf(b.bounding_box)
    &&& forall |i: int| 0 <= i <= 32
        ==> box_contains(b.bounding_box, #[trigger] bez_at(b, grid_t(i)))
}

/// The arc length from the segment start to parameter `t`: the cumulative
/// table entry below `t`, plus a linear share of the next table step.
pub open spec fn arc_at(b: CubicBezier, t: int) -> int {
    let u = t * 32;
    let idx = tdiv(u, FX_ONE as int);
    if idx >= 32 {
        b.cum@[32] as int
    } else {
        b.cum@[idx] + fx_mul_of(b.cum@[idx + 1] - b.cum@[idx], u - idx * FX_ONE as int)
    }
}

/// Entries of the arc table are ordered.
proof fn lemma_cum_mono(b: CubicBezier, i: int, j: int)
    requires
        bez_wf(b),
        0 <= i <= j <= 32,
    ensures
        b.cum@[i] <= b.cum@[j],
    decreases j - i,
{
    if i < j {
        lemma_cum_mono(b, i + 1, j);
        assert(b.cum@[i] <= b.cum@[i + 1]);
    }
}

/// The arc length is between zero and the cached total, and is a
/// non-decreasing function of the parameter.
pub proof fn lemma_arc_at_monotone(b: CubicBezier, t1: int, t2: int)
    requires
        bez_wf(b),
        0 <= t1 <= t2 <= FX_ONE as int,
    ensures
        0 <= arc_at(b, t1) <= arc_at(b, t2) <= b.cum@[32],
{
    lemma_arc_piece(b, t1);
    lemma_arc_piece(b, t2);
    let u1 = t1 * 32;
    let u2 = t2 * 32;
    let i1 = tdiv(u1, FX_ONE as int);
    let i2 = tdiv(u2, FX_ONE as int);
    assert(0 <= u1 <= u2 <= 32 * FX_ONE as int) by (nonlinear_arith)
        requires
            0 <= t1 <= t2 <= FX_ONE as int,
            u1 == t1 * 32,
            u2 == t2 * 32,
    ;
    assert(0 <= i1 <= i2 <= 32) by (nonlinear_arith)
        requires
            0 <= u1 <= u2 <= 32 * FX_ONE as int,
            i1 == tdiv(u1, FX_ONE as int),
            i2 == tdiv(u2, FX_ONE as int),
    ;
    if i1 == i2 {
        if i1 < 32 {
            let d = b.cum@[i1 + 1] - b.cum@[i1];
            assert(d >= 0);
            assert(fx_mul_of(d, u1 - i1 * FX_ONE as int) <= fx_mul_of(d, u2 - i1 * FX_ONE as int))
                by (nonlinear_arith)
                requires
                    d >= 0,
                    u1 <= u2,
                    u1 - i1 * FX_ONE as int >= 0,
                    u2 - i1 * FX_ONE as int >= 0,
            ;
        }
    } else {
        // The lower parameter's piece tops out at the next table entry,
        // which is at most the higher parameter's base entry.
        lemma_cum_mono(b, i1 + 1, i2);
        lemma_cum_mono(b, 0, i1);
    }
}

/// One interpolated arc value sits between its two table entries.
proof fn lemma_arc_piece(b: CubicBezier, t: int)
    requires
        bez_wf(b),
        0 <= t <= FX_ONE as int,
    ensures
        ({
            let u = t * 32;
            let idx = tdiv(u, FX_ONE as int);
            &&& 0 <= idx <= 32
            &&& idx < 32 ==> b.cum@[idx] <= arc_at(b, t) <= b.cum@[idx + 1]
            &&& idx >= 32 ==> arc_at(b, t) == b.cum@[32]
            &&& 0 <= arc_at(b, t) <= b.cum@[32]
        }),
{
    let s = FX_ONE as int;
    let u = t * 32;
    let idx = tdiv(u, s);
    assert(0 <= u <= 32 * s) by (nonlinear_arith)
        requires
            0 <= t <= s,
            u == t * 32,
    ;
    assert(0 <= idx <= 32 && idx * s <= u && (idx < 32 ==> u - idx * s < s)) by (nonlinear_arith)
        requires
            0 <= u <= 32 * s,
            idx == tdiv(u, s),
            s > 0,
    ;
    if idx < 32 {
        let d = b.cum@[idx + 1] - b.cum@[idx];
        let frac = u - idx * s;
        assert(d >= 0);
        assert(0 <= fx_mul_of(d, frac) <= d) by {
            lemma_fx_mul_unit(d, frac, d);
            assert(fx_mul_of(d, frac) >= 0) by (nonlinear_arith)
                requires
                    d >= 0,
                    frac >= 0,
            ;
        }
        lemma_cum_mono(b, 0, idx);
        lemma_cum_mono(b, idx + 1, 32);
    } else {
        lemma_cum_mono(b, 0, 32);
    }
}

impl CubicBezier {
    /// The position at a parameter in `[0, FX_ONE]`.
    pub fn get(&self, t: i64) -> (r: Vec2)
        requires
            bez_wf(*self),
            0 <= t <= FX_ONE,
        ensures
            r == bez_at(*self, t as int),
            coords_bounded(r, 70368744177664int),
    {
        proof {
            lemma_coef_bounds(*self);
            lemma_poly_bound(self.c3.0 as int, self.c2.0 as int, self.c1.0 as int,
                self.start.0 as int, t as int);
            lemma_poly_bound(self.c3.1 as int, self.c2.1 as int, self.c1.1 as int,
                self.start.1 as int, t as int);
        }
        let x: i64 = poly_eval(self.c3.0, self.c2.0, self.c1.0, self.start.0, t);
        let y: i64 = poly_eval(self.c3.1, self.c2.1, self.c1.1, self.start.1, t);
        Vec2(x, y)
    }

    /// The velocity at a parameter in `[0, FX_ONE]`.
    pub fn velocity(&self, t: i64) -> (r: Vec2)
        requires
            bez_wf(*self),
            0 <= t <= FX_ONE,
        ensures
            r == vel_at(*self, t as int),
            coords_bounded(r, 118747255799808int),
    {
        proof {
            lemma_coef_bounds(*self);
            lemma_poly_bound(0, 3 * self.c3.0 as int, 2 * self.c2.0 as int, self.c1.0 as int,
                t as int);
            lemma_poly_bound(0, 3 * self.c3.1 as int, 2 * self.c2.1 as int, self.c1.1 as int,
                t as int);
        }
        let x: i64 = poly_eval(0, 3 * self.c3.0, 2 * self.c2.0, self.c1.0, t);
        let y: i64 = poly_eval(0, 3 * self.c3.1, 2 * self.c2.1, self.c1.1, t);
        Vec2(x, y)
    }

    /// The unit tangent at a parameter. The velocity there must be at least
    /// half a unit long.
    pub fn tangent(&self, t: i64) -> (r: Vec2)
        requires
            bez_wf(*self),
            0 <= t <= FX_ONE,
            crate::vec2::norm_sq_raw(vel_at(*self, t as int)) >= 2147483648int * 2147483648int,
        ensures
            crate::vec2::normalized_rel(vel_at(*self, t as int), r),
            crate::vec2::unit_band(r),
            crate::vec2::coords_bounded(r, FX_ONE as int + 2),
    {
        let v: Vec2 = self.velocity(t);
        v.normalized()
    }

    /// The arc length from the segment start to `t`, by linear
    /// interpolation of the cached cumulative trapezoid table (velocity
    /// norms over the fixed 32-cell grid). At `t` equal to one this is
    /// exactly the cached full arc length; between grid multiples the value
    /// interpolates the two neighboring table entries, which keeps the arc
    /// length a monotone function of the parameter.
    pub fn arc_length(&self, t: i64) -> (r: i64)
        requires
            bez_wf(*self),
            0 <= t <= FX_ONE,
        ensures
            r as int == arc_at(*self, t as int),
            0 <= r <= self.cum@[32],
    {
        proof {
            lemma_arc_piece(*self, t as int);
        }
        let u: i64 = t * 32;
        let idx_u: u64 = (u as u64) / 4294967296u64;
        let idx: usize = idx_u as usize;
        proof {
            assert(idx_u as int == tdiv(u as int, FX_ONE as int));
        }
        if idx >= 32 {
            let r: i64 = *self.cum.get(32).unwrap();
            r
        } else {
            let base: i64 = *self.cum.get(idx).unwrap();
            let next: i64 = *self.cum.get(idx + 1).unwrap();
            let frac: i64 = u - (idx as i64) * FX_ONE;
            proof {
                lemma_fx_mul_unit(next as int - base as int, frac as int, FX_ARC_MAX as int);
            }
            let part: i64 = fx_mul(next - base, frac);
            base + part
        }
    }

    /// The cached full arc length of the segment.
    pub fn full_arc_length(&self) -> (r: i64)
        requires
            bez_wf(*self),
        ensures
            r == self.cum@[32],
            r >= 0,
    {
        proof {
            assert(b_index_ok(*self));
        }
        *self.cum.get(32).unwrap()
    }
}

/// Trivial helper fact used to index the table.
pub open spec fn b_index_ok(b: CubicBezier) -> bool {
    b.cum@.len() == 33
}

/// Multiplying by zero gives zero.
pub proof fn lemma_fx_mul_by_zero(a: int)
    by (nonlinear_arith)
    ensures
        fx_mul_of(a, 0) == 0,
{
}

/// Multiplying by the fixed-point one is the identity.
pub proof fn lemma_fx_mul_by_one(a: int)
    by (nonlinear_arith)
    ensures
        fx_mul_of(a, FX_ONE as int) == a,
{
}

/// The curve passes through its first and last control points.
pub proof fn lemma_bez_endpoints(b: CubicBezier)
    requires
        bez_wf(b),
    ensures
        bez_at(b, 0) == b.start,
        bez_at(b, FX_ONE as int) == b.end,
        grid_t(0) == 0,
        grid_t(32) == FX_ONE as int,
{
    lemma_fx_mul_by_zero(b.c3.0 as int);
    lemma_fx_mul_by_zero(b.c2.0 as int);
    lemma_fx_mul_by_zero(b.c1.0 as int);
    lemma_fx_mul_by_zero(b.c3.1 as int);
    lemma_fx_mul_by_zero(b.c2.1 as int);
    lemma_fx_mul_by_zero(b.c1.1 as int);
    assert(poly_at(b.c3.0 as int, b.c2.0 as int, b.c1.0 as int, b.start.0 as int, 0)
        == b.start.0 as int);
    assert(poly_at(b.c3.1 as int, b.c2.1 as int, b.c1.1 as int, b.start.1 as int, 0)
        == b.start.1 as int);
    let s = FX_ONE as int;
    lemma_fx_mul_by_one(b.c3.0 as int);
    lemma_fx_mul_by_one(b.c3.0 as int + b.c2.0 as int);
    lemma_fx_mul_by_one(b.c3.0 as int + b.c2.0 as int + b.c1.0 as int);
    lemma_fx_mul_by_one(b.c3.1 as int);
    lemma_fx_mul_by_one(b.c3.1 as int + b.c2.1 as int);
    lemma_fx_mul_by_one(b.c3.1 as int + b.c2.1 as int + b.c1.1 as int);
    assert(poly_at(b.c3.0 as int, b.c2.0 as int, b.c1.0 as int, b.start.0 as int, s)
        == b.end.0 as int);
    assert(poly_at(b.c3.1 as int, b.c2.1 as int, b.c1.1 as int, b.start.1 as int, s)
        == b.end.1 as int);
}

/// Coefficient-bound cap accepted by the axis objectives.
pub const FX_ACOEF_MAX: i64 = 79164837199872;

/// One coordinate of the position or velocity polynomial, optionally
/// negated: the objective the bounding box is built from.
pub struct AxisObjective {
    pub a3: i64,
    pub a2: i64,
    pub a1: i64,
    pub a0: i64,
    pub neg: bool,
}

impl Objective for AxisObjective {
    open spec fn dom(&self, x: int) -> bool {
        &&& 0 <= x <= FX_ONE as int
        &&& poly_bounded(self.a3 as int, self.a2 as int, self.a1 as int, self.a0 as int,
            FX_ACOEF_MAX as int)
    }

    open spec fn val(&self, x: int) -> int {
        if self.neg {
            -poly_at(self.a3 as int, self.a2 as int, self.a1 as int, self.a0 as int, x)
        } else {
            poly_at(self.a3 as int, self.a2 as int, self.a1 as int, self.a0 as int, x)
        }
    }

    fn eval(&self, x: i64) -> (r: i64)
    {
        proof {
            lemma_poly_bound(self.a3 as int, self.a2 as int, self.a1 as int, self.a0 as int,
                x as int);
        }
        let v: i64 = poly_eval(self.a3, self.a2, self.a1, self.a0, x);
        if self.neg {
            -v
        } else {
            v
        }
    }
}

/// The squared distance from a fixed point to the curve, as a function of
/// the parameter.
pub struct DistSqObjective {
    pub x3: i64,
    pub x2: i64,
    pub x1: i64,
    pub x0: i64,
    pub y3: i64,
    pub y2: i64,
    pub y1: i64,
    pub y0: i64,
    pub px: i64,
    pub py: i64,
}

/// Shared domain of the distance objectives: parameter in range, curve
/// coefficients and query point bounded.
pub open spec fn dist_dom(
    x3: int, x2: int, x1: int, x0: int, y3: int, y2: int, y1: int, y0: int,
    px: int, py: int, t: int,
) -> bool {
    &&& 0 <= t <= FX_ONE as int
    &&& fx_abs_of(x3) <= 17592186044416int && fx_abs_of(y3) <= 17592186044416int
    &&& fx_abs_of(x2) <= 26388279066624int && fx_abs_of(y2) <= 26388279066624int
    &&& fx_abs_of(x1) <= 13194139533312int && fx_abs_of(y1) <= 13194139533312int
    &&& fx_abs_of(x0) <= FX_CTRL_MAX as int && fx_abs_of(y0) <= FX_CTRL_MAX as int
    &&& fx_abs_of(px) <= FX_QUERY_MAX as int
    &&& fx_abs_of(py) <= FX_QUERY_MAX as int
}

impl Objective for DistSqObjective {
    open spec fn dom(&self, t: int) -> bool {
        dist_dom(self.x3 as int, self.x2 as int, self.x1 as int, self.x0 as int,
            self.y3 as int, self.y2 as int, self.y1 as int, self.y0 as int,
            self.px as int, self.py as int, t)
    }

    open spec fn val(&self, t: int) -> int {
        let qx = poly_at(self.x3 as int, self.x2 as int, self.x1 as int, self.x0 as int, t);
        let qy = poly_at(self.y3 as int, self.y2 as int, self.y1 as int, self.y0 as int, t);
        tdiv((self.px - qx) * (self.px - qx) + (self.py - qy) * (self.py - qy), FX_ONE as int)
    }

    fn eval(&self, t: i64) -> (r: i64)
    {
        proof {
            lemma_poly_bound(self.x3 as int, self.x2 as int, self.x1 as int, self.x0 as int,
                t as int);
            lemma_poly_bound(self.y3 as int, self.y2 as int, self.y1 as int, self.y0 as int,
                t as int);
        }
        let qx: i64 = poly_eval(self.x3, self.x2, self.x1, self.x0, t);
        let qy: i64 = poly_eval(self.y3, self.y2, self.y1, self.y0, t);
        let dx: i128 = self.px as i128 - qx as i128;
        let dy: i128 = self.py as i128 - qy as i128;
        proof {
            assert(0 <= dx * dx && dx * dx <= 5929000000000000000000000000int
                && 0 <= dy * dy && dy * dy <= 5929000000000000000000000000int)
                by (nonlinear_arith)
                requires
                    fx_abs_of(dx as int) <= 77000000000000int,
                    fx_abs_of(dy as int) <= 77000000000000int,
            ;
        }
        let n: i128 = dx * dx + dy * dy;
        let q: i128 = n / 4294967296i128;
        proof {
            assert(q as int == tdiv(n as int, FX_ONE as int));
            assert(0 <= q as int <= 2800000000000000000int) by (nonlinear_arith)
                requires
                    q as int == n as int / 4294967296int,
                    0 <= n as int <= 11858000000000000000000000000int,
            ;
        }
        q as i64
    }
}

/// The derivative of the squared distance (up to the positive factor two):
/// the dot product of the offset from the query point with the velocity.
pub struct DistDerivObjective {
    pub x3: i64,
    pub x2: i64,
    pub x1: i64,
    pub x0: i64,
    pub y3: i64,
    pub y2: i64,
    pub y1: i64,
    pub y0: i64,
    pub px: i64,
    pub py: i64,
}

impl Objective for DistDerivObjective {
    open spec fn dom(&self, t: int) -> bool {
        dist_dom(self.x3 as int, self.x2 as int, self.x1 as int, self.x0 as int,
            self.y3 as int, self.y2 as int, self.y1 as int, self.y0 as int,
            self.px as int, self.py as int, t)
    }

    open spec fn val(&self, t: int) -> int {
        let qx = poly_at(self.x3 as int, self.x2 as int, self.x1 as int, self.x0 as int, t);
        let qy = poly_at(self.y3 as int, self.y2 as int, self.y1 as int, self.y0 as int, t);
        let vx = poly_at(0, 3 * self.x3 as int, 2 * self.x2 as int, self.x1 as int, t);
        let vy = poly_at(0, 3 * self.y3 as int, 2 * self.y2 as int, self.y1 as int, t);
        tdiv((qx - self.px) * vx + (qy - self.py) * vy, FX_ONE as int)
    }

    fn eval(&self, t: i64) -> (r: i64)
    {
        proof {
            lemma_poly_bound(self.x3 as int, self.x2 as int, self.x1 as int, self.x0 as int,
                t as int);
            lemma_poly_bound(self.y3 as int, self.y2 as int, self.y1 as int, self.y0 as int,
                t as int);
            lemma_poly_bound(0, 3 * self.x3 as int, 2 * self.x2 as int, self.x1 as int, t as int);
            lemma_poly_bound(0, 3 * self.y3 as int, 2 * self.y2 as int, self.y1 as int, t as int);
        }
        let qx: i64 = poly_eval(self.x3, self.x2, self.x1, self.x0, t);
        let qy: i64 = poly_eval(self.y3, self.y2, self.y1, self.y0, t);
        let vx: i64 = poly_eval(0, 3 * self.x3, 2 * self.x2, self.x1, t);
        let vy: i64 = poly_eval(0, 3 * self.y3, 2 * self.y2, self.y1, t);
        proof {
            assert(fx_abs_of((qx as int - self.px as int) * vx as int)
                <= 9163000000000000000000000000int
                && fx_abs_of((qy as int - self.py as int) * vy as int)
                <= 9163000000000000000000000000int)
                by (nonlinear_arith)
                requires
                    fx_abs_of(qx as int - self.px as int) <= 77000000000000int,
                    fx_abs_of(qy as int - self.py as int) <= 77000000000000int,
                    fx_abs_of(vx as int) <= 119000000000000int,
                    fx_abs_of(vy as int) <= 119000000000000int,
            ;
        }
        let ax: i128 = (qx as i128 - self.px as i128) * vx as i128;
        let ay: i128 = (qy as i128 - self.py as i128) * vy as i128;
        let n: i128 = ax + ay;
        let q: i128 = if n >= 0 {
            n / 4294967296i128
        } else {
            -((-n) / 4294967296i128)
        };
        proof {
            assert(q as int == tdiv(n as int, FX_ONE as int));
            assert(fx_abs_of(q as int) <= 4300000000000000000int) by (nonlinear_arith)
                requires
                    q as int == tdiv(n as int, 4294967296int),
                    fx_abs_of(n as int) <= 18326000000000000000000000000int,
            ;
        }
        q as i64
    }
}

/// Bound on a squared-distance objective value.
proof fn lemma_dist_val_bound(px: int, qx: int, py: int, qy: int)
    requires
        fx_abs_of(px - qx) <= 77000000000000int,
        fx_abs_of(py - qy) <= 77000000000000int,
    ensures
        0 <= tdiv((px - qx) * (px - qx) + (py - qy) * (py - qy), FX_ONE as int)
            <= FX_VAL_MAX as int,
{
    let n = (px - qx) * (px - qx) + (py - qy) * (py - qy);
    assert(0 <= n <= 11858000000000000000000000000int) by (nonlinear_arith)
        requires
            n == (px - qx) * (px - qx) + (py - qy) * (py - qy),
            fx_abs_of(px - qx) <= 77000000000000int,
            fx_abs_of(py - qy) <= 77000000000000int,
    ;
    assert(0 <= tdiv(n, FX_ONE as int) <= FX_VAL_MAX as int) by (nonlinear_arith)
        requires
            0 <= n <= 11858000000000000000000000000int,
            FX_ONE as int == 4294967296int,
            FX_VAL_MAX as int == 4611686018427387904int,
    ;
}

/// Bound on a distance-derivative objective value.
proof fn lemma_deriv_val_bound(dxv: int, vx: int, dyv: int, vy: int)
    requires
        fx_abs_of(dxv) <= 77000000000000int,
        fx_abs_of(dyv) <= 77000000000000int,
        fx_abs_of(vx) <= 119000000000000int,
        fx_abs_of(vy) <= 119000000000000int,
    ensures
        fx_abs_of(tdiv(dxv * vx + dyv * vy, FX_ONE as int)) <= FX_VAL_MAX as int,
{
    let n = dxv * vx + dyv * vy;
    assert(fx_abs_of(n) <= 18326000000000000000000000000int) by (nonlinear_arith)
        requires
            n == dxv * vx + dyv * vy,
            fx_abs_of(dxv) <= 77000000000000int,
            fx_abs_of(dyv) <= 77000000000000int,
            fx_abs_of(vx) <= 119000000000000int,
            fx_abs_of(vy) <= 119000000000000int,
    ;
    assert(fx_abs_of(tdiv(n, FX_ONE as int)) <= FX_VAL_MAX as int) by (nonlinear_arith)
        requires
            fx_abs_of(n) <= 18326000000000000000000000000int,
            FX_ONE as int == 4294967296int,
            FX_VAL_MAX as int == 4611686018427387904int,
    ;
}

/// The squared-distance objective the nearest-point search minimizes.
pub open spec fn dist_obj_of(b: CubicBezier, p: Vec2) -> DistSqObjective {
    DistSqObjective {
        x3: b.c3.0,
        x2: b.c2.0,
        x1: b.c1.0,
        x0: b.start.0,
        y3: b.c3.1,
        y2: b.c2.1,
        y1: b.c1.1,
        y0: b.start.1,
        px: p.0,
        py: p.1,
    }
}

/// Its derivative objective.
pub open spec fn dist_deriv_of(b: CubicBezier, p: Vec2) -> DistDerivObjective {
    DistDerivObjective {
        x3: b.c3.0,
        x2: b.c2.0,
        x1: b.c1.0,
        x0: b.start.0,
        y3: b.c3.1,
        y2: b.c2.1,
        y1: b.c1.1,
        y0: b.start.1,
        px: p.0,
        py: p.1,
    }
}

impl CubicBezier {
    /// The nearest point of the segment to a query point.
    ///
    /// Minimizes the squared distance over the parameter with the
    /// grid-seeded search; the returned squared distance is achieved at the
    /// returned parameter, is nonnegative, and is at most the squared
    /// distance to any of the 33 grid samples — in particular to either
    /// endpoint of the segment.
    #[verifier::rlimit(100)]
    pub fn closest_point(&self, point: Vec2) -> (r: ClosestPointOutput)
        requires
            bez_wf(*self),
            coords_bounded(point, FX_QUERY_MAX as int),
        ensures
            0 <= r.parameter <= FX_ONE,
            r.distance_sq == dist_sq_of(point, bez_at(*self, r.parameter as int)),
            r.distance_sq >= 0,
            forall |i: int| 0 <= i <= 32
                ==> r.distance_sq <= dist_sq_of(point, #[trigger] bez_at(*self, grid_t(i))),
            r.distance_sq <= dist_sq_of(point, self.start),
            r.distance_sq <= dist_sq_of(point, self.end),
            min_obs_rel(dist_obj_of(*self, point), dist_deriv_of(*self, point), 0,
                FX_ONE as int, FX_CP_EPS as int, r.parameter as int, r.distance_sq as int),
    {
        let f = DistSqObjective {
            x3: self.c3.0, x2: self.c2.0, x1: self.c1.0, x0: self.start.0,
            y3: self.c3.1, y2: self.c2.1, y1: self.c1.1, y0: self.start.1,
            px: point.0, py: point.1,
        };
        let fp = DistDerivObjective {
            x3: self.c3.0, x2: self.c2.0, x1: self.c1.0, x0: self.start.0,
            y3: self.c3.1, y2: self.c2.1, y1: self.c1.1, y0: self.start.1,
            px: point.0, py: point.1,
        };
        proof {
            lemma_coef_bounds(*self);
            lemma_dist_obj_dom(f);
            lemma_deriv_obj_dom(fp);
        }
        let obs: FunctionObservation = find_min_differentiable(&f, &fp, 0, FX_ONE, FX_CP_EPS);
        proof {
            lemma_val_is_dist(*self, point, f, obs.x as int);
            assert forall |i: int| 0 <= i <= 32
                implies obs.value <= dist_sq_of(point, #[trigger] bez_at(*self, grid_t(i))) by {
                assert(tdiv(FX_ONE as int, 32) == FX_T_STEP as int);
                assert(grid_of(0, FX_ONE as int, i) == grid_t(i));
                lemma_val_is_dist(*self, point, f, grid_t(i));
            }
            lemma_bez_endpoints(*self);
            lemma_dist_nonneg(point, bez_at(*self, obs.x as int));
            assert(obs.value <= dist_sq_of(point, bez_at(*self, grid_t(0))));
            assert(obs.value <= dist_sq_of(point, bez_at(*self, grid_t(32))));
            assert(f == dist_obj_of(*self, point));
            assert(fp == dist_deriv_of(*self, point));
        }
        ClosestPointOutput { parameter: obs.x, distance_sq: obs.value }
    }
}

/// The squared-distance objective is everywhere defined and bounded on the
/// parameter interval.
proof fn lemma_dist_obj_dom(f: DistSqObjective)
    requires
        forall |t: int| 0 <= t <= FX_ONE as int ==> #[trigger] f.dom(t),
    ensures
        dom_on(f, 0, FX_ONE as int),
{
    assert forall |t: int| 0 <= t <= FX_ONE as int
        implies #[trigger] f.dom(t) && fx_abs_of(f.val(t)) <= FX_VAL_MAX as int by {
        assert(f.dom(t));
        lemma_poly_bound(f.x3 as int, f.x2 as int, f.x1 as int, f.x0 as int, t);
        lemma_poly_bound(f.y3 as int, f.y2 as int, f.y1 as int, f.y0 as int, t);
        lemma_dist_val_bound(f.px as int,
            poly_at(f.x3 as int, f.x2 as int, f.x1 as int, f.x0 as int, t),
            f.py as int,
            poly_at(f.y3 as int, f.y2 as int, f.y1 as int, f.y0 as int, t));
    }
}

/// The derivative objective is everywhere defined and bounded on the
/// parameter interval.
proof fn lemma_deriv_obj_dom(fp: DistDerivObjective)
    requires
        forall |t: int| 0 <= t <= FX_ONE as int ==> #[trigger] fp.dom(t),
    ensures
        dom_on(fp, 0, FX_ONE as int),
{
    assert forall |t: int| 0 <= t <= FX_ONE as int
        implies #[trigger] fp.dom(t) && fx_abs_of(fp.val(t)) <= FX_VAL_MAX as int by {
        assert(fp.dom(t));
        lemma_poly_bound(fp.x3 as int, fp.x2 as int, fp.x1 as int, fp.x0 as int, t);
        lemma_poly_bound(fp.y3 as int, fp.y2 as int, fp.y1 as int, fp.y0 as int, t);
        lemma_poly_bound(0, 3 * fp.x3 as int, 2 * fp.x2 as int, fp.x1 as int, t);
        lemma_poly_bound(0, 3 * fp.y3 as int, 2 * fp.y2 as int, fp.y1 as int, t);
        lemma_deriv_val_bound(
            poly_at(fp.x3 as int, fp.x2 as int, fp.x1 as int, fp.x0 as int, t)
                - fp.px as int,
            poly_at(0, 3 * fp.x3 as int, 2 * fp.x2 as int, fp.x1 as int, t),
            poly_at(fp.y3 as int, fp.y2 as int, fp.y1 as int, fp.y0 as int, t)
                - fp.py as int,
            poly_at(0, 3 * fp.y3 as int, 2 * fp.y2 as int, fp.y1 as int, t));
    }
}

/// An exact integer square root of the raw squared velocity norm at `t`.
pub open spec fn vel_norm_bracket(c3: Vec2, c2: Vec2, c1: Vec2, t: int, n: int) -> bool {
    let vx = poly_at(0, 3 * c3.0 as int, 2 * c2.0 as int, c1.0 as int, t);
    let vy = poly_at(0, 3 * c3.1 as int, 2 * c2.1 as int, c1.1 as int, t);
    0 <= n && n * n <= vx * vx + vy * vy < (n + 1) * (n + 1)
}

/// One trapezoid step of the arc table: the increment is the mean of the
/// two adjacent velocity norms times the grid width.
pub open spec fn trap_step(c3: Vec2, c2: Vec2, c1: Vec2, j: int, inc: int) -> bool {
    exists |a: int, b: int|
        #[trigger] vel_norm_bracket(c3, c2, c1, grid_t(j - 1), a)
        && #[trigger] vel_norm_bracket(c3, c2, c1, grid_t(j), b)
        && inc == tdiv(a + b, 64)
}

/// The whole arc table was built by the trapezoid rule.
pub open spec fn bez_arc_exact(b: CubicBezier) -> bool {
    forall |j: int| 1 <= j <= 32 ==> #[trigger] trap_step(b.c3, b.c2, b.c1, j,
        b.cum@[j] - b.cum@[j - 1])
}

/// Magnitude bounds of derived coefficients, as functions of the
/// control-point bound.
pub open spec fn coef_rel(start: Vec2, p1: Vec2, p2: Vec2, end: Vec2,
    c1: Vec2, c2: Vec2, c3: Vec2) -> bool {
    &&& c1.0 == 3 * (p1.0 - start.0) && c1.1 == 3 * (p1.1 - start.1)
    &&& c2.0 == 3 * start.0 - 6 * p1.0 + 3 * p2.0 && c2.1 == 3 * start.1 - 6 * p1.1 + 3 * p2.1
    &&& c3.0 == -start.0 + 3 * p1.0 - 3 * p2.0 + end.0
        && c3.1 == -start.1 + 3 * p1.1 - 3 * p2.1 + end.1
}

/// The velocity norm at a parameter: the integer square root of the raw
/// squared norm of the velocity polynomial.
fn vel_norm(c3: Vec2, c2: Vec2, c1: Vec2, t: i64) -> (n: i64)
    requires
        coords_bounded(c3, 17592186044416int),
        coords_bounded(c2, 26388279066624int),
        coords_bounded(c1, 13194139533312int),
        0 <= t <= FX_ONE,
    ensures
        vel_norm_bracket(c3, c2, c1, t as int, n as int),
        0 <= n <= 175000000000000int,
{
    proof {
        lemma_poly_bound(0, 3 * c3.0 as int, 2 * c2.0 as int, c1.0 as int, t as int);
        lemma_poly_bound(0, 3 * c3.1 as int, 2 * c2.1 as int, c1.1 as int, t as int);
    }
    let vx: i64 = poly_eval(0, 3 * c3.0, 2 * c2.0, c1.0, t);
    let vy: i64 = poly_eval(0, 3 * c3.1, 2 * c2.1, c1.1, t);
    proof {
        assert(0 <= vx as int * vx as int <= 14161000000000000000000000000int
            && 0 <= vy as int * vy as int <= 14161000000000000000000000000int)
            by (nonlinear_arith)
            requires
                fx_abs_of(vx as int) <= 119000000000000int,
                fx_abs_of(vy as int) <= 119000000000000int,
        ;
    }
    let nx: i128 = vx as i128 * vx as i128;
    let ny: i128 = vy as i128 * vy as i128;
    let n2: u128 = (nx + ny) as u128;
    let n: u128 = isqrt_u128(n2);
    proof {
        lemma_isqrt_within(n as int, n2 as int, 175000000000000int);
    }
    n as i64
}

/// An integer square root of a value below `b * b` is at most `b`.
proof fn lemma_isqrt_within(r: int, n2: int, b: int)
    by (nonlinear_arith)
    requires
        0 <= r,
        0 < b,
        r * r <= n2,
        n2 <= 28322000000000000000000000000int,
        b == 175000000000000int,
    ensures
        r <= b,
{
}

/// The axis objective is everywhere defined and bounded on the parameter
/// interval.
proof fn lemma_axis_obj_dom(f: AxisObjective)
    requires
        poly_bounded(f.a3 as int, f.a2 as int, f.a1 as int, f.a0 as int, FX_ACOEF_MAX as int),
    ensures
        dom_on(f, 0, FX_ONE as int),
{
    assert forall |t: int| 0 <= t <= FX_ONE as int
        implies #[trigger] f.dom(t) && fx_abs_of(f.val(t)) <= FX_VAL_MAX as int by {
        lemma_poly_bound(f.a3 as int, f.a2 as int, f.a1 as int, f.a0 as int, t);
    }
}

impl CubicBezier {
    /// Build a segment: derive the power-basis coefficients, integrate the
    /// velocity norm over the fixed grid by the trapezoid rule, and bound
    /// the curve's grid samples by an axis-aligned box found by axiswise
    /// minimization.
    #[verifier::rlimit(100)]
    pub fn new(start: Vec2, p1: Vec2, p2: Vec2, end: Vec2) -> (r: CubicBezier)
        requires
            coords_bounded(start, FX_CTRL_MAX as int),
            coords_bounded(p1, FX_CTRL_MAX as int),
            coords_bounded(p2, FX_CTRL_MAX as int),
            coords_bounded(end, FX_CTRL_MAX as int),
        ensures
            bez_wf(r),
            r.start == start && r.p1 == p1 && r.p2 == p2 && r.end == end,
            bez_arc_exact(r),
    {
        let c1: Vec2 = Vec2(3 * (p1.0 - start.0), 3 * (p1.1 - start.1));
        let c2: Vec2 = Vec2(
            3 * start.0 - 6 * p1.0 + 3 * p2.0,
            3 * start.1 - 6 * p1.1 + 3 * p2.1,
        );
        let c3: Vec2 = Vec2(
            -start.0 + 3 * p1.0 - 3 * p2.0 + end.0,
            -start.1 + 3 * p1.1 - 3 * p2.1 + end.1,
        );
        // Cumulative trapezoid table of velocity norms over the fixed grid.
        let mut cum: Vec<i64> = Vec::new();
        cum.push(0);
        let mut total: i64 = 0;
        let mut prev: i64 = vel_norm(c3, c2, c1, 0);
        let mut i: usize = 1;
        while i <= 32
            invariant
                1 <= i <= 33,
                cum@.len() == i as int,
                cum@[0] == 0,
                total == cum@[i - 1],
                forall |j: int| 0 <= j < i - 1 ==> #[trigger] cum@[j] <= cum@[j + 1],
                forall |j: int| 0 <= j < i ==> 0 <= #[trigger] cum@[j] <= j * 5500000000000int,
                forall |j: int| 1 <= j < i ==> #[trigger] trap_step(c3, c2, c1, j,
                    cum@[j] - cum@[j - 1]),
                vel_norm_bracket(c3, c2, c1, grid_t(i - 1), prev as int),
                0 <= prev <= 175000000000000int,
                coords_bounded(c3, 17592186044416int),
                coords_bounded(c2, 26388279066624int),
                coords_bounded(c1, 13194139533312int),
            decreases 33 - i,
        {
            let t: i64 = (i as i64) * FX_T_STEP;
            let n: i64 = vel_norm(c3, c2, c1, t);
            let term: i64 = (((prev + n) as u64) / 64u64) as i64;
            proof {
                assert(term as int == tdiv(prev as int + n as int, 64));
                assert(t as int == grid_t(i as int));
                assert(vel_norm_bracket(c3, c2, c1, grid_t(i as int), n as int));
                assert(vel_norm_bracket(c3, c2, c1, grid_t(i as int - 1), prev as int));
                assert(trap_step(c3, c2, c1, i as int, term as int));
            }
            total = total + term;
            cum.push(total);
            prev = n;
            i = i + 1;
        }
        // The bounding box, from axiswise minimization of the position.
        let ax_min_x = AxisObjective { a3: c3.0, a2: c2.0, a1: c1.0, a0: start.0, neg: false };
        let ax_max_x = AxisObjective { a3: c3.0, a2: c2.0, a1: c1.0, a0: start.0, neg: true };
        let ax_min_y = AxisObjective { a3: c3.1, a2: c2.1, a1: c1.1, a0: start.1, neg: false };
        let ax_max_y = AxisObjective { a3: c3.1, a2: c2.1, a1: c1.1, a0: start.1, neg: true };
        let dx_min_x = AxisObjective { a3: 0, a2: 3 * c3.0, a1: 2 * c2.0, a0: c1.0, neg: false };
        let dx_max_x = AxisObjective { a3: 0, a2: 3 * c3.0, a1: 2 * c2.0, a0: c1.0, neg: true };
        let dx_min_y = AxisObjective { a3: 0, a2: 3 * c3.1, a1: 2 * c2.1, a0: c1.1, neg: false };
        let dx_max_y = AxisObjective { a3: 0, a2: 3 * c3.1, a1: 2 * c2.1, a0: c1.1, neg: true };
        proof {
            lemma_axis_obj_dom(ax_min_x);
            lemma_axis_obj_dom(ax_max_x);
            lemma_axis_obj_dom(ax_min_y);
            lemma_axis_obj_dom(ax_max_y);
            lemma_axis_obj_dom(dx_min_x);
            lemma_axis_obj_dom(dx_max_x);
            lemma_axis_obj_dom(dx_min_y);
            lemma_axis_obj_dom(dx_max_y);
        }
        let obs_min_x: FunctionObservation =
            find_min_differentiable(&ax_min_x, &dx_min_x, 0, FX_ONE, 429497);
        let obs_max_x: FunctionObservation =
            find_min_differentiable(&ax_max_x, &dx_max_x, 0, FX_ONE, 429497);
        let obs_min_y: FunctionObservation =
            find_min_differentiable(&ax_min_y, &dx_min_y, 0, FX_ONE, 429497);
        let obs_max_y: FunctionObservation =
            find_min_differentiable(&ax_max_y, &dx_max_y, 0, FX_ONE, 429497);
        proof {
            lemma_poly_bound(c3.0 as int, c2.0 as int, c1.0 as int, start.0 as int,
                obs_min_x.x as int);
            lemma_poly_bound(c3.0 as int, c2.0 as int, c1.0 as int, start.0 as int,
                obs_max_x.x as int);
            lemma_poly_bound(c3.1 as int, c2.1 as int, c1.1 as int, start.1 as int,
                obs_min_y.x as int);
            lemma_poly_bound(c3.1 as int, c2.1 as int, c1.1 as int, start.1 as int,
                obs_max_y.x as int);
        }
        let bounding_box = BoundingBox {
            min_x: obs_min_x.value,
            max_x: -obs_max_x.value,
            min_y: obs_min_y.value,
            max_y: -obs_max_y.value,
        };
        let r = CubicBezier { start, p1, p2, end, c1, c2, c3, cum, bounding_box };
        proof {
            assert(tdiv(FX_ONE as int, 32) == FX_T_STEP as int);
            assert forall |i2: int| 0 <= i2 <= 32
                implies box_contains(r.bounding_box, #[trigger] bez_at(r, grid_t(i2))) by {
                assert(grid_of(0, FX_ONE as int, i2) == grid_t(i2));
                lemma_poly_bound(c3.0 as int, c2.0 as int, c1.0 as int, start.0 as int,
                    grid_t(i2));
                lemma_poly_bound(c3.1 as int, c2.1 as int, c1.1 as int, start.1 as int,
                    grid_t(i2));
                assert(obs_min_x.value as int <= ax_min_x.val(grid_t(i2)));
                assert(obs_max_x.value as int <= ax_max_x.val(grid_t(i2)));
                assert(obs_min_y.value as int <= ax_min_y.val(grid_t(i2)));
                assert(obs_max_y.value as int <= ax_max_y.val(grid_t(i2)));
            }
            assert(box_contains(r.bounding_box, bez_at(r, grid_t(0))));
            assert(bez_wf(r));
            assert(bez_arc_exact(r));
        }
        r
    }
}

/// The distance objective's value is the squared distance to the curve.
proof fn lemma_val_is_dist(b: CubicBezier, point: Vec2, f: DistSqObjective, t: int)
    requires
        bez_wf(b),
        0 <= t <= FX_ONE as int,
        f.x3 == b.c3.0 && f.x2 == b.c2.0 && f.x1 == b.c1.0 && f.x0 == b.start.0,
        f.y3 == b.c3.1 && f.y2 == b.c2.1 && f.y1 == b.c1.1 && f.y0 == b.start.1,
        f.px == point.0 && f.py == point.1,
    ensures
        f.val(t) == dist_sq_of(point, bez_at(b, t)),
{
    lemma_coef_bounds(b);
    lemma_poly_bound(b.c3.0 as int, b.c2.0 as int, b.c1.0 as int, b.start.0 as int, t);
    lemma_poly_bound(b.c3.1 as int, b.c2.1 as int, b.c1.1 as int, b.start.1 as int, t);
    let qx = poly_at(b.c3.0 as int, b.c2.0 as int, b.c1.0 as int, b.start.0 as int, t);
    let qy = poly_at(b.c3.1 as int, b.c2.1 as int, b.c1.1 as int, b.start.1 as int, t);
    assert(bez_at(b, t).0 as int == qx && bez_at(b, t).1 as int == qy);
}

/// Coefficient magnitude bounds that follow from control-point bounds.
pub proof fn lemma_coef_bounds(b: CubicBezier)
    requires
        bez_wf(b),
    ensures
        poly_bounded(b.c3.0 as int, b.c2.0 as int, b.c1.0 as int, b.start.0 as int,
            26388279066624int),
        poly_bounded(b.c3.1 as int, b.c2.1 as int, b.c1.1 as int, b.start.1 as int,
            26388279066624int),
        poly_bounded(0, 3 * b.c3.0 as int, 2 * b.c2.0 as int, b.c1.0 as int,
            79164837199872int),
        poly_bounded(0, 3 * b.c3.1 as int, 2 * b.c2.1 as int, b.c1.1 as int,
            79164837199872int),
{
}

} // verus!
