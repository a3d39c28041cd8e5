//! Smooth piecewise cubic Bezier splines.
//!
//! A spline is a non-empty sequence of tangent-continuous segments addressed
//! by a parameter whose integer part selects the segment and whose
//! fractional part is the local parameter. The global nearest-point query
//! prunes segments whose bounding box provably cannot beat an upper bound
//! read off the boxes' farthest corners.

use vstd::prelude::*;
use crate::fx::{FX_ONE, tdiv, fx_mul_of};
use crate::vec2::{Vec2, coords_bounded, dist_sq_of, norm_sq_raw, normalized_rel, unit_band};
use crate::bezier::{
    FX_QUERY_MAX, FX_ARC_MAX, FX_CP_EPS, BezierControl, ClosestPointOutput, CubicBezier,
    bez_at, vel_at, bez_wf, grid_t, arc_at, lemma_arc_at_monotone, lemma_bez_endpoints,
    box_contains, dist_obj_of, dist_deriv_of,
};
use crate::root::min_obs_rel;

verus! {

/// Largest number of segments a spline may hold.
pub const MAX_SEGMENTS: usize = 1024;

/// Largest control-point coordinate accepted by the constructor
/// (about 460 units).
pub const FX_POINT_MAX: i64 = 1975684956160;

/// Largest control-velocity coordinate accepted by the constructor
/// (about 52 units).
pub const FX_HANDLE_MAX: i64 = 223338299392;

/// Whether the spline's segments are exactly those built from an ordered
/// control list: segment `j` runs from control `j` to control `j + 1`, with
/// handles displaced by the controls' tangent velocities.
pub open spec fn built_from(sp: SmoothBezierSpline, cs: Seq<BezierControl>) -> bool {
    &&& sp.segments@.len() == cs.len() - 1
    &&& forall |j: int| 0 <= j < sp.segments@.len()
        ==> (#[trigger] sp.segments@[j]).start == cs[j].point
            && sp.segments@[j].end == cs[j + 1].point
            && sp.segments@[j].p1.0 == cs[j].point.0 + cs[j].velocity.0
            && sp.segments@[j].p1.1 == cs[j].point.1 + cs[j].velocity.1
            && sp.segments@[j].p2.0 == cs[j + 1].point.0 - cs[j + 1].velocity.0
            && sp.segments@[j].p2.1 == cs[j + 1].point.1 - cs[j + 1].velocity.1
}

/// An ordered, non-empty sequence of tangent-continuous cubic segments.
pub struct SmoothBezierSpline {
    pub segments: Vec<CubicBezier>,
    pub max_u: i64,
}

/// Well-formedness: at least one and at most `MAX_SEGMENTS` well-formed
/// segments; `max_u` is the segment count at parameter scale; and at every
/// interior joint the segments meet with a shared tangent handle.
pub open spec fn spline_wf(sp: SmoothBezierSpline) -> bool {
    &&& 1 <= sp.segments@.len() <= MAX_SEGMENTS
    &&& sp.max_u == sp.segments@.len() * FX_ONE as int
    &&& forall |j: int| 0 <= j < sp.segments@.len() ==> bez_wf(#[trigger] sp.segments@[j])
    &&& forall |j: int| 0 <= j < sp.segments@.len() - 1
        ==> (#[trigger] sp.segments@[j]).end == sp.segments@[j + 1].start
    &&& forall |j: int| 0 <= j < sp.segments@.len() - 1
        ==> (#[trigger] sp.segments@[j + 1]).p1.0 - sp.segments@[j + 1].start.0
                == sp.segments@[j].end.0 - sp.segments@[j].p2.0
            && sp.segments@[j + 1].p1.1 - sp.segments@[j + 1].start.1
                == sp.segments@[j].end.1 - sp.segments@[j].p2.1
}

/// The segment index a parameter addresses (clamped into range).
pub open spec fn seg_idx_of(sp: SmoothBezierSpline, u: int) -> int {
    if u >= sp.max_u {
        sp.segments@.len() - 1
    } else if u <= 0 {
        0
    } else {
        tdiv(u, FX_ONE as int)
    }
}

/// The local parameter within the addressed segment.
pub open spec fn seg_t_of(sp: SmoothBezierSpline, u: int) -> int {
    if u >= sp.max_u {
        FX_ONE as int
    } else if u <= 0 {
        0
    } else {
        u - seg_idx_of(sp, u) * FX_ONE as int
    }
}

/// The position the spline takes at a parameter.
pub open spec fn spline_at(sp: SmoothBezierSpline, u: int) -> Vec2 {
    bez_at(sp.segments@[seg_idx_of(sp, u)], seg_t_of(sp, u))
}

/// The velocity the spline takes at a parameter.
pub open spec fn spline_vel_at(sp: SmoothBezierSpline, u: int) -> Vec2 {
    vel_at(sp.segments@[seg_idx_of(sp, u)], seg_t_of(sp, u))
}

/// The summed full arc lengths of the first `k` segments.
pub open spec fn prefix_arc(sp: SmoothBezierSpline, k: int) -> int
    decreases k,
{
    if k <= 0 {
        0
    } else {
        prefix_arc(sp, k - 1) + sp.segments@[k - 1].cum@[32]
    }
}

/// The arc length from the spline start to a parameter.
pub open spec fn spline_arc_at(sp: SmoothBezierSpline, u: int) -> int {
    prefix_arc(sp, seg_idx_of(sp, u)) + arc_at(sp.segments@[seg_idx_of(sp, u)], seg_t_of(sp, u))
}

/// The total arc length of the spline.
pub open spec fn spline_total_of(sp: SmoothBezierSpline) -> int {
    prefix_arc(sp, sp.segments@.len() as int)
}

/// The decode is always in range.
proof fn lemma_decode_range(sp: SmoothBezierSpline, u: int)
    requires
        spline_wf(sp),
    ensures
        0 <= seg_idx_of(sp, u) < sp.segments@.len(),
        0 <= seg_t_of(sp, u) <= FX_ONE as int,
        seg_idx_of(sp, u) * FX_ONE as int + seg_t_of(sp, u) == if u >= sp.max_u {
            sp.max_u as int
        } else if u <= 0 {
            0
        } else {
            u
        },
{
    let s = FX_ONE as int;
    let n = sp.segments@.len() as int;
    if 0 < u < sp.max_u {
        let i = tdiv(u, s);
        assert(0 <= i < n && i * s <= u && u - i * s < s) by (nonlinear_arith)
            requires
                0 < u < n * s,
                i == tdiv(u, s),
                s > 0,
                n >= 1,
        ;
    }
}

/// Prefix arc sums are nonnegative.
proof fn lemma_prefix_nonneg(sp: SmoothBezierSpline, k: int)
    requires
        spline_wf(sp),
        k <= sp.segments@.len(),
    ensures
        0 <= prefix_arc(sp, k),
    decreases k,
{
    if k > 0 {
        lemma_prefix_nonneg(sp, k - 1);
        assert(bez_wf(sp.segments@[k - 1]));
    }
}

/// Prefix arc sums are non-decreasing in the prefix length.
proof fn lemma_prefix_mono(sp: SmoothBezierSpline, i: int, j: int)
    requires
        spline_wf(sp),
        0 <= i <= j <= sp.segments@.len(),
    ensures
        prefix_arc(sp, i) <= prefix_arc(sp, j),
    decreases j - i,
{
    if i < j {
        lemma_prefix_mono(sp, i, j - 1);
        assert(bez_wf(sp.segments@[j - 1]));
    }
}

/// Prefix plus one full segment is at most any later prefix.
proof fn lemma_prefix_step_mono(sp: SmoothBezierSpline, i: int, j: int)
    requires
        spline_wf(sp),
        0 <= i < j <= sp.segments@.len(),
    ensures
        prefix_arc(sp, i) + sp.segments@[i].cum@[32] <= prefix_arc(sp, j),
    decreases j - i,
{
    if j == i + 1 {
    } else {
        lemma_prefix_step_mono(sp, i, j - 1);
        assert(bez_wf(sp.segments@[j - 1]));
    }
}

/// The arc value at the full parameter is the cached total.
proof fn lemma_arc_full(b: CubicBezier)
    requires
        bez_wf(b),
    ensures
        arc_at(b, FX_ONE as int) == b.cum@[32],
{
    assert(tdiv(FX_ONE as int * 32, FX_ONE as int) == 32) by (nonlinear_arith);
}

/// The arc value at the zero parameter is zero.
proof fn lemma_arc_zero(b: CubicBezier)
    requires
        bez_wf(b),
    ensures
        arc_at(b, 0) == 0,
{
    assert(tdiv(0int, FX_ONE as int) == 0);
    assert(fx_mul_of(b.cum@[1] - b.cum@[0], 0) == 0) by (nonlinear_arith);
}

/// The total arc length is bounded by the segment count times the largest
/// table entry.
pub proof fn lemma_spline_total_bound(sp: SmoothBezierSpline, k: int)
    requires
        spline_wf(sp),
        0 <= k <= sp.segments@.len(),
    ensures
        prefix_arc(sp, k) <= k * FX_ARC_MAX as int,
    decreases k,
{
    if k > 0 {
        lemma_spline_total_bound(sp, k - 1);
        assert(bez_wf(sp.segments@[k - 1]));
        assert(k * FX_ARC_MAX as int == (k - 1) * FX_ARC_MAX as int + FX_ARC_MAX as int)
            by (nonlinear_arith);
    }
}

/// Arc length along the spline is between zero and the total length.
#[verifier::rlimit(100)]
pub proof fn lemma_spline_arc_in_range(sp: SmoothBezierSpline, u: int)
    requires
        spline_wf(sp),
    ensures
        0 <= spline_arc_at(sp, u) <= spline_total_of(sp),
{
    let n = sp.segments@.len() as int;
    lemma_decode_range(sp, u);
    let i = seg_idx_of(sp, u);
    let t = seg_t_of(sp, u);
    assert(bez_wf(sp.segments@[i]));
    lemma_arc_at_monotone(sp.segments@[i], 0, t);
    lemma_arc_at_monotone(sp.segments@[i], t, FX_ONE as int);
    lemma_arc_full(sp.segments@[i]);
    lemma_prefix_nonneg(sp, i);
    if i < n - 1 {
        lemma_prefix_step_mono(sp, i, n);
    } else {
        assert(prefix_arc(sp, n) == prefix_arc(sp, n - 1) + sp.segments@[n - 1].cum@[32]);
    }
}

/// Arc length along the spline is nonnegative, bounded by the total length,
/// and non-decreasing in the parameter.
pub proof fn lemma_spline_arc_monotone(sp: SmoothBezierSpline, u1: int, u2: int)
    requires
        spline_wf(sp),
        u1 <= u2,
    ensures
        0 <= spline_arc_at(sp, u1) <= spline_arc_at(sp, u2) <= spline_total_of(sp),
{
    let s = FX_ONE as int;
    let n = sp.segments@.len() as int;
    lemma_decode_range(sp, u1);
    lemma_decode_range(sp, u2);
    lemma_spline_arc_in_range(sp, u1);
    lemma_spline_arc_in_range(sp, u2);
    if u1 <= 0 {
        // The lower arc is exactly zero.
        assert(seg_idx_of(sp, u1) == 0 && seg_t_of(sp, u1) == 0);
        assert(bez_wf(sp.segments@[0]));
        lemma_arc_zero(sp.segments@[0]);
    } else if u1 >= sp.max_u {
        // Both parameters clamp to the end of the spline.
        assert(u2 >= sp.max_u);
    } else if u2 >= sp.max_u {
        // The upper arc is the total length.
        assert(seg_idx_of(sp, u2) == n - 1 && seg_t_of(sp, u2) == s);
        assert(bez_wf(sp.segments@[n - 1]));
        lemma_arc_full(sp.segments@[n - 1]);
        assert(prefix_arc(sp, n) == prefix_arc(sp, n - 1) + sp.segments@[n - 1].cum@[32]);
    } else {
        // Both parameters address the interior.
        let i1 = seg_idx_of(sp, u1);
        let i2 = seg_idx_of(sp, u2);
        let t1 = seg_t_of(sp, u1);
        let t2 = seg_t_of(sp, u2);
        assert(i1 == tdiv(u1, s) && i2 == tdiv(u2, s));
        assert(i1 <= i2) by (nonlinear_arith)
            requires
                0 < u1 <= u2,
                i1 == tdiv(u1, s),
                i2 == tdiv(u2, s),
                s > 0,
        ;
        assert(bez_wf(sp.segments@[i1]));
        assert(bez_wf(sp.segments@[i2]));
        if i1 == i2 {
            assert(t1 <= t2);
            lemma_arc_at_monotone(sp.segments@[i1], t1, t2);
        } else {
            lemma_arc_at_monotone(sp.segments@[i1], t1, FX_ONE as int);
            lemma_arc_full(sp.segments@[i1]);
            lemma_prefix_step_mono(sp, i1, i2);
            lemma_arc_at_monotone(sp.segments@[i2], 0, t2);
        }
    }
}

impl SmoothBezierSpline {
    /// Build a spline from an ordered list of controls: segment `j` runs
    /// from control `j` to control `j + 1`, with handles displaced by the
    /// controls' tangent velocities, which makes every interior joint
    /// tangent-continuous by construction.
    pub fn new(controls: Vec<BezierControl>) -> (r: SmoothBezierSpline)
        requires
            2 <= controls@.len() <= MAX_SEGMENTS + 1,
            forall |j: int| 0 <= j < controls@.len()
                ==> coords_bounded((#[trigger] controls@[j]).point, FX_POINT_MAX as int)
                    && coords_bounded(controls@[j].velocity, FX_HANDLE_MAX as int),
        ensures
            spline_wf(r),
            built_from(r, controls@),
            r.segments@.len() == controls@.len() - 1,
    {
        let n: usize = controls.len();
        let mut segments: Vec<CubicBezier> = Vec::new();
        let mut j: usize = 0;
        while j < n - 1
            invariant
                2 <= n <= MAX_SEGMENTS + 1,
                n == controls@.len(),
                0 <= j <= n - 1,
                segments@.len() == j as int,
                forall |k: int| 0 <= k < controls@.len()
                    ==> coords_bounded((#[trigger] controls@[k]).point, FX_POINT_MAX as int)
                        && coords_bounded(controls@[k].velocity, FX_HANDLE_MAX as int),
                forall |k: int| 0 <= k < j ==> bez_wf(#[trigger] segments@[k]),
                forall |k: int| 0 <= k < j
                    ==> (#[trigger] segments@[k]).start == controls@[k].point
                        && segments@[k].end == controls@[k + 1].point
                        && segments@[k].p1.0 == controls@[k].point.0 + controls@[k].velocity.0
                        && segments@[k].p1.1 == controls@[k].point.1 + controls@[k].velocity.1
                        && segments@[k].p2.0 == controls@[k + 1].point.0
                            - controls@[k + 1].velocity.0
                        && segments@[k].p2.1 == controls@[k + 1].point.1
                            - controls@[k + 1].velocity.1,
            decreases n - 1 - j,
        {
            let c0: BezierControl = *controls.get(j).unwrap();
            let c1: BezierControl = *controls.get(j + 1).unwrap();
            let h1: Vec2 = Vec2(c0.point.0 + c0.velocity.0, c0.point.1 + c0.velocity.1);
            let h2: Vec2 = Vec2(c1.point.0 - c1.velocity.0, c1.point.1 - c1.velocity.1);
            let seg: CubicBezier = CubicBezier::new(c0.point, h1, h2, c1.point);
            segments.push(seg);
            j = j + 1;
        }
        let max_u: i64 = (n as i64 - 1) * FX_ONE;
        let r = SmoothBezierSpline { segments, max_u };
        proof {
            assert(spline_wf(r));
        }
        r
    }

    /// Decode a parameter into a segment index and a local parameter.
    pub fn segment_and_t(&self, u: i64) -> (r: (usize, i64))
        requires
            spline_wf(*self),
        ensures
            r.0 as int == seg_idx_of(*self, u as int),
            r.1 as int == seg_t_of(*self, u as int),
            r.0 < self.segments@.len(),
            0 <= r.1 <= FX_ONE,
    {
        proof {
            lemma_decode_range(*self, u as int);
        }
        if u >= self.max_u {
            (self.segments.len() - 1, FX_ONE)
        } else if u <= 0 {
            (0, 0)
        } else {
            let idx_u: u64 = (u as u64) / 4294967296u64;
            proof {
                assert(idx_u as int == tdiv(u as int, FX_ONE as int));
            }
            let idx: usize = idx_u as usize;
            (idx, u - (idx as i64) * FX_ONE)
        }
    }

    /// The position at a parameter.
    pub fn get(&self, u: i64) -> (r: Vec2)
        requires
            spline_wf(*self),
        ensures
            r == spline_at(*self, u as int),
            coords_bounded(r, 70368744177664int),
    {
        let (idx, t): (usize, i64) = self.segment_and_t(u);
        let seg: &CubicBezier = self.segments.get(idx).unwrap();
        seg.get(t)
    }

    /// The velocity at a parameter.
    pub fn velocity(&self, u: i64) -> (r: Vec2)
        requires
            spline_wf(*self),
        ensures
            r == spline_vel_at(*self, u as int),
            coords_bounded(r, 118747255799808int),
    {
        let (idx, t): (usize, i64) = self.segment_and_t(u);
        let seg: &CubicBezier = self.segments.get(idx).unwrap();
        seg.velocity(t)
    }

    /// The unit tangent at a parameter. The velocity there must be at least
    /// half a unit long.
    pub fn tangent(&self, u: i64) -> (r: Vec2)
        requires
            spline_wf(*self),
            norm_sq_raw(spline_vel_at(*self, u as int)) >= 2147483648int * 2147483648int,
        ensures
            normalized_rel(spline_vel_at(*self, u as int), r),
            unit_band(r),
            coords_bounded(r, FX_ONE as int + 2),
    {
        let v: Vec2 = self.velocity(u);
        v.normalized()
    }

    /// The arc length from the spline start to a parameter: all earlier
    /// segments contribute their full cached lengths, the addressed segment
    /// its partial arc.
    pub fn arc_length(&self, u: i64) -> (r: i64)
        requires
            spline_wf(*self),
        ensures
            r as int == spline_arc_at(*self, u as int),
            0 <= r,
    {
        let (idx, t): (usize, i64) = self.segment_and_t(u);
        let mut acc: i64 = 0;
        let mut j: usize = 0;
        while j < idx
            invariant
                spline_wf(*self),
                0 <= j <= idx,
                idx < self.segments@.len(),
                acc as int == prefix_arc(*self, j as int),
                0 <= acc <= j * FX_ARC_MAX as int,
            decreases idx - j,
        {
            proof {
                assert(bez_wf(self.segments@[j as int]));
            }
            let seg: &CubicBezier = self.segments.get(j).unwrap();
            let full: i64 = seg.full_arc_length();
            proof {
                assert(full <= FX_ARC_MAX) by {
                    assert(bez_wf(*seg));
                }
            }
            acc = acc + full;
            j = j + 1;
        }
        proof {
            assert(bez_wf(self.segments@[idx as int]));
            lemma_prefix_mono(*self, 0, idx as int);
        }
        let seg: &CubicBezier = self.segments.get(idx).unwrap();
        let part: i64 = seg.arc_length(t);
        acc + part
    }

    /// The total arc length of the spline.
    pub fn total_length(&self) -> (r: i64)
        requires
            spline_wf(*self),
        ensures
            r as int == spline_total_of(*self),
            r as int == spline_arc_at(*self, self.max_u as int),
            0 <= r,
    {
        let r: i64 = self.arc_length(self.max_u);
        proof {
            let n = self.segments@.len() as int;
            lemma_decode_range(*self, self.max_u as int);
            assert(seg_idx_of(*self, self.max_u as int) == n - 1);
            assert(bez_wf(self.segments@[n - 1]));
            lemma_arc_full(self.segments@[n - 1]);
            assert(prefix_arc(*self, n) == prefix_arc(*self, n - 1)
                + self.segments@[n - 1].cum@[32]);
        }
        r
    }
}

/// Composing a segment index and a local parameter addresses the same point
/// through the spline decode.
proof fn lemma_param_decode(sp: SmoothBezierSpline, j: int, t: int)
    requires
        spline_wf(sp),
        0 <= j < sp.segments@.len(),
        0 <= t <= FX_ONE as int,
    ensures
        0 <= j * FX_ONE as int + t <= sp.max_u,
        spline_at(sp, j * FX_ONE as int + t) == bez_at(sp.segments@[j], t),
{
    let s = FX_ONE as int;
    let n = sp.segments@.len() as int;
    let u = j * s + t;
    assert(0 <= j * s && j * s + s <= n * s && (j < n - 1 ==> j * s + s <= (n - 1) * s))
        by (nonlinear_arith)
        requires
            0 <= j < n,
            s > 0,
    ;
    if u >= sp.max_u {
        assert(j == n - 1 && t == s) by (nonlinear_arith)
            requires
                j * s + t >= n * s,
                0 <= j < n,
                0 <= t <= s,
                s > 0,
        ;
    } else if u <= 0 {
        assert(j == 0 && t == 0) by (nonlinear_arith)
            requires
                j * s + t <= 0,
                0 <= j,
                0 <= t,
                s > 0,
        ;
    } else if t < s {
        assert(seg_idx_of(sp, u) == j && seg_t_of(sp, u) == t) by (nonlinear_arith)
            requires
                u == j * s + t,
                0 <= t < s,
                0 < u < n * s,
                s > 0,
                0 <= j < n,
                sp.max_u == n * s,
                seg_idx_of(sp, u) == tdiv(u, s),
                seg_t_of(sp, u) == u - tdiv(u, s) * s,
        ;
    } else {
        // t equals the full parameter on a segment before the last: the
        // decode lands on the start of the next segment, which is the same
        // point by joint continuity.
        assert(t == s && j < n - 1);
        assert(seg_idx_of(sp, u) == j + 1 && seg_t_of(sp, u) == 0) by (nonlinear_arith)
            requires
                u == j * s + s,
                0 < u < n * s,
                s > 0,
                0 <= j < n - 1,
                sp.max_u == n * s,
                seg_idx_of(sp, u) == tdiv(u, s),
                seg_t_of(sp, u) == u - tdiv(u, s) * s,
        ;
        assert(bez_wf(sp.segments@[j]) && bez_wf(sp.segments@[j + 1]));
        lemma_bez_endpoints(sp.segments@[j]);
        lemma_bez_endpoints(sp.segments@[j + 1]);
        assert(sp.segments@[j].end == sp.segments@[j + 1].start);
    }
}

/// The returned global nearest point is a pinned per-segment search output:
/// for some segment, the parameter's fractional part and the distance are
/// exactly what the grid-seeded minimization of that segment's distance
/// objective returns.
pub open spec fn spline_cp_rel(sp: SmoothBezierSpline, p: Vec2, param: int, d: int) -> bool {
    exists |j: int, t: int|
        0 <= j < sp.segments@.len() && 0 <= t <= FX_ONE as int
        && param == j * FX_ONE as int + t
        && #[trigger] min_obs_rel(dist_obj_of(sp.segments@[j], p),
            dist_deriv_of(sp.segments@[j], p), 0, FX_ONE as int, FX_CP_EPS as int, t, d)
}

impl SmoothBezierSpline {
    /// The nearest point of the spline to a query point, searched with
    /// bounding-box pruning.
    ///
    /// A first pass over the boxes records, from the farthest corners, a
    /// squared distance `upper` that some box achieves everywhere; a second
    /// pass runs the expensive per-segment search only on segments whose box
    /// could beat `upper`. The returned squared distance is achieved at the
    /// returned parameter and is at most the squared distance from the query
    /// point to any grid sample of any segment.
    #[verifier::rlimit(100)]
    pub fn closest_point(&self, point: Vec2) -> (r: ClosestPointOutput)
        requires
            spline_wf(*self),
            coords_bounded(point, FX_QUERY_MAX as int),
        ensures
            0 <= r.parameter <= self.max_u,
            r.distance_sq == dist_sq_of(point, spline_at(*self, r.parameter as int)),
            r.distance_sq >= 0,
            forall |j: int, i: int| 0 <= j < self.segments@.len() && 0 <= i <= 32
                ==> r.distance_sq
                    <= dist_sq_of(point, #[trigger] bez_at(self.segments@[j], grid_t(i))),
            spline_cp_rel(*self, point, r.parameter as int, r.distance_sq as int),
    {
        let n: usize = self.segments.len();
        // First pass: an upper bound on the reachable squared distance, from
        // the farthest corner of each box.
        proof {
            assert(bez_wf(self.segments@[0]));
        }
        let seg0: &CubicBezier = self.segments.get(0).unwrap();
        let far0: Vec2 = seg0.bounding_box.farthest_point(point);
        let mut upper: i64 = point.dist_sq(far0);
        let ghost mut best_box: int = 0;
        let mut j: usize = 1;
        while j < n
            invariant
                1 <= j <= n,
                n == self.segments@.len(),
                spline_wf(*self),
                coords_bounded(point, FX_QUERY_MAX as int),
                0 <= best_box < j,
                forall |q: Vec2| box_contains(self.segments@[best_box].bounding_box, q)
                    ==> #[trigger] dist_sq_of(point, q) <= upper,
            decreases n - j,
        {
            proof {
                assert(bez_wf(self.segments@[j as int]));
            }
            let seg: &CubicBezier = self.segments.get(j).unwrap();
            let far: Vec2 = seg.bounding_box.farthest_point(point);
            let d: i64 = point.dist_sq(far);
            if d < upper {
                upper = d;
                proof {
                    best_box = j as int;
                }
            }
            j = j + 1;
        }
        // Second pass: evaluate the segments whose box could beat the bound.
        let mut best_param: i64 = 0;
        let mut best_d2: i64 = 0;
        let mut found: bool = false;
        let mut k: usize = 0;
        while k < n
            invariant
                0 <= k <= n,
                n == self.segments@.len(),
                spline_wf(*self),
                coords_bounded(point, FX_QUERY_MAX as int),
                0 <= best_box < n,
                forall |q: Vec2| box_contains(self.segments@[best_box].bounding_box, q)
                    ==> #[trigger] dist_sq_of(point, q) <= upper,
                found ==> 0 <= best_param <= self.max_u,
                found ==> best_d2 as int
                    == dist_sq_of(point, spline_at(*self, best_param as int)),
                found ==> best_d2 >= 0,
                found ==> spline_cp_rel(*self, point, best_param as int, best_d2 as int),
                k > best_box ==> found && best_d2 <= upper,
                forall |j2: int, i: int| 0 <= j2 < k && 0 <= i <= 32
                    ==> (found && best_d2
                            <= dist_sq_of(point, #[trigger] bez_at(self.segments@[j2],
                                grid_t(i))))
                        || upper < dist_sq_of(point, bez_at(self.segments@[j2], grid_t(i))),
            decreases n - k,
        {
            proof {
                assert(bez_wf(self.segments@[k as int]));
            }
            let seg: &CubicBezier = self.segments.get(k).unwrap();
            let close: Vec2 = seg.bounding_box.closest_point(point);
            let close_d2: i64 = point.dist_sq(close);
            if close_d2 <= upper {
                let cp: ClosestPointOutput = seg.closest_point(point);
                proof {
                    lemma_param_decode(*self, k as int, cp.parameter as int);
                    assert((k as int) * FX_ONE as int + cp.parameter as int <= self.max_u);
                }
                let param: i64 = (k as i64) * FX_ONE + cp.parameter;
                proof {
                    assert(min_obs_rel(dist_obj_of(self.segments@[k as int], point),
                        dist_deriv_of(self.segments@[k as int], point), 0, FX_ONE as int,
                        FX_CP_EPS as int, cp.parameter as int, cp.distance_sq as int));
                    assert(spline_cp_rel(*self, point, param as int, cp.distance_sq as int));
                }
                if !found || cp.distance_sq < best_d2 {
                    best_param = param;
                    best_d2 = cp.distance_sq;
                    found = true;
                }
                proof {
                    // Samples of this segment sit in its box, so the kept
                    // best is below the upper bound once the best box has
                    // been processed.
                    assert(box_contains(self.segments@[k as int].bounding_box,
                        bez_at(self.segments@[k as int], grid_t(0))));
                    if k as int == best_box {
                        assert(cp.distance_sq
                            <= dist_sq_of(point, bez_at(self.segments@[k as int], grid_t(0))));
                        assert(cp.distance_sq <= upper);
                    }
                    assert forall |i: int| 0 <= i <= 32
                        implies best_d2
                            <= dist_sq_of(point, #[trigger] bez_at(self.segments@[k as int],
                                grid_t(i))) by {
                        assert(cp.distance_sq
                            <= dist_sq_of(point, bez_at(self.segments@[k as int], grid_t(i))));
                    }
                }
            } else {
                proof {
                    // Pruned: every grid sample of this segment sits in its
                    // box, hence at least as far as the box's closest point,
                    // which already misses the bound.
                    if k as int == best_box {
                        assert(box_contains(self.segments@[best_box].bounding_box, close));
                        assert(dist_sq_of(point, close) <= upper);
                        assert(false);
                    }
                    assert forall |i: int| 0 <= i <= 32
                        implies upper
                            < dist_sq_of(point, #[trigger] bez_at(self.segments@[k as int],
                                grid_t(i))) by {
                        assert(box_contains(self.segments@[k as int].bounding_box,
                            bez_at(self.segments@[k as int], grid_t(i))));
                        assert(dist_sq_of(point, close)
                            <= dist_sq_of(point, bez_at(self.segments@[k as int], grid_t(i))));
                    }
                }
            }
            k = k + 1;
        }
        proof {
            assert(found && best_d2 <= upper);
            assert forall |j2: int, i: int| 0 <= j2 < n && 0 <= i <= 32
                implies best_d2
                    <= dist_sq_of(point, #[trigger] bez_at(self.segments@[j2], grid_t(i))) by {
                assert((found && best_d2
                        <= dist_sq_of(point, bez_at(self.segments@[j2], grid_t(i))))
                    || upper < dist_sq_of(point, bez_at(self.segments@[j2], grid_t(i))));
            }
        }
        ClosestPointOutput { parameter: best_param, distance_sq: best_d2 }
    }
}

} // verus!
