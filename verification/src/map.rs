//! The track: a spline with a width.
//!
//! A point is inside the track when its squared distance to the spline is
//! below the squared half width. The crash predicate checks the back and
//! front reference points of the chassis; the ray query marches along a
//! direction in tenth-of-width steps until it leaves the track, then narrows
//! the crossing by bisection.

use vstd::prelude::*;
use crate::fx::{
    FX_ONE, tdiv, fx_abs_of, fx_mul_of, fx_mul, lemma_fx_mul_bound,
    lemma_fx_mul_nonneg, lemma_fx_mul_between, ceil_half, shrunk, lemma_ceil_half,
    lemma_shrunk_bound,
};
use crate::vec2::{
    Vec2, coords_bounded, dist_sq_of, norm_sq_raw, normalized_rel, rotate_rel, unit_band,
};
use crate::bezier::{FX_QUERY_MAX, BezierControl, ClosestPointOutput, bez_at, grid_t};
use crate::spline::{SmoothBezierSpline, spline_wf, spline_at};
use crate::physics::{CarConfig, CarState, cfg_wf, state_wf};
use crate::lidar::{LidarArray, lidar_wf};

verus! {

/// One tenth, at fixed-point scale: the marching step is this share of the
/// track width.
pub const FX_TENTH: i64 = 429496730;

/// Smallest track width accepted (1/16 world unit).
pub const FX_WIDTH_MIN: i64 = 268435456;

/// Largest track width accepted (about 256 world units).
pub const FX_WIDTH_MAX: i64 = 1099511627776;

/// Largest number of marching steps one ray query will take.
pub const RAY_CAP: usize = 512;

/// A spline track with a width.
pub struct SplineMap {
    pub spline: SmoothBezierSpline,
    pub width: i64,
    pub max_d2: i64,
}

/// Well-formedness: a well-formed spline, a positive bounded width, and the
/// cached squared half width consistent with it.
pub open spec fn map_wf(m: SplineMap) -> bool {
    &&& spline_wf(m.spline)
    &&& FX_WIDTH_MIN <= m.width <= FX_WIDTH_MAX
    &&& m.max_d2 == tdiv(fx_mul_of(m.width as int, m.width as int), 4)
}

/// Some spline parameter puts the point strictly inside the corridor.
pub open spec fn inside_witness(m: SplineMap, p: Vec2) -> bool {
    exists |u: int| 0 <= u <= m.spline.max_u
        && #[trigger] dist_sq_of(p, spline_at(m.spline, u)) < m.max_d2
}

/// Every grid sample of every segment is at least the corridor half width
/// away from the point.
pub open spec fn outside_samples(m: SplineMap, p: Vec2) -> bool {
    forall |j: int, i: int| 0 <= j < m.spline.segments@.len() && 0 <= i <= 32
        ==> dist_sq_of(p, #[trigger] bez_at(m.spline.segments@[j], grid_t(i))) >= m.max_d2
}

/// The back reference point of the chassis.
pub open spec fn back_point_rel(s: CarState, c: CarConfig, b: Vec2) -> bool {
    &&& b.0 == s.position.0 - fx_mul_of(s.unit_forward.0 as int, c.back_axle as int)
    &&& b.1 == s.position.1 - fx_mul_of(s.unit_forward.1 as int, c.back_axle as int)
}

/// The front reference point of the chassis, ahead of the back point by the
/// car length.
pub open spec fn front_point_rel(s: CarState, c: CarConfig, b: Vec2, f: Vec2) -> bool {
    &&& f.0 == b.0 + fx_mul_of(s.unit_forward.0 as int, c.length as int)
    &&& f.1 == b.1 + fx_mul_of(s.unit_forward.1 as int, c.length as int)
}

/// What a nearest-point query certifies: an achieved parameter and squared
/// distance no larger than the squared distance to any grid sample.
pub open spec fn cp_rel(m: SplineMap, pt: Vec2, u: int, d: int) -> bool {
    &&& 0 <= u <= m.spline.max_u
    &&& d == dist_sq_of(pt, spline_at(m.spline, u))
    &&& d >= 0
    &&& forall |j: int, i: int| 0 <= j < m.spline.segments@.len() && 0 <= i <= 32
        ==> d <= dist_sq_of(pt, #[trigger] bez_at(m.spline.segments@[j], grid_t(i)))
}

/// What the interior test certifies: the answer is the strict comparison of
/// a certified nearest squared distance with the squared half width.
pub open spec fn point_in_rel(m: SplineMap, p: Vec2, inside: bool) -> bool {
    exists |u: int, d: int| #[trigger] cp_rel(m, p, u, d) && inside == (d < m.max_d2)
}

/// What the crash test certifies: the car is crashed exactly when the
/// certified interior test fails on the back or the front chassis point.
pub open spec fn crash_rel(m: SplineMap, s: CarState, c: CarConfig, crashed: bool) -> bool {
    exists |b: Vec2, f: Vec2, bi: bool, fi: bool|
        #[trigger] back_point_rel(s, c, b)
        && #[trigger] front_point_rel(s, c, b, f)
        && #[trigger] point_in_rel(m, b, bi)
        && #[trigger] point_in_rel(m, f, fi)
        && crashed == (!bi || !fi)
        && (crashed ==> outside_samples(m, b) || outside_samples(m, f))
        && (!crashed ==> inside_witness(m, b) && inside_witness(m, f))
}

/// The marching step vector: the normalized direction scaled by a tenth of
/// the track width.
pub open spec fn ray_step_rel(m: SplineMap, dir: Vec2, step: Vec2) -> bool {
    exists |nd: Vec2| #[trigger] normalized_rel(dir, nd)
        && step.0 == fx_mul_of(nd.0 as int, fx_mul_of(m.width as int, FX_TENTH as int))
        && step.1 == fx_mul_of(nd.1 as int, fx_mul_of(m.width as int, FX_TENTH as int))
}

/// A point `j` whole steps plus a `t` fraction of a step along a ray.
pub open spec fn ray_point_rel(origin: Vec2, step: Vec2, j: int, t: int, pt: Vec2) -> bool {
    &&& pt.0 == origin.0 + j * step.0 + fx_mul_of(step.0 as int, t)
    &&& pt.1 == origin.1 + j * step.1 + fx_mul_of(step.1 as int, t)
}

/// An outside-certified probe at fraction `hi` of step `j`, at most a
/// 1/256 step fraction (plus rounding) past `lo`.
pub open spec fn ray_edge_bracket(m: SplineMap, origin: Vec2, step: Vec2, j: int, lo: int)
    -> bool {
    exists |hi: int, q: Vec2|
        lo <= hi <= FX_ONE as int && hi - lo <= 16777218
        && #[trigger] ray_point_rel(origin, step, j, hi, q)
        && outside_samples(m, q)
}

/// What the ray query returns when the origin is inside: a point `j` whole
/// steps plus a `lo` fraction along the ray, certified inside the corridor,
/// with the reading measuring exactly that span at step scale; and either an
/// outside-certified probe brackets the edge within a 1/256 step fraction,
/// or the march was cut by its step cap or by the world box.
pub open spec fn ray_hit_rel(m: SplineMap, origin: Vec2, dir: Vec2, pt: Vec2, reading: int)
    -> bool {
    exists |step: Vec2, j: int, lo: int|
        #[trigger] ray_point_rel(origin, step, j, lo, pt)
        && ray_step_rel(m, dir, step)
        && 0 <= j <= RAY_CAP as int
        && 0 <= lo <= FX_ONE as int
        && reading == fx_mul_of(j * FX_ONE as int + lo,
            fx_mul_of(m.width as int, FX_TENTH as int))
        && inside_witness(m, pt)
        && (ray_edge_bracket(m, origin, step, j, lo)
            || j == RAY_CAP as int
            || fx_abs_of(origin.0 + (j + 1) * step.0) > FX_QUERY_MAX as int
            || fx_abs_of(origin.1 + (j + 1) * step.1) > FX_QUERY_MAX as int)
}

/// What one ray finally reads: zero range with the origin certified outside,
/// or a certified hit along the direction.
pub open spec fn ray_outcome_rel(m: SplineMap, origin: Vec2, d: Vec2, reading: int) -> bool {
    ||| (reading == 0 && outside_samples(m, origin))
    ||| exists |pt: Vec2| #[trigger] ray_hit_rel(m, origin, d, pt, reading)
}

/// What one LiDAR entry certifies: a direction that is the heading rotated
/// by the fan angle, and a ray outcome along it.
pub open spec fn lidar_reading_rel(m: SplineMap, s: CarState, angle: int, reading: int) -> bool {
    exists |d: Vec2| #[trigger] rotate_rel(s.unit_forward, angle, d)
        && ray_outcome_rel(m, s.position, d, reading)
}

impl SplineMap {
    /// Assemble a track from a spline and a width.
    pub fn new(spline: SmoothBezierSpline, width: i64) -> (r: SplineMap)
        requires
            spline_wf(spline),
            FX_WIDTH_MIN <= width <= FX_WIDTH_MAX,
        ensures
            map_wf(r),
            r.spline == spline,
            r.width == width,
    {
        proof {
            lemma_fx_mul_nonneg(width as int, width as int);
            lemma_fx_mul_bound(width as int, width as int, FX_WIDTH_MAX as int,
                FX_WIDTH_MAX as int);
        }
        let w2: i64 = fx_mul(width, width);
        let max_d2: i64 = ((w2 as u64) / 4u64) as i64;
        SplineMap { spline, width, max_d2 }
    }

    /// Whether a point lies strictly inside the track corridor.
    ///
    /// A true answer carries a witness parameter whose curve point is
    /// strictly closer than the half width; a false answer certifies that no
    /// grid sample of the spline is.
    pub fn point_inside(&self, point: Vec2) -> (r: bool)
        requires
            map_wf(*self),
            coords_bounded(point, FX_QUERY_MAX as int),
        ensures
            point_in_rel(*self, point, r),
            r ==> inside_witness(*self, point),
            !r ==> outside_samples(*self, point),
    {
        let cp: ClosestPointOutput = self.spline.closest_point(point);
        let r: bool = cp.distance_sq < self.max_d2;
        proof {
            assert(cp_rel(*self, point, cp.parameter as int, cp.distance_sq as int));
            assert(point_in_rel(*self, point, r));
            if r {
                assert(dist_sq_of(point, spline_at(self.spline, cp.parameter as int))
                    < self.max_d2);
            } else {
                assert forall |j: int, i: int|
                    0 <= j < self.spline.segments@.len() && 0 <= i <= 32
                    implies dist_sq_of(point,
                        #[trigger] bez_at(self.spline.segments@[j], grid_t(i)))
                        >= self.max_d2 by {
                    assert(cp.distance_sq
                        <= dist_sq_of(point, bez_at(self.spline.segments@[j], grid_t(i))));
                }
            }
        }
        r
    }

    /// Whether the car has left the track: true when the back or the front
    /// reference point of the chassis is not inside the corridor.
    pub fn is_crashed(&self, state: &CarState, config: &CarConfig) -> (r: bool)
        requires
            map_wf(*self),
            cfg_wf(*config),
            state_wf(*state, *config),
        ensures
            crash_rel(*self, *state, *config, r),
    {
        proof {
            lemma_fx_mul_bound(state.unit_forward.0 as int, config.back_axle as int,
                FX_ONE as int + 2, 1099511627776int);
            lemma_fx_mul_bound(state.unit_forward.1 as int, config.back_axle as int,
                FX_ONE as int + 2, 1099511627776int);
            lemma_fx_mul_bound(state.unit_forward.0 as int, config.length as int,
                FX_ONE as int + 2, 1099511627776int);
            lemma_fx_mul_bound(state.unit_forward.1 as int, config.length as int,
                FX_ONE as int + 2, 1099511627776int);
        }
        let axle: Vec2 = state.unit_forward.scale(config.back_axle);
        let back: Vec2 = state.position.minus(axle);
        let body: Vec2 = state.unit_forward.scale(config.length);
        let front: Vec2 = back.plus(body);
        let back_in: bool = self.point_inside(back);
        let front_in: bool = self.point_inside(front);
        let r: bool = !back_in || !front_in;
        proof {
            assert(back_point_rel(*state, *config, back));
            assert(front_point_rel(*state, *config, back, front));
            assert(point_in_rel(*self, back, back_in));
            assert(point_in_rel(*self, front, front_in));
            assert(crash_rel(*self, *state, *config, r));
        }
        r
    }
}

/// The distance travelled along a ray: whole steps plus a fraction, at step
/// scale.
fn reading_at(step_len: i64, j: usize, t: i64) -> (r: i64)
    requires
        0 <= step_len <= 110000000000,
        j <= RAY_CAP,
        0 <= t <= FX_ONE,
    ensures
        r as int == fx_mul_of(j * FX_ONE as int + t, step_len as int),
        0 <= r <= 56500000000000int,
{
    let par: i64 = (j as i64) * FX_ONE + t;
    proof {
        lemma_fx_mul_bound(par as int, step_len as int, 2203318222848int, 110000000000int);
        lemma_fx_mul_nonneg(par as int, step_len as int);
    }
    fx_mul(par, step_len)
}

impl SplineMap {
    /// March along a ray until the track edge and narrow the crossing by
    /// bisection: returns the collision point and the distance travelled.
    ///
    /// An origin already outside the track reads zero range at the origin.
    /// Otherwise the result is a certified hit: the returned point is inside
    /// the corridor and, unless the march was cut by its step cap or the
    /// world box, an outside-certified probe lies at most a 1/256 step
    /// fraction further along the ray.
    fn ray_march(&self, origin: Vec2, direction: Vec2) -> (r: (Vec2, i64))
        requires
            map_wf(*self),
            coords_bounded(origin, FX_QUERY_MAX as int),
            coords_bounded(direction, 4 * FX_ONE as int + 2),
            norm_sq_raw(direction) >= 2147483648int * 2147483648int,
        ensures
            0 <= r.1 <= 56500000000000int,
            (r.0 == origin && r.1 == 0 && outside_samples(*self, origin))
                || ray_hit_rel(*self, origin, direction, r.0, r.1 as int),
            !inside_witness(*self, origin) ==> r.0 == origin && r.1 == 0,
    {
        proof {
            lemma_fx_mul_bound(self.width as int, FX_TENTH as int, FX_WIDTH_MAX as int,
                FX_TENTH as int);
            lemma_fx_mul_nonneg(self.width as int, FX_TENTH as int);
        }
        let step_len: i64 = fx_mul(self.width, FX_TENTH);
        let nd: Vec2 = direction.normalized();
        proof {
            lemma_fx_mul_bound(nd.0 as int, step_len as int, FX_ONE as int + 2, 110000000000int);
            lemma_fx_mul_bound(nd.1 as int, step_len as int, FX_ONE as int + 2, 110000000000int);
        }
        let step: Vec2 = nd.scale(step_len);
        proof {
            assert(ray_step_rel(*self, direction, step));
            lemma_fx_mul_by_zero_right(step.0 as int);
            lemma_fx_mul_by_zero_right(step.1 as int);
        }
        if !self.point_inside(origin) {
            return (origin, 0);
        }
        let mut p: Vec2 = origin;
        let mut steps: usize = 0;
        while steps < RAY_CAP
            invariant
                map_wf(*self),
                coords_bounded(origin, FX_QUERY_MAX as int),
                steps <= RAY_CAP,
                ray_step_rel(*self, direction, step),
                step_len as int == fx_mul_of(self.width as int, FX_TENTH as int),
                0 <= step_len <= 110000000000,
                fx_abs_of(step.0 as int) <= 110000000100int,
                fx_abs_of(step.1 as int) <= 110000000100int,
                p.0 == origin.0 + steps * step.0,
                p.1 == origin.1 + steps * step.1,
                coords_bounded(p, FX_QUERY_MAX as int),
                inside_witness(*self, origin),
                inside_witness(*self, p),
            decreases RAY_CAP - steps,
        {
            let next: Vec2 = p.plus(step);
            proof {
                assert(next.0 == origin.0 + (steps + 1) * step.0) by (nonlinear_arith)
                    requires
                        next.0 == p.0 + step.0,
                        p.0 == origin.0 + steps * step.0,
                ;
                assert(next.1 == origin.1 + (steps + 1) * step.1) by (nonlinear_arith)
                    requires
                        next.1 == p.1 + step.1,
                        p.1 == origin.1 + steps * step.1,
                ;
            }
            if next.0 > FX_QUERY_MAX || next.0 < -FX_QUERY_MAX || next.1 > FX_QUERY_MAX
                || next.1 < -FX_QUERY_MAX {
                // The ray reached the world box: stop at the last anchor.
                let reading: i64 = reading_at(step_len, steps, 0);
                proof {
                    lemma_fx_mul_by_zero_right(step.0 as int);
                    lemma_fx_mul_by_zero_right(step.1 as int);
                    assert(ray_point_rel(origin, step, steps as int, 0, p));
                    assert(ray_hit_rel(*self, origin, direction, p, reading as int));
                    lemma_reading_positive(steps as int, 0, step_len as int, reading as int);
                }
                return (p, reading);
            }
            if !self.point_inside(next) {
                // The edge is crossed within this step: bisect the fraction.
                proof {
                    lemma_fx_mul_by_zero_right(step.0 as int);
                    lemma_fx_mul_by_zero_right(step.1 as int);
                    lemma_fx_mul_by_one_right(step.0 as int);
                    lemma_fx_mul_by_one_right(step.1 as int);
                    assert(ray_point_rel(origin, step, steps as int, 0, p));
                    assert(ray_point_rel(origin, step, steps as int, FX_ONE as int, next));
                }
                let mut lo: i64 = 0;
                let mut hi: i64 = FX_ONE;
                let mut it: usize = 0;
                while it < 8
                    invariant
                        0 <= lo <= hi <= FX_ONE,
                        it <= 8,
                        map_wf(*self),
                        coords_bounded(p, FX_QUERY_MAX as int),
                        fx_abs_of(step.0 as int) <= 110000000100int,
                        fx_abs_of(step.1 as int) <= 110000000100int,
                        fx_abs_of(p.0 as int + step.0 as int) <= FX_QUERY_MAX as int,
                        fx_abs_of(p.1 as int + step.1 as int) <= FX_QUERY_MAX as int,
                        p.0 == origin.0 + steps * step.0,
                        p.1 == origin.1 + steps * step.1,
                        hi - lo <= shrunk(FX_ONE as int, it as nat),
                        exists |q: Vec2|
                            #[trigger] ray_point_rel(origin, step, steps as int, lo as int, q)
                            && inside_witness(*self, q),
                        exists |q: Vec2|
                            #[trigger] ray_point_rel(origin, step, steps as int, hi as int, q)
                            && outside_samples(*self, q),
                    decreases 8 - it,
                {
                    let ghost w = hi as int - lo as int;
                    let mid: i64 = lo + (((hi - lo) as u64) / 2u64) as i64;
                    proof {
                        assert(mid as int - lo as int == tdiv(w, 2));
                        lemma_ceil_half(w, shrunk(FX_ONE as int, it as nat));
                        lemma_fx_mul_between(step.0 as int, mid as int);
                        lemma_fx_mul_between(step.1 as int, mid as int);
                    }
                    let probe: Vec2 = Vec2(p.0 + fx_mul(step.0, mid), p.1 + fx_mul(step.1, mid));
                    proof {
                        assert(ray_point_rel(origin, step, steps as int, mid as int, probe));
                        assert(shrunk(FX_ONE as int, (it + 1) as nat)
                            == ceil_half(shrunk(FX_ONE as int, it as nat)));
                    }
                    if self.point_inside(probe) {
                        lo = mid;
                    } else {
                        hi = mid;
                    }
                    it = it + 1;
                }
                proof {
                    lemma_fx_mul_between(step.0 as int, lo as int);
                    lemma_fx_mul_between(step.1 as int, lo as int);
                    lemma_shrunk_bound(FX_ONE as int, 8);
                    assert(vstd::arithmetic::power2::pow2(8) == 256) by {
                        vstd::arithmetic::power2::lemma2_to64();
                    }
                    assert(hi as int - lo as int <= 16777218);
                }
                let hit: Vec2 = Vec2(p.0 + fx_mul(step.0, lo), p.1 + fx_mul(step.1, lo));
                let reading: i64 = reading_at(step_len, steps, lo);
                proof {
                    assert(ray_point_rel(origin, step, steps as int, lo as int, hit));
                    // The inside certificate transfers to the returned point,
                    // which is the unique point at this ray position.
                    let q_in = choose |q: Vec2|
                        #[trigger] ray_point_rel(origin, step, steps as int, lo as int, q)
                        && inside_witness(*self, q);
                    assert(q_in.0 == hit.0 && q_in.1 == hit.1);
                    assert(q_in == hit);
                    assert(ray_edge_bracket(*self, origin, step, steps as int, lo as int));
                    assert(ray_hit_rel(*self, origin, direction, hit, reading as int));
                    lemma_reading_positive(steps as int, lo as int, step_len as int,
                        reading as int);
                }
                return (hit, reading);
            }
            p = next;
            steps = steps + 1;
        }
        // The cap was reached without leaving the corridor.
        let reading: i64 = reading_at(step_len, steps, 0);
        proof {
            lemma_fx_mul_by_zero_right(step.0 as int);
            lemma_fx_mul_by_zero_right(step.1 as int);
            assert(ray_point_rel(origin, step, steps as int, 0, p));
            assert(ray_hit_rel(*self, origin, direction, p, reading as int));
            lemma_reading_positive(steps as int, 0, step_len as int, reading as int);
        }
        (p, reading)
    }

    /// The first intersection of a ray with the track edge.
    ///
    /// An origin certified outside the track returns the origin itself;
    /// otherwise the result is a certified hit along the direction.
    pub fn ray_collision(&self, point: Vec2, direction: Vec2) -> (r: Vec2)
        requires
            map_wf(*self),
            coords_bounded(point, FX_QUERY_MAX as int),
            coords_bounded(direction, 4 * FX_ONE as int + 2),
            norm_sq_raw(direction) >= 2147483648int * 2147483648int,
        ensures
            (r == point && outside_samples(*self, point))
                || exists |reading: int|
                    #[trigger] ray_hit_rel(*self, point, direction, r, reading),
            !inside_witness(*self, point) ==> r == point,
    {
        let (pt, reading): (Vec2, i64) = self.ray_march(point, direction);
        proof {
            if !(pt == point && reading == 0 && outside_samples(*self, point)) {
                assert(ray_hit_rel(*self, point, direction, pt, reading as int));
            }
        }
        pt
    }

    /// The LiDAR readings of a car state: for each fan angle, the heading is
    /// rotated by that angle and the distance to the track edge along the
    /// ray is measured. Every entry carries a per-ray certificate and is
    /// nonnegative and bounded.
    pub fn read_lidar(&self, state: &CarState, lidar: &LidarArray) -> (r: Vec<i64>)
        requires
            map_wf(*self),
            lidar_wf(*lidar),
            coords_bounded(state.position, FX_QUERY_MAX as int),
            unit_band(state.unit_forward),
            coords_bounded(state.unit_forward, FX_ONE as int + 2),
        ensures
            r@.len() == lidar.angles@.len(),
            forall |i: int| 0 <= i < r@.len() ==> 0 <= #[trigger] r@[i] <= 56500000000000int,
            forall |i: int| 0 <= i < r@.len()
                ==> #[trigger] lidar_reading_rel(*self, *state, lidar.angles@[i] as int,
                    r@[i] as int),
    {
        let angles: &Vec<i64> = lidar.get_angles();
        let n: usize = angles.len();
        let mut out: Vec<i64> = Vec::new();
        let mut i: usize = 0;
        while i < n
            invariant
                0 <= i <= n,
                n == lidar.angles@.len(),
                angles@ == lidar.angles@,
                map_wf(*self),
                lidar_wf(*lidar),
                coords_bounded(state.position, FX_QUERY_MAX as int),
                unit_band(state.unit_forward),
                coords_bounded(state.unit_forward, FX_ONE as int + 2),
                out@.len() == i as int,
                forall |k: int| 0 <= k < i ==> 0 <= #[trigger] out@[k] <= 56500000000000int,
                forall |k: int| 0 <= k < i
                    ==> #[trigger] lidar_reading_rel(*self, *state, lidar.angles@[k] as int,
                        out@[k] as int),
            decreases n - i,
        {
            let angle: i64 = *angles.get(i).unwrap();
            let direction: Vec2 = state.unit_forward.rotate(angle);
            proof {
                lemma_rot_band_long(direction);
            }
            let (pt, reading): (Vec2, i64) = self.ray_march(state.position, direction);
            proof {
                if pt == state.position && reading == 0
                    && outside_samples(*self, state.position) {
                    assert(ray_outcome_rel(*self, state.position, direction, reading as int));
                } else {
                    assert(ray_hit_rel(*self, state.position, direction, pt, reading as int));
                    assert(ray_outcome_rel(*self, state.position, direction, reading as int));
                }
                assert(lidar_reading_rel(*self, *state, angle as int, reading as int));
            }
            out.push(reading);
            i = i + 1;
        }
        out
    }
}

/// Multiplying by the full fraction is the identity.
proof fn lemma_fx_mul_by_one_right(a: int)
    by (nonlinear_arith)
    ensures
        fx_mul_of(a, FX_ONE as int) == a,
{
}

/// A reading over a positive span is positive exactly when the span is.
proof fn lemma_reading_positive(j: int, t: int, step_len: int, reading: int)
    requires
        reading == fx_mul_of(j * FX_ONE as int + t, step_len),
        0 <= j,
        0 <= t,
        0 <= step_len,
    ensures
        reading >= 0,
{
    assert(j * FX_ONE as int >= 0) by (nonlinear_arith)
        requires
            j >= 0,
    ;
    lemma_fx_mul_nonneg(j * FX_ONE as int + t, step_len);
}

/// A rotated unit-band vector is long enough for the ray query.
proof fn lemma_rot_band_long(v: Vec2)
    requires
        crate::vec2::rot_band(v),
    ensures
        norm_sq_raw(v) >= 2147483648int * 2147483648int,
{
    assert(FX_ONE as int * FX_ONE as int - 64 * FX_ONE as int
        >= 2147483648int * 2147483648int) by (nonlinear_arith);
}

/// Multiplying by a zero fraction gives zero.
proof fn lemma_fx_mul_by_zero_right(a: int)
    by (nonlinear_arith)
    ensures
        fx_mul_of(a, 0) == 0,
{
}

/// A zero span reads zero.
proof fn lemma_fx_mul_zero_left(b: int)
    by (nonlinear_arith)
    ensures
        fx_mul_of(0, b) == 0,
{
}

/// Push one control onto a list.
fn ctl(cs: &mut Vec<BezierControl>, px: i64, py: i64, vx: i64, vy: i64)
    requires
        fx_abs_of(px as int) <= crate::spline::FX_POINT_MAX as int,
        fx_abs_of(py as int) <= crate::spline::FX_POINT_MAX as int,
        fx_abs_of(vx as int) <= crate::spline::FX_HANDLE_MAX as int,
        fx_abs_of(vy as int) <= crate::spline::FX_HANDLE_MAX as int,
    ensures
        final(cs)@.len() == old(cs)@.len() + 1,
        forall |k: int| 0 <= k < old(cs)@.len() ==> #[trigger] final(cs)@[k] == old(cs)@[k],
        final(cs)@[old(cs)@.len() as int].point == Vec2(px, py),
        final(cs)@[old(cs)@.len() as int].velocity == Vec2(vx, vy),
        coords_bounded(final(cs)@[old(cs)@.len() as int].point,
            crate::spline::FX_POINT_MAX as int),
        coords_bounded(final(cs)@[old(cs)@.len() as int].velocity,
            crate::spline::FX_HANDLE_MAX as int),
{
    cs.push(BezierControl { point: Vec2(px, py), velocity: Vec2(vx, vy) });
}

/// The controls the oval track is built from.
pub open spec fn oval_controls() -> Seq<BezierControl> {
    seq![
        BezierControl { point: Vec2(0i64, 0i64), velocity: Vec2(25769803776i64, 0i64) },
        BezierControl { point: Vec2(42949672960i64, 42949672960i64), velocity: Vec2(0i64, 25769803776i64) },
        BezierControl { point: Vec2(0i64, 85899345920i64), velocity: Vec2(-25769803776i64, 0i64) },
        BezierControl { point: Vec2(-85899345920i64, 85899345920i64), velocity: Vec2(-25769803776i64, 0i64) },
        BezierControl { point: Vec2(-128849018880i64, 42949672960i64), velocity: Vec2(0i64, -25769803776i64) },
        BezierControl { point: Vec2(-85899345920i64, 0i64), velocity: Vec2(25769803776i64, 0i64) },
        BezierControl { point: Vec2(0i64, 0i64), velocity: Vec2(25769803776i64, 0i64) },
    ]
}

/// The controls the simple racetrack is built from.
pub open spec fn simple_racetrack_controls() -> Seq<BezierControl> {
    seq![
        BezierControl { point: Vec2(0i64, 0i64), velocity: Vec2(214748364800i64, -42949672960i64) },
        BezierControl { point: Vec2(375809638400i64, 214748364800i64), velocity: Vec2(0i64, 107374182400i64) },
        BezierControl { point: Vec2(214748364800i64, 644245094400i64), velocity: Vec2(-171798691840i64, 42949672960i64) },
        BezierControl { point: Vec2(-107374182400i64, 429496729600i64), velocity: Vec2(0i64, -171798691840i64) },
        BezierControl { point: Vec2(214748364800i64, 322122547200i64), velocity: Vec2(107374182400i64, -107374182400i64) },
        BezierControl { point: Vec2(0i64, 214748364800i64), velocity: Vec2(-85899345920i64, 0i64) },
        BezierControl { point: Vec2(0i64, 0i64), velocity: Vec2(214748364800i64, -42949672960i64) },
    ]
}

/// The controls the long racetrack is built from.
pub open spec fn racetrack_controls() -> Seq<BezierControl> {
    seq![
        BezierControl { point: Vec2(0i64, 0i64), velocity: Vec2(-128849018880i64, 17179869184i64) },
        BezierControl { point: Vec2(-723272492646i64, 105226698752i64), velocity: Vec2(-128849018880i64, 17179869184i64) },
        BezierControl { point: Vec2(-1056561954816i64, 157195803034i64), velocity: Vec2(-25769803776i64, 25769803776i64) },
        BezierControl { point: Vec2(-1116691496960i64, 290339789210i64), velocity: Vec2(-25769803776i64, 25769803776i64) },
        BezierControl { point: Vec2(-1271310319616i64, 333289462170i64), velocity: Vec2(-34359738368i64, 34359738368i64) },
        BezierControl { point: Vec2(-1471026298880i64, 827210701210i64), velocity: Vec2(-34359738368i64, 128849018880i64) },
        BezierControl { point: Vec2(-1567663063040i64, 1291067169178i64), velocity: Vec2(-34359738368i64, 68719476736i64) },
        BezierControl { point: Vec2(-1793148846080i64, 1721422892237i64), velocity: Vec2(-8589934592i64, 68719476736i64) },
        BezierControl { point: Vec2(-1726576852992i64, 1879477688730i64), velocity: Vec2(42949672960i64, 34359738368i64) },
        BezierControl { point: Vec2(-1464583847936i64, 1913837427098i64), velocity: Vec2(103079215104i64, -42949672960i64) },
        BezierControl { point: Vec2(-811748818944i64, 1578829978010i64), velocity: Vec2(137438953472i64, -77309411328i64) },
        BezierControl { point: Vec2(-243954142413i64, 1190564934451i64), velocity: Vec2(51539607552i64, -17179869184i64) },
        BezierControl { point: Vec2(188978561024i64, 1102088608154i64), velocity: Vec2(34359738368i64, -12884901888i64) },
        BezierControl { point: Vec2(287762808832i64, 947469785498i64), velocity: Vec2(0i64, -85899345920i64) },
        BezierControl { point: Vec2(141733920768i64, 784261028250i64), velocity: Vec2(-60129542144i64, -17179869184i64) },
        BezierControl { point: Vec2(-240947665306i64, 837089125990i64), velocity: Vec2(-81604378624i64, 42949672960i64) },
        BezierControl { point: Vec2(-633507676160i64, 1082331758592i64), velocity: Vec2(-64424509440i64, 17179869184i64) },
        BezierControl { point: Vec2(-760638708122i64, 1069876353434i64), velocity: Vec2(-30064771072i64, -17179869184i64) },
        BezierControl { point: Vec2(-834512145613i64, 974528079462i64), velocity: Vec2(-12884901888i64, -42949672960i64) },
        BezierControl { point: Vec2(-845249563853i64, 630930695782i64), velocity: Vec2(17179869184i64, -38654705664i64) },
        BezierControl { point: Vec2(-691489734656i64, 509383121306i64), velocity: Vec2(68719476736i64, 0i64) },
        BezierControl { point: Vec2(-512389598413i64, 567365179802i64), velocity: Vec2(34359738368i64, 17179869184i64) },
        BezierControl { point: Vec2(-305801671475i64, 623199754650i64), velocity: Vec2(64424509440i64, 0i64) },
        BezierControl { point: Vec2(-139586437120i64, 580679578419i64), velocity: Vec2(34359738368i64, -13743895347i64) },
        BezierControl { point: Vec2(672591878554i64, 246101626061i64), velocity: Vec2(34359738368i64, -13743895347i64) },
        BezierControl { point: Vec2(756773237555i64, 145599391334i64), velocity: Vec2(0i64, -64424509440i64) },
        BezierControl { point: Vec2(656271002829i64, -13314398618i64), velocity: Vec2(-51539607552i64, -25769803776i64) },
        BezierControl { point: Vec2(436798174003i64, -58841051955i64), velocity: Vec2(-51539607552i64, 0i64) },
        BezierControl { point: Vec2(0i64, 0i64), velocity: Vec2(-128849018880i64, 17179869184i64) },
    ]
}

/// The oval test track: a closed loop about fifty units long, eight wide.
pub fn make_oval() -> (r: SplineMap)
    ensures
        map_wf(r),
        r.width == 34359738368,
        crate::spline::built_from(r.spline, oval_controls()),
{
    let mut cs: Vec<BezierControl> = Vec::new();
    ctl(&mut cs, 0, 0, 25769803776, 0);
    ctl(&mut cs, 42949672960, 42949672960, 0, 25769803776);
    ctl(&mut cs, 0, 85899345920, -25769803776, 0);
    ctl(&mut cs, -85899345920, 85899345920, -25769803776, 0);
    ctl(&mut cs, -128849018880, 42949672960, 0, -25769803776);
    ctl(&mut cs, -85899345920, 0, 25769803776, 0);
    ctl(&mut cs, 0, 0, 25769803776, 0);
    proof {
        assert(cs@ =~= oval_controls());
    }
    let spline: SmoothBezierSpline = SmoothBezierSpline::new(cs);
    SplineMap::new(spline, 34359738368)
}

/// A simple closed racetrack with one tight pocket, ten units wide.
pub fn make_simple_racetrack() -> (r: SplineMap)
    ensures
        map_wf(r),
        r.width == 42949672960,
        crate::spline::built_from(r.spline, simple_racetrack_controls()),
{
    let mut cs: Vec<BezierControl> = Vec::new();
    ctl(&mut cs, 0, 0, 214748364800, -42949672960);
    ctl(&mut cs, 375809638400, 214748364800, 0, 107374182400);
    ctl(&mut cs, 214748364800, 644245094400, -171798691840, 42949672960);
    ctl(&mut cs, -107374182400, 429496729600, 0, -171798691840);
    ctl(&mut cs, 214748364800, 322122547200, 107374182400, -107374182400);
    ctl(&mut cs, 0, 214748364800, -85899345920, 0);
    ctl(&mut cs, 0, 0, 214748364800, -42949672960);
    proof {
        assert(cs@ =~= simple_racetrack_controls());
    }
    let spline: SmoothBezierSpline = SmoothBezierSpline::new(cs);
    SplineMap::new(spline, 42949672960)
}

/// The long closed racetrack the training environment runs on, ten units
/// wide.
#[verifier::rlimit(100)]
pub fn make_racetrack() -> (r: SplineMap)
    ensures
        map_wf(r),
        r.width == 42949672960,
        crate::spline::built_from(r.spline, racetrack_controls()),
{
    let mut cs: Vec<BezierControl> = Vec::new();
    ctl(&mut cs, 0, 0, -128849018880, 17179869184);
    ctl(&mut cs, -723272492646, 105226698752, -128849018880, 17179869184);
    ctl(&mut cs, -1056561954816, 157195803034, -25769803776, 25769803776);
    ctl(&mut cs, -1116691496960, 290339789210, -25769803776, 25769803776);
    ctl(&mut cs, -1271310319616, 333289462170, -34359738368, 34359738368);
    ctl(&mut cs, -1471026298880, 827210701210, -34359738368, 128849018880);
    ctl(&mut cs, -1567663063040, 1291067169178, -34359738368, 68719476736);
    ctl(&mut cs, -1793148846080, 1721422892237, -8589934592, 68719476736);
    ctl(&mut cs, -1726576852992, 1879477688730, 42949672960, 34359738368);
    ctl(&mut cs, -1464583847936, 1913837427098, 103079215104, -42949672960);
    ctl(&mut cs, -811748818944, 1578829978010, 137438953472, -77309411328);
    ctl(&mut cs, -243954142413, 1190564934451, 51539607552, -17179869184);
    ctl(&mut cs, 188978561024, 1102088608154, 34359738368, -12884901888);
    ctl(&mut cs, 287762808832, 947469785498, 0, -85899345920);
    ctl(&mut cs, 141733920768, 784261028250, -60129542144, -17179869184);
    ctl(&mut cs, -240947665306, 837089125990, -81604378624, 42949672960);
    ctl(&mut cs, -633507676160, 1082331758592, -64424509440, 17179869184);
    ctl(&mut cs, -760638708122, 1069876353434, -30064771072, -17179869184);
    ctl(&mut cs, -834512145613, 974528079462, -12884901888, -42949672960);
    ctl(&mut cs, -845249563853, 630930695782, 17179869184, -38654705664);
    ctl(&mut cs, -691489734656, 509383121306, 68719476736, 0);
    ctl(&mut cs, -512389598413, 567365179802, 34359738368, 17179869184);
    ctl(&mut cs, -305801671475, 623199754650, 64424509440, 0);
    ctl(&mut cs, -139586437120, 580679578419, 34359738368, -13743895347);
    ctl(&mut cs, 672591878554, 246101626061, 34359738368, -13743895347);
    ctl(&mut cs, 756773237555, 145599391334, 0, -64424509440);
    ctl(&mut cs, 656271002829, -13314398618, -51539607552, -25769803776);
    ctl(&mut cs, 436798174003, -58841051955, -51539607552, 0);
    ctl(&mut cs, 0, 0, -128849018880, 17179869184);
    proof {
        assert(cs@ =~= racetrack_controls());
    }
    let spline: SmoothBezierSpline = SmoothBezierSpline::new(cs);
    SplineMap::new(spline, 42949672960)
}

} // verus!
