//! The consumer-facing racing environment.
//!
//! Wraps the simulator on the shipped racetrack, decodes action bytes,
//! assembles flat observations, and exports the road edges and the car
//! geometry for rendering front-ends.

use vstd::prelude::*;
use crate::fx::{FX_ONE, tdiv, fx_abs_of, fx_mul_of, fx_mul, fx_div_clamp, lemma_fx_mul_bound};
use crate::vec2::{
    Vec2, coords_bounded, norm_sq_raw, normalized_rel, rotate_rel, lemma_rotate_rel_unique,
};
use crate::spline::{SmoothBezierSpline, spline_at, spline_vel_at, built_from};
use crate::physics::{
    CarConfig, CarState, FX_DT_MAX, update_rel, default_car_config, default_car_state,
};
use crate::map::{
    SplineMap, make_racetrack, racetrack_controls, crash_rel, lidar_reading_rel,
    ray_outcome_rel,
};
use crate::gym::{
    Action, InvalidActionError, SimConfig, Simulator, TransitionObservation, StateObservation,
    sim_wf, input_of, reward_rel, fx_min_int, FX_T_CAP, FX_COEFF_MAX, FX_REWARD_CAP,
};

verus! {

/// Sampled left and right road edges, as parallel coordinate lists.
#[derive(Debug)]
pub struct SplineRoadExport {
    pub left_x: Vec<i64>,
    pub left_y: Vec<i64>,
    pub right_x: Vec<i64>,
    pub right_y: Vec<i64>,
}

/// The car chassis corners and the LiDAR ray endpoints, for rendering.
#[derive(Debug)]
pub struct CarGraphicsExport {
    pub car_x: (i64, i64, i64, i64),
    pub car_y: (i64, i64, i64, i64),
    pub lidar_center: (i64, i64),
    pub lidar_x: Vec<i64>,
    pub lidar_y: Vec<i64>,
}

/// Largest number of samples one road export will produce.
pub const MAX_EXPORT: usize = 8192;

/// The chassis corners, in the order back-left, front-left, front-right,
/// back-right: the back center sits a back-axle length behind the position,
/// the half-lateral is a fifth of the car length to each side, and the front
/// corners are a car length ahead.
pub open spec fn car_corners_rel(s: CarState, c: CarConfig, xs: (i64, i64, i64, i64),
    ys: (i64, i64, i64, i64)) -> bool {
    let bcx = s.position.0 - fx_mul_of(s.unit_forward.0 as int, c.back_axle as int);
    let bcy = s.position.1 - fx_mul_of(s.unit_forward.1 as int, c.back_axle as int);
    let bodyx = fx_mul_of(s.unit_forward.0 as int, c.length as int);
    let bodyy = fx_mul_of(s.unit_forward.1 as int, c.length as int);
    let hw = fx_mul_of(c.length as int, 858993459);
    let hlx = fx_mul_of(-s.unit_forward.1 as int, hw);
    let hly = fx_mul_of(s.unit_forward.0 as int, hw);
    &&& xs.0 == bcx + hlx && ys.0 == bcy + hly
    &&& xs.1 == bcx + hlx + bodyx && ys.1 == bcy + hly + bodyy
    &&& xs.2 == bcx - hlx + bodyx && ys.2 == bcy - hly + bodyy
    &&& xs.3 == bcx - hlx && ys.3 == bcy - hly
}

/// One rendered LiDAR endpoint: the position plus the certified ray reading
/// resolved along the certified ray direction.
pub open spec fn lidar_tip_rel(m: SplineMap, s: CarState, angle: int, x: int, y: int) -> bool {
    exists |d: Vec2, reading: int|
        #[trigger] rotate_rel(s.unit_forward, angle, d)
        && ray_outcome_rel(m, s.position, d, reading)
        && x == s.position.0 + #[trigger] fx_mul_of(d.0 as int, reading)
        && y == s.position.1 + fx_mul_of(d.1 as int, reading)
}

/// The lateral offset one road-edge sample uses: zero where the velocity is
/// too short to normalize, else the left normal of the unit tangent scaled
/// by half the width.
pub open spec fn lateral_rel(sp: SmoothBezierSpline, width: int, u: int, latx: int, laty: int)
    -> bool {
    ||| (norm_sq_raw(spline_vel_at(sp, u)) < 2147483648int * 2147483648int
        && latx == 0 && laty == 0)
    ||| exists |tang: Vec2| #[trigger] normalized_rel(spline_vel_at(sp, u), tang)
        && latx == fx_mul_of(-tang.1 as int, tdiv(width, 2))
        && laty == fx_mul_of(tang.0 as int, tdiv(width, 2))
}

/// One road-edge sample: the curve point at some parameter, displaced by the
/// lateral offset to the left and to the right.
pub open spec fn road_edge_rel(sp: SmoothBezierSpline, width: int, lx: int, ly: int, rx: int,
    ry: int) -> bool {
    exists |u: int, latx: int, laty: int|
        0 <= u <= sp.max_u
        && #[trigger] lateral_rel(sp, width, u, latx, laty)
        && lx == spline_at(sp, u).0 + latx && ly == spline_at(sp, u).1 + laty
        && rx == spline_at(sp, u).0 - latx && ry == spline_at(sp, u).1 - laty
}

/// The action byte an action decodes from.
pub open spec fn action_of(value: u8) -> Action {
    if value == 0 {
        Action::Left
    } else if value == 1 {
        Action::Right
    } else if value == 2 {
        Action::Accelerate
    } else if value == 3 {
        Action::Brake
    } else {
        Action::Coast
    }
}

/// The simulator on the shipped racetrack, with observation flags.
pub struct RacingEnv {
    pub sim: Simulator,
    pub observe_delta: bool,
    pub observe_speed: bool,
}

/// Well-formedness of the environment.
pub open spec fn env_wf(e: RacingEnv) -> bool {
    sim_wf(e.sim)
}

impl RacingEnv {
    /// Build the environment on the shipped racetrack, overriding the given
    /// configuration entries; the car starts from the default state.
    pub fn new(
        dt: Option<i64>,
        crash_reward: Option<i64>,
        travel_coeff: Option<i64>,
        center_coeff: Option<i64>,
        center_integral_coeff: Option<i64>,
        observe_delta: bool,
        observe_speed: bool,
    ) -> (r: RacingEnv)
        requires
            match dt {
                Some(d) => 0 < d <= FX_DT_MAX,
                None => true,
            },
            match crash_reward {
                Some(v) => fx_abs_of(v as int) <= FX_REWARD_CAP as int,
                None => true,
            },
            match travel_coeff {
                Some(v) => fx_abs_of(v as int) <= FX_COEFF_MAX as int,
                None => true,
            },
            match center_coeff {
                Some(v) => fx_abs_of(v as int) <= FX_COEFF_MAX as int,
                None => true,
            },
            match center_integral_coeff {
                Some(v) => fx_abs_of(v as int) <= FX_COEFF_MAX as int,
                None => true,
            },
        ensures
            env_wf(r),
            r.observe_delta == observe_delta,
            r.observe_speed == observe_speed,
            r.sim.t == 0 && r.sim.i == 0,
            r.sim.config.dt == (match dt {
                Some(d) => d as int,
                None => 858993459int,
            }),
            r.sim.config.reward.crash_reward == (match crash_reward {
                Some(v) => v as int,
                None => -429496729600int,
            }),
            r.sim.config.reward.travel_coeff == (match travel_coeff {
                Some(v) => v as int,
                None => 4294967296int,
            }),
            r.sim.config.reward.center_coeff == (match center_coeff {
                Some(v) => v as int,
                None => 8589934592int,
            }),
            r.sim.config.reward.center_integral_coeff == (match center_integral_coeff {
                Some(v) => v as int,
                None => 4294967296int,
            }),
            r.sim.config.car == default_car_config(),
            r.sim.config.lidar.angles@.len() == 19,
            r.sim.state == default_car_state(),
            r.sim.road.width == 42949672960,
            built_from(r.sim.road.spline, racetrack_controls()),
    {
        let mut config: SimConfig = SimConfig::default();
        match dt {
            Some(d) => {
                config.dt = d;
            },
            None => {},
        }
        match crash_reward {
            Some(v) => {
                config.reward.crash_reward = v;
            },
            None => {},
        }
        match travel_coeff {
            Some(v) => {
                config.reward.travel_coeff = v;
            },
            None => {},
        }
        match center_coeff {
            Some(v) => {
                config.reward.center_coeff = v;
            },
            None => {},
        }
        match center_integral_coeff {
            Some(v) => {
                config.reward.center_integral_coeff = v;
            },
            None => {},
        }
        let road = make_racetrack();
        let sim = Simulator::new(config, road);
        RacingEnv { sim, observe_delta, observe_speed }
    }

    /// Restore the default car state and zero the clock and step counter.
    pub fn reset(&mut self)
        requires
            env_wf(*old(self)),
        ensures
            env_wf(*final(self)),
            final(self).sim.t == 0 && final(self).sim.i == 0,
            final(self).sim.config == old(self).sim.config,
            final(self).sim.road == old(self).sim.road,
    {
        self.sim.reset();
    }

    /// Decode an action byte and advance the environment by one step.
    ///
    /// An action byte above four is rejected with the environment unchanged;
    /// otherwise the step runs and returns the reward and the crash flag.
    pub fn step(&mut self, action: u8) -> (r: Result<(i64, bool), InvalidActionError>)
        requires
            env_wf(*old(self)),
        ensures
            env_wf(*final(self)),
            action <= 4 ==> r is Ok,
            action > 4 ==> r is Err && *final(self) == *old(self),
            match r {
                Ok(p) => action <= 4
                    && update_rel(old(self).sim.state,
                        input_of(action_of(action), old(self).sim.config.car),
                        old(self).sim.config.dt as int, old(self).sim.config.car,
                        final(self).sim.state)
                    && crash_rel(old(self).sim.road, final(self).sim.state,
                        old(self).sim.config.car, p.1)
                    && reward_rel(old(self).sim.road, old(self).sim.config.reward,
                        old(self).sim.config.dt as int, old(self).sim.state.position,
                        final(self).sim.state.position, p.1, p.0 as int)
                    && final(self).sim.t == fx_min_int(old(self).sim.t
                        + old(self).sim.config.dt, FX_T_CAP as int),
                Err(e) => *final(self) == *old(self) && e.value == action && action > 4,
            },
    {
        let decoded: Result<Action, InvalidActionError> = Action::try_from(action);
        match decoded {
            Ok(a) => {
                proof {
                    assert(a == action_of(action));
                }
                let obs: TransitionObservation = self.sim.step(a);
                Ok((obs.reward, obs.done))
            },
            Err(e) => Err(e),
        }
    }

    /// The flat observation: the LiDAR readings, then the steering angle if
    /// enabled, then the speed if enabled.
    pub fn observe(&self) -> (r: Vec<i64>)
        requires
            env_wf(*self),
        ensures
            r@.len() == self.sim.config.lidar.angles@.len()
                + (if self.observe_delta { 1int } else { 0 })
                + (if self.observe_speed { 1int } else { 0 }),
            forall |i: int| 0 <= i < self.sim.config.lidar.angles@.len()
                ==> 0 <= #[trigger] r@[i] <= 56500000000000int,
            forall |i: int| 0 <= i < self.sim.config.lidar.angles@.len()
                ==> #[trigger] lidar_reading_rel(self.sim.road, self.sim.state,
                    self.sim.config.lidar.angles@[i] as int, r@[i] as int),
            self.observe_delta
                ==> r@[self.sim.config.lidar.angles@.len() as int]
                    == self.sim.state.steer_delta,
            self.observe_speed
                ==> r@[r@.len() - 1] == self.sim.state.speed,
    {
        let obs: StateObservation = self.sim.observe();
        let mut data: Vec<i64> = obs.lidar_readings;
        if self.observe_delta {
            data.push(obs.steer_delta);
        }
        if self.observe_speed {
            data.push(obs.speed);
        }
        data
    }

    /// The step length of the simulator.
    pub fn dt(&self) -> (r: i64)
        ensures
            r == self.sim.config.dt,
    {
        self.sim.config.dt
    }

    /// The simulator clock.
    pub fn t(&self) -> (r: i64)
        ensures
            r == self.sim.t,
    {
        self.sim.get_t()
    }

    /// The step counter.
    pub fn i(&self) -> (r: usize)
        ensures
            r == self.sim.i,
    {
        self.sim.get_i()
    }

    /// The length of the flat observation.
    pub fn observation_dim(&self) -> (r: usize)
        requires
            env_wf(*self),
        ensures
            r == self.sim.config.lidar.angles@.len()
                + (if self.observe_delta { 1int } else { 0 })
                + (if self.observe_speed { 1int } else { 0 }),
    {
        let base: usize = self.sim.config.lidar.n_angles();
        let d: usize = if self.observe_delta {
            1
        } else {
            0
        };
        let s: usize = if self.observe_speed {
            1
        } else {
            0
        };
        base + d + s
    }

    /// Sample the road edges at roughly arc-length-uniform spacing: the
    /// parameter advances by the target arc over the local speed, with one
    /// midpoint correction. The four returned coordinate lists have equal
    /// lengths.
    pub fn export_road(&self, n_segments: usize) -> (r: SplineRoadExport)
        requires
            env_wf(*self),
            1 <= n_segments,
        ensures
            r.left_x@.len() == r.left_y@.len(),
            r.left_x@.len() == r.right_x@.len(),
            r.left_x@.len() == r.right_y@.len(),
            1 <= r.left_x@.len() <= MAX_EXPORT,
            forall |k: int| 0 <= k < r.left_x@.len()
                ==> #[trigger] road_edge_rel(self.sim.road.spline, self.sim.road.width as int,
                    r.left_x@[k] as int, r.left_y@[k] as int, r.right_x@[k] as int,
                    r.right_y@[k] as int),
    {
        let road = &self.sim.road;
        let total: i64 = road.spline.total_length();
        let n64: i64 = if n_segments > 2147483647 {
            2147483647
        } else {
            n_segments as i64
        };
        let ds: i64 = ((total as u64) / (n64 as u64)) as i64;
        let half_width: i64 = ((road.width as u64) / 2u64) as i64;
        let mut left_x: Vec<i64> = Vec::new();
        let mut left_y: Vec<i64> = Vec::new();
        let mut right_x: Vec<i64> = Vec::new();
        let mut right_y: Vec<i64> = Vec::new();
        let mut u: i64 = 0;
        let mut count: usize = 0;
        while u < road.spline.max_u && count < MAX_EXPORT
            invariant
                env_wf(*self),
                road == &self.sim.road,
                0 <= u,
                count <= MAX_EXPORT,
                left_x@.len() == count as int,
                left_y@.len() == count as int,
                right_x@.len() == count as int,
                right_y@.len() == count as int,
                0 <= ds,
                half_width as int == tdiv(road.width as int, 2),
                0 <= half_width <= 549755813888int,
                count == 0 ==> u == 0,
                forall |k: int| 0 <= k < count
                    ==> #[trigger] road_edge_rel(self.sim.road.spline,
                        self.sim.road.width as int, left_x@[k] as int, left_y@[k] as int,
                        right_x@[k] as int, right_y@[k] as int),
            decreases MAX_EXPORT - count,
        {
            let v0: Vec2 = road.spline.velocity(u);
            let n0: i64 = v0.norm();
            let du0: i64 = if n0 > 0 {
                fx_div_clamp(ds, n0, 65536, FX_ONE)
            } else {
                FX_ONE
            };
            let u1: i64 = if u <= road.spline.max_u - du0 {
                u + du0
            } else {
                road.spline.max_u
            };
            let v1: Vec2 = road.spline.velocity(u1);
            proof {
                lemma_export_mid_bounds(v0, v1);
            }
            let vm: Vec2 = Vec2(fx_half_sum(v0.0, v1.0), fx_half_sum(v0.1, v1.1));
            let nm: i64 = vm.norm();
            let du: i64 = if nm > 0 {
                fx_div_clamp(ds, nm, 65536, FX_ONE)
            } else {
                FX_ONE
            };
            let center: Vec2 = road.spline.get(u);
            let lateral: Vec2 = if n0 >= 2147483648 {
                proof {
                    lemma_norm_floor(v0, n0 as int);
                }
                let tang: Vec2 = road.spline.tangent(u);
                let e_left: Vec2 = tang.rotate90();
                proof {
                    lemma_fx_mul_bound(e_left.0 as int, half_width as int, FX_ONE as int + 2,
                        549755813888int);
                    lemma_fx_mul_bound(e_left.1 as int, half_width as int, FX_ONE as int + 2,
                        549755813888int);
                }
                let lat: Vec2 = e_left.scale(half_width);
                proof {
                    assert(lateral_rel(road.spline, road.width as int, u as int,
                        lat.0 as int, lat.1 as int));
                }
                lat
            } else {
                proof {
                    assert(norm_sq_raw(v0) < 2147483648int * 2147483648int) by (nonlinear_arith)
                        requires
                            0 <= n0 < 2147483648,
                            norm_sq_raw(v0) < (n0 as int + 1) * (n0 as int + 1),
                    ;
                    assert(lateral_rel(road.spline, road.width as int, u as int, 0, 0));
                }
                Vec2(0, 0)
            };
            proof {
                assert(road_edge_rel(road.spline, road.width as int,
                    center.0 + lateral.0, center.1 + lateral.1,
                    center.0 - lateral.0, center.1 - lateral.1));
            }
            left_x.push(center.0 + lateral.0);
            left_y.push(center.1 + lateral.1);
            right_x.push(center.0 - lateral.0);
            right_y.push(center.1 - lateral.1);
            u = u + du;
            count = count + 1;
        }
        SplineRoadExport { left_x, left_y, right_x, right_y }
    }

    /// The chassis corners (back-left, front-left, front-right, back-right)
    /// and the LiDAR ray endpoints for the current state.
    pub fn graphics_state(&self) -> (r: CarGraphicsExport)
        requires
            env_wf(*self),
        ensures
            r.lidar_x@.len() == self.sim.config.lidar.angles@.len(),
            r.lidar_y@.len() == self.sim.config.lidar.angles@.len(),
            r.lidar_center.0 == self.sim.state.position.0,
            r.lidar_center.1 == self.sim.state.position.1,
            car_corners_rel(self.sim.state, self.sim.config.car, r.car_x, r.car_y),
            forall |i: int| 0 <= i < r.lidar_x@.len()
                ==> #[trigger] lidar_tip_rel(self.sim.road, self.sim.state,
                    self.sim.config.lidar.angles@[i] as int, r.lidar_x@[i] as int,
                    r.lidar_y@[i] as int),
    {
        let state = &self.sim.state;
        let config = &self.sim.config.car;
        let readings: Vec<i64> = self.sim.road.read_lidar(state, &self.sim.config.lidar);
        let angles: &Vec<i64> = self.sim.config.lidar.get_angles();
        let n: usize = angles.len();
        let mut lidar_x: Vec<i64> = Vec::new();
        let mut lidar_y: Vec<i64> = Vec::new();
        let mut i: usize = 0;
        while i < n
            invariant
                0 <= i <= n,
                env_wf(*self),
                state == &self.sim.state,
                n == self.sim.config.lidar.angles@.len(),
                angles@ == self.sim.config.lidar.angles@,
                readings@.len() == n as int,
                forall |k: int| 0 <= k < n
                    ==> 0 <= #[trigger] readings@[k] <= 56500000000000int,
                forall |k: int| 0 <= k < n
                    ==> #[trigger] lidar_reading_rel(self.sim.road, self.sim.state,
                        self.sim.config.lidar.angles@[k] as int, readings@[k] as int),
                lidar_x@.len() == i as int,
                lidar_y@.len() == i as int,
                forall |k: int| 0 <= k < i
                    ==> #[trigger] lidar_tip_rel(self.sim.road, self.sim.state,
                        self.sim.config.lidar.angles@[k] as int, lidar_x@[k] as int,
                        lidar_y@[k] as int),
            decreases n - i,
        {
            let angle: i64 = *angles.get(i).unwrap();
            let reading: i64 = *readings.get(i).unwrap();
            let direction: Vec2 = state.unit_forward.rotate(angle);
            proof {
                lemma_fx_mul_bound(direction.0 as int, reading as int,
                    4 * FX_ONE as int + 2, 56500000000000int);
                lemma_fx_mul_bound(direction.1 as int, reading as int,
                    4 * FX_ONE as int + 2, 56500000000000int);
            }
            let tip: Vec2 = direction.scale(reading);
            proof {
                // The reading's certified direction is this one: rotation
                // results are unique.
                assert(lidar_reading_rel(self.sim.road, self.sim.state, angle as int,
                    reading as int));
                let d0 = choose |d: Vec2|
                    #[trigger] rotate_rel(self.sim.state.unit_forward, angle as int, d)
                    && ray_outcome_rel(self.sim.road, self.sim.state.position, d,
                        reading as int);
                lemma_rotate_rel_unique(self.sim.state.unit_forward, angle as int, d0,
                    direction);
                assert(lidar_tip_rel(self.sim.road, self.sim.state, angle as int,
                    state.position.0 + tip.0, state.position.1 + tip.1));
            }
            lidar_x.push(state.position.0 + tip.0);
            lidar_y.push(state.position.1 + tip.1);
            i = i + 1;
        }
        // Chassis corners: back center, then half a car width to each side,
        // then the car length forward.
        proof {
            lemma_fx_mul_bound(state.unit_forward.0 as int, config.back_axle as int,
                FX_ONE as int + 2, 1099511627776int);
            lemma_fx_mul_bound(state.unit_forward.1 as int, config.back_axle as int,
                FX_ONE as int + 2, 1099511627776int);
            lemma_fx_mul_bound(state.unit_forward.0 as int, config.length as int,
                FX_ONE as int + 2, 1099511627776int);
            lemma_fx_mul_bound(state.unit_forward.1 as int, config.length as int,
                FX_ONE as int + 2, 1099511627776int);
        }
        let axle: Vec2 = state.unit_forward.scale(config.back_axle);
        let back_center: Vec2 = state.position.minus(axle);
        let body: Vec2 = state.unit_forward.scale(config.length);
        let e_left: Vec2 = state.unit_forward.rotate90();
        proof {
            lemma_fx_mul_bound(config.length as int, 858993459int, 1099511627776int,
                858993459int);
        }
        let half_w: i64 = fx_mul(config.length, 858993459);
        proof {
            lemma_fx_mul_bound(e_left.0 as int, half_w as int, FX_ONE as int + 2,
                219902325556int);
            lemma_fx_mul_bound(e_left.1 as int, half_w as int, FX_ONE as int + 2,
                219902325556int);
        }
        let half_lateral: Vec2 = e_left.scale(half_w);
        let back_left: Vec2 = back_center.plus(half_lateral);
        let back_right: Vec2 = back_center.minus(half_lateral);
        let front_left: Vec2 = back_left.plus(body);
        let front_right: Vec2 = back_right.plus(body);
        proof {
            assert(car_corners_rel(self.sim.state, self.sim.config.car,
                (back_left.0, front_left.0, front_right.0, back_right.0),
                (back_left.1, front_left.1, front_right.1, back_right.1)));
        }
        CarGraphicsExport {
            car_x: (back_left.0, front_left.0, front_right.0, back_right.0),
            car_y: (back_left.1, front_left.1, front_right.1, back_right.1),
            lidar_center: (state.position.0, state.position.1),
            lidar_x,
            lidar_y,
        }
    }
}

/// The midpoint components of two bounded velocity vectors stay bounded.
proof fn lemma_export_mid_bounds(v0: Vec2, v1: Vec2)
    requires
        coords_bounded(v0, 118747255799808int),
        coords_bounded(v1, 118747255799808int),
    ensures
        coords_bounded(v0, 120000000000000int),
        coords_bounded(v1, 120000000000000int),
{
}

/// The average of two bounded scalars, toward zero.
fn fx_half_sum(a: i64, b: i64) -> (r: i64)
    requires
        fx_abs_of(a as int) <= 118747255799808int,
        fx_abs_of(b as int) <= 118747255799808int,
    ensures
        fx_abs_of(r as int) <= 118747255799808int,
{
    let s: i64 = a + b;
    crate::fx::fx_half(s)
}

/// A norm at least half a unit means the raw squared norm is at least the
/// squared half unit.
proof fn lemma_norm_floor(v: Vec2, n: int)
    requires
        n * n <= norm_sq_raw(v),
        n >= 2147483648int,
    ensures
        norm_sq_raw(v) >= 2147483648int * 2147483648int,
{
    assert(n * n >= 2147483648int * 2147483648int) by (nonlinear_arith)
        requires
            n >= 2147483648int,
    ;
}

} // verus!
