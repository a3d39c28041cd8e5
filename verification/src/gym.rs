//! The reinforcement-learning environment around the car and the track.
//!
//! A step decodes a discrete action into a control input, advances the car,
//! tests the crash predicate, and pays a shaped reward: signed arc-length
//! progress (wrapped around the loop), a centering improvement term, an
//! off-center integral penalty, and a terminal crash penalty.

use vstd::prelude::*;
use crate::fx::{tdiv, fx_abs_of, fx_mul_of, fx_clamp_of, fx_mul_clamp, fx_min};
use crate::vec2::{Vec2, coords_bounded};
use crate::bezier::{FX_QUERY_MAX, ClosestPointOutput};
use crate::physics::{
    CarConfig, CarState, CarInput, FX_DT_MAX, cfg_wf, state_wf, input_wf, update_rel,
    default_car_state, lemma_default_state_wf,
};
use crate::lidar::{LidarArray, lidar_wf};
use crate::map::{SplineMap, map_wf, crash_rel, cp_rel, lidar_reading_rel};
use crate::spline::{
    spline_arc_at, spline_total_of, lemma_spline_arc_in_range, lemma_spline_total_bound,
};

verus! {

/// The discrete action set.
#[derive(Clone, Copy, Debug, PartialEq, Eq, Structural)]
pub enum Action {
    Left,
    Right,
    Accelerate,
    Brake,
    Coast,
}

/// The error paid for an action byte outside the accepted range; it carries
/// the offending byte.
#[derive(Clone, Copy, Debug, PartialEq, Eq, Structural)]
pub struct InvalidActionError {
    pub value: u8,
}

impl Action {
    /// Decode an action byte: the five actions have the ordinals zero
    /// through four; anything else is rejected.
    pub fn try_from(value: u8) -> (r: Result<Action, InvalidActionError>)
        ensures
            value == 0 ==> r == Ok::<Action, InvalidActionError>(Action::Left),
            value == 1 ==> r == Ok::<Action, InvalidActionError>(Action::Right),
            value == 2 ==> r == Ok::<Action, InvalidActionError>(Action::Accelerate),
            value == 3 ==> r == Ok::<Action, InvalidActionError>(Action::Brake),
            value == 4 ==> r == Ok::<Action, InvalidActionError>(Action::Coast),
            value > 4 ==> r == Err::<Action, InvalidActionError>(
                (InvalidActionError { value })),
    {
        match value {
            0u8 => Ok(Action::Left),
            1u8 => Ok(Action::Right),
            2u8 => Ok(Action::Accelerate),
            3u8 => Ok(Action::Brake),
            4u8 => Ok(Action::Coast),
            _ => Err(InvalidActionError { value }),
        }
    }
}

/// One step's outcome: the reward paid and whether the car crashed.
#[derive(Clone, Copy, Debug)]
pub struct TransitionObservation {
    pub reward: i64,
    pub done: bool,
}

/// The sensory observation of the current state.
#[derive(Debug)]
pub struct StateObservation {
    pub lidar_readings: Vec<i64>,
    pub steer_delta: i64,
    pub speed: i64,
}

/// The coefficients of the shaped reward.
#[derive(Clone, Copy, Debug)]
pub struct RewardConfig {
    pub travel_coeff: i64,
    pub center_coeff: i64,
    pub crash_reward: i64,
    pub center_integral_coeff: i64,
}

/// Largest reward coefficient magnitude accepted (about 1024 at unit scale).
pub const FX_COEFF_MAX: i64 = 4398046511104;

/// Largest magnitude of a single reward term.
pub const FX_REWARD_CAP: i64 = 4503599627370496;

/// Well-formedness of the reward coefficients.
pub open spec fn reward_wf(rc: RewardConfig) -> bool {
    &&& fx_abs_of(rc.travel_coeff as int) <= FX_COEFF_MAX as int
    &&& fx_abs_of(rc.center_coeff as int) <= FX_COEFF_MAX as int
    &&& fx_abs_of(rc.crash_reward as int) <= FX_REWARD_CAP as int
    &&& fx_abs_of(rc.center_integral_coeff as int) <= FX_COEFF_MAX as int
}

impl Default for RewardConfig {
    fn default() -> (r: RewardConfig)
        ensures
            r.travel_coeff == 4294967296 && r.center_coeff == 8589934592
                && r.crash_reward == -429496729600 && r.center_integral_coeff == 4294967296,
            reward_wf(r),
    {
        RewardConfig {
            travel_coeff: 4294967296,
            center_coeff: 8589934592,
            crash_reward: -429496729600,
            center_integral_coeff: 4294967296,
        }
    }
}

/// The full simulator configuration.
#[derive(Debug)]
pub struct SimConfig {
    pub car: CarConfig,
    pub reward: RewardConfig,
    pub lidar: LidarArray,
    pub dt: i64,
}

/// Well-formedness of a simulator configuration.
pub open spec fn sim_cfg_wf(c: SimConfig) -> bool {
    &&& cfg_wf(c.car)
    &&& reward_wf(c.reward)
    &&& lidar_wf(c.lidar)
    &&& 0 < c.dt <= FX_DT_MAX
}

impl Default for SimConfig {
    /// The shipped configuration: the default car, reward, and fan, at a
    /// fifth of a second per step.
    fn default() -> (r: SimConfig)
        ensures
            sim_cfg_wf(r),
            r.dt == 858993459,
            r.car == crate::physics::default_car_config(),
            r.reward.travel_coeff == 4294967296 && r.reward.center_coeff == 8589934592
                && r.reward.crash_reward == -429496729600
                && r.reward.center_integral_coeff == 4294967296,
            r.lidar.angles@.len() == 19,
    {
        SimConfig {
            car: CarConfig::default(),
            reward: RewardConfig::default(),
            lidar: LidarArray::default(),
            dt: 858993459,
        }
    }
}

/// Wrapping of an arc-length difference into one signed lap: the raw
/// difference shifted by one and a half laps, reduced modulo the lap, and
/// shifted back by half a lap.
pub open spec fn wrap_of(delta: int, total: int) -> int {
    if total <= 0 {
        0
    } else {
        (delta + total + tdiv(total, 2)) % total - tdiv(total, 2)
    }
}

/// Arc-length differences within half a lap of zero are wrapped to
/// themselves: positions less than half a lap apart see their true signed
/// separation, whatever whole number of laps lies between their raw
/// arc-length readings.
pub proof fn lemma_travel_wrap(delta: int, total: int, k: int)
    requires
        total > 0,
        tdiv(total, 2) - total < delta < tdiv(total, 2),
    ensures
        wrap_of(delta + k * total, total) == delta,
{
    let half = tdiv(total, 2);
    let m = delta + half;
    assert(2 * half <= total && total <= 2 * half + 1) by (nonlinear_arith)
        requires
            half == tdiv(total, 2),
            total > 0,
    ;
    assert(0 <= m < total);
    let a = delta + k * total + total + half;
    assert(a == m + (k + 1) * total) by (nonlinear_arith)
        requires
            a == delta + k * total + total + half,
            m == delta + half,
    ;
    assert(a % total == m) by (nonlinear_arith)
        requires
            a == m + (k + 1) * total,
            0 <= m < total,
            total > 0,
    ;
}

/// The shaped reward, from the wrapped travel, the two centerline squared
/// distances, and the crash flag. Every term is clamped so the sum stays
/// representable.
pub open spec fn reward_val(rc: RewardConfig, dt: int, travel: int, d1: int, d2: int,
    crashed: bool) -> int {
    fx_clamp_of(fx_mul_of(rc.travel_coeff as int, travel), -(FX_REWARD_CAP as int),
        FX_REWARD_CAP as int)
        + fx_clamp_of(fx_mul_of(rc.center_coeff as int, d2 - d1), -(FX_REWARD_CAP as int),
            FX_REWARD_CAP as int)
        - fx_clamp_of(fx_mul_of(rc.center_integral_coeff as int,
            fx_clamp_of(fx_mul_of(d2, dt), -(FX_REWARD_CAP as int), FX_REWARD_CAP as int)),
            -(FX_REWARD_CAP as int), FX_REWARD_CAP as int)
        + if crashed { rc.crash_reward as int } else { 0 }
}

/// What the reward computation returns, over nearest-point certificates for
/// the old and the new position.
pub open spec fn reward_rel(m: SplineMap, rc: RewardConfig, dt: int, old_pos: Vec2,
    new_pos: Vec2, crashed: bool, rwd: int) -> bool {
    exists |u1: int, d1: int, u2: int, d2: int|
        #[trigger] cp_rel(m, old_pos, u1, d1) && #[trigger] cp_rel(m, new_pos, u2, d2)
        && rwd == reward_val(rc, dt,
            wrap_of(spline_arc_at(m.spline, u2) - spline_arc_at(m.spline, u1),
                spline_total_of(m.spline)),
            d1, d2, crashed)
}

/// The control input an action decodes to.
pub open spec fn input_of(a: Action, c: CarConfig) -> CarInput {
    match a {
        Action::Left => CarInput { forward_acc: 0, target_delta: c.max_delta, braking: false },
        Action::Right => CarInput {
            forward_acc: 0,
            target_delta: (-c.max_delta) as i64,
            braking: false,
        },
        Action::Accelerate => CarInput {
            forward_acc: c.acceleration,
            target_delta: 0,
            braking: false,
        },
        Action::Brake => CarInput { forward_acc: 0, target_delta: 0, braking: true },
        Action::Coast => CarInput { forward_acc: 0, target_delta: 0, braking: false },
    }
}

/// Largest clock value the simulator keeps.
pub const FX_T_CAP: i64 = 4611686018427387904;

/// The driving simulator: configuration, track, car state, clock and step
/// counter.
pub struct Simulator {
    pub config: SimConfig,
    pub road: SplineMap,
    pub state: CarState,
    pub t: i64,
    pub i: usize,
}

/// Well-formedness of the whole simulator.
pub open spec fn sim_wf(s: Simulator) -> bool {
    &&& sim_cfg_wf(s.config)
    &&& map_wf(s.road)
    &&& state_wf(s.state, s.config.car)
    &&& 0 <= s.t <= FX_T_CAP
}

impl Simulator {
    /// Assemble a simulator; the car starts from the default state.
    pub fn new(config: SimConfig, road: SplineMap) -> (r: Simulator)
        requires
            sim_cfg_wf(config),
            map_wf(road),
        ensures
            sim_wf(r),
            r.config == config,
            r.road == road,
            r.state == default_car_state(),
            r.t == 0 && r.i == 0,
    {
        proof {
            lemma_default_state_wf(config.car);
        }
        Simulator { config, road, state: CarState::default(), t: 0, i: 0 }
    }

    /// Restore the default car state and zero the clock and step counter.
    pub fn reset(&mut self)
        requires
            sim_wf(*old(self)),
        ensures
            sim_wf(*final(self)),
            final(self).config == old(self).config,
            final(self).road == old(self).road,
            final(self).state == default_car_state(),
            final(self).t == 0 && final(self).i == 0,
    {
        proof {
            lemma_default_state_wf(self.config.car);
        }
        self.state = CarState::default();
        self.t = 0;
        self.i = 0;
    }

    /// The shaped reward for a transition.
    #[verifier::rlimit(100)]
    fn reward(&self, state: &CarState, new_state: &CarState, is_crashed: bool) -> (r: i64)
        requires
            sim_wf(*self),
            coords_bounded(state.position, FX_QUERY_MAX as int),
            coords_bounded(new_state.position, FX_QUERY_MAX as int),
        ensures
            reward_rel(self.road, self.config.reward, self.config.dt as int, state.position,
                new_state.position, is_crashed, r as int),
    {
        let cp1: ClosestPointOutput = self.road.spline.closest_point(state.position);
        let cp2: ClosestPointOutput = self.road.spline.closest_point(new_state.position);
        let travel1: i64 = self.road.spline.arc_length(cp1.parameter);
        let travel2: i64 = self.road.spline.arc_length(cp2.parameter);
        let total: i64 = self.road.spline.total_length();
        proof {
            lemma_spline_arc_in_range(self.road.spline, cp1.parameter as int);
            lemma_spline_arc_in_range(self.road.spline, cp2.parameter as int);
            lemma_spline_total_bound(self.road.spline,
                self.road.spline.segments@.len() as int);
        }
        let travel: i64 = if total <= 0 {
            0
        } else {
            let half: i64 = ((total as u64) / 2u64) as i64;
            let a: i64 = travel2 - travel1 + total + half;
            proof {
                assert(a >= 0);
                assert((a as u64 % total as u64) as int == a as int % total as int);
            }
            ((a as u64 % total as u64) as i64) - half
        };
        proof {
            assert(travel as int == wrap_of(travel2 as int - travel1 as int, total as int));
        }
        let rc: &RewardConfig = &self.config.reward;
        let term1: i64 = fx_mul_clamp(rc.travel_coeff, travel, -FX_REWARD_CAP, FX_REWARD_CAP);
        let term2: i64 = fx_mul_clamp(rc.center_coeff, cp2.distance_sq - cp1.distance_sq,
            -FX_REWARD_CAP, FX_REWARD_CAP);
        let d2dt: i64 = fx_mul_clamp(cp2.distance_sq, self.config.dt, -FX_REWARD_CAP,
            FX_REWARD_CAP);
        let term3: i64 = fx_mul_clamp(rc.center_integral_coeff, d2dt, -FX_REWARD_CAP,
            FX_REWARD_CAP);
        let crash_term: i64 = if is_crashed {
            rc.crash_reward
        } else {
            0
        };
        let r: i64 = term1 + term2 - term3 + crash_term;
        proof {
            assert(cp_rel(self.road, state.position, cp1.parameter as int,
                cp1.distance_sq as int));
            assert(cp_rel(self.road, new_state.position, cp2.parameter as int,
                cp2.distance_sq as int));
            assert(r as int == reward_val(self.config.reward, self.config.dt as int,
                travel as int, cp1.distance_sq as int, cp2.distance_sq as int, is_crashed));
        }
        r
    }

    /// Advance the environment by one action.
    ///
    /// Decodes the action into a control input, integrates the car, tests
    /// the crash predicate on the new pose, pays the shaped reward, and
    /// commits the new state; the clock advances by `dt` (up to its cap) and
    /// the step counter by one (up to its cap). The returned `done` flag is
    /// the crash test of the committed state.
    #[verifier::rlimit(100)]
    pub fn step(&mut self, action: Action) -> (r: TransitionObservation)
        requires
            sim_wf(*old(self)),
        ensures
            sim_wf(*final(self)),
            final(self).config == old(self).config,
            final(self).road == old(self).road,
            update_rel(old(self).state, input_of(action, old(self).config.car),
                old(self).config.dt as int, old(self).config.car, final(self).state),
            final(self).t == fx_min_int(old(self).t + old(self).config.dt, FX_T_CAP as int),
            final(self).i == if old(self).i < usize::MAX { old(self).i + 1 } else {
                old(self).i as int
            },
            crash_rel(old(self).road, final(self).state, old(self).config.car, r.done),
            reward_rel(old(self).road, old(self).config.reward, old(self).config.dt as int,
                old(self).state.position, final(self).state.position, r.done, r.reward as int),
    {
        let input: CarInput = match action {
            Action::Left => CarInput {
                forward_acc: 0,
                target_delta: self.config.car.max_delta,
                braking: false,
            },
            Action::Right => CarInput {
                forward_acc: 0,
                target_delta: -self.config.car.max_delta,
                braking: false,
            },
            Action::Accelerate => CarInput {
                forward_acc: self.config.car.acceleration,
                target_delta: 0,
                braking: false,
            },
            Action::Brake => CarInput { forward_acc: 0, target_delta: 0, braking: true },
            Action::Coast => CarInput { forward_acc: 0, target_delta: 0, braking: false },
        };
        proof {
            assert(input == input_of(action, self.config.car));
            assert(input_wf(input, self.config.car));
        }
        let new_state: CarState = self.state.update(&input, self.config.dt, &self.config.car);
        let is_crashed: bool = self.road.is_crashed(&new_state, &self.config.car);
        let reward: i64 = self.reward(&self.state, &new_state, is_crashed);
        self.state = new_state;
        self.t = fx_min(self.t + self.config.dt, FX_T_CAP);
        if self.i < usize::MAX {
            self.i = self.i + 1;
        }
        TransitionObservation { reward, done: is_crashed }
    }

    /// The current sensory observation: the LiDAR readings, the steering
    /// angle, and the speed.
    pub fn observe(&self) -> (r: StateObservation)
        requires
            sim_wf(*self),
        ensures
            r.lidar_readings@.len() == self.config.lidar.angles@.len(),
            forall |i: int| 0 <= i < r.lidar_readings@.len()
                ==> 0 <= #[trigger] r.lidar_readings@[i] <= 56500000000000int,
            forall |i: int| 0 <= i < r.lidar_readings@.len()
                ==> #[trigger] lidar_reading_rel(self.road, self.state,
                    self.config.lidar.angles@[i] as int, r.lidar_readings@[i] as int),
            r.steer_delta == self.state.steer_delta,
            r.speed == self.state.speed,
    {
        let lidar_readings: Vec<i64> = self.road.read_lidar(&self.state, &self.config.lidar);
        StateObservation {
            lidar_readings,
            steer_delta: self.state.steer_delta,
            speed: self.state.speed,
        }
    }

    /// The simulator clock.
    pub fn get_t(&self) -> (r: i64)
        ensures
            r == self.t,
    {
        self.t
    }

    /// The step counter.
    pub fn get_i(&self) -> (r: usize)
        ensures
            r == self.i,
    {
        self.i
    }
}

/// The smaller of two mathematical integers.
pub open spec fn fx_min_int(a: int, b: int) -> int {
    if a <= b {
        a
    } else {
        b
    }
}

} // verus!
