//! The kinematic bicycle-model integrator.
//!
//! One step applies first-order steering lag, a clamped longitudinal update,
//! and a closed-form arc rotation of the pose, switching to a small-angle
//! series where the inverse turn radius would be numerically fragile. After
//! every step the heading stays unit length (within `unit_band`), the speed
//! stays nonnegative, and the steering angle stays within its limit.

use vstd::prelude::*;
use crate::fx::{
    FX_ONE, tdiv, fx_abs_of, fx_mul_of, fx_div_of, fx_clamp_of,
    fx_mul, fx_div, fx_abs, fx_clamp, fx_mul_clamp, fx_half, fx_max, fx_min,
    lemma_fx_mul_bound, lemma_fx_div_bound, lemma_fx_mul_nonneg,
};
use crate::trig::{
    FX_ANGLE_MAX, TAN_CAP_FX, INV_6, sin_of, cos_bracket, tan_from, sin_cos, tan_fx,
};
use crate::vec2::{
    Vec2, coords_bounded, unit_band, rot_band, norm_sq_raw, rotate_rel, normalized_rel,
};

verus! {

/// Largest position coordinate magnitude the integrator keeps (about 2^12
/// world units); a step that would leave this box is clamped to its edge.
pub const FX_POS_MAX: i64 = 8796093022208;

/// Largest speed the integrator keeps (about 2^10 world units per second).
pub const FX_SPEED_CAP: i64 = 4398046511104;

/// Largest acceleration magnitude accepted (about 2^10 units per second^2).
pub const FX_ACC_MAX: i64 = 4398046511104;

/// Largest time step accepted (4 seconds).
pub const FX_DT_MAX: i64 = 17179869184;

/// Smallest car length accepted (1/16 world unit).
pub const FX_LEN_MIN: i64 = 268435456;

/// Largest car dimension accepted (about 256 world units).
pub const FX_CAR_MAX: i64 = 1099511627776;

/// Immutable geometry and actuation limits of the car.
#[derive(Clone, Copy, Debug)]
pub struct CarConfig {
    pub length: i64,
    pub front_axle: i64,
    pub back_axle: i64,
    pub max_delta: i64,
    pub acceleration: i64,
    pub brake_acceleration: i64,
    pub steer_speed: i64,
}

/// The transient pose of the car.
#[derive(Clone, Copy, Debug)]
pub struct CarState {
    pub position: Vec2,
    pub unit_forward: Vec2,
    pub speed: i64,
    pub steer_delta: i64,
}

/// One step's worth of control input.
#[derive(Clone, Copy, Debug)]
pub struct CarInput {
    pub forward_acc: i64,
    pub target_delta: i64,
    pub braking: bool,
}

/// Well-formedness of a car configuration.
pub open spec fn cfg_wf(c: CarConfig) -> bool {
    &&& FX_LEN_MIN as int <= c.length <= FX_CAR_MAX as int
    &&& fx_abs_of(c.front_axle as int) <= FX_CAR_MAX as int
    &&& fx_abs_of(c.back_axle as int) <= FX_CAR_MAX as int
    &&& 0 <= c.max_delta <= FX_ANGLE_MAX
    &&& 0 <= c.acceleration <= FX_ACC_MAX
    &&& 0 <= c.brake_acceleration <= FX_ACC_MAX
    &&& 0 <= c.steer_speed <= FX_ANGLE_MAX
}

/// Well-formedness of a car state: position in the world box, heading unit
/// length, speed nonnegative and capped, steering within its limit.
pub open spec fn state_wf(s: CarState, c: CarConfig) -> bool {
    &&& coords_bounded(s.position, FX_POS_MAX as int)
    &&& unit_band(s.unit_forward)
    &&& coords_bounded(s.unit_forward, FX_ONE as int + 2)
    &&& 0 <= s.speed <= FX_SPEED_CAP
    &&& -c.max_delta <= s.steer_delta <= c.max_delta
}

/// Well-formedness of a control input against a configuration.
pub open spec fn input_wf(i: CarInput, c: CarConfig) -> bool {
    &&& fx_abs_of(i.forward_acc as int) <= FX_ACC_MAX as int
    &&& -c.max_delta <= i.target_delta <= c.max_delta
}

/// First-order steering lag: move toward the target by at most `step`,
/// never overshooting.
pub open spec fn steer_lag_of(sd: int, target: int, step: int) -> int {
    if target > sd {
        if sd + step < target {
            sd + step
        } else {
            target
        }
    } else if target < sd {
        if sd - step > target {
            sd - step
        } else {
            target
        }
    } else {
        sd
    }
}

/// Effective longitudinal acceleration: braking subtracts the brake
/// deceleration while the car still moves forward.
pub open spec fn acc_eff_of(i: CarInput, speed: int, c: CarConfig) -> int {
    if i.braking {
        i.forward_acc - (if speed > 0 { c.brake_acceleration as int } else { 0 })
    } else {
        i.forward_acc as int
    }
}

/// The next speed: the speed plus `dt` times the effective acceleration,
/// clamped to stay nonnegative and below the cap.
pub open spec fn speed_next_of(s: CarState, i: CarInput, dt: int, c: CarConfig) -> int {
    fx_clamp_of(s.speed + fx_mul_of(dt, acc_eff_of(i, s.speed as int, c)), 0, FX_SPEED_CAP as int)
}

/// The average speed over the step: the speed plus half the speed change,
/// clamped to zero if braking would cross standstill.
pub open spec fn avg_speed_of(s: CarState, i: CarInput, dt: int, c: CarConfig) -> int {
    let half_dv = tdiv(fx_mul_of(dt, acc_eff_of(i, s.speed as int, c)), 2);
    if s.speed + half_dv >= 0 {
        s.speed + half_dv
    } else {
        0
    }
}

/// The arc traversed over the step.
pub open spec fn arc_of(s: CarState, i: CarInput, dt: int, c: CarConfig) -> int {
    fx_mul_of(avg_speed_of(s, i, dt, c), dt)
}

/// The inverse turn radius for a steering angle, over a cosine witness of
/// that angle: the capped tangent divided by the car length.
pub open spec fn kappa_rel(sd: int, length: int, kappa: int) -> bool {
    exists |c: int| #[trigger] cos_bracket(sd, c)
        && kappa == fx_div_of(tan_from(sin_of(sd), c), length)
}

/// The signed swept angle: arc times inverse turn radius, clamped into the
/// accepted angle range.
pub open spec fn phi_of(arc: int, kappa: int) -> int {
    fx_clamp_of(fx_mul_of(arc, kappa), -(FX_ANGLE_MAX as int), FX_ANGLE_MAX as int)
}

/// The forward and leftward displacement over the step.
///
/// For swept angles above one radian the exact circular form is used, with
/// the turn radius recovered from the inverse; below that, a series form
/// that needs no division by the inverse radius.
pub open spec fn disp_rel(arc: int, kappa: int, phi: int, fwd: int, left: int) -> bool {
    if fx_abs_of(phi) > FX_ONE as int {
        let radius = fx_div_of(FX_ONE as int, fx_abs_of(kappa));
        exists |c: int| #[trigger] cos_bracket(fx_abs_of(phi), c)
            && fwd == fx_mul_of(radius, sin_of(fx_abs_of(phi)))
            && left == (if phi >= 0 {
                fx_mul_of(radius, FX_ONE as int - c)
            } else {
                -fx_mul_of(radius, FX_ONE as int - c)
            })
    } else {
        &&& fwd == fx_mul_of(arc, FX_ONE as int - fx_mul_of(fx_mul_of(phi, phi), INV_6 as int))
        &&& left == fx_mul_of(tdiv(arc, 2), phi)
    }
}

/// The next position: the old one plus the displacement resolved in the
/// heading frame, clamped into the world box.
pub open spec fn pos_step_rel(p: Vec2, uf: Vec2, fwd: int, left: int, np: Vec2) -> bool {
    &&& np.0 == fx_clamp_of(
        p.0 + fx_mul_of(uf.0 as int, fwd) + fx_mul_of(-uf.1 as int, left),
        -(FX_POS_MAX as int),
        FX_POS_MAX as int,
    )
    &&& np.1 == fx_clamp_of(
        p.1 + fx_mul_of(uf.1 as int, fwd) + fx_mul_of(uf.0 as int, left),
        -(FX_POS_MAX as int),
        FX_POS_MAX as int,
    )
}

/// The full step relation: what `CarState::update` returns.
pub open spec fn update_rel(s: CarState, i: CarInput, dt: int, c: CarConfig, r: CarState) -> bool {
    let sd = steer_lag_of(s.steer_delta as int, i.target_delta as int,
        fx_mul_of(dt, c.steer_speed as int));
    let arc = arc_of(s, i, dt, c);
    &&& r.steer_delta == sd
    &&& r.speed == speed_next_of(s, i, dt, c)
    &&& exists |kappa: int| #[trigger] kappa_rel(sd, c.length as int, kappa) && {
        let phi = phi_of(arc, kappa);
        &&& exists |w: Vec2| #[trigger] rotate_rel(s.unit_forward, phi, w)
            && normalized_rel(w, r.unit_forward)
        &&& exists |fwd: int, left: int| #[trigger] disp_rel(arc, kappa, phi, fwd, left)
            && pos_step_rel(s.position, s.unit_forward, fwd, left, r.position)
    }
}

impl CarState {
    /// Advance the state by one time step.
    ///
    /// The returned state satisfies the exact step relation `update_rel`,
    /// and is well-formed again: the heading stays within `unit_band` (unit
    /// length up to one part in a thousand), the speed stays nonnegative,
    /// and the steering angle stays within `[-max_delta, max_delta]`.
    pub fn update(&self, input: &CarInput, dt: i64, config: &CarConfig) -> (r: CarState)
        requires
            cfg_wf(*config),
            state_wf(*self, *config),
            input_wf(*input, *config),
            0 < dt <= FX_DT_MAX,
        ensures
            update_rel(*self, *input, dt as int, *config, r),
            state_wf(r, *config),
    {
        let s = FX_ONE;
        // Steering lag.
        proof {
            lemma_fx_mul_bound(dt as int, config.steer_speed as int,
                FX_DT_MAX as int, FX_ANGLE_MAX as int);
            lemma_fx_mul_nonneg(dt as int, config.steer_speed as int);
        }
        let steer_step: i64 = fx_mul(dt, config.steer_speed);
        let sd: i64 = if input.target_delta > self.steer_delta {
            fx_min(self.steer_delta + steer_step, input.target_delta)
        } else if input.target_delta < self.steer_delta {
            fx_max(self.steer_delta - steer_step, input.target_delta)
        } else {
            self.steer_delta
        };
        // Longitudinal update.
        let acc_eff: i64 = if input.braking {
            input.forward_acc - (if self.speed > 0 { config.brake_acceleration } else { 0 })
        } else {
            input.forward_acc
        };
        proof {
            lemma_fx_mul_bound(dt as int, acc_eff as int, FX_DT_MAX as int, 2 * FX_ACC_MAX as int);
        }
        let dv: i64 = fx_mul(dt, acc_eff);
        let new_speed: i64 = fx_clamp(self.speed + dv, 0, FX_SPEED_CAP);
        let half_dv: i64 = fx_half(dv);
        proof {
            assert(fx_abs_of(half_dv as int) <= fx_abs_of(dv as int));
        }
        let avg_speed: i64 = fx_max(self.speed + half_dv, 0);
        proof {
            lemma_fx_mul_bound(avg_speed as int, dt as int,
                FX_SPEED_CAP as int + 35184372088832int, FX_DT_MAX as int);
        }
        let arc: i64 = fx_mul(avg_speed, dt);
        // Swept angle.
        let tan_sd: i64 = tan_fx(sd);
        proof {
            lemma_fx_div_bound(tan_sd as int, config.length as int,
                TAN_CAP_FX as int, FX_LEN_MIN as int);
        }
        let kappa: i64 = fx_div(tan_sd, config.length);
        let phi: i64 = fx_mul_clamp(arc, kappa, -FX_ANGLE_MAX, FX_ANGLE_MAX);
        proof {
            assert(kappa_rel(sd as int, config.length as int, kappa as int)) by {
                let c = choose |c: int|
                    #[trigger] cos_bracket(sd as int, c)
                    && tan_sd as int == tan_from(sin_of(sd as int), c);
                assert(cos_bracket(sd as int, c)
                    && kappa as int == fx_div_of(tan_from(sin_of(sd as int), c),
                        config.length as int));
            }
            assert(phi as int == phi_of(arc as int, kappa as int));
        }
        // Displacement in the heading frame.
        let phi_abs: i64 = fx_abs(phi);
        let (fwd, left): (i64, i64) = if phi_abs > s {
            proof {
                lemma_kappa_nonzero(arc as int, kappa as int, phi as int);
            }
            let kabs: i64 = fx_abs(kappa);
            proof {
                assert(fx_abs_of(kappa as int) == kabs as int
                    && phi_of(arc as int, kappa as int) == phi as int);
                lemma_radius_bound(arc as int, kabs as int, phi as int);
            }
            let radius: i64 = fx_div(s, kabs);
            let (s2, c2): (i64, i64) = sin_cos(phi_abs);
            proof {
                lemma_fx_mul_unit_signed(radius as int, s2 as int);
                lemma_fx_mul_bound(radius as int, s as int - c2 as int,
                    fx_abs_of(radius as int), 2 * FX_ONE as int);
                lemma_two_s_cancel(fx_abs_of(radius as int));
            }
            let fwd: i64 = fx_mul(radius, s2);
            let lat: i64 = fx_mul(radius, s - c2);
            (fwd, if phi >= 0 { lat } else { -lat })
        } else {
            proof {
                lemma_fx_mul_unit_signed(phi as int, phi as int);
                lemma_fx_mul_nonneg_sq(phi as int);
                lemma_fx_mul_bound(fx_mul_of(phi as int, phi as int), INV_6 as int,
                    FX_ONE as int, INV_6 as int);
                lemma_inv6_small(fx_mul_of(fx_mul_of(phi as int, phi as int), INV_6 as int),
                    phi as int);
            }
            let q: i64 = fx_mul(phi, phi);
            let t: i64 = fx_mul(q, INV_6);
            let ff: i64 = s - t;
            proof {
                lemma_fx_mul_unit_signed(arc as int, ff as int);
            }
            let fwd: i64 = fx_mul(arc, ff);
            let harc: i64 = fx_half(arc);
            proof {
                lemma_fx_mul_unit_signed(harc as int, phi as int);
            }
            let left: i64 = fx_mul(harc, phi);
            (fwd, left)
        };
        // Position update.
        let e_left: Vec2 = self.unit_forward.rotate90();
        proof {
            lemma_fx_mul_bound(self.unit_forward.0 as int, fwd as int,
                FX_ONE as int + 2, 0x2000000000000int);
            lemma_fx_mul_bound(self.unit_forward.1 as int, fwd as int,
                FX_ONE as int + 2, 0x2000000000000int);
            lemma_fx_mul_bound(e_left.0 as int, left as int,
                FX_ONE as int + 2, 0x2000000000000int);
            lemma_fx_mul_bound(e_left.1 as int, left as int,
                FX_ONE as int + 2, 0x2000000000000int);
        }
        let move_fwd: Vec2 = self.unit_forward.scale(fwd);
        let move_left: Vec2 = e_left.scale(left);
        let px: i64 = fx_clamp(self.position.0 + move_fwd.0 + move_left.0, -FX_POS_MAX, FX_POS_MAX);
        let py: i64 = fx_clamp(self.position.1 + move_fwd.1 + move_left.1, -FX_POS_MAX, FX_POS_MAX);
        let new_position: Vec2 = Vec2(px, py);
        // Heading update.
        let rotated: Vec2 = self.unit_forward.rotate(phi);
        proof {
            lemma_rot_band_norm(rotated);
        }
        let new_unit_forward: Vec2 = rotated.normalized();
        let r = CarState {
            position: new_position,
            unit_forward: new_unit_forward,
            speed: new_speed,
            steer_delta: sd,
        };
        proof {
            assert(disp_rel(arc as int, kappa as int, phi as int, fwd as int, left as int));
            assert(pos_step_rel(self.position, self.unit_forward, fwd as int, left as int,
                new_position));
            assert(rotate_rel(self.unit_forward, phi as int, rotated));
            assert(normalized_rel(rotated, new_unit_forward));
            assert(sd as int == steer_lag_of(self.steer_delta as int, input.target_delta as int,
                fx_mul_of(dt as int, config.steer_speed as int)));
            assert(acc_eff as int == acc_eff_of(*input, self.speed as int, *config));
            assert(new_speed as int == speed_next_of(*self, *input, dt as int, *config));
            assert(avg_speed as int == avg_speed_of(*self, *input, dt as int, *config));
            assert(arc as int == arc_of(*self, *input, dt as int, *config));
            assert(phi as int == phi_of(arc as int, kappa as int));
            assert(update_rel(*self, *input, dt as int, *config, r));
        }
        r
    }
}

/// The configuration the simulator ships with.
pub open spec fn default_car_config() -> CarConfig {
    CarConfig {
        length: 12884901888,
        front_axle: 2147483648,
        back_axle: 10737418240,
        max_delta: 2147483648,
        acceleration: 25769803776,
        brake_acceleration: 34359738368,
        steer_speed: 4294967296,
    }
}

/// The state the simulator resets to: at the origin, facing along the first
/// axis, at eight units per second, wheels straight.
pub open spec fn default_car_state() -> CarState {
    CarState {
        position: Vec2(0, 0),
        unit_forward: Vec2(4294967296, 0),
        speed: 34359738368,
        steer_delta: 0,
    }
}

impl Default for CarConfig {
    /// A three-unit car with a half-radian steering limit.
    fn default() -> (r: CarConfig)
        ensures
            r == default_car_config(),
            cfg_wf(r),
    {
        CarConfig {
            length: 12884901888,
            front_axle: 2147483648,
            back_axle: 10737418240,
            max_delta: 2147483648,
            acceleration: 25769803776,
            brake_acceleration: 34359738368,
            steer_speed: 4294967296,
        }
    }
}

impl Default for CarState {
    fn default() -> (r: CarState)
        ensures
            r == default_car_state(),
    {
        CarState {
            position: Vec2(0, 0),
            unit_forward: Vec2(4294967296, 0),
            speed: 34359738368,
            steer_delta: 0,
        }
    }
}

impl Default for CarInput {
    fn default() -> (r: CarInput)
        ensures
            r.forward_acc == 0 && r.target_delta == 0 && !r.braking,
    {
        CarInput { forward_acc: 0, target_delta: 0, braking: false }
    }
}

/// The default state is well-formed under any well-formed configuration.
pub proof fn lemma_default_state_wf(c: CarConfig)
    requires
        cfg_wf(c),
    ensures
        state_wf(default_car_state(), c),
{
    let v = default_car_state().unit_forward;
    assert(norm_sq_raw(v) == FX_ONE as int * FX_ONE as int) by (nonlinear_arith)
        requires
            v.0 == FX_ONE && v.1 == 0,
    ;
}

/// A fixed-point square is nonnegative.
proof fn lemma_fx_mul_nonneg_sq(a: int)
    by (nonlinear_arith)
    ensures
        fx_mul_of(a, a) >= 0,
{
}

/// A factor of magnitude at most `FX_ONE` cannot grow the other factor.
proof fn lemma_fx_mul_unit_signed(a: int, b: int)
    requires
        fx_abs_of(b) <= FX_ONE as int,
    ensures
        fx_abs_of(fx_mul_of(a, b)) <= fx_abs_of(a),
{
    lemma_fx_mul_bound(a, b, fx_abs_of(a), FX_ONE as int);
    assert((fx_abs_of(a) * FX_ONE as int) / FX_ONE as int == fx_abs_of(a)) by (nonlinear_arith)
        requires
            fx_abs_of(a) >= 0,
    ;
}

/// Helper: `(m * (2 * FX_ONE)) / FX_ONE == 2 * m` for nonnegative `m`.
proof fn lemma_two_s_cancel(m: int)
    by (nonlinear_arith)
    requires
        m >= 0,
    ensures
        (m * (2 * FX_ONE as int)) / FX_ONE as int == 2 * m,
{
}

/// The series correction term is small, so the forward factor stays in
/// `[0, FX_ONE]`.
proof fn lemma_inv6_small(t: int, phi: int)
    requires
        fx_abs_of(phi) <= FX_ONE as int,
        t == fx_mul_of(fx_mul_of(phi, phi), INV_6 as int),
    ensures
        0 <= t <= FX_ONE as int,
{
    lemma_fx_mul_nonneg_sq(phi);
    lemma_fx_mul_unit_signed(phi, phi);
    assert(fx_mul_of(phi, phi) <= FX_ONE as int);
    lemma_fx_mul_nonneg(fx_mul_of(phi, phi), INV_6 as int);
    lemma_fx_mul_bound(fx_mul_of(phi, phi), INV_6 as int, FX_ONE as int, INV_6 as int);
    assert((FX_ONE as int * INV_6 as int) / FX_ONE as int <= FX_ONE as int) by (nonlinear_arith);
}

/// A clamped swept angle above one radian needs a nonzero inverse radius.
proof fn lemma_kappa_nonzero(arc: int, kappa: int, phi: int)
    requires
        phi == phi_of(arc, kappa),
        fx_abs_of(phi) > FX_ONE as int,
    ensures
        kappa != 0,
{
    if kappa == 0 {
        assert(arc * 0 == 0) by (nonlinear_arith);
        assert(fx_mul_of(arc, 0) == 0);
        assert(phi == 0);
    }
}

/// When the swept angle passes one radian, the recovered turn radius is
/// bounded by the arc, so the division is safe.
proof fn lemma_radius_bound(arc: int, kabs: int, phi: int)
    requires
        fx_abs_of(phi) > FX_ONE as int,
        kabs > 0,
        exists |kappa: int| fx_abs_of(kappa) == kabs && #[trigger] phi_of(arc, kappa) == phi,
    ensures
        fx_abs_of(fx_div_of(FX_ONE as int, kabs)) <= fx_abs_of(arc),
{
    let s = FX_ONE as int;
    let kappa = choose |kappa: int| fx_abs_of(kappa) == kabs
        && #[trigger] phi_of(arc, kappa) == phi;
    let u = (s * s) / kabs;
    assert(u == fx_abs_of(fx_div_of(s, kabs))) by (nonlinear_arith)
        requires
            kabs > 0,
            u == (s * s) / kabs,
            s == FX_ONE as int,
    ;
    assert(u * kabs <= s * s && u >= 0) by (nonlinear_arith)
        requires
            kabs > 0,
            s > 0,
            u == (s * s) / kabs,
    ;
    // The unclamped product already exceeds one radian in magnitude.
    assert(fx_abs_of(fx_mul_of(arc, kappa)) >= fx_abs_of(phi)) by {
        assert(phi == fx_clamp_of(fx_mul_of(arc, kappa), -(FX_ANGLE_MAX as int),
            FX_ANGLE_MAX as int));
    }
    assert(fx_abs_of(arc) * kabs >= fx_abs_of(arc * kappa)) by (nonlinear_arith)
        requires
            kabs == fx_abs_of(kappa),
    ;
    assert(fx_abs_of(arc * kappa) > s * s) by (nonlinear_arith)
        requires
            fx_abs_of(fx_mul_of(arc, kappa)) > s,
            fx_mul_of(arc, kappa) == tdiv(arc * kappa, s),
            s == FX_ONE as int,
    ;
    assert(u < fx_abs_of(arc)) by (nonlinear_arith)
        requires
            u * kabs <= s * s,
            fx_abs_of(arc) * kabs > s * s,
            kabs > 0,
            u >= 0,
    ;
}

/// A rotated unit-band vector is long enough to renormalize.
proof fn lemma_rot_band_norm(v: Vec2)
    requires
        rot_band(v),
    ensures
        norm_sq_raw(v) >= 2147483648int * 2147483648int,
{
    assert(FX_ONE as int * FX_ONE as int - 64 * FX_ONE as int
        >= 2147483648int * 2147483648int) by (nonlinear_arith);
}

} // verus!
