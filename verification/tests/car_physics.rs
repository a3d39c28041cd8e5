//! Integrator scenarios with literal expected values.

use car_rl::FX_ONE;
use car_rl::vec2::Vec2;
use car_rl::physics::{CarConfig, CarState, CarInput};

const S: i64 = FX_ONE;

const TOL: i64 = FX_ONE / 1000;

fn unit_test_config() -> CarConfig {
    CarConfig {
        length: 1 * S,
        front_axle: 1 * S,
        back_axle: 0,
        max_delta: 6746518852 / 2, // a quarter turn of steering headroom
        acceleration: 6 * S,
        brake_acceleration: 8 * S,
        steer_speed: 1 * S,
    }
}

#[test]
fn test_inertial() {
    // Coasting in a straight line for two seconds covers two units exactly.
    let config = unit_test_config();
    let initial_state = CarState {
        position: Vec2(0, 0),
        unit_forward: Vec2(1 * S, 0),
        speed: 1 * S,
        steer_delta: 0,
    };
    let input = CarInput { forward_acc: 0, target_delta: 0, braking: false };

    let mut state = initial_state;
    let dt: i64 = S / 16;
    let mut k: usize = 0;
    while k < 32 {
        state = state.update(&input, dt, &config);
        k += 1;
    }
    assert_eq!(state.position, Vec2(2 * S, 0));
    assert_eq!(state.unit_forward, Vec2(1 * S, 0));
    assert_eq!(state.speed, 1 * S);
}

#[test]
fn test_circle() {
    // A forty-five-degree steering angle on a unit-length car turns on a
    // unit-radius circle: a quarter revolution ends near (1, 1).
    let config = unit_test_config();
    let forty_five: i64 = 13493037704 / 4;
    let initial_state = CarState {
        position: Vec2(0, 0),
        unit_forward: Vec2(1 * S, 0),
        speed: 1 * S,
        steer_delta: forty_five,
    };
    let input = CarInput { forward_acc: 0, target_delta: forty_five, braking: false };

    let quarter: i64 = 13493037704 / 2; // ninety degrees in radians
    let dt: i64 = quarter / 64;
    let mut state = initial_state;
    let mut k: usize = 0;
    while k < 64 {
        state = state.update(&input, dt, &config);
        k += 1;
    }
    let err = state.position.minus(Vec2(1 * S, 1 * S)).norm();
    assert!(err < TOL, "quarter-circle end error {}", err);
}

#[test]
fn test_acceleration() {
    // Unit acceleration from near standstill for one second: speed one,
    // displacement one half.
    let config = unit_test_config();
    let initial_state = CarState {
        position: Vec2(0, 0),
        unit_forward: Vec2(1 * S, 0),
        speed: 429, // about a ten-millionth of a unit per second
        steer_delta: 0,
    };
    let input = CarInput { forward_acc: 1 * S, target_delta: 0, braking: false };

    let dt: i64 = S / 64;
    let mut state = initial_state;
    let mut k: usize = 0;
    while k < 64 {
        state = state.update(&input, dt, &config);
        k += 1;
    }
    assert!((state.speed - 1 * S).abs() < TOL);
    let err = state.position.minus(Vec2(S / 2, 0)).norm();
    assert!(err < TOL, "acceleration displacement error {}", err);
}

#[test]
fn test_steering_lag_clamps() {
    // The wheel moves toward the target at the steering speed and never
    // overshoots or leaves the limit.
    let config = unit_test_config();
    let mut state = CarState {
        position: Vec2(0, 0),
        unit_forward: Vec2(1 * S, 0),
        speed: 0,
        steer_delta: 0,
    };
    let input = CarInput {
        forward_acc: 0,
        target_delta: config.max_delta,
        braking: false,
    };
    let dt: i64 = S / 4;
    let mut k: usize = 0;
    while k < 40 {
        state = state.update(&input, dt, &config);
        assert!(state.steer_delta <= config.max_delta);
        assert!(state.steer_delta >= -config.max_delta);
        k += 1;
    }
    assert_eq!(state.steer_delta, config.max_delta);
}

#[test]
fn test_braking_stops() {
    // Braking from speed never reverses: the speed reaches zero and stays.
    let config = unit_test_config();
    let mut state = CarState {
        position: Vec2(0, 0),
        unit_forward: Vec2(1 * S, 0),
        speed: 2 * S,
        steer_delta: 0,
    };
    let input = CarInput { forward_acc: 0, target_delta: 0, braking: true };
    let dt: i64 = S / 8;
    let mut k: usize = 0;
    while k < 64 {
        state = state.update(&input, dt, &config);
        assert!(state.speed >= 0);
        k += 1;
    }
    assert_eq!(state.speed, 0);
}

#[test]
fn test_heading_stays_unit() {
    // After any number of steps the heading norm stays within a thousandth
    // of one.
    let config = unit_test_config();
    let mut state = CarState {
        position: Vec2(0, 0),
        unit_forward: Vec2(1 * S, 0),
        speed: 1 * S,
        steer_delta: config.max_delta,
    };
    let input = CarInput {
        forward_acc: 3 * S,
        target_delta: -config.max_delta,
        braking: false,
    };
    let dt: i64 = S / 8;
    let mut k: usize = 0;
    while k < 100 {
        state = state.update(&input, dt, &config);
        let n = state.unit_forward.norm();
        assert!((n - S).abs() < TOL, "heading norm {} after {} steps", n, k);
        assert!(state.speed >= 0);
        k += 1;
    }
}
