//! End-to-end environment scenarios.

use car_rl::FX_ONE;
use car_rl::gym::{Action, SimConfig, Simulator};
use car_rl::map::make_oval;
use car_rl::racing::RacingEnv;

const S: i64 = FX_ONE;

fn make_sim() -> Simulator {
    let mut config = SimConfig::default();
    config.dt = S / 4;
    let road = make_oval();
    Simulator::new(config, road)
}

#[test]
fn test_stable() {
    let mut env = make_sim();
    env.reset();
    let _observation = env.step(Action::Accelerate);
    let _observation = env.step(Action::Brake);
    let _observation = env.step(Action::Left);
    let _observation = env.step(Action::Right);
    assert_eq!(env.get_i(), 4);
    assert_eq!(env.get_t(), 4 * (S / 4));
}

#[test]
fn test_crash() {
    let mut env = make_sim();
    let mut done = false;
    let mut reward: i64 = 0;

    env.reset();

    // Accelerate uncontrollably; the car must leave the track eventually.
    let mut k: usize = 1;
    while k < 50 {
        let obs = env.step(Action::Accelerate);
        done = obs.done;
        reward = obs.reward;
        if done {
            break;
        }
        k += 1;
    }
    assert!(done);
    assert!(reward < 0);
}

#[test]
fn test_forward_progress_rewarded() {
    // Coasting forward from the start of the oval pays a positive shaped
    // reward: arc-length progress dominates while the car hugs the
    // centerline.
    let mut env = make_sim();
    env.reset();
    let r1 = env.step(Action::Coast);
    let r2 = env.step(Action::Coast);
    assert!(!r1.done);
    assert!(!r2.done);
    assert!(r1.reward + r2.reward > 0);
}

#[test]
fn test_not_crashed_at_start() {
    let env = make_sim();
    let crashed = env.road.is_crashed(&env.state, &env.config.car);
    assert!(!crashed);
}

#[test]
fn test_action_decoding() {
    assert_eq!(Action::try_from(0), Ok(Action::Left));
    assert_eq!(Action::try_from(1), Ok(Action::Right));
    assert_eq!(Action::try_from(2), Ok(Action::Accelerate));
    assert_eq!(Action::try_from(3), Ok(Action::Brake));
    assert_eq!(Action::try_from(4), Ok(Action::Coast));
    assert!(Action::try_from(5).is_err());
    assert!(Action::try_from(255).is_err());
    // The error names the offending byte.
    match Action::try_from(9) {
        Err(e) => assert_eq!(e.value, 9),
        Ok(_) => panic!("nine is not an action"),
    }
}

#[test]
fn test_reset_restores_defaults() {
    let mut env = make_sim();
    let _ = env.step(Action::Accelerate);
    let _ = env.step(Action::Accelerate);
    env.reset();
    assert_eq!(env.get_i(), 0);
    assert_eq!(env.get_t(), 0);
    assert_eq!(env.state.position.0, 0);
    assert_eq!(env.state.position.1, 0);
    assert_eq!(env.state.speed, 8 * S);
}

#[test]
fn test_observe_shape() {
    let env = make_sim();
    let obs = env.observe();
    assert_eq!(obs.lidar_readings.len(), 19);
    for r in obs.lidar_readings.iter() {
        assert!(*r >= 0);
    }
    assert_eq!(obs.steer_delta, 0);
    assert_eq!(obs.speed, 8 * S);
}

#[test]
fn test_racing_env_facade() {
    // The facade rejects bad action bytes without advancing, decodes good
    // ones, and reports a consistent observation length.
    let mut env = RacingEnv::new(Some(S / 4), None, None, None, None, true, true);
    assert_eq!(env.i(), 0);
    assert_eq!(env.dt(), S / 4);
    let dim = env.observation_dim();
    assert_eq!(dim, 19 + 2);
    let obs = env.observe();
    assert_eq!(obs.len(), dim);

    assert!(env.step(9).is_err());
    assert_eq!(env.i(), 0);
    let r = env.step(2);
    assert!(r.is_ok());
    assert_eq!(env.i(), 1);
    assert_eq!(env.t(), S / 4);

    env.reset();
    assert_eq!(env.i(), 0);
    assert_eq!(env.t(), 0);
}

#[test]
fn test_export_road_shape() {
    let env = RacingEnv::new(None, None, None, None, None, false, false);
    let road = env.export_road(64);
    assert_eq!(road.left_x.len(), road.left_y.len());
    assert_eq!(road.left_x.len(), road.right_x.len());
    assert_eq!(road.left_x.len(), road.right_y.len());
    assert!(road.left_x.len() > 0);
}

#[test]
fn test_graphics_state_shape() {
    let env = RacingEnv::new(None, None, None, None, None, false, false);
    let g = env.graphics_state();
    assert_eq!(g.lidar_x.len(), 19);
    assert_eq!(g.lidar_y.len(), 19);
    assert_eq!(g.lidar_center.0, 0);
    assert_eq!(g.lidar_center.1, 0);
}
