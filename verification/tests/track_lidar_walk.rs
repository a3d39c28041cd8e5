//! Track queries, the LiDAR fan, discretization, and the grid walks.

use car_rl::FX_ONE;
use car_rl::vec2::Vec2;
use car_rl::lidar::{LidarArray, FX_RAD_PER_DEG};
use car_rl::map::make_oval;
use car_rl::physics::CarState;
use car_rl::chunk::{Chunking, ChunkingConfig, ChunkedLidarState};
use car_rl::walk::{Move, Square, Walk, RandomWalk};
use car_rl::env::{Env, DeterministicEnv, RandomEnv};

const S: i64 = FX_ONE;

#[test]
fn test_point_inside_oval() {
    let map = make_oval();
    // The spline passes through the origin: squarely inside.
    assert!(map.point_inside(Vec2(0, 0)));
    // A point far from every control point is outside.
    assert!(!map.point_inside(Vec2(0, 100 * S)));
    assert!(!map.point_inside(Vec2(200 * S, 0)));
}

#[test]
fn test_lidar_readings_nonnegative() {
    // Readings from inside the track are all nonnegative and the straight
    // ray sees some room ahead.
    let map = make_oval();
    let state = CarState::default();
    let fan = LidarArray::default();
    let readings = map.read_lidar(&state, &fan);
    assert_eq!(readings.len(), 19);
    for r in readings.iter() {
        assert!(*r >= 0);
    }
    // The middle entry is the straight-ahead ray; at the start of the oval
    // the road continues, so it reads a positive range.
    assert!(readings[9] > 0);
}

#[test]
fn test_lidar_zero_range_outside() {
    // A ray fired from outside the track reads zero range.
    let map = make_oval();
    let mut state = CarState::default();
    state.position = Vec2(0, 100 * S);
    let fan = LidarArray::default();
    let readings = map.read_lidar(&state, &fan);
    for r in readings.iter() {
        assert_eq!(*r, 0);
    }
}

#[test]
fn test_lidar_fan_shape() {
    // The fan is symmetric, odd-length, and holds zero in the middle.
    let mut degs: Vec<i64> = Vec::new();
    degs.push(30 * S);
    degs.push(60 * S);
    let fan = LidarArray::new(degs);
    assert_eq!(fan.n_angles(), 5);
    let angles = fan.get_angles();
    let thirty: i64 = ((30 * S) as i128 * FX_RAD_PER_DEG as i128 / S as i128) as i64;
    let sixty: i64 = ((60 * S) as i128 * FX_RAD_PER_DEG as i128 / S as i128) as i64;
    assert_eq!(angles[0], -sixty);
    assert_eq!(angles[1], -thirty);
    assert_eq!(angles[2], 0);
    assert_eq!(angles[3], thirty);
    assert_eq!(angles[4], sixty);
}

#[test]
fn test_chunking() {
    let config = Chunking { distance_thresholds: vec![1 * S, 2 * S, 3 * S] };

    assert_eq!(config.get_chunk(S / 2), 0);
    assert_eq!(config.get_chunk(S + S / 2), 1);
    assert_eq!(config.get_chunk(2 * S + S / 2), 2);
    assert_eq!(config.get_chunk(3 * S + S / 2), 3);
    assert_eq!(config.n_chunks(), 4);
}

#[test]
fn test_chunked_state_shape() {
    let map = make_oval();
    let state = CarState::default();
    let fan = LidarArray::default();
    let cfg = ChunkingConfig {
        lidar: Chunking { distance_thresholds: vec![1 * S, 2 * S, 4 * S] },
        speed: Chunking { distance_thresholds: vec![2 * S, 6 * S] },
        turn: Chunking { distance_thresholds: vec![0] },
    };
    let chunked = ChunkedLidarState::new(&state, &map, &fan, &cfg);
    assert_eq!(chunked.lidar.len(), 19);
    for c in chunked.lidar.iter() {
        assert!(*c <= 3);
    }
    // The default speed of eight units is past both speed thresholds.
    assert_eq!(chunked.speed, 2);
    // Straight wheels sit exactly on the single turn threshold: no
    // threshold is strictly below.
    assert_eq!(chunked.turn, 0);
}

#[test]
fn test_walk_moves_and_clamps() {
    let walk = Walk { lower_right: Square(5, 5), start: Square(0, 0) };
    assert_eq!(walk.next_state(&Square(0, 0), &Move::Down), Square(1, 0));
    assert_eq!(walk.next_state(&Square(0, 0), &Move::Right), Square(0, 1));
    // Stepping off the grid leaves the walker in place.
    assert_eq!(walk.next_state(&Square(0, 0), &Move::Up), Square(0, 0));
    assert_eq!(walk.next_state(&Square(0, 0), &Move::Left), Square(0, 0));
    assert_eq!(walk.next_state(&Square(5, 5), &Move::Down), Square(5, 5));

    assert_eq!(walk.reward(&Square(4, 0), &Move::Down, &Square(5, 0)), S);
    assert_eq!(walk.reward(&Square(4, 0), &Move::Up, &Square(3, 0)), 0);
    assert_eq!(walk.initial_state(), Square(0, 0));
    assert_eq!(walk.possible_actions(&Square(0, 0)).len(), 4);
}

#[test]
fn test_random_walk_transitions() {
    let walk = RandomWalk::new((S / 10) * 8);
    let trs = walk.transition(&Square(2, 2), &Move::Right);
    assert_eq!(trs.len(), 4);
    // The desired neighbor carries the success probability; each other
    // neighbor carries a third of the remainder.
    let q = (S - (S / 10) * 8) / 3;
    assert_eq!(trs[0], (Square(1, 2), q));
    assert_eq!(trs[1], (Square(3, 2), q));
    assert_eq!(trs[2], (Square(2, 1), q));
    assert_eq!(trs[3], (Square(2, 3), (S / 10) * 8));
}

#[test]
fn test_random_walk_sampling() {
    // With full success probability the sampled state is the desired one.
    let walk = RandomWalk::new(S);
    assert_eq!(walk.sample_with(&Square(0, 0), &Move::Down, 0), Square(1, 0));
    assert_eq!(walk.sample_with(&Square(0, 0), &Move::Up, 0), Square(-1, 0));
    // A draw beyond the first three masses falls to the last neighbor.
    let half = RandomWalk::new(S / 2);
    assert_eq!(half.sample_with(&Square(0, 0), &Move::Right, S - 1), Square(0, 1));
    // Any sampled state is one of the four neighbors.
    let s = walk.sample_next_state(&Square(3, 3), &Move::Left);
    let neighbors = [Square(2, 3), Square(4, 3), Square(3, 2), Square(3, 4)];
    assert!(neighbors.contains(&s));
}
