//! Vector algebra behaves as expected on concrete values.

use car_rl::FX_ONE;
use car_rl::vec2::Vec2;

const S: i64 = FX_ONE;

fn close(a: i64, b: i64, tol: i64) -> bool {
    (a - b).abs() <= tol
}

/// One part in a thousand, the tolerance the scenarios allow.
const TOL: i64 = FX_ONE / 1000;

#[test]
fn test_add() {
    let v1 = Vec2(1 * S, 2 * S);
    let v2 = Vec2(3 * S, 5 * S);
    let sum = v1.plus(v2);
    assert_eq!(sum, Vec2(4 * S, 7 * S));
}

#[test]
fn test_sub() {
    let v1 = Vec2(4 * S, 6 * S);
    let v2 = Vec2(1 * S, 3 * S);
    assert_eq!(v1.minus(v2), Vec2(3 * S, 3 * S));
}

#[test]
fn test_mul() {
    let v1 = Vec2(1 * S, 2 * S);
    let rprod = v1.scale(2 * S);
    assert_eq!(rprod, Vec2(2 * S, 4 * S));
}

#[test]
fn test_div() {
    let v1 = Vec2(2 * S, 4 * S);
    assert_eq!(v1.div_scalar(2 * S), Vec2(1 * S, 2 * S));
}

#[test]
fn test_dot() {
    let v1 = Vec2(2 * S, 4 * S);
    let v2 = Vec2(-1 * S, 1 * S);
    assert_eq!(v1.dot(v2), 2 * S);
    assert_eq!(v2.dot(v1), 2 * S);
}

#[test]
fn test_rotate90() {
    let v1 = Vec2(1 * S, 0);
    assert_eq!(v1.rotate90(), Vec2(0, 1 * S));

    let v1 = Vec2(0, 1 * S);
    assert_eq!(v1.rotate90(), Vec2(-1 * S, 0));
}

#[test]
fn test_rotate_general() {
    let v1 = Vec2(1 * S, 0);
    let tenth: i64 = S / 10;
    let back = v1.rotate(tenth).rotate(-tenth);
    assert!(close(back.0, v1.0, TOL));
    assert!(close(back.1, v1.1, TOL));

    // A thirty-degree rotation.
    let thirty: i64 = 2248839617; // thirty degrees in radians
    assert!(close(v1.rotate(thirty).1, S / 2, TOL)); // y should be one half
    assert!(close(v1.rotate(2 * thirty).0, S / 2, TOL)); // x should be one half
    assert!(close(v1.rotate(3 * thirty).0, 0, TOL)); // x should be zero
    assert!(close(v1.rotate(4 * thirty).0, -S / 2, TOL)); // x should be minus one half
}

#[test]
fn test_norm() {
    let v1 = Vec2(3 * S, 4 * S);
    assert_eq!(v1.norm(), 5 * S);
}

#[test]
fn test_normalized_unit_length() {
    let v = Vec2(3 * S, 4 * S);
    let n = v.normalized();
    let raw = (n.0 as i128) * (n.0 as i128) + (n.1 as i128) * (n.1 as i128);
    let unit = (S as i128) * (S as i128);
    assert!(raw >= unit - 16 * S as i128);
    assert!(raw <= unit + 16 * S as i128);
}
