//! Bezier segments and splines on concrete control points.

use car_rl::FX_ONE;
use car_rl::vec2::Vec2;
use car_rl::bezier::{BezierControl, BoundingBox, CubicBezier, ClosestPointOutput};
use car_rl::spline::SmoothBezierSpline;

const S: i64 = FX_ONE;

fn close(a: i64, b: i64, tol: i64) -> bool {
    (a - b).abs() <= tol
}

/// The arch used across these tests: symmetric about the vertical axis.
fn setup_bezier() -> CubicBezier {
    let start = Vec2(-1 * S, 0);
    let p1 = Vec2(-1 * S, 1 * S);
    let p2 = Vec2(1 * S, 1 * S);
    let end = Vec2(1 * S, 0);
    CubicBezier::new(start, p1, p2, end)
}

/// An S-shaped three-control spline.
fn setup_spline() -> SmoothBezierSpline {
    let mut cs: Vec<BezierControl> = Vec::new();
    cs.push(BezierControl { point: Vec2(0, 0), velocity: Vec2(0, 1 * S) });
    cs.push(BezierControl { point: Vec2(1 * S, 0), velocity: Vec2(0, -1 * S) });
    cs.push(BezierControl { point: Vec2(2 * S, 0), velocity: Vec2(0, 1 * S) });
    SmoothBezierSpline::new(cs)
}

#[test]
fn test_limits() {
    let bezier = setup_bezier();
    assert_eq!(bezier.get(0), Vec2(-1 * S, 0));
    assert_eq!(bezier.get(S), Vec2(1 * S, 0));
    // Control points symmetric about the vertical axis, so the middle
    // parameter has a zero first coordinate.
    assert_eq!(bezier.get(S / 2).0, 0);

    let spline = setup_spline();
    assert_eq!(spline.get(0), Vec2(0, 0));
    assert_eq!(spline.get(S / 2).0, S / 2);
    assert_eq!(spline.get(S), Vec2(1 * S, 0));
    assert_eq!(spline.get(2 * S), Vec2(2 * S, 0));
}

#[test]
fn test_velocity() {
    let bezier = setup_bezier();

    // The velocity is consistent with a finite-difference approximation.
    let t: i64 = (S / 8) * 5; // 0.625
    let epsilon: i64 = S / 1024;
    let c = bezier.get(t);
    let cp = bezier.get(t + epsilon);
    let v = bezier.velocity(t);
    // cp - c should be about v * epsilon.
    let fd = cp.minus(c);
    let scaled_x = ((v.0 as i128) * (epsilon as i128) / (S as i128)) as i64;
    let scaled_y = ((v.1 as i128) * (epsilon as i128) / (S as i128)) as i64;
    let err = Vec2(fd.0 - scaled_x, fd.1 - scaled_y).norm();
    assert!(err < S / 1000);

    assert_eq!(bezier.velocity(0).0, 0);
    assert_eq!(bezier.velocity(S).0, 0);
    assert_eq!(bezier.velocity(S / 2).1, 0);
}

#[test]
fn test_tangent() {
    let bezier = setup_bezier();
    assert_eq!(bezier.tangent(0), Vec2(0, 1 * S));
    assert_eq!(bezier.tangent(S / 2), Vec2(1 * S, 0));
    assert_eq!(bezier.tangent(S), Vec2(0, -1 * S));

    let spline = setup_spline();
    assert_eq!(spline.tangent(0), Vec2(0, 1 * S));
    assert_eq!(spline.tangent(S / 2), Vec2(1 * S, 0));
    assert_eq!(spline.tangent(S), Vec2(0, -1 * S));
    assert_eq!(spline.tangent(2 * S), Vec2(0, 1 * S));
}

#[test]
fn test_arclength() {
    // A straight-line segment parametrized uniformly: five units per third.
    let line = CubicBezier::new(
        Vec2(0, 0),
        Vec2(4 * S, 3 * S),
        Vec2(8 * S, 6 * S),
        Vec2(12 * S, 9 * S),
    );
    assert_eq!(line.arc_length(0), 0);
    assert!(line.arc_length(S / 3) > 5 * S - S / 100);
    assert!(line.arc_length(S / 3) < 5 * S + S / 100);
    assert!(line.arc_length(2 * (S / 3)) > 10 * S - S / 100);
    assert!(line.arc_length(2 * (S / 3)) < 10 * S + S / 100);
    assert!(line.arc_length(S) > 15 * S - S / 100);
    assert!(line.arc_length(S) < 15 * S + S / 100);

    let mut cs: Vec<BezierControl> = Vec::new();
    cs.push(BezierControl { point: Vec2(0, 0), velocity: Vec2(4 * S, 3 * S) });
    cs.push(BezierControl { point: Vec2(12 * S, 9 * S), velocity: Vec2(4 * S, 3 * S) });
    cs.push(BezierControl { point: Vec2(24 * S, 18 * S), velocity: Vec2(4 * S, 3 * S) });
    let spline = SmoothBezierSpline::new(cs);
    assert!(spline.arc_length(S / 3) > 5 * S - S / 100);
    assert!(spline.arc_length(S / 3) < 5 * S + S / 100);
    assert!(close(spline.arc_length(S + S / 3), 20 * S, S / 100));
}

#[test]
fn test_arclength_monotone_samples() {
    // Arc length grows with the parameter along a bent segment.
    let bezier = setup_bezier();
    let mut prev: i64 = -1;
    let mut t: i64 = 0;
    while t <= S {
        let a = bezier.arc_length(t);
        assert!(a >= prev);
        assert!(a >= 0);
        prev = a;
        t += S / 16;
    }
}

#[test]
fn test_closest() {
    let bezier = setup_bezier();
    assert_eq!(bezier.closest_point(Vec2(-1 * S, -5 * S)).parameter, 0);
    assert_eq!(bezier.closest_point(Vec2(0, 7 * S)).parameter, S / 2);
    assert_eq!(bezier.closest_point(Vec2(-2 * S, 0)).distance_sq, 1 * S);
    assert_eq!(
        bezier.closest_point(Vec2(-1 * S, 0)),
        ClosestPointOutput { parameter: 0, distance_sq: 0 }
    );

    let spline = setup_spline();
    assert_eq!(spline.closest_point(Vec2(-3 * S, -7 * S)).parameter, 0);
    assert_eq!(spline.closest_point(Vec2(S / 2, 5 * S)).parameter, S / 2);
    assert_eq!(spline.closest_point(Vec2(S + S / 2, -5 * S)).parameter, S + S / 2);
    assert_eq!(spline.closest_point(Vec2(5 * S, 7 * S)).parameter, 2 * S);
    assert_eq!(spline.closest_point(Vec2(-4 * S, -3 * S)).distance_sq, 25 * S);
}

#[test]
fn test_bounding_box() {
    let bbox = BoundingBox { min_x: -1 * S, max_x: 1 * S, min_y: -1 * S, max_y: 1 * S };
    assert_eq!(bbox.closest_point(Vec2(-2 * S, -2 * S)), Vec2(-1 * S, -1 * S));
    assert_eq!(bbox.closest_point(Vec2(2 * S, -2 * S)), Vec2(1 * S, -1 * S));
    assert_eq!(bbox.closest_point(Vec2(2 * S, 2 * S)), Vec2(1 * S, 1 * S));
    assert_eq!(bbox.closest_point(Vec2(-2 * S, 2 * S)), Vec2(-1 * S, 1 * S));

    let p3: i64 = (S / 10) * 3;
    let p2: i64 = (S / 10) * 2;
    assert_eq!(bbox.closest_point(Vec2(p3, -2 * S)), Vec2(p3, -1 * S));
    assert_eq!(bbox.closest_point(Vec2(p3, 2 * S)), Vec2(p3, 1 * S));
    assert_eq!(bbox.closest_point(Vec2(-2 * S, p2)), Vec2(-1 * S, p2));
    assert_eq!(bbox.closest_point(Vec2(1 * S, p2)), Vec2(1 * S, p2));
    assert_eq!(bbox.closest_point(Vec2(p3, p2)), Vec2(p3, p2));

    let bezier = setup_bezier();
    let bb = bezier.bounding_box;
    assert_eq!(bb.min_x, -1 * S);
    assert_eq!(bb.max_x, 1 * S);
    assert_eq!(bb.min_y, 0);
    assert_eq!(bb.max_y, bezier.get(S / 2).1);
    assert!(bb.max_y > 0);
    assert!(bb.max_y < 1 * S);
}

#[test]
fn test_closest_below_endpoints() {
    // The reported squared distance never beats the segment endpoints.
    let bezier = setup_bezier();
    let p = Vec2(3 * S, 2 * S);
    let cp = bezier.closest_point(p);
    let d_start = p.dist_sq(bezier.start);
    let d_end = p.dist_sq(bezier.end);
    assert!(cp.distance_sq <= d_start);
    assert!(cp.distance_sq <= d_end);
    assert!(cp.distance_sq >= 0);
}
