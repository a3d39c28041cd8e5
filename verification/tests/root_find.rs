//! Root finding and one-dimensional minimization on concrete polynomials.

use car_rl::FX_ONE;
use car_rl::root::{find_root, find_min_differentiable, PolyObjective};

const S: i64 = FX_ONE;

const EPS: i64 = FX_ONE / 1000;

fn close(a: i64, b: i64, tol: i64) -> bool {
    (a - b).abs() <= tol
}

#[test]
fn test_root() {
    // Find the square root of nine: x^2 - 9 on two brackets.
    let f = PolyObjective { c3: 0, c2: S, c1: 0, c0: -9 * S };

    let r = find_root(&f, 1 * S, 4 * S, EPS).unwrap();
    assert!(close(r, 3 * S, EPS));

    let pi: i64 = 13493037704;
    let r = find_root(&f, 0, pi, EPS).unwrap();
    assert!(close(r, 3 * S, EPS));
}

#[test]
fn test_root_same_sign() {
    // Both endpoint values strictly positive: no root is reported.
    let f = PolyObjective { c3: 0, c2: S, c1: 0, c0: -9 * S };
    assert!(find_root(&f, 4 * S, 5 * S, EPS).is_none());
}

#[test]
fn test_root_endpoint_zero() {
    // A zero at the bracket edge is returned at once.
    let f = PolyObjective { c3: 0, c2: S, c1: 0, c0: -9 * S };
    assert_eq!(find_root(&f, 3 * S, 5 * S, EPS), Some(3 * S));
    assert_eq!(find_root(&f, 0, 3 * S, EPS), Some(3 * S));
}

#[test]
fn test_min() {
    // Minimum of x^2 on [-1, 0]: a local minimum exactly at the boundary.
    let f = PolyObjective { c3: 0, c2: S, c1: 0, c0: 0 };
    let fp = PolyObjective { c3: 0, c2: 0, c1: 2 * S, c0: 0 };
    let extremum = find_min_differentiable(&f, &fp, -1 * S, 0, EPS);
    assert_eq!(extremum.x, 0);
    assert_eq!(extremum.value, 0);

    // Minimum of x^3 - x on [-2, 2]: the global minimum is the boundary.
    let f = PolyObjective { c3: S, c2: 0, c1: -1 * S, c0: 0 };
    let fp = PolyObjective { c3: 0, c2: 3 * S, c1: 0, c0: -1 * S };
    let extremum = find_min_differentiable(&f, &fp, -2 * S, 2 * S, EPS);
    assert_eq!(extremum.x, -2 * S);

    // Restricting the domain, the minimum is interior, near 0.577.
    let extremum = find_min_differentiable(&f, &fp, -1 * S, 1 * S, EPS);
    assert!(extremum.x < 2491081031); // 0.58
    assert!(extremum.x > 2448131359); // 0.57
}
