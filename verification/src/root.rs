//! Scalar root finding and one-dimensional minimization.
//!
//! `find_root` is sign-based bisection with a final two-point linear
//! estimate; `find_min_differentiable` seeds a uniform grid and refines the
//! best sample with a derivative root. Objectives are types implementing
//! [`Objective`], whose executable evaluation returns exactly its
//! mathematical `val`.

use vstd::prelude::*;
use crate::fx::{
    FX_COORD_MAX, tdiv, fx_abs_of, fx_mul_of, fx_mul, fx_max, fx_min, ceil_half, shrunk,
    lemma_ceil_half, lemma_shrunk_bound,
};

verus! {

/// Largest objective value magnitude the search routines accept.
pub const FX_VAL_MAX: i64 = 4611686018427387904;

/// A scalar function that the search routines can evaluate.
///
/// `dom` says where the function may be evaluated; on that domain the
/// executable `eval` returns exactly the mathematical value `val`.
pub trait Objective {
    /// Where the objective is defined.
    spec fn dom(&self, x: int) -> bool;

    /// The exact value of the objective.
    spec fn val(&self, x: int) -> int;

    /// Evaluate the objective.
    fn eval(&self, x: i64) -> (r: i64)
        requires
            self.dom(x as int),
        ensures
            r as int == self.val(x as int),
    ;
}

/// A point together with the objective value observed there.
pub struct FunctionObservation {
    pub x: i64,
    pub value: i64,
}

impl FunctionObservation {
    pub fn new(x: i64, value: i64) -> (r: FunctionObservation)
        ensures
            r.x == x,
            r.value == value,
    {
        FunctionObservation { x, value }
    }
}

/// Whether the whole interval `[lo, hi]` is inside the objective's domain
/// with values bounded by `FX_VAL_MAX`.
pub open spec fn dom_on<F: Objective>(f: F, lo: int, hi: int) -> bool {
    forall |x: int| lo <= x <= hi ==> #[trigger] f.dom(x)
        && fx_abs_of(f.val(x)) <= FX_VAL_MAX as int
}

/// A root certificate: `x` lies between `l` and `u` inside `[lo, hi]`, and
/// either the objective is exactly zero at `x` or it changes strict sign
/// between `l` and `u`.
pub open spec fn root_bracket<F: Objective>(f: F, lo: int, hi: int, l: int, u: int, x: int) -> bool {
    &&& lo <= l <= x <= u <= hi
    &&& (f.val(x) == 0 || ((f.val(l) > 0) != (f.val(u) > 0) && f.val(l) != 0 && f.val(u) != 0))
}

/// What a successful root search returns: either a point where the
/// objective is exactly zero, or the two-point linear estimate of a final
/// sign-changing bracket whose width fell below the tolerance or was halved
/// twenty times (so it is at most the original width over two to the
/// twentieth, plus rounding).
pub open spec fn root_estimate<F: Objective>(f: F, lo: int, hi: int, eps: int, x: int) -> bool {
    ||| (f.val(x) == 0 && lo <= x <= hi)
    ||| exists |l: int, u: int|
        #[trigger] root_bracket(f, lo, hi, l, u, x)
        && (u - l <= eps || u - l <= tdiv(hi - lo, 1048576) + 2)
        && x == interp_of(l, u, f.val(l), f.val(u))
}

/// The two-point linear root estimate on `[a, b]`, clamped into the
/// interval: `a - f(a) * (b - a) / (f(b) - f(a))`.
pub open spec fn interp_of(a: int, b: int, fa: int, fb: int) -> int {
    let d = fb - fa;
    let t = if d > 0 {
        tdiv(fa * (b - a), d)
    } else {
        tdiv(-(fa * (b - a)), -d)
    };
    if a - t < a {
        a
    } else if a - t > b {
        b
    } else {
        a - t
    }
}

/// The two-point linear root estimate, computed exactly.
fn interp_root(a: i64, b: i64, fa: i64, fb: i64) -> (r: i64)
    requires
        a <= b,
        fx_abs_of(a as int) <= FX_COORD_MAX as int,
        fx_abs_of(b as int) <= FX_COORD_MAX as int,
        fx_abs_of(fa as int) <= FX_VAL_MAX as int,
        fx_abs_of(fb as int) <= FX_VAL_MAX as int,
        fa != fb,
    ensures
        r as int == interp_of(a as int, b as int, fa as int, fb as int),
        a <= r <= b,
{
    proof {
        assert(fx_abs_of(fa as int * (b as int - a as int))
            <= 0x100000000000000000000000000000int) by (nonlinear_arith)
            requires
                fx_abs_of(fa as int) <= FX_VAL_MAX as int,
                fx_abs_of(b as int) <= FX_COORD_MAX as int,
                fx_abs_of(a as int) <= FX_COORD_MAX as int,
        ;
    }
    let num: i128 = fa as i128 * (b as i128 - a as i128);
    let den: i128 = fb as i128 - fa as i128;
    let mn: u128 = (if num < 0 { -num } else { num }) as u128;
    let md: u128 = (if den < 0 { -den } else { den }) as u128;
    let q: u128 = mn / md;
    let neg: bool = (num < 0) != (den < 0);
    proof {
        assert(q <= mn) by (nonlinear_arith)
            requires
                md >= 1,
                q == mn as int / md as int,
                mn >= 0,
        ;
        if den > 0 {
            assert(tdiv(num as int, den as int) == if num >= 0 { q as int } else { -(q as int) });
        } else {
            assert(tdiv(-(num as int), -(den as int)) == if num >= 0 { -(q as int) } else {
                q as int
            });
        }
    }
    let t: i128 = if neg {
        -(q as i128)
    } else {
        q as i128
    };
    let est: i128 = a as i128 - t;
    if est < a as i128 {
        a
    } else if est > b as i128 {
        b
    } else {
        est as i64
    }
}

/// Sign-based bisection.
///
/// Returns the left endpoint if the objective is zero there, then the right
/// endpoint likewise; `None` when both endpoint values have the same strict
/// sign. Otherwise it contracts a sign-changing interval until its width is
/// at most `eps` or twenty splits have happened, and returns the two-point
/// linear estimate inside the final interval: success is certain, and the
/// result carries a `root_bracket` certificate.
pub fn find_root<F: Objective>(f: &F, x_min: i64, x_max: i64, eps: i64) -> (r: Option<i64>)
    requires
        x_min <= x_max,
        fx_abs_of(x_min as int) <= FX_COORD_MAX as int,
        fx_abs_of(x_max as int) <= FX_COORD_MAX as int,
        eps >= 0,
        dom_on(*f, x_min as int, x_max as int),
    ensures
        f.val(x_min as int) == 0 ==> r == Some(x_min),
        f.val(x_min as int) != 0 && f.val(x_max as int) == 0 ==> r == Some(x_max),
        f.val(x_min as int) != 0 && f.val(x_max as int) != 0
            && (f.val(x_min as int) > 0) == (f.val(x_max as int) > 0) ==> r is None,
        f.val(x_min as int) != 0 && f.val(x_max as int) != 0
            && (f.val(x_min as int) > 0) != (f.val(x_max as int) > 0) ==> r is Some,
        match r {
            Some(x) => x_min <= x <= x_max
                && root_estimate(*f, x_min as int, x_max as int, eps as int, x as int),
            None => true,
        },
{
    let fa: i64 = f.eval(x_min);
    let fb: i64 = f.eval(x_max);
    if fa == 0 {
        proof {
            assert(root_estimate(*f, x_min as int, x_max as int, eps as int, x_min as int));
        }
        return Some(x_min);
    }
    if fb == 0 {
        proof {
            assert(root_estimate(*f, x_min as int, x_max as int, eps as int, x_max as int));
        }
        return Some(x_max);
    }
    if (fa > 0) == (fb > 0) {
        return None;
    }
    let mut l: i64 = x_min;
    let mut u: i64 = x_max;
    let mut fl: i64 = fa;
    let mut fu: i64 = fb;
    let mut iteration: usize = 0;
    while u - l > eps && iteration < 20
        invariant
            x_min <= l <= u <= x_max,
            fl as int == f.val(l as int),
            fu as int == f.val(u as int),
            fl != 0,
            fu != 0,
            (fl > 0) != (fu > 0),
            f.val(x_min as int) != 0,
            f.val(x_max as int) != 0,
            (f.val(x_min as int) > 0) != (f.val(x_max as int) > 0),
            dom_on(*f, x_min as int, x_max as int),
            fx_abs_of(x_min as int) <= FX_COORD_MAX as int,
            fx_abs_of(x_max as int) <= FX_COORD_MAX as int,
            iteration <= 20,
            u - l <= shrunk(x_max as int - x_min as int, iteration as nat),
        decreases 20 - iteration,
    {
        let ghost w = u as int - l as int;
        let mid: i64 = l + (((u - l) as u64) / 2u64) as i64;
        proof {
            assert(mid as int - l as int == tdiv(w, 2));
            lemma_ceil_half(w, shrunk(x_max as int - x_min as int, iteration as nat));
        }
        let fm: i64 = f.eval(mid);
        if fm == 0 {
            proof {
                assert(root_estimate(*f, x_min as int, x_max as int, eps as int, mid as int));
            }
            return Some(mid);
        }
        if (fm > 0) == (fu > 0) {
            u = mid;
            fu = fm;
        } else {
            l = mid;
            fl = fm;
        }
        proof {
            assert(shrunk(x_max as int - x_min as int, (iteration + 1) as nat)
                == ceil_half(shrunk(x_max as int - x_min as int, iteration as nat)));
        }
        iteration = iteration + 1;
    }
    proof {
        assert(f.dom(l as int) && f.dom(u as int));
        if !(u - l <= eps) {
            lemma_shrunk_bound(x_max as int - x_min as int, 20);
            assert(vstd::arithmetic::power2::pow2(20) == 1048576) by {
                vstd::arithmetic::power2::lemma2_to64();
            }
            assert(u as int - l as int <= tdiv(x_max as int - x_min as int, 1048576) + 2);
        }
    }
    let est: i64 = interp_root(l, u, fl, fu);
    proof {
        assert(root_bracket(*f, x_min as int, x_max as int, l as int, u as int, est as int));
        assert(root_estimate(*f, x_min as int, x_max as int, eps as int, est as int));
    }
    Some(est)
}

/// Derivative-based refinement of a local minimum.
///
/// Declines (`None`) when the derivative signs at the ends cannot bracket an
/// interior minimum; otherwise behaves as `find_root` on the derivative.
pub fn find_local_min_differentiable<G: Objective>(fp: &G, x_min: i64, x_max: i64, eps: i64)
    -> (r: Option<i64>)
    requires
        x_min <= x_max,
        fx_abs_of(x_min as int) <= FX_COORD_MAX as int,
        fx_abs_of(x_max as int) <= FX_COORD_MAX as int,
        eps >= 0,
        dom_on(*fp, x_min as int, x_max as int),
    ensures
        fp.val(x_min as int) > 0 || fp.val(x_max as int) < 0 ==> r is None,
        match r {
            Some(x) => x_min <= x <= x_max
                && root_estimate(*fp, x_min as int, x_max as int, eps as int, x as int),
            None => true,
        },
{
    let d_start: i64 = fp.eval(x_min);
    let d_end: i64 = fp.eval(x_max);
    if d_start > 0 || d_end < 0 {
        return None;
    }
    find_root(fp, x_min, x_max, eps)
}

/// The `i`-th grid point of the 33-sample scan of `[a, b]`.
pub open spec fn grid_of(a: int, b: int, i: int) -> int {
    a + i * tdiv(b - a, 32)
}

/// The index of the smallest value among the first `n + 1` grid samples,
/// the latest such index on ties.
pub open spec fn grid_argmin<F: Objective>(f: F, a: int, b: int, n: int) -> int
    decreases n,
{
    if n <= 0 {
        0
    } else {
        let prev = grid_argmin(f, a, b, n - 1);
        if f.val(grid_of(a, b, n)) <= f.val(grid_of(a, b, prev)) {
            n
        } else {
            prev
        }
    }
}

/// What the grid-seeded minimization returns: either the last minimal grid
/// sample itself, or a strictly better derivative-root estimate taken within
/// one grid cell of it.
pub open spec fn min_obs_rel<F: Objective, G: Objective>(f: F, fp: G, a: int, b: int, eps: int,
    x: int, v: int) -> bool {
    let dx = tdiv(b - a, 32);
    let gi = grid_argmin(f, a, b, 32);
    let gx = grid_of(a, b, gi);
    let lo = if gx - dx >= a { gx - dx } else { a };
    let hi = if gx + dx <= b { gx + dx } else { b };
    &&& v == f.val(x)
    &&& ({
        ||| x == gx
        ||| (v < f.val(gx) && lo <= x <= hi && root_estimate(fp, lo, hi, eps, x))
    })
}

/// Grid-seeded minimization of a differentiable objective.
///
/// Scans 33 uniform samples of `[a, b]` (endpoints included), then refines
/// the best sample by a derivative root and keeps whichever value is
/// smaller. The result is an achieved value no larger than the value at any
/// grid sample — in particular no larger than at either endpoint.
#[verifier::rlimit(100)]
pub fn find_min_differentiable<F: Objective, G: Objective>(
    f: &F,
    fp: &G,
    x_min: i64,
    x_max: i64,
    eps: i64,
) -> (r: FunctionObservation)
    requires
        x_min <= x_max,
        fx_abs_of(x_min as int) <= FX_COORD_MAX as int,
        fx_abs_of(x_max as int) <= FX_COORD_MAX as int,
        eps >= 0,
        dom_on(*f, x_min as int, x_max as int),
        dom_on(*fp, x_min as int, x_max as int),
    ensures
        x_min <= r.x <= x_max,
        r.value as int == f.val(r.x as int),
        forall |i: int| 0 <= i <= 32
            ==> r.value as int <= #[trigger] f.val(grid_of(x_min as int, x_max as int, i)),
        min_obs_rel(*f, *fp, x_min as int, x_max as int, eps as int, r.x as int,
            r.value as int),
{
    let dx: i64 = (((x_max - x_min) as u64) / 32u64) as i64;
    proof {
        assert(dx as int == tdiv(x_max as int - x_min as int, 32));
        assert(x_min + 32 * (dx as int) <= x_max as int) by (nonlinear_arith)
            requires
                dx as int == (x_max as int - x_min as int) / 32,
                x_min <= x_max,
        ;
    }
    let mut xi: i64 = x_min;
    let mut i: usize = 1;
    let mut best_x: i64 = x_min;
    let mut best_v: i64 = f.eval(x_min);
    proof {
        assert(grid_of(x_min as int, x_max as int, 0) == x_min as int);
    }
    while i <= 32
        invariant
            1 <= i <= 33,
            dx >= 0,
            dx as int == tdiv(x_max as int - x_min as int, 32),
            xi as int == x_min + (i - 1) * (dx as int),
            x_min as int + 32 * (dx as int) <= x_max as int,
            x_min <= xi <= x_max,
            x_min <= best_x <= x_max,
            best_v as int == f.val(best_x as int),
            forall |j: int| 0 <= j < i
                ==> best_v as int <= #[trigger] f.val(grid_of(x_min as int, x_max as int, j)),
            best_x as int == grid_of(x_min as int, x_max as int,
                grid_argmin(*f, x_min as int, x_max as int, i - 1)),
            dom_on(*f, x_min as int, x_max as int),
            fx_abs_of(x_min as int) <= FX_COORD_MAX as int,
            fx_abs_of(x_max as int) <= FX_COORD_MAX as int,
        decreases 33 - i,
    {
        proof {
            assert(x_min + (i as int) * (dx as int) <= x_min + 32 * (dx as int))
                by (nonlinear_arith)
                requires
                    1 <= i <= 32,
                    dx >= 0,
            ;
            assert(x_min + (i as int) * (dx as int) == xi + dx) by (nonlinear_arith)
                requires
                    xi as int == x_min + (i - 1) * (dx as int),
            ;
        }
        xi = xi + dx;
        let v: i64 = f.eval(xi);
        proof {
            assert(grid_of(x_min as int, x_max as int, i as int) == xi as int);
        }
        if v <= best_v {
            best_x = xi;
            best_v = v;
        }
        proof {
            assert(grid_argmin(*f, x_min as int, x_max as int, i as int) == if f.val(
                grid_of(x_min as int, x_max as int, i as int)) <= f.val(grid_of(x_min as int,
                x_max as int, grid_argmin(*f, x_min as int, x_max as int, i - 1))) {
                i as int
            } else {
                grid_argmin(*f, x_min as int, x_max as int, i - 1)
            });
        }
        i = i + 1;
    }
    // Derivative-based refinement around the best sample.
    let x_left: i64 = fx_max(best_x - dx, x_min);
    let x_right: i64 = fx_min(best_x + dx, x_max);
    proof {
        assert(x_min <= x_left && x_right <= x_max && x_left <= x_right);
        assert(dom_on(*fp, x_left as int, x_right as int)) by {
            assert forall |x: int| x_left <= x <= x_right
                implies #[trigger] fp.dom(x) && fx_abs_of(fp.val(x)) <= FX_VAL_MAX as int by {
                assert(x_min <= x <= x_max);
                assert(fp.dom(x) && fx_abs_of(fp.val(x)) <= FX_VAL_MAX as int);
            }
        }
    }
    let refined: Option<i64> = find_local_min_differentiable(fp, x_left, x_right, eps);
    let r: FunctionObservation = match refined {
        Some(x_lm) => {
            proof {
                assert(f.dom(x_lm as int));
            }
            let value_lm: i64 = f.eval(x_lm);
            if value_lm < best_v {
                FunctionObservation { x: x_lm, value: value_lm }
            } else {
                FunctionObservation { x: best_x, value: best_v }
            }
        },
        None => FunctionObservation { x: best_x, value: best_v },
    };
    proof {
        assert(min_obs_rel(*f, *fp, x_min as int, x_max as int, eps as int, r.x as int,
            r.value as int));
    }
    r
}

/// A cubic polynomial objective over fixed-point scalars, evaluated by the
/// exact rounded Horner form.
pub struct PolyObjective {
    pub c3: i64,
    pub c2: i64,
    pub c1: i64,
    pub c0: i64,
}

/// Magnitude bound on a polynomial objective's argument and coefficients.
pub const FX_POLY_MAX: i64 = 68719476736;

/// The rounded Horner evaluation of a cubic polynomial.
pub open spec fn poly_val_of(c3: int, c2: int, c1: int, c0: int, x: int) -> int {
    fx_mul_of(fx_mul_of(fx_mul_of(c3, x) + c2, x) + c1, x) + c0
}

impl Objective for PolyObjective {
    open spec fn dom(&self, x: int) -> bool {
        &&& fx_abs_of(x) <= FX_POLY_MAX as int
        &&& fx_abs_of(self.c3 as int) <= FX_POLY_MAX as int
        &&& fx_abs_of(self.c2 as int) <= FX_POLY_MAX as int
        &&& fx_abs_of(self.c1 as int) <= FX_POLY_MAX as int
        &&& fx_abs_of(self.c0 as int) <= FX_POLY_MAX as int
    }

    open spec fn val(&self, x: int) -> int {
        poly_val_of(self.c3 as int, self.c2 as int, self.c1 as int, self.c0 as int, x)
    }

    fn eval(&self, x: i64) -> (r: i64)
    {
        proof {
            crate::fx::lemma_fx_mul_bound(self.c3 as int, x as int,
                FX_POLY_MAX as int, FX_POLY_MAX as int);
        }
        let t3: i64 = fx_mul(self.c3, x);
        proof {
            crate::fx::lemma_fx_mul_bound(t3 as int + self.c2 as int, x as int,
                0x20000000000int + FX_POLY_MAX as int, FX_POLY_MAX as int);
        }
        let t2: i64 = fx_mul(t3 + self.c2, x);
        proof {
            crate::fx::lemma_fx_mul_bound(t2 as int + self.c1 as int, x as int,
                0x7000000000000int + FX_POLY_MAX as int, FX_POLY_MAX as int);
        }
        let t1: i64 = fx_mul(t2 + self.c1, x);
        t1 + self.c0
    }
}

} // verus!
