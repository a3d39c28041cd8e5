//! Fixed-point trigonometry.
//!
//! The sine is a degree-nine Taylor polynomial evaluated after range
//! reduction into `[-pi/2, pi/2]`; the cosine magnitude is recovered as the
//! integer square root of `FX_ONE^2 - sin^2`, so a sine/cosine pair always
//! has a raw squared norm within `2 * FX_ONE + 1` of exact. That bound is
//! what keeps the car's heading vector unit-length across integrator steps.

use vstd::prelude::*;
use crate::fx::{FX_ONE, tdiv, fx_abs_of, fx_mul_of, fx_div_of, fx_clamp_of, fx_mul, fx_div,
    fx_clamp, isqrt_u128, lemma_fx_mul_bound};

verus! {

/// Fixed-point approximation of pi.
pub const PI_FX: i64 = 13493037704;

/// Exactly `2 * PI_FX`: the period used by angle reduction.
pub const TWO_PI_FX: i64 = 26986075408;

/// Exactly `PI_FX / 2`.
pub const HALF_PI_FX: i64 = 6746518852;

/// Largest angle magnitude accepted by the trigonometric routines
/// (about 256 radians).
pub const FX_ANGLE_MAX: i64 = 1099511627776;

/// Fixed-point reciprocals of the odd factorials used by the sine polynomial.
pub const INV_6: i64 = 715827882;

pub const INV_120: i64 = 35791394;

pub const INV_5040: i64 = 852176;

pub const INV_362880: i64 = 11835;

/// Reduction of an angle into `[-PI_FX, PI_FX]` by whole periods.
pub open spec fn reduce_of(x: int) -> int
    decreases fx_abs_of(x),
{
    if x > PI_FX as int {
        reduce_of(x - TWO_PI_FX as int)
    } else if x < -PI_FX as int {
        reduce_of(x + TWO_PI_FX as int)
    } else {
        x
    }
}

/// Folding of a reduced angle into `[-HALF_PI_FX, HALF_PI_FX]`, using the
/// symmetry of the sine about `pi/2`.
pub open spec fn fold_of(r: int) -> int {
    if r > HALF_PI_FX as int {
        PI_FX as int - r
    } else if r < -HALF_PI_FX as int {
        -PI_FX as int - r
    } else {
        r
    }
}

/// The degree-nine Taylor polynomial of the sine, in fixed point.
pub open spec fn sin_poly_of(x: int) -> int {
    let q = fx_mul_of(x, x);
    let q2 = fx_mul_of(q, q);
    let q3 = fx_mul_of(q2, q);
    let q4 = fx_mul_of(q3, q);
    let p = FX_ONE as int - fx_mul_of(q, INV_6 as int) + fx_mul_of(q2, INV_120 as int)
        - fx_mul_of(q3, INV_5040 as int) + fx_mul_of(q4, INV_362880 as int);
    fx_mul_of(x, p)
}

/// The fixed-point sine: reduce, fold, evaluate the polynomial, clamp into
/// `[-FX_ONE, FX_ONE]`.
pub open spec fn sin_of(x: int) -> int {
    fx_clamp_of(sin_poly_of(fold_of(reduce_of(x))), -(FX_ONE as int), FX_ONE as int)
}

/// What the fixed-point cosine returns: `c` is the integer square root of
/// `FX_ONE^2 - sin_of(x)^2`, negated on the half of the circle where the
/// cosine is negative. The bracket determines `c` uniquely.
pub open spec fn cos_bracket(x: int, c: int) -> bool {
    let s = sin_of(x);
    let m = FX_ONE as int * FX_ONE as int - s * s;
    let a = fx_abs_of(c);
    a * a <= m < (a + 1) * (a + 1) && if fx_abs_of(reduce_of(x)) <= HALF_PI_FX as int {
        c >= 0
    } else {
        c <= 0
    }
}

/// Reduce an angle into `[-PI_FX, PI_FX]` by whole periods.
pub fn reduce_angle(x: i64) -> (r: i64)
    requires
        fx_abs_of(x as int) <= FX_ANGLE_MAX as int,
    ensures
        r == reduce_of(x as int),
        -PI_FX <= r <= PI_FX,
{
    let mut r: i64 = x;
    while r > PI_FX
        invariant
            reduce_of(r as int) == reduce_of(x as int),
            -FX_ANGLE_MAX <= r <= FX_ANGLE_MAX,
        decreases r + TWO_PI_FX,
    {
        r = r - TWO_PI_FX;
    }
    while r < -PI_FX
        invariant
            reduce_of(r as int) == reduce_of(x as int),
            r >= -FX_ANGLE_MAX,
            r <= PI_FX,
        decreases TWO_PI_FX - r,
    {
        r = r + TWO_PI_FX;
    }
    proof {
        assert(reduce_of(r as int) == r as int);
    }
    r
}

/// Fold a reduced angle into `[-HALF_PI_FX, HALF_PI_FX]`.
fn fold_angle(r: i64) -> (f: i64)
    requires
        -PI_FX <= r <= PI_FX,
    ensures
        f == fold_of(r as int),
        fx_abs_of(f as int) <= HALF_PI_FX as int,
{
    if r > HALF_PI_FX {
        PI_FX - r
    } else if r < -HALF_PI_FX {
        -PI_FX - r
    } else {
        r
    }
}

/// Evaluate the sine polynomial on a folded angle and clamp into
/// `[-FX_ONE, FX_ONE]`.
fn sin_poly(x: i64) -> (r: i64)
    requires
        fx_abs_of(x as int) <= HALF_PI_FX as int,
    ensures
        r == fx_clamp_of(sin_poly_of(x as int), -(FX_ONE as int), FX_ONE as int),
        -FX_ONE <= r <= FX_ONE,
{
    proof {
        lemma_fx_mul_bound(x as int, x as int, HALF_PI_FX as int, HALF_PI_FX as int);
    }
    let q: i64 = fx_mul(x, x);
    proof {
        lemma_fx_mul_bound(q as int, q as int, 11000000000int, 11000000000int);
    }
    let q2: i64 = fx_mul(q, q);
    proof {
        lemma_fx_mul_bound(q2 as int, q as int, 29000000000int, 11000000000int);
    }
    let q3: i64 = fx_mul(q2, q);
    proof {
        lemma_fx_mul_bound(q3 as int, q as int, 75000000000int, 11000000000int);
    }
    let q4: i64 = fx_mul(q3, q);
    proof {
        lemma_fx_mul_bound(q as int, INV_6 as int, 11000000000int, INV_6 as int);
        lemma_fx_mul_bound(q2 as int, INV_120 as int, 29000000000int, INV_120 as int);
        lemma_fx_mul_bound(q3 as int, INV_5040 as int, 75000000000int, INV_5040 as int);
        lemma_fx_mul_bound(q4 as int, INV_362880 as int, 200000000000int, INV_362880 as int);
    }
    let t1: i64 = fx_mul(q, INV_6);
    let t2: i64 = fx_mul(q2, INV_120);
    let t3: i64 = fx_mul(q3, INV_5040);
    let t4: i64 = fx_mul(q4, INV_362880);
    let p: i64 = FX_ONE - t1 + t2 - t3 + t4;
    proof {
        lemma_fx_mul_bound(x as int, p as int, HALF_PI_FX as int, 12000000000int);
    }
    let raw: i64 = fx_mul(x, p);
    fx_clamp(raw, -FX_ONE, FX_ONE)
}

/// The fixed-point sine and cosine of an angle.
///
/// The first component is exactly `sin_of(x)`; the second satisfies
/// `cos_bracket`, so the pair's raw squared norm is within `2 * FX_ONE + 1`
/// below the exact unit value and never above it.
pub fn sin_cos(x: i64) -> (r: (i64, i64))
    requires
        fx_abs_of(x as int) <= FX_ANGLE_MAX as int,
    ensures
        r.0 == sin_of(x as int),
        cos_bracket(x as int, r.1 as int),
        -FX_ONE <= r.0 <= FX_ONE,
        -FX_ONE <= r.1 <= FX_ONE,
        FX_ONE as int * FX_ONE as int - 2 * FX_ONE as int - 1
            <= r.0 as int * r.0 as int + r.1 as int * r.1 as int
            <= FX_ONE as int * FX_ONE as int,
        x == 0 ==> r.0 == 0 && r.1 == FX_ONE,
{
    let red: i64 = reduce_angle(x);
    let folded: i64 = fold_angle(red);
    let s: i64 = sin_poly(folded);
    proof {
        assert(0 <= s as int * s as int <= FX_ONE as int * FX_ONE as int) by (nonlinear_arith)
            requires
                -(FX_ONE as int) <= s as int <= FX_ONE as int,
        ;
    }
    let ss: i128 = s as i128 * s as i128;
    let d: i128 = 4294967296i128 * 4294967296i128 - ss;
    let c0: u128 = isqrt_u128(d as u128);
    proof {
        lemma_isqrt_le(c0 as int, d as int, FX_ONE as int);
    }
    let cm: i64 = c0 as i64;
    let c: i64 = if red > HALF_PI_FX || red < -HALF_PI_FX {
        -cm
    } else {
        cm
    };
    proof {
        assert(fx_abs_of(c as int) == cm as int);
        assert(cm as int * cm as int <= d as int);
        assert((cm as int + 1) * (cm as int + 1) > d as int);
        assert(c as int * c as int == cm as int * cm as int) by (nonlinear_arith)
            requires
                fx_abs_of(c as int) == cm as int,
        ;
        assert((d as int) < (c as int * c as int + 2 * (cm as int) + 1)) by (nonlinear_arith)
            requires
                (cm as int + 1) * (cm as int + 1) > d as int,
                c as int * c as int == cm as int * cm as int,
        ;
        assert(s as int * s as int + c as int * c as int
            >= FX_ONE as int * FX_ONE as int - 2 * FX_ONE as int - 1);
        assert(s as int * s as int + c as int * c as int <= FX_ONE as int * FX_ONE as int);
        if x == 0 {
            lemma_sin_of_zero();
            assert(s == 0);
            assert(ss == 0) by (nonlinear_arith)
                requires
                    ss == s as int * s as int,
                    s as int == 0,
            ;
            assert(d as int == FX_ONE as int * FX_ONE as int);
            assert(cm as int == FX_ONE as int) by (nonlinear_arith)
                requires
                    cm as int * cm as int <= FX_ONE as int * FX_ONE as int,
                    (cm as int + 1) * (cm as int + 1) > FX_ONE as int * FX_ONE as int,
                    cm as int >= 0,
                    FX_ONE as int > 0,
            ;
        }
    }
    (s, c)
}

/// The cosine witness of an angle is unique: the bracket pins its magnitude
/// and the half-circle test pins its sign.
pub proof fn lemma_cos_bracket_unique(x: int, c1: int, c2: int)
    requires
        cos_bracket(x, c1),
        cos_bracket(x, c2),
    ensures
        c1 == c2,
{
    let m = FX_ONE as int * FX_ONE as int - sin_of(x) * sin_of(x);
    let a1 = fx_abs_of(c1);
    let a2 = fx_abs_of(c2);
    assert(a1 == a2) by (nonlinear_arith)
        requires
            0 <= a1 && a1 * a1 <= m && (a1 + 1) * (a1 + 1) > m,
            0 <= a2 && a2 * a2 <= m && (a2 + 1) * (a2 + 1) > m,
    ;
}

/// The fixed-point sine of the zero angle is exactly zero.
pub proof fn lemma_sin_of_zero()
    ensures
        sin_of(0int) == 0int,
{
    assert(reduce_of(0int) == 0int);
    assert(fold_of(0int) == 0int);
    assert(0int * 0int == 0int);
    assert(tdiv(0int, FX_ONE as int) == 0int);
    assert(fx_mul_of(0int, 0int) == 0int);
    assert(fx_mul_of(0int, INV_6 as int) == 0int);
    assert(fx_mul_of(0int, INV_120 as int) == 0int);
    assert(fx_mul_of(0int, INV_5040 as int) == 0int);
    assert(fx_mul_of(0int, INV_362880 as int) == 0int);
    assert(sin_poly_of(0int) == fx_mul_of(0int, FX_ONE as int));
    assert(fx_mul_of(0int, FX_ONE as int) == 0int);
}

/// An integer square root of a value at most `b * b` is at most `b`.
proof fn lemma_isqrt_le(r: int, n2: int, b: int)
    by (nonlinear_arith)
    requires
        0 <= r,
        0 < b,
        r * r <= n2,
        n2 <= b * b,
    ensures
        r <= b,
{
}

/// Largest magnitude returned by the fixed-point tangent (about 2^16).
pub const TAN_CAP_FX: i64 = 281474976710656;

/// Smallest cosine magnitude on which the tangent still divides.
pub const TAN_COS_MIN: i64 = 65536;

/// What the fixed-point tangent returns, given the sine and the cosine of
/// its argument: the quotient, capped when the cosine is tiny.
pub open spec fn tan_from(s: int, c: int) -> int {
    if c >= TAN_COS_MIN as int {
        fx_div_of(s, c)
    } else if c <= -(TAN_COS_MIN as int) {
        fx_div_of(s, c)
    } else if s >= 0 {
        TAN_CAP_FX as int
    } else {
        -TAN_CAP_FX as int
    }
}

/// The fixed-point tangent: the sine over the cosine, capped at
/// `TAN_CAP_FX` when the cosine magnitude falls below `TAN_COS_MIN`.
pub fn tan_fx(x: i64) -> (r: i64)
    requires
        fx_abs_of(x as int) <= FX_ANGLE_MAX as int,
    ensures
        exists |c: int| #[trigger] cos_bracket(x as int, c)
            && r == tan_from(sin_of(x as int), c),
        fx_abs_of(r as int) <= TAN_CAP_FX as int,
        x == 0 ==> r == 0,
{
    let (s, c): (i64, i64) = sin_cos(x);
    let r: i64 = if c >= TAN_COS_MIN || c <= -TAN_COS_MIN {
        proof {
            lemma_tan_div_bound(s as int, c as int);
        }
        fx_div(s, c)
    } else if s >= 0 {
        TAN_CAP_FX
    } else {
        -TAN_CAP_FX
    };
    proof {
        assert(cos_bracket(x as int, c as int) && r as int == tan_from(sin_of(x as int), c as int));
        if x == 0 {
            assert(c as int >= TAN_COS_MIN as int);
            assert(fx_div_of(0int, c as int) == 0int) by (nonlinear_arith)
                requires
                    c as int > 0,
            ;
        }
    }
    r
}

/// The tangent quotient stays below the cap when the cosine is large enough.
proof fn lemma_tan_div_bound(s: int, c: int)
    requires
        fx_abs_of(s) <= FX_ONE as int,
        fx_abs_of(c) >= TAN_COS_MIN as int,
        c != 0,
    ensures
        fx_abs_of(fx_div_of(s, c)) <= TAN_CAP_FX as int,
{
    let sa = fx_abs_of(s);
    let ca = fx_abs_of(c);
    let u = (sa * FX_ONE as int) / ca;
    assert(u == fx_abs_of(fx_div_of(s, c))) by (nonlinear_arith)
        requires
            ca == fx_abs_of(c),
            sa == fx_abs_of(s),
            c != 0,
            u == (sa * FX_ONE as int) / ca,
            ca > 0,
    ;
    assert(u * ca <= sa * FX_ONE as int && u >= 0) by (nonlinear_arith)
        requires
            ca > 0,
            sa >= 0,
            u == (sa * FX_ONE as int) / ca,
    ;
    assert(u <= TAN_CAP_FX as int) by (nonlinear_arith)
        requires
            u * ca <= sa * FX_ONE as int,
            u >= 0,
            0 <= sa <= FX_ONE as int,
            ca >= TAN_COS_MIN as int,
    ;
}

} // verus!
