//! Fixed-point scalar arithmetic.
//!
//! A scalar is an `i64` holding the real value scaled by `FX_ONE` (2^32).
//! Products and quotients round toward zero; the spec functions `fx_mul_of`
//! and `fx_div_of` state that rounding exactly, so every arithmetic contract
//! in the crate is exact.

use vstd::prelude::*;

verus! {

/// The fixed-point scale: the representation of the real number 1.
pub const FX_ONE: i64 = 4294967296;

/// Largest magnitude accepted for a coordinate-scale quantity (about 2^15
/// world units). Raw squared norms of such quantities stay well inside
/// `i128`.
pub const FX_COORD_MAX: i64 = 120000000000000;

/// Truncating division by a positive divisor: rounds toward zero,
/// like Rust's `/` on signed integers.
pub open spec fn tdiv(a: int, b: int) -> int {
    if a >= 0 {
        a / b
    } else {
        -((-a) / b)
    }
}

/// The fixed-point product: `(a * b) / FX_ONE`, rounded toward zero.
pub open spec fn fx_mul_of(a: int, b: int) -> int {
    tdiv(a * b, FX_ONE as int)
}

/// The fixed-point quotient: `(a * FX_ONE) / b`, rounded toward zero.
pub open spec fn fx_div_of(a: int, b: int) -> int {
    if b >= 0 {
        tdiv(a * FX_ONE as int, b)
    } else {
        tdiv(-(a * FX_ONE as int), -b)
    }
}

/// Magnitude of an integer.
pub open spec fn fx_abs_of(a: int) -> int {
    if a >= 0 {
        a
    } else {
        -a
    }
}

/// Clamping into an interval.
pub open spec fn fx_clamp_of(x: int, lo: int, hi: int) -> int {
    if x < lo {
        lo
    } else if x > hi {
        hi
    } else {
        x
    }
}

proof fn lemma_abs_product(a: int, b: int)
    by (nonlinear_arith)
    ensures
        fx_abs_of(a * b) == fx_abs_of(a) * fx_abs_of(b),
{
}

proof fn lemma_div_monotone_nonneg(a: int, b: int, d: int)
    by (nonlinear_arith)
    requires
        0 <= a <= b,
        d > 0,
    ensures
        0 <= a / d <= b / d,
{
}

/// Bound on a fixed-point product from bounds on its factors.
pub proof fn lemma_fx_mul_bound(a: int, b: int, aa: int, bb: int)
    requires
        fx_abs_of(a) <= aa,
        fx_abs_of(b) <= bb,
    ensures
        fx_abs_of(fx_mul_of(a, b)) <= (aa * bb) / FX_ONE as int,
{
    lemma_abs_product(a, b);
    assert(fx_abs_of(a) * fx_abs_of(b) <= aa * bb) by (nonlinear_arith)
        requires
            0 <= fx_abs_of(a) <= aa,
            0 <= fx_abs_of(b) <= bb,
    ;
    lemma_div_monotone_nonneg(fx_abs_of(a * b), aa * bb, FX_ONE as int);
}

/// A factor in [0, FX_ONE] cannot increase a magnitude.
pub proof fn lemma_fx_mul_unit(a: int, b: int, aa: int)
    requires
        fx_abs_of(a) <= aa,
        0 <= b <= FX_ONE,
    ensures
        fx_abs_of(fx_mul_of(a, b)) <= aa,
{
    lemma_fx_mul_bound(a, b, aa, FX_ONE as int);
    assert((aa * FX_ONE) / FX_ONE as int == aa) by (nonlinear_arith)
        requires
            aa >= 0,
    ;
}

/// The width a bisection interval cannot exceed after one split: the
/// rounded-up half.
pub open spec fn ceil_half(w: int) -> int {
    w - tdiv(w, 2)
}

/// The width a bisection interval cannot exceed after `k` splits.
pub open spec fn shrunk(w: int, k: nat) -> int
    decreases k,
{
    if k == 0 {
        w
    } else {
        ceil_half(shrunk(w, (k - 1) as nat))
    }
}

/// The rounded-up half is monotone and at most half plus one.
pub proof fn lemma_ceil_half(w: int, v: int)
    by (nonlinear_arith)
    requires
        0 <= w <= v,
    ensures
        0 <= ceil_half(w) <= ceil_half(v),
        ceil_half(w) <= tdiv(w, 2) + 1,
        tdiv(w, 2) <= ceil_half(w),
{
}

/// After `k` splits the interval width is at most the original width divided
/// by two to the `k`, plus two.
pub proof fn lemma_shrunk_bound(w: int, k: nat)
    requires
        w >= 0,
    ensures
        0 <= shrunk(w, k) <= w / vstd::arithmetic::power2::pow2(k) as int + 2,
    decreases k,
{
    vstd::arithmetic::power2::lemma_pow2_pos(k);
    if k == 0 {
        assert(vstd::arithmetic::power2::pow2(0) == 1) by {
            vstd::arithmetic::power2::lemma2_to64();
        }
    } else {
        let km = (k - 1) as nat;
        lemma_shrunk_bound(w, km);
        vstd::arithmetic::power2::lemma_pow2_pos(km);
        let p = vstd::arithmetic::power2::pow2(km) as int;
        let t = w / p;
        assert(t >= 0) by (nonlinear_arith)
            requires
                w >= 0,
                p > 0,
                t == w / p,
        ;
        lemma_ceil_half(shrunk(w, km), t + 2);
        assert(ceil_half(t + 2) == t + 2 - tdiv(t + 2, 2));
        assert(tdiv(t + 2, 2) == t / 2 + 1) by (nonlinear_arith)
            requires
                t >= 0,
        ;
        assert(ceil_half(t + 2) <= t / 2 + 2) by (nonlinear_arith)
            requires
                t >= 0,
                ceil_half(t + 2) == t + 2 - (t / 2 + 1),
        ;
        vstd::arithmetic::div_mod::lemma_div_denominator(w, p, 2);
        assert(vstd::arithmetic::power2::pow2(k) == 2 * vstd::arithmetic::power2::pow2(km)) by {
            vstd::arithmetic::power2::lemma_pow2_unfold(k);
        }
        assert(p * 2 == vstd::arithmetic::power2::pow2(k) as int) by (nonlinear_arith)
            requires
                p == vstd::arithmetic::power2::pow2(km) as int,
                vstd::arithmetic::power2::pow2(k) == 2 * vstd::arithmetic::power2::pow2(km),
        ;
    }
}

/// Fixed-point product. Exact: returns `fx_mul_of(a, b)`.
pub fn fx_mul(a: i64, b: i64) -> (r: i64)
    requires
        fx_abs_of(fx_mul_of(a as int, b as int)) <= i64::MAX as int,
    ensures
        r == fx_mul_of(a as int, b as int),
{
    let neg: bool = (a < 0) != (b < 0);
    let wa: i128 = a as i128;
    let wb: i128 = b as i128;
    let ma: u128 = (if wa < 0 { -wa } else { wa }) as u128;
    let mb: u128 = (if wb < 0 { -wb } else { wb }) as u128;
    proof {
        assert(ma * mb <= 0x8000000000000000u128 * 0x8000000000000000u128) by (nonlinear_arith)
            requires
                ma <= 0x8000000000000000u128,
                mb <= 0x8000000000000000u128,
        ;
        assert(0x8000000000000000u128 as int * 0x8000000000000000u128 as int
            == 0x40000000000000000000000000000000int) by (nonlinear_arith);
    }
    let m: u128 = ma * mb;
    let q: u128 = m / 4294967296u128;
    proof {
        lemma_abs_product(a as int, b as int);
        assert(m == fx_abs_of(a as int * b as int));
        assert(q == fx_abs_of(a as int * b as int) as int / FX_ONE as int);
        assert(fx_abs_of(fx_mul_of(a as int, b as int)) == tdiv(fx_abs_of(a as int * b as int), FX_ONE as int));
    }
    if neg {
        proof {
            assert(a as int * b as int <= 0) by (nonlinear_arith)
                requires
                    ((a as int) < 0) != ((b as int) < 0),
            ;
        }
        -(q as i64)
    } else {
        proof {
            assert(a as int * b as int >= 0) by (nonlinear_arith)
                requires
                    !(((a as int) < 0) != ((b as int) < 0)),
            ;
        }
        q as i64
    }
}

/// Fixed-point quotient. Exact: returns `fx_div_of(a, b)`.
pub fn fx_div(a: i64, b: i64) -> (r: i64)
    requires
        b != 0,
        fx_abs_of(fx_div_of(a as int, b as int)) <= i64::MAX as int,
    ensures
        r == fx_div_of(a as int, b as int),
{
    let neg: bool = (a < 0) != (b < 0);
    let wa: i128 = a as i128;
    let wb: i128 = b as i128;
    let ma: u128 = (if wa < 0 { -wa } else { wa }) as u128;
    let mb: u128 = (if wb < 0 { -wb } else { wb }) as u128;
    let m: u128 = ma * 4294967296u128;
    let q: u128 = m / mb;
    proof {
        lemma_abs_product(a as int, FX_ONE as int);
        assert(m == fx_abs_of(a as int) * FX_ONE == fx_abs_of(a as int * FX_ONE));
        if b >= 0 {
            assert(fx_abs_of(fx_div_of(a as int, b as int)) == tdiv(fx_abs_of(a as int * FX_ONE), mb as int));
        } else {
            assert(fx_abs_of(fx_div_of(a as int, b as int)) == tdiv(fx_abs_of(a as int * FX_ONE), mb as int));
        }
    }
    if neg {
        -(q as i64)
    } else {
        q as i64
    }
}

/// Bound on a fixed-point quotient from a bound on the numerator and a
/// positive lower bound on the divisor magnitude.
pub proof fn lemma_fx_div_bound(a: int, b: int, aa: int, bmin: int)
    requires
        fx_abs_of(a) <= aa,
        fx_abs_of(b) >= bmin,
        bmin > 0,
    ensures
        fx_abs_of(fx_div_of(a, b)) <= (aa * FX_ONE as int) / bmin,
{
    let sa = fx_abs_of(a);
    let ba = fx_abs_of(b);
    let u = (sa * FX_ONE as int) / ba;
    assert(u == fx_abs_of(fx_div_of(a, b))) by (nonlinear_arith)
        requires
            ba == fx_abs_of(b),
            sa == fx_abs_of(a),
            ba > 0,
            u == (sa * FX_ONE as int) / ba,
    ;
    assert(u * ba <= sa * FX_ONE as int && u >= 0) by (nonlinear_arith)
        requires
            ba > 0,
            sa >= 0,
            u == (sa * FX_ONE as int) / ba,
    ;
    assert(u * bmin <= aa * FX_ONE as int) by (nonlinear_arith)
        requires
            u * ba <= sa * FX_ONE as int,
            0 <= sa <= aa,
            ba >= bmin > 0,
            u >= 0,
    ;
    assert(u <= (aa * FX_ONE as int) / bmin) by (nonlinear_arith)
        requires
            u * bmin <= aa * FX_ONE as int,
            bmin > 0,
            u >= 0,
    ;
}

/// The fixed-point product of nonnegative factors is nonnegative.
pub proof fn lemma_fx_mul_nonneg(a: int, b: int)
    by (nonlinear_arith)
    requires
        a >= 0,
        b >= 0,
    ensures
        fx_mul_of(a, b) >= 0,
{
}

/// A product with a factor in `[0, FX_ONE]` lies between zero and the other
/// factor.
pub proof fn lemma_fx_mul_between(a: int, m: int)
    by (nonlinear_arith)
    requires
        0 <= m <= FX_ONE,
    ensures
        a >= 0 ==> 0 <= fx_mul_of(a, m) <= a,
        a < 0 ==> a <= fx_mul_of(a, m) <= 0,
{
}

/// Fixed-point product clamped into `[lo, hi]`. Exact: returns the clamped
/// `fx_mul_of(a, b)`, with no restriction on the product's size.
pub fn fx_mul_clamp(a: i64, b: i64, lo: i64, hi: i64) -> (r: i64)
    requires
        lo <= hi,
    ensures
        r == fx_clamp_of(fx_mul_of(a as int, b as int), lo as int, hi as int),
        lo <= r <= hi,
{
    let neg: bool = (a < 0) != (b < 0);
    let wa: i128 = a as i128;
    let wb: i128 = b as i128;
    let ma: u128 = (if wa < 0 { -wa } else { wa }) as u128;
    let mb: u128 = (if wb < 0 { -wb } else { wb }) as u128;
    proof {
        assert(ma * mb <= 0x8000000000000000u128 * 0x8000000000000000u128) by (nonlinear_arith)
            requires
                ma <= 0x8000000000000000u128,
                mb <= 0x8000000000000000u128,
        ;
        assert(0x8000000000000000u128 as int * 0x8000000000000000u128 as int
            == 0x40000000000000000000000000000000int) by (nonlinear_arith);
    }
    let m: u128 = ma * mb;
    let q: u128 = m / 4294967296u128;
    proof {
        lemma_abs_product(a as int, b as int);
        assert(m == fx_abs_of(a as int * b as int));
        assert(q == fx_abs_of(a as int * b as int) as int / FX_ONE as int);
        assert(fx_abs_of(fx_mul_of(a as int, b as int))
            == tdiv(fx_abs_of(a as int * b as int), FX_ONE as int));
        if neg {
            assert(a as int * b as int <= 0) by (nonlinear_arith)
                requires
                    ((a as int) < 0) != ((b as int) < 0),
            ;
        } else {
            assert(a as int * b as int >= 0) by (nonlinear_arith)
                requires
                    !(((a as int) < 0) != ((b as int) < 0)),
            ;
        }
    }
    if neg {
        if lo >= 0 {
            lo
        } else if q >= (-(lo as i128)) as u128 {
            lo
        } else {
            let v: i64 = -(q as i64);
            if v > hi {
                hi
            } else {
                v
            }
        }
    } else {
        if hi <= 0 {
            hi
        } else if q >= hi as u128 {
            hi
        } else {
            let v: i64 = q as i64;
            if v < lo {
                lo
            } else {
                v
            }
        }
    }
}

/// Fixed-point quotient clamped into `[lo, hi]`. Exact: returns the clamped
/// `fx_div_of(a, b)`, with no restriction on the quotient's size.
pub fn fx_div_clamp(a: i64, b: i64, lo: i64, hi: i64) -> (r: i64)
    requires
        b != 0,
        lo <= hi,
    ensures
        r == fx_clamp_of(fx_div_of(a as int, b as int), lo as int, hi as int),
        lo <= r <= hi,
{
    let neg: bool = (a < 0) != (b < 0);
    let wa: i128 = a as i128;
    let wb: i128 = b as i128;
    let ma: u128 = (if wa < 0 { -wa } else { wa }) as u128;
    let mb: u128 = (if wb < 0 { -wb } else { wb }) as u128;
    let m: u128 = ma * 4294967296u128;
    let q: u128 = m / mb;
    proof {
        lemma_abs_product(a as int, FX_ONE as int);
        assert(m == fx_abs_of(a as int) * FX_ONE == fx_abs_of(a as int * FX_ONE));
        if b >= 0 {
            assert(fx_abs_of(fx_div_of(a as int, b as int))
                == tdiv(fx_abs_of(a as int * FX_ONE), mb as int));
        } else {
            assert(fx_abs_of(fx_div_of(a as int, b as int))
                == tdiv(fx_abs_of(a as int * FX_ONE), mb as int));
        }
    }
    if neg {
        if lo >= 0 {
            lo
        } else if q >= (-(lo as i128)) as u128 {
            lo
        } else {
            let v: i64 = -(q as i64);
            if v > hi {
                hi
            } else {
                v
            }
        }
    } else {
        if hi <= 0 {
            hi
        } else if q >= hi as u128 {
            hi
        } else {
            let v: i64 = q as i64;
            if v < lo {
                lo
            } else {
                v
            }
        }
    }
}

/// Halving toward zero.
pub fn fx_half(a: i64) -> (r: i64)
    requires
        a != i64::MIN,
    ensures
        r == tdiv(a as int, 2),
{
    if a >= 0 {
        ((a as u64) / 2u64) as i64
    } else {
        let m: u64 = (-a) as u64;
        -((m / 2u64) as i64)
    }
}

/// Integer square root of a 128-bit value below 2^126.
///
/// Returns the floor of the exact square root.
pub fn isqrt_u128(n: u128) -> (r: u128)
    requires
        n < 0x40000000000000000000000000000000u128,
    ensures
        r * r <= n,
        n < (r + 1) * (r + 1),
        r < 0x8000000000000000u128,
{
    if n == 0 {
        return 0;
    }
    let mut lo: u128 = 0;
    let mut hi: u128 = 0x8000000000000000u128;
    proof {
        assert((0x8000000000000000u128 as int) * (0x8000000000000000u128 as int)
            == 0x40000000000000000000000000000000int) by (nonlinear_arith);
    }
    while hi - lo > 1
        invariant
            lo < hi <= 0x8000000000000000u128,
            lo * lo <= n,
            n < hi * hi,
        decreases hi - lo,
    {
        let mid: u128 = lo + (hi - lo) / 2;
        proof {
            assert(mid * mid <= 0x8000000000000000u128 * 0x8000000000000000u128)
                by (nonlinear_arith)
                requires
                    0 <= mid <= 0x8000000000000000u128,
            ;
        }
        if mid * mid <= n {
            lo = mid;
        } else {
            hi = mid;
        }
    }
    lo
}

/// Fixed-point absolute value.
pub fn fx_abs(a: i64) -> (r: i64)
    requires
        a != i64::MIN,
    ensures
        r == fx_abs_of(a as int),
{
    if a < 0 {
        -a
    } else {
        a
    }
}

/// Clamp a scalar into `[lo, hi]`.
pub fn fx_clamp(x: i64, lo: i64, hi: i64) -> (r: i64)
    requires
        lo <= hi,
    ensures
        r == fx_clamp_of(x as int, lo as int, hi as int),
        lo <= r <= hi,
{
    if x < lo {
        lo
    } else if x > hi {
        hi
    } else {
        x
    }
}

/// The larger of two scalars.
pub fn fx_max(a: i64, b: i64) -> (r: i64)
    ensures
        r == if a as int >= b as int { a as int } else { b as int },
{
    if a >= b {
        a
    } else {
        b
    }
}

/// The smaller of two scalars.
pub fn fx_min(a: i64, b: i64) -> (r: i64)
    ensures
        r == if a as int <= b as int { a as int } else { b as int },
{
    if a <= b {
        a
    } else {
        b
    }
}

} // verus!
