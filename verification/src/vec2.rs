//! 2D vector algebra over fixed-point scalars.

use vstd::prelude::*;
use crate::fx::{
    FX_ONE, FX_COORD_MAX, tdiv, fx_abs_of, fx_mul_of, fx_div_of, fx_mul, fx_div, isqrt_u128,
    lemma_fx_mul_bound,
};
use crate::trig::{FX_ANGLE_MAX, sin_of, cos_bracket, sin_cos};

verus! {

/// A pair of fixed-point scalars.
#[derive(Clone, Copy, Debug, PartialEq, Eq, Structural)]
pub struct Vec2(pub i64, pub i64);

/// Squared norm at raw product scale (`FX_ONE` squared times the real value).
pub open spec fn norm_sq_raw(v: Vec2) -> int {
    v.0 * v.0 + v.1 * v.1
}

/// The fixed-point dot product of two vectors.
pub open spec fn dot_of(a: Vec2, b: Vec2) -> int {
    tdiv(a.0 * b.0 + a.1 * b.1, FX_ONE as int)
}

/// Whether both components are bounded by `m` in magnitude.
pub open spec fn coords_bounded(v: Vec2, m: int) -> bool {
    fx_abs_of(v.0 as int) <= m && fx_abs_of(v.1 as int) <= m
}

/// The fixed-point squared distance between two points.
pub open spec fn dist_sq_of(a: Vec2, b: Vec2) -> int {
    tdiv((a.0 - b.0) * (a.0 - b.0) + (a.1 - b.1) * (a.1 - b.1), FX_ONE as int)
}

impl Vec2 {
    /// Componentwise sum.
    pub fn plus(self, rhs: Vec2) -> (r: Vec2)
        requires
            i64::MIN <= self.0 + rhs.0 <= i64::MAX,
            i64::MIN <= self.1 + rhs.1 <= i64::MAX,
        ensures
            r.0 == self.0 + rhs.0,
            r.1 == self.1 + rhs.1,
    {
        Vec2(self.0 + rhs.0, self.1 + rhs.1)
    }

    /// Componentwise difference.
    pub fn minus(self, rhs: Vec2) -> (r: Vec2)
        requires
            i64::MIN <= self.0 - rhs.0 <= i64::MAX,
            i64::MIN <= self.1 - rhs.1 <= i64::MAX,
        ensures
            r.0 == self.0 - rhs.0,
            r.1 == self.1 - rhs.1,
    {
        Vec2(self.0 - rhs.0, self.1 - rhs.1)
    }

    /// Componentwise negation.
    pub fn neg_v(self) -> (r: Vec2)
        requires
            self.0 != i64::MIN,
            self.1 != i64::MIN,
        ensures
            r.0 == -self.0,
            r.1 == -self.1,
    {
        Vec2(-self.0, -self.1)
    }

    /// Scaling by a fixed-point scalar.
    pub fn scale(self, rhs: i64) -> (r: Vec2)
        requires
            fx_abs_of(fx_mul_of(self.0 as int, rhs as int)) <= i64::MAX as int,
            fx_abs_of(fx_mul_of(self.1 as int, rhs as int)) <= i64::MAX as int,
        ensures
            r.0 == fx_mul_of(self.0 as int, rhs as int),
            r.1 == fx_mul_of(self.1 as int, rhs as int),
    {
        Vec2(fx_mul(self.0, rhs), fx_mul(self.1, rhs))
    }

    /// Division by a nonzero fixed-point scalar.
    pub fn div_scalar(self, rhs: i64) -> (r: Vec2)
        requires
            rhs != 0,
            fx_abs_of(fx_div_of(self.0 as int, rhs as int)) <= i64::MAX as int,
            fx_abs_of(fx_div_of(self.1 as int, rhs as int)) <= i64::MAX as int,
        ensures
            r.0 == fx_div_of(self.0 as int, rhs as int),
            r.1 == fx_div_of(self.1 as int, rhs as int),
    {
        Vec2(fx_div(self.0, rhs), fx_div(self.1, rhs))
    }

    /// The dot product.
    pub fn dot(self, rhs: Vec2) -> (r: i64)
        requires
            coords_bounded(self, FX_COORD_MAX as int),
            coords_bounded(rhs, FX_COORD_MAX as int),
        ensures
            r == dot_of(self, rhs),
    {
        proof {
            lemma_coord_product_bound(self.0 as int, rhs.0 as int, FX_COORD_MAX as int);
            lemma_coord_product_bound(self.1 as int, rhs.1 as int, FX_COORD_MAX as int);
        }
        let px: i128 = self.0 as i128 * rhs.0 as i128;
        let py: i128 = self.1 as i128 * rhs.1 as i128;
        let s: i128 = px + py;
        let q: i128 = if s >= 0 {
            s / 4294967296i128
        } else {
            -((-s) / 4294967296i128)
        };
        proof {
            lemma_tdiv_contracts(s as int, FX_ONE as int);
        }
        q as i64
    }

    /// The squared distance to another point.
    pub fn dist_sq(self, rhs: Vec2) -> (r: i64)
        requires
            coords_bounded(self, 17592186044416int),
            coords_bounded(rhs, 70368744177664int),
        ensures
            r == dist_sq_of(self, rhs),
            r >= 0,
    {
        proof {
            assert(0 <= (self.0 as int - rhs.0 as int) * (self.0 as int - rhs.0 as int)
                <= 7744000000000000000000000000int) by (nonlinear_arith)
                requires
                    fx_abs_of(self.0 as int - rhs.0 as int) <= 88000000000000int,
            ;
            assert(0 <= (self.1 as int - rhs.1 as int) * (self.1 as int - rhs.1 as int)
                <= 7744000000000000000000000000int) by (nonlinear_arith)
                requires
                    fx_abs_of(self.1 as int - rhs.1 as int) <= 88000000000000int,
            ;
        }
        let dx: i128 = self.0 as i128 - rhs.0 as i128;
        let dy: i128 = self.1 as i128 - rhs.1 as i128;
        let n: i128 = dx * dx + dy * dy;
        let q: i128 = n / 4294967296i128;
        proof {
            assert(q as int == tdiv(n as int, FX_ONE as int));
            assert(0 <= q as int <= 3610000000000000000int) by (nonlinear_arith)
                requires
                    q as int == n as int / 4294967296int,
                    0 <= n as int <= 15488000000000000000000000000int,
            ;
        }
        q as i64
    }

    /// Rotation by 90 degrees counterclockwise.
    pub fn rotate90(self) -> (r: Vec2)
        requires
            self.1 != i64::MIN,
        ensures
            r.0 == -self.1,
            r.1 == self.0,
    {
        Vec2(-self.1, self.0)
    }

    /// The Euclidean norm: the floor of the square root of the raw squared
    /// norm, which is again a fixed-point scalar.
    pub fn norm(self) -> (r: i64)
        requires
            coords_bounded(self, FX_COORD_MAX as int),
        ensures
            0 <= r,
            r * r <= norm_sq_raw(self) < (r + 1) * (r + 1),
    {
        proof {
            lemma_coord_product_bound(self.0 as int, self.0 as int, FX_COORD_MAX as int);
            lemma_coord_product_bound(self.1 as int, self.1 as int, FX_COORD_MAX as int);
            assert(self.0 as int * self.0 as int >= 0 && self.1 as int * self.1 as int >= 0)
                by (nonlinear_arith);
        }
        let px: i128 = self.0 as i128 * self.0 as i128;
        let py: i128 = self.1 as i128 * self.1 as i128;
        let n2: u128 = (px + py) as u128;
        let r: u128 = isqrt_u128(n2);
        proof {
            assert(r * r <= n2 < (r + 1) * (r + 1));
            lemma_isqrt_below(r as int, n2 as int, 281474976710656int);
        }
        r as i64
    }
}

/// What `normalized` returns: the componentwise quotient by the unique
/// integer square root of the raw squared norm.
pub open spec fn normalized_rel(v: Vec2, r: Vec2) -> bool {
    exists |n: int|
        0 < n && #[trigger] (n * n) <= norm_sq_raw(v) < (n + 1) * (n + 1)
        && r.0 == fx_div_of(v.0 as int, n)
        && r.1 == fx_div_of(v.1 as int, n)
}

/// What `rotate` returns: the fixed-point rotation formula over the sine and
/// the unique cosine witness of the angle.
pub open spec fn rotate_rel(v: Vec2, angle: int, r: Vec2) -> bool {
    exists |c: int| #[trigger] cos_bracket(angle, c) && rotated_of(v, sin_of(angle), c, r)
}

/// The rotation result is unique: the sine is a function of the angle and
/// the cosine witness is pinned by its bracket.
pub proof fn lemma_rotate_rel_unique(v: Vec2, angle: int, r1: Vec2, r2: Vec2)
    requires
        rotate_rel(v, angle, r1),
        rotate_rel(v, angle, r2),
    ensures
        r1 == r2,
{
    let c1 = choose |c: int| #[trigger] cos_bracket(angle, c)
        && rotated_of(v, sin_of(angle), c, r1);
    let c2 = choose |c: int| #[trigger] cos_bracket(angle, c)
        && rotated_of(v, sin_of(angle), c, r2);
    crate::trig::lemma_cos_bracket_unique(angle, c1, c2);
    assert(r1.0 == r2.0 && r1.1 == r2.1);
}

/// The raw squared norm of a vector produced by `normalized`: within
/// `16 * FX_ONE` of the exact unit value `FX_ONE * FX_ONE`.
pub open spec fn unit_band(v: Vec2) -> bool {
    FX_ONE as int * FX_ONE as int - 16 * FX_ONE as int <= norm_sq_raw(v)
        <= FX_ONE as int * FX_ONE as int + 16 * FX_ONE as int
}

/// A vector in the unit band has a norm within one part in a thousand of
/// one: its raw squared norm sits between the squares of `FX_ONE` shrunk and
/// grown by a thousandth.
pub proof fn lemma_unit_band_tolerance(v: Vec2)
    requires
        unit_band(v),
    ensures
        (FX_ONE as int - FX_ONE as int / 1000) * (FX_ONE as int - FX_ONE as int / 1000)
            <= norm_sq_raw(v),
        norm_sq_raw(v)
            <= (FX_ONE as int + FX_ONE as int / 1000) * (FX_ONE as int + FX_ONE as int / 1000),
{
    let s = FX_ONE as int;
    let d = FX_ONE as int / 1000;
    assert((s - d) * (s - d) <= s * s - 16 * s && s * s + 16 * s <= (s + d) * (s + d))
        by (nonlinear_arith)
        requires
            s == 4294967296int,
            d == 4294967296int / 1000,
    ;
}

impl Vec2 {
    /// Scale to unit length.
    ///
    /// Defined for vectors at least half a world unit long; the result is the
    /// componentwise quotient by the integer square root of the raw squared
    /// norm, and its own raw squared norm lies in `unit_band`.
    pub fn normalized(self) -> (r: Vec2)
        requires
            coords_bounded(self, FX_COORD_MAX as int),
            norm_sq_raw(self) >= 2147483648int * 2147483648int,
        ensures
            normalized_rel(self, r),
            unit_band(r),
            coords_bounded(r, FX_ONE as int + 2),
    {
        let n: i64 = self.norm();
        proof {
            assert(n as int >= 2147483648int) by (nonlinear_arith)
                requires
                    (n as int + 1) * (n as int + 1) > 2147483648int * 2147483648int,
                    n as int >= 0,
            ;
            lemma_div_quotient_bound(self.0 as int, n as int);
            lemma_div_quotient_bound(self.1 as int, n as int);
        }
        let rx: i64 = fx_div(self.0, n);
        let ry: i64 = fx_div(self.1, n);
        proof {
            lemma_normalized_band(
                self.0 as int, self.1 as int, n as int, rx as int, ry as int,
            );
            assert(n * n <= norm_sq_raw(self) < (n + 1) * (n + 1));
        }
        Vec2(rx, ry)
    }
}

/// The raw squared norm of a rotated unit-band vector: within `64 * FX_ONE`
/// of the exact unit value.
pub open spec fn rot_band(v: Vec2) -> bool {
    FX_ONE as int * FX_ONE as int - 64 * FX_ONE as int <= norm_sq_raw(v)
        <= FX_ONE as int * FX_ONE as int + 64 * FX_ONE as int
}

/// What rotation by an angle returns, given the sine and a cosine witness.
pub open spec fn rotated_of(v: Vec2, s: int, c: int, r: Vec2) -> bool {
    r.0 == fx_mul_of(v.0 as int, c) - fx_mul_of(v.1 as int, s)
        && r.1 == fx_mul_of(v.0 as int, s) + fx_mul_of(v.1 as int, c)
}

impl Vec2 {
    /// Rotation by an angle (counterclockwise, radians).
    ///
    /// The components are the exact fixed-point rotation formula over the
    /// sine and the cosine witness of the angle; rotating a unit-band vector
    /// gives a vector whose raw squared norm is within `64 * FX_ONE` of
    /// exact, so it can be renormalized.
    pub fn rotate(self, angle: i64) -> (r: Vec2)
        requires
            coords_bounded(self, 2 * FX_ONE as int),
            fx_abs_of(angle as int) <= FX_ANGLE_MAX as int,
        ensures
            rotate_rel(self, angle as int, r),
            coords_bounded(r, 4 * FX_ONE as int + 2),
            unit_band(self) ==> rot_band(r),
            angle == 0 ==> r == self,
    {
        let (s, c): (i64, i64) = sin_cos(angle);
        proof {
            lemma_fx_mul_bound(self.0 as int, c as int, 2 * FX_ONE as int, FX_ONE as int);
            lemma_fx_mul_bound(self.1 as int, s as int, 2 * FX_ONE as int, FX_ONE as int);
            lemma_fx_mul_bound(self.0 as int, s as int, 2 * FX_ONE as int, FX_ONE as int);
            lemma_fx_mul_bound(self.1 as int, c as int, 2 * FX_ONE as int, FX_ONE as int);
            assert((2 * FX_ONE as int * FX_ONE as int) / FX_ONE as int == 2 * FX_ONE as int)
                by (nonlinear_arith);
        }
        let xc: i64 = fx_mul(self.0, c);
        let ys: i64 = fx_mul(self.1, s);
        let xs: i64 = fx_mul(self.0, s);
        let yc: i64 = fx_mul(self.1, c);
        let r: Vec2 = Vec2(xc - ys, xs + yc);
        proof {
            assert(rotated_of(self, s as int, c as int, r));
            if unit_band(self) {
                lemma_rotate_band(
                    self.0 as int, self.1 as int, s as int, c as int, r.0 as int, r.1 as int,
                );
            }
            if angle == 0 {
                assert(s == 0 && c == FX_ONE);
                lemma_fx_mul_one(self.0 as int);
                lemma_fx_mul_one(self.1 as int);
                lemma_fx_mul_zero(self.0 as int);
                lemma_fx_mul_zero(self.1 as int);
            }
        }
        r
    }
}

/// Multiplying by the fixed-point one is the identity.
proof fn lemma_fx_mul_one(a: int)
    by (nonlinear_arith)
    ensures
        fx_mul_of(a, FX_ONE as int) == a,
{
}

/// Multiplying by zero gives zero.
proof fn lemma_fx_mul_zero(a: int)
    by (nonlinear_arith)
    ensures
        fx_mul_of(a, 0) == 0,
{
}

/// An exact planar rotation preserves the product of the squared norms.
proof fn lemma_rot_identity(x: int, y: int, s: int, c: int)
    ensures
        (x * c - y * s) * (x * c - y * s) + (x * s + y * c) * (x * s + y * c)
            == (x * x + y * y) * (s * s + c * c),
{
    let a = x * c;
    let b = y * s;
    let d = x * s;
    let e = y * c;
    assert((a - b) * (a - b) == a * a - 2 * (a * b) + b * b) by (nonlinear_arith);
    assert((d + e) * (d + e) == d * d + 2 * (d * e) + e * e) by (nonlinear_arith);
    assert(a * b == d * e) by (nonlinear_arith)
        requires
            a == x * c,
            b == y * s,
            d == x * s,
            e == y * c,
    ;
    assert(a * a == (x * x) * (c * c)) by (nonlinear_arith)
        requires
            a == x * c,
    ;
    assert(b * b == (y * y) * (s * s)) by (nonlinear_arith)
        requires
            b == y * s,
    ;
    assert(d * d == (x * x) * (s * s)) by (nonlinear_arith)
        requires
            d == x * s,
    ;
    assert(e * e == (y * y) * (c * c)) by (nonlinear_arith)
        requires
            e == y * c,
    ;
    assert((x * x) * (c * c) + (y * y) * (s * s) + (x * x) * (s * s) + (y * y) * (c * c)
        == (x * x + y * y) * (s * s + c * c)) by (nonlinear_arith);
}

/// Rotating a unit-band vector by an exact sine/cosine pair keeps the raw
/// squared norm within `64 * FX_ONE` of the exact unit value.
proof fn lemma_rotate_band(x: int, y: int, s: int, c: int, r0: int, r1: int)
    requires
        fx_abs_of(x) <= 2 * FX_ONE as int,
        fx_abs_of(y) <= 2 * FX_ONE as int,
        fx_abs_of(s) <= FX_ONE as int,
        fx_abs_of(c) <= FX_ONE as int,
        FX_ONE as int * FX_ONE as int - 16 * FX_ONE as int <= x * x + y * y
            <= FX_ONE as int * FX_ONE as int + 16 * FX_ONE as int,
        FX_ONE as int * FX_ONE as int - 2 * FX_ONE as int - 1 <= s * s + c * c
            <= FX_ONE as int * FX_ONE as int,
        r0 == fx_mul_of(x, c) - fx_mul_of(y, s),
        r1 == fx_mul_of(x, s) + fx_mul_of(y, c),
    ensures
        FX_ONE as int * FX_ONE as int - 64 * FX_ONE as int <= r0 * r0 + r1 * r1
            <= FX_ONE as int * FX_ONE as int + 64 * FX_ONE as int,
{
    let k = FX_ONE as int;
    let xr = x * c - y * s;
    let yr = x * s + y * c;
    // The exact rotation preserves the product of the squared norms.
    lemma_rot_identity(x, y, s, c);
    assert(xr * xr + yr * yr == (x * x + y * y) * (s * s + c * c));
    // Magnitude bounds on the exact components.
    assert(fx_abs_of(xr) <= 4 * (k * k) && fx_abs_of(yr) <= 4 * (k * k)) by (nonlinear_arith)
        requires
            xr == x * c - y * s,
            yr == x * s + y * c,
            fx_abs_of(x) <= 2 * k,
            fx_abs_of(y) <= 2 * k,
            fx_abs_of(s) <= k,
            fx_abs_of(c) <= k,
            k > 0,
    ;
    // Each returned component is the descaled exact component, off by less
    // than two scale units.
    assert(fx_abs_of(r0 * k - xr) < 2 * k && fx_abs_of(r1 * k - yr) < 2 * k)
        by (nonlinear_arith)
        requires
            r0 == tdiv(x * c, k) - tdiv(y * s, k),
            r1 == tdiv(x * s, k) + tdiv(y * c, k),
            xr == x * c - y * s,
            yr == x * s + y * c,
            k == FX_ONE as int,
    ;
    // Squared bounds for each component.
    assert(xr * xr - 4 * k * fx_abs_of(xr) <= (r0 * k) * (r0 * k)
        <= xr * xr + 4 * k * fx_abs_of(xr) + 4 * (k * k)) by (nonlinear_arith)
        requires
            fx_abs_of(r0 * k - xr) < 2 * k,
            k > 0,
    ;
    assert(yr * yr - 4 * k * fx_abs_of(yr) <= (r1 * k) * (r1 * k)
        <= yr * yr + 4 * k * fx_abs_of(yr) + 4 * (k * k)) by (nonlinear_arith)
        requires
            fx_abs_of(r1 * k - yr) < 2 * k,
            k > 0,
    ;
    // Combine: bound the scaled squared norm of the result.
    let lo = (k * k - 16 * k) * (k * k - 2 * k - 1) - 32 * (k * (k * k));
    let hi = (k * k + 16 * k) * (k * k) + 32 * (k * (k * k)) + 8 * (k * k);
    assert((x * x + y * y) * (s * s + c * c) >= (k * k - 16 * k) * (k * k - 2 * k - 1))
        by (nonlinear_arith)
        requires
            x * x + y * y >= k * k - 16 * k,
            s * s + c * c >= k * k - 2 * k - 1,
            k == FX_ONE as int,
    ;
    assert((x * x + y * y) * (s * s + c * c) <= (k * k + 16 * k) * (k * k))
        by (nonlinear_arith)
        requires
            0 <= x * x + y * y <= k * k + 16 * k,
            0 <= s * s + c * c <= k * k,
    ;
    assert((r0 * k) * (r0 * k) + (r1 * k) * (r1 * k) == (r0 * r0 + r1 * r1) * (k * k))
        by (nonlinear_arith);
    assert(lo <= (r0 * r0 + r1 * r1) * (k * k) <= hi);
    // Descale the band.
    assert(k * k - 64 * k <= r0 * r0 + r1 * r1 && r0 * r0 + r1 * r1 <= k * k + 64 * k)
        by (nonlinear_arith)
        requires
            lo <= (r0 * r0 + r1 * r1) * (k * k) <= hi,
            lo == (k * k - 16 * k) * (k * k - 2 * k - 1) - 32 * (k * (k * k)),
            hi == (k * k + 16 * k) * (k * k) + 32 * (k * (k * k)) + 8 * (k * k),
            k == 4294967296int,
    ;
}

/// Dividing a coordinate by at least half of `FX_ONE` keeps the quotient
/// within about twice the coordinate.
proof fn lemma_div_quotient_bound(x: int, n: int)
    requires
        fx_abs_of(x) <= FX_COORD_MAX as int,
        n >= 2147483648int,
    ensures
        fx_abs_of(fx_div_of(x, n)) <= fx_abs_of(x) * 2,
{
    let s = FX_ONE as int;
    let ax = fx_abs_of(x);
    let u = (ax * s) / n;
    assert(u == fx_abs_of(fx_div_of(x, n))) by (nonlinear_arith)
        requires
            n > 0,
            ax == fx_abs_of(x),
            u == (ax * s) / n,
            s == FX_ONE as int,
    ;
    assert(u * n <= ax * s && 0 <= u) by (nonlinear_arith)
        requires
            n > 0,
            ax >= 0,
            s > 0,
            u == (ax * s) / n,
    ;
    assert(u <= ax * 2) by (nonlinear_arith)
        requires
            u * n <= ax * s,
            0 <= u,
            0 <= ax,
            n >= 2147483648int,
            s == 4294967296int,
    ;
}

/// The componentwise quotient of a vector by the integer square root of its
/// raw squared norm has a raw squared norm within `16 * FX_ONE` of exact.
proof fn lemma_normalized_band(x: int, y: int, n: int, qx: int, qy: int)
    requires
        fx_abs_of(x) <= FX_COORD_MAX as int,
        fx_abs_of(y) <= FX_COORD_MAX as int,
        n >= 2147483648int,
        n * n <= x * x + y * y < (n + 1) * (n + 1),
        qx == fx_div_of(x, n),
        qy == fx_div_of(y, n),
    ensures
        FX_ONE as int * FX_ONE as int - 16 * FX_ONE as int <= qx * qx + qy * qy
            <= FX_ONE as int * FX_ONE as int + 16 * FX_ONE as int,
        fx_abs_of(qx) <= FX_ONE as int + 2,
        fx_abs_of(qy) <= FX_ONE as int + 2,
{
    let s = FX_ONE as int;
    let ax = fx_abs_of(x);
    let ay = fx_abs_of(y);
    let ux = (ax * s) / n;
    let uy = (ay * s) / n;
    assert(ux == fx_abs_of(qx) && uy == fx_abs_of(qy)) by (nonlinear_arith)
        requires
            n > 0,
            qx == fx_div_of(x, n),
            qy == fx_div_of(y, n),
            ax == fx_abs_of(x),
            ay == fx_abs_of(y),
            ux == (ax * s) / n,
            uy == (ay * s) / n,
            s == FX_ONE as int,
    ;
    assert(qx * qx == ux * ux && qy * qy == uy * uy) by (nonlinear_arith)
        requires
            ux == fx_abs_of(qx),
            uy == fx_abs_of(qy),
    ;
    // Fundamental division facts.
    assert(ux * n <= ax * s < (ux + 1) * n && 0 <= ux) by (nonlinear_arith)
        requires
            n > 0,
            ax >= 0,
            s > 0,
            ux == (ax * s) / n,
    ;
    assert(uy * n <= ay * s < (uy + 1) * n && 0 <= uy) by (nonlinear_arith)
        requires
            n > 0,
            ay >= 0,
            s > 0,
            uy == (ay * s) / n,
    ;
    assert(x * x == ax * ax && y * y == ay * ay) by (nonlinear_arith)
        requires
            ax == fx_abs_of(x),
            ay == fx_abs_of(y),
    ;
    // Coordinates are bounded by the norm bracket.
    assert(ax <= n && ay <= n) by (nonlinear_arith)
        requires
            0 <= ax,
            0 <= ay,
            ax * ax + ay * ay < (n + 1) * (n + 1),
            n > 0,
    ;
    assert(ux <= s && uy <= s) by (nonlinear_arith)
        requires
            ux * n <= ax * s,
            uy * n <= ay * s,
            ax <= n,
            ay <= n,
            0 <= ux,
            0 <= uy,
            n > 0,
            s > 0,
    ;
    // Upper bound: (ux^2 + uy^2) n^2 <= (ax^2 + ay^2) s^2 < (n+1)^2 s^2.
    assert((ux * ux) * (n * n) <= (ax * ax) * (s * s)) by (nonlinear_arith)
        requires
            0 <= ux * n <= ax * s,
    ;
    assert((uy * uy) * (n * n) <= (ay * ay) * (s * s)) by (nonlinear_arith)
        requires
            0 <= uy * n <= ay * s,
    ;
    assert((ax * ax + ay * ay) * (s * s) < ((n + 1) * (n + 1)) * (s * s)) by (nonlinear_arith)
        requires
            ax * ax + ay * ay < (n + 1) * (n + 1),
            s > 0,
    ;
    assert((ux * ux + uy * uy) * (n * n)
        == (ux * ux) * (n * n) + (uy * uy) * (n * n)) by (nonlinear_arith);
    assert((ax * ax + ay * ay) * (s * s)
        == (ax * ax) * (s * s) + (ay * ay) * (s * s)) by (nonlinear_arith);
    assert(ux * ux + uy * uy <= s * s + 16 * s) by (nonlinear_arith)
        requires
            (ux * ux + uy * uy) * (n * n) < ((n + 1) * (n + 1)) * (s * s),
            n >= 2147483648int,
            s == 4294967296int,
            0 <= ux,
            0 <= uy,
    ;
    // Lower bound: n^2 s^2 <= (ax^2 + ay^2) s^2 < ((ux+1)^2 + (uy+1)^2) n^2.
    assert((ax * ax) * (s * s) < ((ux + 1) * (ux + 1)) * (n * n)) by (nonlinear_arith)
        requires
            0 <= ax * s < (ux + 1) * n,
    ;
    assert((ay * ay) * (s * s) < ((uy + 1) * (uy + 1)) * (n * n)) by (nonlinear_arith)
        requires
            0 <= ay * s < (uy + 1) * n,
    ;
    assert((n * n) * (s * s) <= (ax * ax + ay * ay) * (s * s)) by (nonlinear_arith)
        requires
            n * n <= ax * ax + ay * ay,
            s > 0,
    ;
    assert(((ux + 1) * (ux + 1) + (uy + 1) * (uy + 1)) * (n * n)
        == ((ux + 1) * (ux + 1)) * (n * n) + ((uy + 1) * (uy + 1)) * (n * n))
        by (nonlinear_arith);
    assert(s * s - 16 * s <= ux * ux + uy * uy) by (nonlinear_arith)
        requires
            (n * n) * (s * s) < ((ux + 1) * (ux + 1) + (uy + 1) * (uy + 1)) * (n * n),
            0 <= ux <= s,
            0 <= uy <= s,
            n > 0,
            s == 4294967296int,
    ;
}

/// Products of coordinate-bounded scalars stay well inside `i128`.
proof fn lemma_coord_product_bound(a: int, b: int, m: int)
    by (nonlinear_arith)
    requires
        fx_abs_of(a) <= m,
        fx_abs_of(b) <= m,
        0 <= m <= 0x400000000000int * 0x100000int,
    ensures
        fx_abs_of(a * b) <= m * m,
        -(m * m) <= a * b <= m * m,
{
}

/// Truncating division by `FX_ONE` cannot grow a magnitude beyond `i64` when
/// the numerator fits in a coordinate product.
proof fn lemma_tdiv_contracts(s: int, d: int)
    by (nonlinear_arith)
    requires
        d > 1,
        fx_abs_of(s) <= 0x80000000000000000000000000int,
        d == 0x100000000int,
    ensures
        fx_abs_of(tdiv(s, d)) <= fx_abs_of(s) / d,
        tdiv(s, d) == if s >= 0 { s / d } else { -((-s) / d) },
{
}

/// An integer square root of a value below `b * b` is below `b`.
proof fn lemma_isqrt_below(r: int, n2: int, b: int)
    by (nonlinear_arith)
    requires
        0 <= r,
        0 < b,
        r * r <= n2,
        n2 < b * b,
    ensures
        r < b,
{
}

} // verus!
