//! Fixed-point scalars and 3-vectors for world coordinates.
//!
//! A world unit (the edge of one block) is `UNIT` milli-units; positions and
//! velocities are `i64` milli-units and milli-units per second. The world is
//! bounded: positions are clamped into `[-POS_LIMIT, POS_LIMIT]` and
//! velocity components into `[-VEL_LIMIT, VEL_LIMIT]`, so all integration
//! arithmetic stays well inside `i64`.

use vstd::prelude::*;

verus! {

use vstd::arithmetic::div_mod::lemma_fundamental_div_mod;
use vstd::arithmetic::div_mod::lemma_fundamental_div_mod_converse;

/// Milli-units per world unit (one block edge).
pub const UNIT: i64 = 1000;

/// Bound on the magnitude of a position component, in milli-units.
pub const POS_LIMIT: i64 = 1_000_000_000_000;

/// Bound on the magnitude of a velocity component, in milli-units per second.
pub const VEL_LIMIT: i64 = 1_000_000_000;

/// A value clamped into `[-lim, lim]`.
pub open spec fn clamp_to(v: int, lim: int) -> int {
    if v < -lim {
        -lim
    } else if v > lim {
        lim
    } else {
        v
    }
}

/// Whether a value lies in `[-lim, lim]`.
pub open spec fn in_range(v: int, lim: int) -> bool {
    -lim <= v <= lim
}

/// Clamp a scalar into `[-lim, lim]`.
pub fn clamp_i64(v: i64, lim: i64) -> (r: i64)
    requires
        0 <= lim,
    ensures
        r == clamp_to(v as int, lim as int),
        in_range(r as int, lim as int),
{
    if v < -lim {
        -lim
    } else if v > lim {
        lim
    } else {
        v
    }
}

/// A mathematical value clipped into the `i64` range.
pub open spec fn sat_i64(v: int) -> int {
    if v < i64::MIN as int {
        i64::MIN as int
    } else if v > i64::MAX as int {
        i64::MAX as int
    } else {
        v
    }
}

/// A mathematical value clipped into the `i32` range.
pub open spec fn sat_i32(v: int) -> int {
    if v < i32::MIN as int {
        i32::MIN as int
    } else if v > i32::MAX as int {
        i32::MAX as int
    } else {
        v
    }
}

/// Subtraction of a nonnegative amount, saturating at the lower `i64` bound.
pub fn sub_sat_i64(a: i64, b: i64) -> (r: i64)
    requires
        0 <= b,
    ensures
        r as int == sat_i64(a as int - b as int),
{
    if a < i64::MIN + b {
        i64::MIN
    } else {
        a - b
    }
}

/// Subtraction saturating at the `i32` bounds.
pub fn sub_sat_i32(a: i32, b: i32) -> (r: i32)
    ensures
        r as int == sat_i32(a as int - b as int),
{
    let wide = a as i64 - b as i64;
    if wide < i32::MIN as i64 {
        i32::MIN
    } else if wide > i32::MAX as i64 {
        i32::MAX
    } else {
        wide as i32
    }
}

/// Euclidean (floor) division by a positive divisor; the result rounds
/// toward negative infinity, as the mathematical `/` on `int` does.
pub fn div_floor(a: i64, d: i64) -> (q: i64)
    requires
        1 <= d <= 1_000_000_000,
        i64::MIN < a,
    ensures
        q == a as int / d as int,
{
    if a >= 0 {
        let q = (a as u64) / (d as u64);
        proof {
            lemma_fundamental_div_mod(a as int, d as int);
            assert(q <= a as u64);
        }
        q as i64
    } else {
        let n = (-a) as u64;
        let du = d as u64;
        let qc = (n + (du - 1)) / du;
        proof {
            let ai = a as int;
            let di = d as int;
            let ni = n as int;
            let qe = ai / di;
            let re = ai % di;
            lemma_fundamental_div_mod(ai, di);
            // ai == di * qe + re with 0 <= re < di, hence
            // ni + di - 1 == (-qe) * di + (di - 1 - re) with the second
            // summand again a remainder in [0, di).
            assert(ni == (-qe) * di + (-re)) by (nonlinear_arith)
                requires
                    ni == -ai,
                    ai == di * qe + re,
            ;
            lemma_fundamental_div_mod_converse(ni + di - 1, di, -qe, di - 1 - re);
            assert(qc as int == (ni + di - 1) / di);
            assert(qc as int == -qe);
            assert(qe >= ai) by (nonlinear_arith)
                requires
                    ai == di * qe + re,
                    0 <= re < di,
                    di >= 1,
                    ai < 0,
            ;
            assert(qc <= i64::MAX as u64);
        }
        -(qc as i64)
    }
}

/// Division by a positive divisor rounding toward zero, so the quotient's
/// magnitude never exceeds the exact quotient's.
pub open spec fn div_trunc_spec(a: int, d: int) -> int {
    if a >= 0 {
        a / d
    } else {
        -((-a) / d)
    }
}

/// Truncating (toward-zero) division by a positive divisor. The scaled-back
/// product `q * d` never exceeds `a` in magnitude, so truncation can only
/// shrink what is being scaled.
pub fn div_trunc(a: i64, d: i64) -> (q: i64)
    requires
        1 <= d <= 1_000_000_000,
        i64::MIN < a,
    ensures
        q as int == div_trunc_spec(a as int, d as int),
        a >= 0 ==> 0 <= q as int <= a as int,
        a < 0 ==> a as int <= q as int <= 0,
        ((q as int) * (d as int)) * ((q as int) * (d as int)) <= (a as int) * (a as int),
{
    if a >= 0 {
        let q = div_floor(a, d);
        proof {
            lemma_fundamental_div_mod(a as int, d as int);
            assert(0 <= (q as int) * (d as int) <= a as int && 0 <= q as int <= a as int) by (
            nonlinear_arith)
                requires
                    a as int == (d as int) * (q as int) + (a as int) % (d as int),
                    0 <= (a as int) % (d as int) < d as int,
                    1 <= d as int,
                    0 <= a as int,
            ;
            assert(((q as int) * (d as int)) * ((q as int) * (d as int)) <= (a as int) * (
            a as int)) by (nonlinear_arith)
                requires
                    0 <= (q as int) * (d as int) <= a as int,
            ;
        }
        q
    } else {
        let nf = div_floor(-a, d);
        proof {
            lemma_fundamental_div_mod(-(a as int), d as int);
            assert(0 <= (nf as int) * (d as int) <= -(a as int) && 0 <= nf as int <= -(a as int))
                by (nonlinear_arith)
                requires
                    -(a as int) == (d as int) * (nf as int) + (-(a as int)) % (d as int),
                    0 <= (-(a as int)) % (d as int) < d as int,
                    1 <= d as int,
                    0 <= -(a as int),
            ;
            assert(((-(nf as int)) * (d as int)) * ((-(nf as int)) * (d as int)) <= (a as int) * (
            a as int)) by (nonlinear_arith)
                requires
                    0 <= (nf as int) * (d as int) <= -(a as int),
            ;
        }
        -nf
    }
}

/// A quotient of a bounded dividend by a divisor of at least `UNIT` is
/// bounded by the dividend scaled down by `UNIT`.
pub proof fn lemma_div_bound(a: int, d: int, bound: int)
    requires
        1000 <= d,
        0 <= bound,
        -bound * 1000 <= a <= bound * 1000,
    ensures
        -bound <= a / d <= bound,
{
    vstd::arithmetic::div_mod::lemma_fundamental_div_mod(a, d);
    let q = a / d;
    let r = a % d;
    assert(-bound <= q <= bound) by (nonlinear_arith)
        requires
            a == d * q + r,
            0 <= r < d,
            1000 <= d,
            0 <= bound,
            -bound * 1000 <= a <= bound * 1000,
    ;
}

/// A 3-vector of fixed-point world coordinates (milli-units).
#[derive(Clone, Copy, Debug, PartialEq, Eq, Structural)]
pub struct Vec3Fx {
    pub x: i64,
    pub y: i64,
    pub z: i64,
}

impl Vec3Fx {
    /// Every component within `[-lim, lim]`.
    pub open spec fn bounded(self, lim: int) -> bool {
        in_range(self.x as int, lim) && in_range(self.y as int, lim) && in_range(
            self.z as int,
            lim,
        )
    }

    pub fn new(x: i64, y: i64, z: i64) -> (r: Vec3Fx)
        ensures
            r == (Vec3Fx { x, y, z }),
    {
        Vec3Fx { x, y, z }
    }

    /// The zero vector.
    pub fn zero() -> (r: Vec3Fx)
        ensures
            r == (Vec3Fx { x: 0, y: 0, z: 0 }),
    {
        Vec3Fx { x: 0, y: 0, z: 0 }
    }
}

} // verus!
