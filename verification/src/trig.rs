//! Trigonometric kernel over angles in nanoradians (radians scaled by
//! `ONE`). Sine and cosine reduce the angle into a quarter turn and
//! evaluate a truncated power series there; the arc tangent evaluates a
//! truncated series after folding its argument below `tan(pi/8)`; the arc
//! sine goes through the arc tangent. Every function returns exactly the
//! value of its specification mirror, so callers reason about one integer
//! formula; results of the series are clamped into the range the true
//! function has on the folded domain, as the guard against out-of-domain
//! arguments asks.
use vstd::prelude::*;

verus! {

use crate::fixed::ONE;
use crate::fixed::div_trunc;
use crate::fixed::ediv_emod;
use crate::fixed::isqrt;
use crate::fixed::sqrt_floor;
use crate::fixed::tdiv;

/// pi/2 in nanoradians.
pub const HALF_PI_NRAD: i64 = 1_570_796_327;

/// pi in nanoradians (twice `HALF_PI_NRAD`).
pub const PI_NRAD: i64 = 3_141_592_654;

/// 2 pi in nanoradians.
pub const TWO_PI_NRAD: i64 = 6_283_185_307;

/// pi/4 in nanoradians.
pub const QUARTER_PI_NRAD: i64 = 785_398_163;

/// tan(pi/8) scaled by `ONE`.
pub const TAN_EIGHTH_PI: i64 = 414_213_562;

/// Sine on a quarter turn: the truncated series of degree 13 on
/// `[0, pi/2]`, clamped into `[0, ONE]`.
pub open spec fn spec_sin_quarter(x: int) -> int {
    let y = div_trunc(x * x, 1_000_000_000);
    let a1 = 1_000_000_000 - div_trunc(y, 156);
    let a2 = 1_000_000_000 - div_trunc(y * a1, 110_000_000_000);
    let a3 = 1_000_000_000 - div_trunc(y * a2, 72_000_000_000);
    let a4 = 1_000_000_000 - div_trunc(y * a3, 42_000_000_000);
    let a5 = 1_000_000_000 - div_trunc(y * a4, 20_000_000_000);
    let a6 = 1_000_000_000 - div_trunc(y * a5, 6_000_000_000);
    let s = div_trunc(x * a6, 1_000_000_000);
    if s < 0 {
        0
    } else if s > 1_000_000_000 {
        1_000_000_000
    } else {
        s
    }
}

/// Cosine on a quarter turn: the truncated series of degree 14 on
/// `[0, pi/2]`, clamped into `[0, ONE]`.
pub open spec fn spec_cos_quarter(x: int) -> int {
    let y = div_trunc(x * x, 1_000_000_000);
    let b1 = 1_000_000_000 - div_trunc(y, 182);
    let b2 = 1_000_000_000 - div_trunc(y * b1, 132_000_000_000);
    let b3 = 1_000_000_000 - div_trunc(y * b2, 90_000_000_000);
    let b4 = 1_000_000_000 - div_trunc(y * b3, 56_000_000_000);
    let b5 = 1_000_000_000 - div_trunc(y * b4, 30_000_000_000);
    let b6 = 1_000_000_000 - div_trunc(y * b5, 12_000_000_000);
    let c = 1_000_000_000 - div_trunc(y * b6, 2_000_000_000);
    if c < 0 {
        0
    } else if c > 1_000_000_000 {
        1_000_000_000
    } else {
        c
    }
}

/// Sine of an angle in nanoradians, scaled by `ONE`: the angle is taken
/// into `[0, 2 pi)` and folded onto the first quarter.
pub open spec fn spec_sin(a: int) -> int {
    let t = a % (TWO_PI_NRAD as int);
    if t <= HALF_PI_NRAD {
        spec_sin_quarter(t)
    } else if t <= PI_NRAD {
        spec_sin_quarter(PI_NRAD - t)
    } else if t <= PI_NRAD + HALF_PI_NRAD {
        -spec_sin_quarter(t - PI_NRAD)
    } else {
        -spec_sin_quarter(TWO_PI_NRAD - t)
    }
}

/// Cosine of an angle in nanoradians, scaled by `ONE`.
pub open spec fn spec_cos(a: int) -> int {
    let t = a % (TWO_PI_NRAD as int);
    if t <= HALF_PI_NRAD {
        spec_cos_quarter(t)
    } else if t <= PI_NRAD {
        -spec_cos_quarter(PI_NRAD - t)
    } else if t <= PI_NRAD + HALF_PI_NRAD {
        -spec_cos_quarter(t - PI_NRAD)
    } else {
        spec_cos_quarter(TWO_PI_NRAD - t)
    }
}

/// Degrees scaled by `ONE` to nanoradians.
pub open spec fn spec_deg_to_nrad(d: int) -> int {
    div_trunc(d * (PI_NRAD as int), 180_000_000_000)
}

/// Nanoradians to degrees scaled by `ONE`.
pub open spec fn spec_nrad_to_ndeg(r: int) -> int {
    div_trunc(r * 180_000_000_000, PI_NRAD as int)
}

/// Converts nano-degrees to nanoradians.
pub fn deg_to_nrad(d: i64) -> (r: i64)
    requires
        -1_000_000_000_000_000_000 <= d <= 1_000_000_000_000_000_000,
    ensures
        r == spec_deg_to_nrad(d as int),
        -18_000_000_000_000_000 <= r <= 18_000_000_000_000_000,
        -1_000_000_000_000_000 <= d <= 1_000_000_000_000_000 ==> -100_000_000_000_000 <= r
            <= 100_000_000_000_000,
{
    proof {
        assert(-3_200_000_000_000_000_000_000_000_000 <= (d as i128) * (PI_NRAD as i128)
            <= 3_200_000_000_000_000_000_000_000_000int) by (nonlinear_arith)
            requires
                -1_000_000_000_000_000_000 <= d <= 1_000_000_000_000_000_000,
                PI_NRAD == 3_141_592_654;
        if -1_000_000_000_000_000 <= d <= 1_000_000_000_000_000 {
            assert(-4_000_000_000_000_000_000_000_000 <= (d as i128) * (PI_NRAD as i128)
                <= 4_000_000_000_000_000_000_000_000int) by (nonlinear_arith)
                requires
                    -1_000_000_000_000_000 <= d <= 1_000_000_000_000_000,
                    PI_NRAD == 3_141_592_654;
        }
    }
    let q: i128 = tdiv(d as i128 * (PI_NRAD as i128), 180_000_000_000);
    q as i64
}

/// Converts nanoradians to nano-degrees.
pub fn nrad_to_ndeg(r: i64) -> (d: i64)
    requires
        -100_000_000_000_000 <= r <= 100_000_000_000_000,
    ensures
        d == spec_nrad_to_ndeg(r as int),
        -6_000_000_000_000_000 <= d <= 6_000_000_000_000_000,
{
    proof {
        assert((PI_NRAD as int) * 6_000_000_000_000_000 >= 18_000_000_000_000_000_000_000_000int)
            by (nonlinear_arith)
            requires PI_NRAD == 3_141_592_654;
        crate::fixed::lemma_div_trunc_le(
            (r as int) * 180_000_000_000,
            PI_NRAD as int,
            6_000_000_000_000_000,
        );
    }
    let q: i128 = tdiv(r as i128 * 180_000_000_000, PI_NRAD as i128);
    q as i64
}

/// Evaluates the quarter-turn sine series.
fn sin_quarter(x: i64) -> (r: i64)
    requires
        0 <= x <= HALF_PI_NRAD,
    ensures
        r == spec_sin_quarter(x as int),
        0 <= r <= ONE,
{
    let xi: i128 = x as i128;
    proof {
        assert(0 <= xi * xi <= 1_570_796_327 * 1_570_796_327int) by (nonlinear_arith)
            requires 0 <= xi <= 1_570_796_327;
    }
    let y: i128 = tdiv(xi * xi, 1_000_000_000);
    let a1: i128 = 1_000_000_000 - tdiv(y, 156);
    proof {
        assert(0 <= y * a1 <= 2_500_000_000 * 1_000_000_000int) by (nonlinear_arith)
            requires 0 <= y <= 2_500_000_000 && 0 <= a1 <= 1_000_000_000;
    }
    let a2: i128 = 1_000_000_000 - tdiv(y * a1, 110_000_000_000);
    proof {
        assert(0 <= y * a2 <= 2_500_000_000 * 1_000_000_000int) by (nonlinear_arith)
            requires 0 <= y <= 2_500_000_000 && 0 <= a2 <= 1_000_000_000;
    }
    let a3: i128 = 1_000_000_000 - tdiv(y * a2, 72_000_000_000);
    proof {
        assert(0 <= y * a3 <= 2_500_000_000 * 1_000_000_000int) by (nonlinear_arith)
            requires 0 <= y <= 2_500_000_000 && 0 <= a3 <= 1_000_000_000;
    }
    let a4: i128 = 1_000_000_000 - tdiv(y * a3, 42_000_000_000);
    proof {
        assert(0 <= y * a4 <= 2_500_000_000 * 1_000_000_000int) by (nonlinear_arith)
            requires 0 <= y <= 2_500_000_000 && 0 <= a4 <= 1_000_000_000;
    }
    let a5: i128 = 1_000_000_000 - tdiv(y * a4, 20_000_000_000);
    proof {
        assert(0 <= y * a5 <= 2_500_000_000 * 1_000_000_000int) by (nonlinear_arith)
            requires 0 <= y <= 2_500_000_000 && 0 <= a5 <= 1_000_000_000;
    }
    let a6: i128 = 1_000_000_000 - tdiv(y * a5, 6_000_000_000);
    proof {
        assert(0 <= xi * a6 <= 1_600_000_000 * 1_000_000_000int) by (nonlinear_arith)
            requires 0 <= xi <= 1_600_000_000 && 0 <= a6 <= 1_000_000_000;
    }
    let s: i128 = tdiv(xi * a6, 1_000_000_000);
    if s < 0 {
        0
    } else if s > 1_000_000_000 {
        ONE
    } else {
        s as i64
    }
}

/// Evaluates the quarter-turn cosine series.
fn cos_quarter(x: i64) -> (r: i64)
    requires
        0 <= x <= HALF_PI_NRAD,
    ensures
        r == spec_cos_quarter(x as int),
        0 <= r <= ONE,
{
    let xi: i128 = x as i128;
    proof {
        assert(0 <= xi * xi <= 1_570_796_327 * 1_570_796_327int) by (nonlinear_arith)
            requires 0 <= xi <= 1_570_796_327;
    }
    let y: i128 = tdiv(xi * xi, 1_000_000_000);
    let b1: i128 = 1_000_000_000 - tdiv(y, 182);
    proof {
        assert(0 <= y * b1 <= 2_500_000_000 * 1_000_000_000int) by (nonlinear_arith)
            requires 0 <= y <= 2_500_000_000 && 0 <= b1 <= 1_000_000_000;
    }
    let b2: i128 = 1_000_000_000 - tdiv(y * b1, 132_000_000_000);
    proof {
        assert(0 <= y * b2 <= 2_500_000_000 * 1_000_000_000int) by (nonlinear_arith)
            requires 0 <= y <= 2_500_000_000 && 0 <= b2 <= 1_000_000_000;
    }
    let b3: i128 = 1_000_000_000 - tdiv(y * b2, 90_000_000_000);
    proof {
        assert(0 <= y * b3 <= 2_500_000_000 * 1_000_000_000int) by (nonlinear_arith)
            requires 0 <= y <= 2_500_000_000 && 0 <= b3 <= 1_000_000_000;
    }
    let b4: i128 = 1_000_000_000 - tdiv(y * b3, 56_000_000_000);
    proof {
        assert(0 <= y * b4 <= 2_500_000_000 * 1_000_000_000int) by (nonlinear_arith)
            requires 0 <= y <= 2_500_000_000 && 0 <= b4 <= 1_000_000_000;
    }
    let b5: i128 = 1_000_000_000 - tdiv(y * b4, 30_000_000_000);
    proof {
        assert(0 <= y * b5 <= 2_500_000_000 * 1_000_000_000int) by (nonlinear_arith)
            requires 0 <= y <= 2_500_000_000 && 0 <= b5 <= 1_000_000_000;
    }
    let b6: i128 = 1_000_000_000 - tdiv(y * b5, 12_000_000_000);
    proof {
        assert(0 <= y * b6 <= 2_500_000_000 * 1_000_000_000int) by (nonlinear_arith)
            requires 0 <= y <= 2_500_000_000 && 0 <= b6 <= 1_000_000_000;
    }
    let c: i128 = 1_000_000_000 - tdiv(y * b6, 2_000_000_000);
    if c < 0 {
        0
    } else if c > 1_000_000_000 {
        ONE
    } else {
        c as i64
    }
}

/// Sine of an angle in nanoradians, scaled by `ONE`.
pub fn sin_nrad(a: i64) -> (r: i64)
    ensures
        r == spec_sin(a as int),
        -ONE <= r <= ONE,
{
    let (_, t128) = ediv_emod(a as i128, TWO_PI_NRAD as i128);
    let t: i64 = t128 as i64;
    if t <= HALF_PI_NRAD {
        sin_quarter(t)
    } else if t <= PI_NRAD {
        sin_quarter(PI_NRAD - t)
    } else if t <= PI_NRAD + HALF_PI_NRAD {
        -sin_quarter(t - PI_NRAD)
    } else {
        -sin_quarter(TWO_PI_NRAD - t)
    }
}

/// Cosine of an angle in nanoradians, scaled by `ONE`.
pub fn cos_nrad(a: i64) -> (r: i64)
    ensures
        r == spec_cos(a as int),
        -ONE <= r <= ONE,
{
    let (_, t128) = ediv_emod(a as i128, TWO_PI_NRAD as i128);
    let t: i64 = t128 as i64;
    if t <= HALF_PI_NRAD {
        cos_quarter(t)
    } else if t <= PI_NRAD {
        -cos_quarter(PI_NRAD - t)
    } else if t <= PI_NRAD + HALF_PI_NRAD {
        -cos_quarter(t - PI_NRAD)
    } else {
        cos_quarter(TWO_PI_NRAD - t)
    }
}

/// Arc tangent series on `[-tan(pi/8), tan(pi/8)]`, argument scaled by
/// `ONE`, result in nanoradians.
pub open spec fn spec_atan_series(x: int) -> int {
    let y = div_trunc(x * x, 1_000_000_000);
    let d9 = 52_631_579 - div_trunc(y * 47_619_048, 1_000_000_000);
    let d8 = 58_823_529 - div_trunc(y * d9, 1_000_000_000);
    let d7 = 66_666_667 - div_trunc(y * d8, 1_000_000_000);
    let d6 = 76_923_077 - div_trunc(y * d7, 1_000_000_000);
    let d5 = 90_909_091 - div_trunc(y * d6, 1_000_000_000);
    let d4 = 111_111_111 - div_trunc(y * d5, 1_000_000_000);
    let d3 = 142_857_143 - div_trunc(y * d4, 1_000_000_000);
    let d2 = 200_000_000 - div_trunc(y * d3, 1_000_000_000);
    let d1 = 333_333_333 - div_trunc(y * d2, 1_000_000_000);
    let u = div_trunc(y * d1, 1_000_000_000);
    x - div_trunc(x * u, 1_000_000_000)
}

/// Arc tangent of a ratio in `[0, ONE]`, in nanoradians in `[0, pi/4]`:
/// ratios above `tan(pi/8)` are folded through the half-angle identity.
pub open spec fn spec_atan_unit(q: int) -> int {
    if q <= TAN_EIGHTH_PI {
        spec_atan_series(q)
    } else {
        QUARTER_PI_NRAD + spec_atan_series(
            div_trunc((q - 1_000_000_000) * 1_000_000_000, q + 1_000_000_000),
        )
    }
}

/// Four-quadrant arc tangent of `y/x` in nanoradians, in `(-pi, pi]`;
/// both arguments zero give 0 by convention.
pub open spec fn spec_atan2(y: int, x: int) -> int {
    let ay = if y < 0 { -y } else { y };
    let ax = if x < 0 { -x } else { x };
    if ay == 0 && ax == 0 {
        0
    } else {
        let base = if ay <= ax {
            spec_atan_unit(div_trunc(ay * 1_000_000_000, ax))
        } else {
            HALF_PI_NRAD - spec_atan_unit(div_trunc(ax * 1_000_000_000, ay))
        };
        if x >= 0 && y >= 0 {
            base
        } else if x < 0 && y >= 0 {
            PI_NRAD - base
        } else if x < 0 {
            base - PI_NRAD
        } else {
            -base
        }
    }
}

/// Arc sine of a ratio scaled by `ONE`, in nanoradians in
/// `[-pi/2, pi/2]`; arguments beyond the unit interval are clamped to it,
/// so the two poles are exact.
pub open spec fn spec_asin(u: int) -> int {
    if u >= 1_000_000_000 {
        HALF_PI_NRAD as int
    } else if u <= -1_000_000_000 {
        -HALF_PI_NRAD as int
    } else {
        spec_atan2(u, sqrt_floor((1_000_000_000_000_000_000 - u * u) as nat) as int)
    }
}

/// Evaluates the arc tangent series.
fn atan_series(x: i64) -> (r: i64)
    requires
        -420_000_000 <= x <= 420_000_000,
    ensures
        r == spec_atan_series(x as int),
        -QUARTER_PI_NRAD <= r <= QUARTER_PI_NRAD,
        x >= 0 ==> r >= 0,
        x <= 0 ==> r <= 0,
{
    let xi: i128 = x as i128;
    proof {
        assert(0 <= xi * xi <= 420_000_000 * 420_000_000int) by (nonlinear_arith)
            requires -420_000_000 <= xi <= 420_000_000;
    }
    let y: i128 = tdiv(xi * xi, 1_000_000_000);
    proof {
        assert(0 <= y * 47_619_048 <= 180_000_000 * 47_619_048int) by (nonlinear_arith)
            requires 0 <= y <= 180_000_000;
    }
    let d9: i128 = 52_631_579 - tdiv(y * 47_619_048, 1_000_000_000);
    proof {
        assert(0 <= y * d9 <= 180_000_000 * 60_000_000int) by (nonlinear_arith)
            requires 0 <= y <= 180_000_000 && 0 <= d9 <= 60_000_000;
    }
    let d8: i128 = 58_823_529 - tdiv(y * d9, 1_000_000_000);
    proof {
        assert(0 <= y * d8 <= 180_000_000 * 60_000_000int) by (nonlinear_arith)
            requires 0 <= y <= 180_000_000 && 0 <= d8 <= 60_000_000;
    }
    let d7: i128 = 66_666_667 - tdiv(y * d8, 1_000_000_000);
    proof {
        assert(0 <= y * d7 <= 180_000_000 * 70_000_000int) by (nonlinear_arith)
            requires 0 <= y <= 180_000_000 && 0 <= d7 <= 70_000_000;
    }
    let d6: i128 = 76_923_077 - tdiv(y * d7, 1_000_000_000);
    proof {
        assert(0 <= y * d6 <= 180_000_000 * 80_000_000int) by (nonlinear_arith)
            requires 0 <= y <= 180_000_000 && 0 <= d6 <= 80_000_000;
    }
    let d5: i128 = 90_909_091 - tdiv(y * d6, 1_000_000_000);
    proof {
        assert(0 <= y * d5 <= 180_000_000 * 91_000_000int) by (nonlinear_arith)
            requires 0 <= y <= 180_000_000 && 0 <= d5 <= 91_000_000;
    }
    let d4: i128 = 111_111_111 - tdiv(y * d5, 1_000_000_000);
    proof {
        assert(0 <= y * d4 <= 180_000_000 * 112_000_000int) by (nonlinear_arith)
            requires 0 <= y <= 180_000_000 && 0 <= d4 <= 112_000_000;
    }
    let d3: i128 = 142_857_143 - tdiv(y * d4, 1_000_000_000);
    proof {
        assert(0 <= y * d3 <= 180_000_000 * 143_000_000int) by (nonlinear_arith)
            requires 0 <= y <= 180_000_000 && 0 <= d3 <= 143_000_000;
    }
    let d2: i128 = 200_000_000 - tdiv(y * d3, 1_000_000_000);
    proof {
        assert(0 <= y * d2 <= 180_000_000 * 200_000_000int) by (nonlinear_arith)
            requires 0 <= y <= 180_000_000 && 0 <= d2 <= 200_000_000;
    }
    let d1: i128 = 333_333_333 - tdiv(y * d2, 1_000_000_000);
    proof {
        assert(0 <= y * d1 <= 180_000_000 * 334_000_000int) by (nonlinear_arith)
            requires 0 <= y <= 180_000_000 && 0 <= d1 <= 334_000_000;
    }
    let u: i128 = tdiv(y * d1, 1_000_000_000);
    proof {
        assert(-420_000_000 * 61_000_000int <= xi * u <= 420_000_000 * 61_000_000int)
            by (nonlinear_arith)
            requires -420_000_000 <= xi <= 420_000_000 && 0 <= u <= 61_000_000;
        if xi >= 0 {
            assert(xi * u <= 1_000_000_000 * xi) by (nonlinear_arith)
                requires 0 <= u <= 61_000_000 && xi >= 0;
        } else {
            assert(1_000_000_000 * xi <= xi * u) by (nonlinear_arith)
                requires 0 <= u <= 61_000_000 && xi < 0;
        }
    }
    let w: i128 = tdiv(xi * u, 1_000_000_000);
    let r: i128 = xi - w;
    r as i64
}

/// Arc tangent of a ratio in `[0, ONE]`, in nanoradians.
fn atan_unit(q: i64) -> (r: i64)
    requires
        0 <= q <= ONE,
    ensures
        r == spec_atan_unit(q as int),
        0 <= r <= HALF_PI_NRAD,
{
    if q <= TAN_EIGHTH_PI {
        atan_series(q)
    } else {
        let qi: i128 = q as i128;
        proof {
            assert((qi - 1_000_000_000) * 1_000_000_000 <= 0 && 0 <= (qi + 1_000_000_000)
                * 420_000_000 && -((qi + 1_000_000_000) * 420_000_000int) <= (qi
                - 1_000_000_000) * 1_000_000_000) by (nonlinear_arith)
                requires 414_213_563 <= qi <= 1_000_000_000;
            crate::fixed::lemma_div_trunc_le(
                (qi - 1_000_000_000) * 1_000_000_000int,
                qi + 1_000_000_000int,
                420_000_000,
            );
        }
        let t128: i128 = tdiv((qi - 1_000_000_000) * 1_000_000_000, qi + 1_000_000_000);
        let t: i64 = t128 as i64;
        QUARTER_PI_NRAD + atan_series(t)
    }
}

/// Four-quadrant arc tangent in nanoradians, `(-pi, pi]`, with
/// `atan2(0, 0) == 0` by convention.
pub fn atan2_nrad(y: i64, x: i64) -> (r: i64)
    requires
        -1_000_000_000_000_000 <= y <= 1_000_000_000_000_000,
        -1_000_000_000_000_000 <= x <= 1_000_000_000_000_000,
    ensures
        r == spec_atan2(y as int, x as int),
        -PI_NRAD <= r <= PI_NRAD,
        x > 0 ==> -HALF_PI_NRAD <= r <= HALF_PI_NRAD,
{
    let ay: i64 = if y < 0 {
        -y
    } else {
        y
    };
    let ax: i64 = if x < 0 {
        -x
    } else {
        x
    };
    if ay == 0 && ax == 0 {
        return 0;
    }
    let base: i64 = if ay <= ax {
        proof {
            assert(-((ax as int) * 1_000_000_000) <= (ay as int) * 1_000_000_000 <= (
            ax as int) * 1_000_000_000) by (nonlinear_arith)
                requires 0 <= ay <= ax;
            crate::fixed::lemma_div_trunc_le(
                (ay as int) * 1_000_000_000,
                ax as int,
                1_000_000_000,
            );
        }
        let q: i128 = tdiv(ay as i128 * 1_000_000_000, ax as i128);
        atan_unit(q as i64)
    } else {
        proof {
            assert(-((ay as int) * 1_000_000_000) <= (ax as int) * 1_000_000_000 <= (
            ay as int) * 1_000_000_000) by (nonlinear_arith)
                requires 0 <= ax <= ay;
            crate::fixed::lemma_div_trunc_le(
                (ax as int) * 1_000_000_000,
                ay as int,
                1_000_000_000,
            );
        }
        let q: i128 = tdiv(ax as i128 * 1_000_000_000, ay as i128);
        HALF_PI_NRAD - atan_unit(q as i64)
    };
    if x >= 0 && y >= 0 {
        base
    } else if x < 0 && y >= 0 {
        PI_NRAD - base
    } else if x < 0 {
        base - PI_NRAD
    } else {
        -base
    }
}

/// Arc sine of a ratio scaled by `ONE`, in nanoradians; out-of-domain
/// ratios are clamped to the poles.
pub fn asin_scaled(u: i64) -> (r: i64)
    requires
        -2_000_000_000_000 <= u <= 2_000_000_000_000,
    ensures
        r == spec_asin(u as int),
        -HALF_PI_NRAD <= r <= HALF_PI_NRAD,
{
    if u >= ONE {
        HALF_PI_NRAD
    } else if u <= -ONE {
        -HALF_PI_NRAD
    } else {
        proof {
            assert(0 <= (u as i128) * (u as i128) < 1_000_000_000_000_000_000int)
                by (nonlinear_arith)
                requires -1_000_000_000 < u < 1_000_000_000;
            assert(0 <= (u as int) * (u as int) < 1_000_000_000_000_000_000int)
                by (nonlinear_arith)
                requires -1_000_000_000 < (u as int) < 1_000_000_000;
        }
        let ui: i128 = u as i128;
        let uu: i128 = ui * ui;
        proof {
            assert(ui == u as int);
            assert(uu == (u as int) * (u as int));
        }
        let arg: u128 = (1_000_000_000_000_000_000i128 - uu) as u128;
        let c: u64 = isqrt(arg);
        proof {
            let n = (1_000_000_000_000_000_000 - (u as int) * (u as int)) as nat;
            assert(arg == n);
            assert(c == sqrt_floor(n));
            assert(c <= 1_000_000_000) by {
                if c > 1_000_000_000 {
                    assert(c as int * c as int > 1_000_000_000_000_000_000int)
                        by (nonlinear_arith)
                        requires c > 1_000_000_000;
                }
            }
            if c == 0 {
                assert(n < 1) by (nonlinear_arith)
                    requires c == 0 && n < (c + 1) * (c + 1);
                assert((u as int) * (u as int) > 999_999_999_999_999_999int);
                assert(false) by (nonlinear_arith)
                    requires
                        -1_000_000_000 < (u as int) < 1_000_000_000,
                        (u as int) * (u as int) > 999_999_999_999_999_999int;
            }
            assert(c as i64 == sqrt_floor(n));
        }
        atan2_nrad(u, c as i64)
    }
}

} // verus!
