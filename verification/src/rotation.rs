//! The inertial-to-rotating-frame transform: a rotation about the polar
//! axis by the sidereal angle. The model is deliberately simple — the
//! angle grows linearly with the J2000 day count at Earth's sidereal
//! rate, with no precession, nutation or polar motion, which suits
//! short-horizon visibility prediction only.
//!
//! The matrix is stored as an exact rational point on the unit circle:
//! from approximate sine and cosine `(s0, c0)` of the angle, the pair
//! `p = s0`, `q = ONE + c0` (folded so that `q >= ONE`) gives the point
//! `((q^2 - p^2)/d, 2pq/d)` with `d = q^2 + p^2`, which lies on the
//! circle exactly. Orthonormality of the matrix is therefore an exact
//! algebraic fact, not an approximation.
use vstd::prelude::*;

verus! {

use crate::fixed::div_trunc;
use crate::fixed::tdiv;
use crate::time::Instant;
use crate::trig::spec_cos;
use crate::trig::spec_sin;
use crate::vec3::Vec3;

/// Earth's sidereal rotation rate in nanoradians per day
/// (7.2921150e-5 rad/s times 86400 s).
pub const ROT_RATE_NRAD_PER_DAY: i64 = 6_300_387_360;

/// A rotation about the z axis, stored as the rational matrix
/// `[cn, -sn, 0; sn, cn, 0; 0, 0, d] / d`.
#[derive(Clone, Copy, PartialEq, Eq, Structural, Debug)]
pub struct RotationZ {
    /// Numerator of the cosine entry.
    pub cn: i64,
    /// Numerator of the sine entry.
    pub sn: i64,
    /// Common denominator.
    pub d: i64,
}

impl RotationZ {
    /// The stored point lies exactly on the circle of radius `d`.
    pub open spec fn wf(self) -> bool {
        1 <= self.d <= 6_000_000_000_000_000_000 && self.cn * self.cn + self.sn * self.sn
            == self.d * self.d && -self.d <= self.cn <= self.d && -self.d <= self.sn <= self.d
    }

    /// First column of the matrix (unscaled numerators).
    pub open spec fn col0(self) -> Vec3 {
        Vec3 { x: self.cn, y: self.sn, z: 0 }
    }

    /// Second column of the matrix (unscaled numerators).
    pub open spec fn col1(self) -> Vec3 {
        Vec3 { x: (-self.sn) as i64, y: self.cn, z: 0 }
    }

    /// Third column of the matrix (unscaled numerators).
    pub open spec fn col2(self) -> Vec3 {
        Vec3 { x: 0, y: 0, z: self.d }
    }

    /// The rotated image of `v`: numerators divided by `d`, the z
    /// component untouched.
    pub open spec fn spec_apply(self, v: Vec3) -> Vec3 {
        Vec3 {
            x: div_trunc(self.cn * v.x - self.sn * v.y, self.d as int) as i64,
            y: div_trunc(self.sn * v.x + self.cn * v.y, self.d as int) as i64,
            z: v.z,
        }
    }

    /// The image of `v` under the transposed (inverse) rotation.
    pub open spec fn spec_apply_transpose(self, v: Vec3) -> Vec3 {
        Vec3 {
            x: div_trunc(self.cn * v.x + self.sn * v.y, self.d as int) as i64,
            y: div_trunc(-self.sn * v.x + self.cn * v.y, self.d as int) as i64,
            z: v.z,
        }
    }

    /// Applies the rotation to a vector.
    pub fn apply(&self, v: &Vec3) -> (r: Vec3)
        requires
            self.wf(),
            v.in_range(100_000_000_000_000),
        ensures
            r == self.spec_apply(*v),
            r.in_range(200_000_000_000_000),
            r.z == v.z,
    {
        let cn: i128 = self.cn as i128;
        let sn: i128 = self.sn as i128;
        let d: i128 = self.d as i128;
        proof {
            lemma_row_bounds(self.cn as int, self.sn as int, self.d as int, v.x as int, v.y as int);
            assert(cn * (v.x as i128) == self.cn * v.x && sn * (v.y as i128) == self.sn * v.y && sn
                * (v.x as i128) == self.sn * v.x && cn * (v.y as i128) == self.cn * v.y);
        }
        let nx: i128 = cn * (v.x as i128) - sn * (v.y as i128);
        let ny: i128 = sn * (v.x as i128) + cn * (v.y as i128);
        let rx: i128 = tdiv(nx, d);
        let ry: i128 = tdiv(ny, d);
        Vec3 { x: rx as i64, y: ry as i64, z: v.z }
    }

    /// Applies the transposed (inverse) rotation to a vector.
    pub fn apply_transpose(&self, v: &Vec3) -> (r: Vec3)
        requires
            self.wf(),
            v.in_range(100_000_000_000_000),
        ensures
            r == self.spec_apply_transpose(*v),
            r.in_range(200_000_000_000_000),
            r.z == v.z,
    {
        let cn: i128 = self.cn as i128;
        let sn: i128 = self.sn as i128;
        let d: i128 = self.d as i128;
        proof {
            lemma_row_bounds(
                self.cn as int,
                -(self.sn as int),
                self.d as int,
                v.x as int,
                v.y as int,
            );
            assert(cn * (v.x as i128) == self.cn * v.x && sn * (v.y as i128) == self.sn * v.y && (
            -sn) * (v.x as i128) == -(self.sn as int) * v.x && cn * (v.y as i128) == self.cn * v.y);
            assert(self.cn * v.x - (-(self.sn as int)) * v.y == self.cn * v.x + self.sn * v.y && (
            -(self.sn as int)) * v.x + self.cn * v.y == -self.sn * v.x + self.cn * v.y)
                by (nonlinear_arith);
        }
        let nx: i128 = cn * (v.x as i128) + sn * (v.y as i128);
        let ny: i128 = (-sn) * (v.x as i128) + cn * (v.y as i128);
        let rx: i128 = tdiv(nx, d);
        let ry: i128 = tdiv(ny, d);
        Vec3 { x: rx as i64, y: ry as i64, z: v.z }
    }
}

/// Bounds for the two rows of a rotation application with entries
/// `(cn, -sn; sn, cn)`: each product, each numerator, and each quotient
/// stays within `d` times the component bound.
proof fn lemma_row_bounds(cn: int, sn: int, d: int, x: int, y: int)
    requires
        1 <= d <= 6_000_000_000_000_000_000,
        -d <= cn <= d,
        -d <= sn <= d,
        -100_000_000_000_000 <= x <= 100_000_000_000_000,
        -100_000_000_000_000 <= y <= 100_000_000_000_000,
    ensures
        -(d * 100_000_000_000_000) <= cn * x <= d * 100_000_000_000_000,
        -(d * 100_000_000_000_000) <= cn * y <= d * 100_000_000_000_000,
        -(d * 100_000_000_000_000) <= sn * x <= d * 100_000_000_000_000,
        -(d * 100_000_000_000_000) <= sn * y <= d * 100_000_000_000_000,
        -200_000_000_000_000 <= div_trunc(cn * x - sn * y, d) <= 200_000_000_000_000,
        -200_000_000_000_000 <= div_trunc(sn * x + cn * y, d) <= 200_000_000_000_000,
{
    assert(-(d * 100_000_000_000_000) <= cn * x <= d * 100_000_000_000_000 && -(d
        * 100_000_000_000_000) <= cn * y <= d * 100_000_000_000_000 && -(d * 100_000_000_000_000)
        <= sn * x <= d * 100_000_000_000_000 && -(d * 100_000_000_000_000) <= sn * y <= d
        * 100_000_000_000_000 && d * 200_000_000_000_000 == d * 100_000_000_000_000 + d
        * 100_000_000_000_000) by (nonlinear_arith)
        requires
            1 <= d,
            -d <= cn <= d,
            -d <= sn <= d,
            -100_000_000_000_000 <= x <= 100_000_000_000_000,
            -100_000_000_000_000 <= y <= 100_000_000_000_000;
    crate::fixed::lemma_div_trunc_le(cn * x - sn * y, d, 200_000_000_000_000);
    crate::fixed::lemma_div_trunc_le(sn * x + cn * y, d, 200_000_000_000_000);
}

/// The rational rotation built from the sine and cosine of `theta`
/// nanoradians: always an exact point on the circle, at an angle within
/// a few billionths of a radian of `theta`.
pub open spec fn spec_rotation_z(theta: int) -> RotationZ {
    let c0 = spec_cos(theta);
    let s0 = spec_sin(theta);
    let p = if c0 >= 0 {
        s0
    } else {
        -s0
    };
    let q = if c0 >= 0 {
        1_000_000_000 + c0
    } else {
        1_000_000_000 - c0
    };
    let cn0 = q * q - p * p;
    let sn0 = 2 * p * q;
    let d = q * q + p * p;
    if c0 >= 0 {
        RotationZ { cn: cn0 as i64, sn: sn0 as i64, d: d as i64 }
    } else {
        RotationZ { cn: (-cn0) as i64, sn: (-sn0) as i64, d: d as i64 }
    }
}

/// The sidereal angle at a J2000 day count given in nano-days.
pub open spec fn spec_sidereal_theta(days_nano: int) -> int {
    div_trunc(days_nano * (ROT_RATE_NRAD_PER_DAY as int), 1_000_000_000)
}

/// The inertial-to-rotating-frame rotation at an instant.
pub fn calc_eci_to_ecef_rotam(instant: &Instant) -> (m: RotationZ)
    requires
        instant.wf(),
    ensures
        m.wf(),
        m == spec_rotation_z(spec_sidereal_theta(instant.spec_j2000_nanodays())),
{
    let days_nano: i64 = instant.j2000_nanodays();
    proof {
        assert((days_nano as i128) * (ROT_RATE_NRAD_PER_DAY as i128) == days_nano * (
        ROT_RATE_NRAD_PER_DAY as int));
        assert(-100_000_000_000_000_000_000_000_000 <= (days_nano as i128) * (
        ROT_RATE_NRAD_PER_DAY as i128) <= 100_000_000_000_000_000_000_000_000int)
            by (nonlinear_arith)
            requires
                -8_000_000_000_000_000 <= days_nano <= 8_000_000_000_000_000,
                ROT_RATE_NRAD_PER_DAY == 6_300_387_360;
    }
    let theta128: i128 = tdiv(days_nano as i128 * (ROT_RATE_NRAD_PER_DAY as i128), 1_000_000_000);
    let theta: i64 = theta128 as i64;
    proof {
        assert(theta == spec_sidereal_theta(instant.spec_j2000_nanodays()));
    }
    rotation_z(theta)
}

/// Builds the rational rotation for an angle in nanoradians.
pub fn rotation_z(theta: i64) -> (m: RotationZ)
    ensures
        m.wf(),
        m == spec_rotation_z(theta as int),
{
    let c0: i64 = crate::trig::cos_nrad(theta);
    let s0: i64 = crate::trig::sin_nrad(theta);
    let neg: bool = c0 < 0;
    let p: i64 = if neg {
        -s0
    } else {
        s0
    };
    let q: i64 = if neg {
        1_000_000_000 - c0
    } else {
        1_000_000_000 + c0
    };
    let pi: i128 = p as i128;
    let qi: i128 = q as i128;
    proof {
        assert(0 <= pi * pi <= 1_000_000_000_000_000_000 && 1_000_000_000_000_000_000 <= qi * qi
            <= 4_000_000_000_000_000_000int && -(qi * qi + pi * pi) <= 2 * pi * qi <= qi * qi + pi
            * pi && pi * pi <= qi * qi) by (nonlinear_arith)
            requires
                -1_000_000_000 <= pi <= 1_000_000_000,
                1_000_000_000 <= qi <= 2_000_000_000;
        assert((qi * qi - pi * pi) * (qi * qi - pi * pi) + (2 * pi * qi) * (2 * pi * qi) == (qi * qi
            + pi * pi) * (qi * qi + pi * pi)) by (nonlinear_arith);
    }
    let cn0: i128 = qi * qi - pi * pi;
    let sn0: i128 = 2 * pi * qi;
    let d: i128 = qi * qi + pi * pi;
    proof {
        assert(((-cn0)) * ((-cn0)) + ((-sn0)) * ((-sn0)) == cn0 * cn0 + sn0 * sn0)
            by (nonlinear_arith);
        assert((cn0 as i64) == cn0 && (sn0 as i64) == sn0 && (d as i64) == d && ((-cn0) as i64) == -cn0
            && ((-sn0) as i64) == -sn0);
    }
    if neg {
        let m = RotationZ { cn: (-cn0) as i64, sn: (-sn0) as i64, d: d as i64 };
        proof {
            assert(m.cn * m.cn + m.sn * m.sn == m.d * m.d);
        }
        m
    } else {
        let m = RotationZ { cn: cn0 as i64, sn: sn0 as i64, d: d as i64 };
        proof {
            assert(m.cn * m.cn + m.sn * m.sn == m.d * m.d);
        }
        m
    }
}

/// Every rotation this module builds is exactly orthonormal at its
/// scale: the columns have squared norm `d^2` and are pairwise
/// perpendicular.
pub proof fn lemma_rotation_orthonormal(m: RotationZ)
    requires
        m.wf(),
    ensures
        m.col0().spec_dot(m.col0()) == m.d * m.d,
        m.col1().spec_dot(m.col1()) == m.d * m.d,
        m.col2().spec_dot(m.col2()) == m.d * m.d,
        m.col0().spec_dot(m.col1()) == 0,
        m.col0().spec_dot(m.col2()) == 0,
        m.col1().spec_dot(m.col2()) == 0,
{
    assert(((-m.sn) as i64) == -(m.sn as int));
    assert(m.cn * m.cn + m.sn * m.sn + 0 * 0 == m.cn * m.cn + m.sn * m.sn && (-(m.sn as int)) * (-(
    m.sn as int)) + m.cn * m.cn + 0 * 0 == m.cn * m.cn + m.sn * m.sn && 0 * 0 + 0 * 0 + m.d * m.d
        == m.d * m.d && m.cn * (-(m.sn as int)) + m.sn * m.cn + 0 * 0 == 0 && m.cn * 0 + m.sn * 0
        + 0 * m.d == 0 && (-(m.sn as int)) * 0 + m.cn * 0 + 0 * m.d == 0) by (nonlinear_arith);
}

} // verus!
