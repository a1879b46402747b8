//! Three-component integer vectors. A vector holds either a position in
//! millimeters or a dimensionless direction scaled by `ONE`; the two
//! reference frames (inertial and rotating) share this representation
//! and are told apart by the functions that produce and consume them.
use vstd::prelude::*;

verus! {

use crate::fixed::isqrt;
use crate::fixed::sqrt_floor;

/// A rectangular three-vector with integer components.
#[derive(Clone, Copy, PartialEq, Eq, Structural, Debug)]
pub struct Vec3 {
    pub x: i64,
    pub y: i64,
    pub z: i64,
}

impl Vec3 {
    /// All three components lie in `[-m, m]`.
    pub open spec fn in_range(self, m: int) -> bool {
        -m <= self.x <= m && -m <= self.y <= m && -m <= self.z <= m
    }

    /// Dot product, unscaled.
    pub open spec fn spec_dot(self, o: Vec3) -> int {
        self.x * o.x + self.y * o.y + self.z * o.z
    }

    /// Squared Euclidean norm.
    pub open spec fn spec_norm2(self) -> int {
        self.spec_dot(self)
    }

    /// Componentwise difference.
    pub fn sub(&self, o: &Vec3) -> (r: Vec3)
        requires
            self.in_range(4_000_000_000_000_000_000),
            o.in_range(4_000_000_000_000_000_000),
        ensures
            r.x == self.x - o.x,
            r.y == self.y - o.y,
            r.z == self.z - o.z,
    {
        Vec3 { x: self.x - o.x, y: self.y - o.y, z: self.z - o.z }
    }

    /// Euclidean norm, rounded down.
    pub fn norm(&self) -> (r: i64)
        requires
            self.in_range(1_000_000_000_000_000),
        ensures
            r == sqrt_floor(self.spec_norm2() as nat),
            r * r <= self.spec_norm2() < (r + 1) * (r + 1),
            0 <= r <= 2_000_000_000_000_000,
    {
        let xi: i128 = self.x as i128;
        let yi: i128 = self.y as i128;
        let zi: i128 = self.z as i128;
        proof {
            assert(0 <= xi * xi <= 1_000_000_000_000_000_000_000_000_000_000int && 0 <= yi * yi
                <= 1_000_000_000_000_000_000_000_000_000_000int && 0 <= zi * zi
                <= 1_000_000_000_000_000_000_000_000_000_000int) by (nonlinear_arith)
                requires
                    -1_000_000_000_000_000 <= xi <= 1_000_000_000_000_000,
                    -1_000_000_000_000_000 <= yi <= 1_000_000_000_000_000,
                    -1_000_000_000_000_000 <= zi <= 1_000_000_000_000_000;
            assert(xi * xi == (self.x as int) * (self.x as int) && yi * yi == (self.y as int) * (
            self.y as int) && zi * zi == (self.z as int) * (self.z as int));
        }
        let n2: i128 = xi * xi + yi * yi + zi * zi;
        let r: u64 = isqrt(n2 as u128);
        proof {
            let n = self.spec_norm2() as nat;
            assert(n2 as u128 == n);
            assert(r == sqrt_floor(n));
            if r > 2_000_000_000_000_000 {
                assert((r as int) * (r as int) > 3_000_000_000_000_000_000_000_000_000_000int)
                    by (nonlinear_arith)
                    requires r > 2_000_000_000_000_000;
            }
        }
        r as i64
    }

    /// Dot product of two vectors.
    pub fn dot(&self, o: &Vec3) -> (r: i128)
        requires
            self.in_range(1_000_000_000_000_000),
            o.in_range(1_000_000_000_000_000),
        ensures
            r == self.spec_dot(*o),
            -3_000_000_000_000_000_000_000_000_000_000
                <= r <= 3_000_000_000_000_000_000_000_000_000_000,
    {
        let xi: i128 = self.x as i128;
        let yi: i128 = self.y as i128;
        let zi: i128 = self.z as i128;
        proof {
            let m = 1_000_000_000_000_000_000_000_000_000_000int;
            assert(-m <= xi * (o.x as i128) <= m && -m <= yi * (o.y as i128) <= m && -m <= zi * (
            o.z as i128) <= m) by (nonlinear_arith)
                requires
                    -1_000_000_000_000_000 <= xi <= 1_000_000_000_000_000,
                    -1_000_000_000_000_000 <= yi <= 1_000_000_000_000_000,
                    -1_000_000_000_000_000 <= zi <= 1_000_000_000_000_000,
                    -1_000_000_000_000_000 <= o.x <= 1_000_000_000_000_000,
                    -1_000_000_000_000_000 <= o.y <= 1_000_000_000_000_000,
                    -1_000_000_000_000_000 <= o.z <= 1_000_000_000_000_000,
                    m == 1_000_000_000_000_000_000_000_000_000_000int;
            assert(xi * (o.x as i128) == (self.x as int) * (o.x as int) && yi * (o.y as i128) == (
            self.y as int) * (o.y as int) && zi * (o.z as i128) == (self.z as int) * (
            o.z as int));
        }
        xi * (o.x as i128) + yi * (o.y as i128) + zi * (o.z as i128)
    }
}

} // verus!
