//! The Earth-shadow test: a point is eclipsed when the angle between
//! the Sun direction and the point, measured through the arc sine of
//! their unit dot product, exceeds `pi - asin(R / |p|)`. The position is
//! normalized before the arc sine — a unit Sun vector against a raw
//! position is no sine — and both arc-sine arguments are clamped into
//! the valid domain, so out-of-range geometry yields a defined result
//! instead of an undefined one. A zero position is reported as not
//! eclipsed by convention.
use vstd::prelude::*;

verus! {

use crate::fixed::div_trunc;
use crate::fixed::sqrt_floor;
use crate::fixed::tdiv;
use crate::geodetic::RADIUS_EQUATOR_MM;
use crate::sun::calc_sun_norm_eci_vec;
use crate::sun::spec_sun_eci;
use crate::time::Instant;
use crate::trig::PI_NRAD;
use crate::trig::asin_scaled;
use crate::trig::spec_asin;
use crate::vec3::Vec3;

/// Whether a point in the inertial frame lies in Earth's shadow at a
/// J2000 day count: `asin(sun . p / |p|) > pi - asin(R / |p|)`, with
/// both arc-sine arguments clamped.
pub open spec fn spec_is_eclipsed(p: Vec3, d: int) -> bool {
    let n = sqrt_floor(p.spec_norm2() as nat) as int;
    if n == 0 {
        false
    } else {
        let sun = spec_sun_eci(d);
        let udot = div_trunc(p.spec_dot(sun), n);
        let beta = spec_asin(udot);
        let ratio = div_trunc((RADIUS_EQUATOR_MM as int) * 1_000_000_000, n);
        let rc = if ratio > 2_000_000_000 {
            2_000_000_000int
        } else {
            ratio
        };
        let beta_eclipse = (PI_NRAD as int) - spec_asin(rc);
        beta > beta_eclipse
    }
}

/// Earth-shadow test for an inertial position at an instant.
pub fn is_eclipsed_by_earth(p_eci: &Vec3, instant: &Instant) -> (r: bool)
    requires
        p_eci.in_range(200_000_000_000_000),
        instant.wf(),
    ensures
        r == spec_is_eclipsed(*p_eci, instant.spec_j2000_nanodays()),
{
    let d: i64 = crate::time::datetime_to_j2000days(instant);
    let sun: Vec3 = calc_sun_norm_eci_vec(d);
    let n: i64 = p_eci.norm();
    if n == 0 {
        return false;
    }
    let dot: i128 = p_eci.dot(&sun);
    proof {
        lemma_component_bounds(*p_eci, n as int);
        assert(-(n as int) * 1_000_000_000 <= p_eci.x * sun.x <= (n as int) * 1_000_000_000 && -(
        n as int) * 1_000_000_000 <= p_eci.y * sun.y <= (n as int) * 1_000_000_000 && -(n as int)
            * 1_000_000_000 <= p_eci.z * sun.z <= (n as int) * 1_000_000_000) by (nonlinear_arith)
            requires
                -n <= p_eci.x <= n,
                -n <= p_eci.y <= n,
                -n <= p_eci.z <= n,
                -1_000_000_000 <= sun.x <= 1_000_000_000,
                -1_000_000_000 <= sun.y <= 1_000_000_000,
                -1_000_000_000 <= sun.z <= 1_000_000_000,
                n >= 1;
        assert((n as int) * 3_000_000_000 == (n as int) * 1_000_000_000 + (n as int)
            * 1_000_000_000 + (n as int) * 1_000_000_000) by (nonlinear_arith);
        crate::fixed::lemma_div_trunc_le(p_eci.spec_dot(sun), n as int, 3_000_000_000);
    }
    let udot: i64 = tdiv(dot, n as i128) as i64;
    let beta: i64 = asin_scaled(udot);
    let ratio128: i128 = tdiv(RADIUS_EQUATOR_MM as i128 * 1_000_000_000, n as i128);
    let rc: i64 = if ratio128 > 2_000_000_000 {
        2_000_000_000
    } else {
        proof {
            crate::fixed::lemma_div_trunc_props(
                (RADIUS_EQUATOR_MM as int) * 1_000_000_000,
                n as int,
            );
        }
        ratio128 as i64
    };
    let beta_eclipse: i64 = PI_NRAD - asin_scaled(rc);
    beta > beta_eclipse
}

/// Each component of a vector is bounded by the rounded-down norm.
proof fn lemma_component_bounds(p: Vec3, n: int)
    requires
        n >= 0,
        n * n <= p.spec_norm2(),
        p.spec_norm2() < (n + 1) * (n + 1),
    ensures
        -n <= p.x <= n,
        -n <= p.y <= n,
        -n <= p.z <= n,
{
    assert(p.x * p.x <= p.spec_norm2() && p.y * p.y <= p.spec_norm2() && p.z * p.z
        <= p.spec_norm2()) by (nonlinear_arith)
        requires p.spec_norm2() == p.x * p.x + p.y * p.y + p.z * p.z;
    assert(-n <= p.x <= n && -n <= p.y <= n && -n <= p.z <= n) by (nonlinear_arith)
        requires
            n >= 0,
            p.x * p.x <= p.spec_norm2(),
            p.y * p.y <= p.spec_norm2(),
            p.z * p.z <= p.spec_norm2(),
            p.spec_norm2() < (n + 1) * (n + 1);
}

} // verus!
