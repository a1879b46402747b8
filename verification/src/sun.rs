//! A low-precision analytic solar ephemeris: the mean longitude and mean
//! anomaly are linear in the J2000 day count, the ecliptic longitude adds
//! two harmonic corrections, and the obliquity is the negated axial tilt
//! with a linear drift. The result is a unit direction toward the Sun in
//! the inertial frame, scaled by `ONE`.
use vstd::prelude::*;

verus! {

use crate::fixed::div_trunc;
use crate::fixed::tdiv;
use crate::trig::cos_nrad;
use crate::trig::deg_to_nrad;
use crate::trig::sin_nrad;
use crate::trig::spec_cos;
use crate::trig::spec_deg_to_nrad;
use crate::trig::spec_sin;
use crate::vec3::Vec3;

/// Earth's mean anomaly at J2000.0, in nanoradians.
pub const J2000_EARTH_MEAN_ANOMALY_NRAD: i64 = 1_986_272_778;

/// Daily change of Earth's mean anomaly, in nanoradians per day.
pub const EARTH_MEAN_ANOMALY_PER_JDAY_NRAD: i64 = 5_475_557;

/// Solar mean longitude at J2000.0, in nano-degrees.
pub const SUN_MEAN_LON_J2000_NDEG: i64 = 280_460_000_000;

/// Daily change of the solar mean longitude, in nano-degrees per day.
pub const SUN_MEAN_LON_PER_JDAY_NDEG: i64 = 985_600_280;

/// Axial tilt at J2000.0, in nano-degrees (the obliquity is its
/// negation).
pub const AXIAL_TILT_NDEG: i64 = -23_439_000_000;

/// Axial tilt drift, in nano-degrees per day.
pub const AXIAL_TILT_PER_JDAY_NDEG: i64 = 400;

/// The unit vector toward the Sun in the inertial frame at a J2000 day
/// count in nano-days, scaled by `ONE`:
/// `(cos l, sin l cos e, sin l sin e)` for ecliptic longitude `l` and
/// obliquity `e`.
pub open spec fn spec_sun_eci(d: int) -> Vec3 {
    let mean_lon = (SUN_MEAN_LON_J2000_NDEG as int) + div_trunc(
        d * (SUN_MEAN_LON_PER_JDAY_NDEG as int),
        1_000_000_000,
    );
    let mean_anom = (J2000_EARTH_MEAN_ANOMALY_NRAD as int) + div_trunc(
        d * (EARTH_MEAN_ANOMALY_PER_JDAY_NRAD as int),
        1_000_000_000,
    );
    let u1 = div_trunc(1_914_800_000 * spec_sin(mean_anom), 1_000_000_000);
    let u2 = div_trunc(20_000_000 * spec_sin(2 * mean_anom), 1_000_000_000);
    let ecliptic_lon = spec_deg_to_nrad(mean_lon + u1 + u2);
    let obliquity = spec_deg_to_nrad(
        -((AXIAL_TILT_NDEG as int) + div_trunc(d * (AXIAL_TILT_PER_JDAY_NDEG as int), 1_000_000_000)),
    );
    let sl = spec_sin(ecliptic_lon);
    Vec3 {
        x: spec_cos(ecliptic_lon) as i64,
        y: div_trunc(sl * spec_cos(obliquity), 1_000_000_000) as i64,
        z: div_trunc(sl * spec_sin(obliquity), 1_000_000_000) as i64,
    }
}

/// Unit vector toward the Sun at a J2000 day count in nano-days.
pub fn calc_sun_norm_eci_vec(j2000_nanodays: i64) -> (r: Vec3)
    requires
        -8_000_000_000_000_000 <= j2000_nanodays <= 8_000_000_000_000_000,
    ensures
        r == spec_sun_eci(j2000_nanodays as int),
        r.in_range(1_000_000_000),
{
    let d: i128 = j2000_nanodays as i128;
    proof {
        assert((d * (SUN_MEAN_LON_PER_JDAY_NDEG as i128) == (j2000_nanodays as int) * (
        SUN_MEAN_LON_PER_JDAY_NDEG as int)) && (d * (EARTH_MEAN_ANOMALY_PER_JDAY_NRAD as i128) == (
        j2000_nanodays as int) * (EARTH_MEAN_ANOMALY_PER_JDAY_NRAD as int)) && (d * (
        AXIAL_TILT_PER_JDAY_NDEG as i128) == (j2000_nanodays as int) * (
        AXIAL_TILT_PER_JDAY_NDEG as int)));
        assert(-8_000_000_000_000_000_000_000_000 <= d * (SUN_MEAN_LON_PER_JDAY_NDEG as i128)
            <= 8_000_000_000_000_000_000_000_000int && -8_000_000_000_000_000_000_000_000 <= d * (
        EARTH_MEAN_ANOMALY_PER_JDAY_NRAD as i128) <= 8_000_000_000_000_000_000_000_000int
            && -8_000_000_000_000_000_000_000 <= d * (AXIAL_TILT_PER_JDAY_NDEG as i128)
            <= 8_000_000_000_000_000_000_000int) by (nonlinear_arith)
            requires
                -8_000_000_000_000_000 <= d <= 8_000_000_000_000_000,
                SUN_MEAN_LON_PER_JDAY_NDEG == 985_600_280,
                EARTH_MEAN_ANOMALY_PER_JDAY_NRAD == 5_475_557,
                AXIAL_TILT_PER_JDAY_NDEG == 400;
    }
    let mean_lon: i64 = SUN_MEAN_LON_J2000_NDEG + tdiv(
        d * (SUN_MEAN_LON_PER_JDAY_NDEG as i128),
        1_000_000_000,
    ) as i64;
    let mean_anom: i64 = J2000_EARTH_MEAN_ANOMALY_NRAD + tdiv(
        d * (EARTH_MEAN_ANOMALY_PER_JDAY_NRAD as i128),
        1_000_000_000,
    ) as i64;
    let s1: i64 = sin_nrad(mean_anom);
    let s2: i64 = sin_nrad(2 * mean_anom);
    proof {
        assert((1_914_800_000int * (s1 as i128) == 1_914_800_000 * (s1 as int)) && (20_000_000int
            * (s2 as i128) == 20_000_000 * (s2 as int)));
        assert(-2_000_000_000_000_000_000 <= 1_914_800_000int * (s1 as i128)
            <= 2_000_000_000_000_000_000int && -20_000_000_000_000_000
            <= 20_000_000int * (s2 as i128) <= 20_000_000_000_000_000int) by (nonlinear_arith)
            requires
                -1_000_000_000 <= s1 <= 1_000_000_000,
                -1_000_000_000 <= s2 <= 1_000_000_000;
    }
    let u1: i64 = tdiv(1_914_800_000 * (s1 as i128), 1_000_000_000) as i64;
    let u2: i64 = tdiv(20_000_000 * (s2 as i128), 1_000_000_000) as i64;
    let ecliptic_lon: i64 = deg_to_nrad(mean_lon + u1 + u2);
    let tilt: i64 = AXIAL_TILT_NDEG + tdiv(d * (AXIAL_TILT_PER_JDAY_NDEG as i128), 1_000_000_000) as i64;
    let obliquity: i64 = deg_to_nrad(-tilt);
    let sl: i64 = sin_nrad(ecliptic_lon);
    let cl: i64 = cos_nrad(ecliptic_lon);
    let co: i64 = cos_nrad(obliquity);
    let so: i64 = sin_nrad(obliquity);
    proof {
        assert(((sl as i128) * (co as i128) == (sl as int) * (co as int)) && ((sl as i128) * (
        so as i128) == (sl as int) * (so as int)));
        assert(-1_000_000_000_000_000_000 <= (sl as i128) * (co as i128)
            <= 1_000_000_000_000_000_000int && -1_000_000_000_000_000_000 <= (sl as i128) * (
        so as i128) <= 1_000_000_000_000_000_000int) by (nonlinear_arith)
            requires
                -1_000_000_000 <= sl <= 1_000_000_000,
                -1_000_000_000 <= co <= 1_000_000_000,
                -1_000_000_000 <= so <= 1_000_000_000;
    }
    let y: i64 = tdiv((sl as i128) * (co as i128), 1_000_000_000) as i64;
    let z: i64 = tdiv((sl as i128) * (so as i128), 1_000_000_000) as i64;
    Vec3 { x: cl, y, z }
}

} // verus!
