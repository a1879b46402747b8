//! Topocentric transforms: a rectangular target position becomes an
//! East-North-Up vector relative to a geodetic observer, and an ENU
//! vector becomes azimuth, elevation and range. Azimuth is measured from
//! North toward East; a zero-length ENU vector gets the conventional
//! result (0, 0, 0) instead of an undefined direction.
use vstd::prelude::*;

verus! {

use crate::fixed::div_trunc;
use crate::fixed::sqrt_floor;
use crate::fixed::tdiv;
use crate::geodetic::GeodeticPosition;
use crate::geodetic::llh_to_ecef;
use crate::geodetic::spec_llh_to_ecef;
use crate::trig::HALF_PI_NRAD;
use crate::trig::atan2_nrad;
use crate::trig::asin_scaled;
use crate::trig::cos_nrad;
use crate::trig::deg_to_nrad;
use crate::trig::sin_nrad;
use crate::trig::spec_asin;
use crate::trig::spec_atan2;
use crate::trig::spec_cos;
use crate::trig::spec_deg_to_nrad;
use crate::trig::spec_sin;
use crate::vec3::Vec3;

/// Azimuth and elevation in nanoradians with range in millimeters.
#[derive(Clone, Copy, PartialEq, Eq, Structural, Debug)]
pub struct AzElRange {
    pub az_nrad: i64,
    pub el_nrad: i64,
    pub range_mm: i64,
}

/// The East-North-Up image of a target about an observer: the
/// displacement from the observer's rectangular position, rotated by
/// the standard ENU matrix of the observer's latitude and longitude.
pub open spec fn spec_ecef_to_enu(obs: GeodeticPosition, tgt: Vec3) -> Vec3 {
    let o = spec_llh_to_ecef(obs);
    let dx = tgt.x - o.x;
    let dy = tgt.y - o.y;
    let dz = tgt.z - o.z;
    let lat = spec_deg_to_nrad(obs.lat_ndeg as int);
    let lon = spec_deg_to_nrad(obs.lon_ndeg as int);
    let sl = spec_sin(lat);
    let cl = spec_cos(lat);
    let slo = spec_sin(lon);
    let clo = spec_cos(lon);
    Vec3 {
        x: div_trunc(-slo * dx + clo * dy, 1_000_000_000) as i64,
        y: div_trunc(-(clo * sl) * dx - (slo * sl) * dy + (cl * 1_000_000_000) * dz,
            1_000_000_000_000_000_000) as i64,
        z: div_trunc((clo * cl) * dx + (slo * cl) * dy + (sl * 1_000_000_000) * dz,
            1_000_000_000_000_000_000) as i64,
    }
}

/// Rectangular (rotating-frame) target to East-North-Up about the
/// observer.
pub fn ecef_to_enu(p_lla: &GeodeticPosition, p_tgt_ecef: &Vec3) -> (r: Vec3)
    requires
        p_lla.wf(),
        p_tgt_ecef.in_range(200_000_000_000_000),
    ensures
        r == spec_ecef_to_enu(*p_lla, *p_tgt_ecef),
        r.in_range(700_000_000_000_000),
{
    let o: Vec3 = llh_to_ecef(p_lla);
    let dx: i64 = p_tgt_ecef.x - o.x;
    let dy: i64 = p_tgt_ecef.y - o.y;
    let dz: i64 = p_tgt_ecef.z - o.z;
    let lat_nrad: i64 = deg_to_nrad(p_lla.lat_ndeg);
    let lon_nrad: i64 = deg_to_nrad(p_lla.lon_ndeg);
    let sl: i128 = sin_nrad(lat_nrad) as i128;
    let cl: i128 = cos_nrad(lat_nrad) as i128;
    let slo: i128 = sin_nrad(lon_nrad) as i128;
    let clo: i128 = cos_nrad(lon_nrad) as i128;
    let dxi: i128 = dx as i128;
    let dyi: i128 = dy as i128;
    let dzi: i128 = dz as i128;
    proof {
        let m1 = 202_000_000_000_000_000_000_000int;
        assert(-m1 <= (-slo) * dxi <= m1 && -m1 <= clo * dyi <= m1) by (nonlinear_arith)
            requires
                -1_000_000_000 <= slo <= 1_000_000_000,
                -1_000_000_000 <= clo <= 1_000_000_000,
                -202_000_000_000_000 <= dxi <= 202_000_000_000_000,
                -202_000_000_000_000 <= dyi <= 202_000_000_000_000,
                m1 == 202_000_000_000_000_000_000_000int;
        let m2 = 1_000_000_000_000_000_000int;
        let m3 = 202_000_000_000_000_000_000_000_000_000_000int;
        assert(-m2 <= clo * sl <= m2 && -m2 <= slo * sl <= m2 && -m2 <= clo * cl <= m2 && -m2 <= slo
            * cl <= m2 && -m2 <= cl * 1_000_000_000 <= m2 && -m2 <= sl * 1_000_000_000 <= m2)
            by (nonlinear_arith)
            requires
                -1_000_000_000 <= slo <= 1_000_000_000,
                -1_000_000_000 <= clo <= 1_000_000_000,
                -1_000_000_000 <= sl <= 1_000_000_000,
                -1_000_000_000 <= cl <= 1_000_000_000,
                m2 == 1_000_000_000_000_000_000int;
        assert(-m3 <= (-(clo * sl)) * dxi <= m3 && -m3 <= (slo * sl) * dyi <= m3 && -m3 <= (cl
            * 1_000_000_000) * dzi <= m3 && -m3 <= (clo * cl) * dxi <= m3 && -m3 <= (slo * cl) * dyi
            <= m3 && -m3 <= (sl * 1_000_000_000) * dzi <= m3) by (nonlinear_arith)
            requires
                -1_000_000_000_000_000_000 <= clo * sl <= 1_000_000_000_000_000_000,
                -1_000_000_000_000_000_000 <= slo * sl <= 1_000_000_000_000_000_000,
                -1_000_000_000_000_000_000 <= clo * cl <= 1_000_000_000_000_000_000,
                -1_000_000_000_000_000_000 <= slo * cl <= 1_000_000_000_000_000_000,
                -1_000_000_000_000_000_000 <= cl * 1_000_000_000 <= 1_000_000_000_000_000_000,
                -1_000_000_000_000_000_000 <= sl * 1_000_000_000 <= 1_000_000_000_000_000_000,
                -202_000_000_000_000 <= dxi <= 202_000_000_000_000,
                -202_000_000_000_000 <= dyi <= 202_000_000_000_000,
                -202_000_000_000_000 <= dzi <= 202_000_000_000_000,
                m3 == 202_000_000_000_000_000_000_000_000_000_000int;
    }
    let ne: i128 = (-slo) * dxi + clo * dyi;
    let nn: i128 = (-(clo * sl)) * dxi - (slo * sl) * dyi + (cl * 1_000_000_000) * dzi;
    let nu: i128 = (clo * cl) * dxi + (slo * cl) * dyi + (sl * 1_000_000_000) * dzi;
    let e: i128 = tdiv(ne, 1_000_000_000);
    let n: i128 = tdiv(nn, 1_000_000_000_000_000_000);
    let u: i128 = tdiv(nu, 1_000_000_000_000_000_000);
    proof {
        assert((-slo) * dxi + clo * dyi == -(slo as int) * dx + (clo as int) * dy
            && (-(clo * sl)) * dxi - (slo * sl) * dyi + (cl * 1_000_000_000) * dzi
            == -((clo as int) * (sl as int)) * dx - ((slo as int) * (sl as int)) * dy + ((
        cl as int) * 1_000_000_000) * dz && (clo * cl) * dxi + (slo * cl) * dyi + (sl
            * 1_000_000_000) * dzi == ((clo as int) * (cl as int)) * dx + ((slo as int) * (
        cl as int)) * dy + ((sl as int) * 1_000_000_000) * dz) by (nonlinear_arith)
            requires dxi == dx && dyi == dy && dzi == dz;
    }
    Vec3 { x: e as i64, y: n as i64, z: u as i64 }
}

/// Azimuth, elevation and range of an East-North-Up vector:
/// `range = |enu|`, `azimuth = atan2(E, N)`, `elevation = asin(U/range)`;
/// the zero vector gives (0, 0, 0) by convention.
pub open spec fn spec_azelrad(enu: Vec3) -> AzElRange {
    let r = sqrt_floor(enu.spec_norm2() as nat) as int;
    if r == 0 {
        AzElRange { az_nrad: 0, el_nrad: 0, range_mm: 0 }
    } else {
        AzElRange {
            az_nrad: spec_atan2(enu.x as int, enu.y as int) as i64,
            el_nrad: spec_asin(div_trunc(enu.z * 1_000_000_000, r)) as i64,
            range_mm: r as i64,
        }
    }
}

/// East-North-Up vector to azimuth, elevation and range.
pub fn enu_to_azelrad(p_enu: &Vec3) -> (r: AzElRange)
    requires
        p_enu.in_range(1_000_000_000_000_000),
    ensures
        r == spec_azelrad(*p_enu),
        -crate::trig::PI_NRAD <= r.az_nrad <= crate::trig::PI_NRAD,
        -HALF_PI_NRAD <= r.el_nrad <= HALF_PI_NRAD,
        0 <= r.range_mm,
{
    let dis: i64 = p_enu.norm();
    if dis == 0 {
        return AzElRange { az_nrad: 0, el_nrad: 0, range_mm: 0 };
    }
    let az: i64 = atan2_nrad(p_enu.x, p_enu.y);
    proof {
        assert(p_enu.z * p_enu.z <= p_enu.spec_norm2()) by (nonlinear_arith)
            requires
                p_enu.spec_norm2() == p_enu.x * p_enu.x + p_enu.y * p_enu.y + p_enu.z * p_enu.z,
                true;
        assert(-dis <= p_enu.z <= dis) by (nonlinear_arith)
            requires
                p_enu.z * p_enu.z <= p_enu.spec_norm2(),
                p_enu.spec_norm2() < (dis + 1) * (dis + 1),
                dis >= 0;
        assert(-(dis as int) * 1_000_000_000 <= (p_enu.z as int) * 1_000_000_000 <= (dis as int)
            * 1_000_000_000) by (nonlinear_arith)
            requires -dis <= p_enu.z <= dis;
        crate::fixed::lemma_div_trunc_le(
            (p_enu.z as int) * 1_000_000_000,
            dis as int,
            1_000_000_000,
        );
    }
    let ratio128: i128 = tdiv(p_enu.z as i128 * 1_000_000_000, dis as i128);
    let el: i64 = asin_scaled(ratio128 as i64);
    AzElRange { az_nrad: az, el_nrad: el, range_mm: dis }
}

/// Azimuth, elevation and range for each vector of a series.
pub fn calc_az_el_rads(p_enus: &Vec<Vec3>) -> (r: Vec<AzElRange>)
    requires
        forall|i: int| 0 <= i < p_enus@.len() ==> (#[trigger] p_enus@[i]).in_range(
            1_000_000_000_000_000,
        ),
    ensures
        r@.len() == p_enus@.len(),
        forall|i: int| 0 <= i < r@.len() ==> r@[i] == spec_azelrad(#[trigger] p_enus@[i]),
{
    let mut out: Vec<AzElRange> = Vec::new();
    let mut k: usize = 0;
    while k < p_enus.len()
        invariant
            0 <= k <= p_enus@.len(),
            out@.len() == k,
            forall|i: int| 0 <= i < p_enus@.len() ==> (#[trigger] p_enus@[i]).in_range(
                1_000_000_000_000_000,
            ),
            forall|i: int| 0 <= i < k ==> out@[i] == spec_azelrad(#[trigger] p_enus@[i]),
        decreases p_enus@.len() - k,
    {
        let a = enu_to_azelrad(&p_enus[k]);
        out.push(a);
        k = k + 1;
    }
    out
}

/// The observer's own position maps to the zero East-North-Up vector.
pub proof fn lemma_enu_of_observer_is_zero(obs: GeodeticPosition)
    ensures
        spec_ecef_to_enu(obs, spec_llh_to_ecef(obs)) == (Vec3 { x: 0, y: 0, z: 0 }),
{
    let o = spec_llh_to_ecef(obs);
    let lat = spec_deg_to_nrad(obs.lat_ndeg as int);
    let lon = spec_deg_to_nrad(obs.lon_ndeg as int);
    let sl = spec_sin(lat);
    let cl = spec_cos(lat);
    let slo = spec_sin(lon);
    let clo = spec_cos(lon);
    assert(-slo * 0 + clo * 0 == 0 && -(clo * sl) * 0 - (slo * sl) * 0 + (cl * 1_000_000_000) * 0
        == 0 && (clo * cl) * 0 + (slo * cl) * 0 + (sl * 1_000_000_000) * 0 == 0)
        by (nonlinear_arith);
    assert(div_trunc(0, 1_000_000_000) == 0 && div_trunc(0, 1_000_000_000_000_000_000) == 0);
}

/// Straight up gives elevation pi/2 at range 1; straight East gives
/// azimuth pi/2.
pub proof fn lemma_azelrad_axes()
    ensures
        spec_azelrad(Vec3 { x: 0, y: 0, z: 1 }) == (AzElRange {
            az_nrad: 0,
            el_nrad: HALF_PI_NRAD,
            range_mm: 1,
        }),
        spec_azelrad(Vec3 { x: 1, y: 0, z: 0 }).az_nrad == HALF_PI_NRAD,
        spec_azelrad(Vec3 { x: 1, y: 0, z: 0 }).el_nrad == 0,
        spec_azelrad(Vec3 { x: 1, y: 0, z: 0 }).range_mm == 1,
{
    let up = Vec3 { x: 0, y: 0, z: 1 };
    let east = Vec3 { x: 1, y: 0, z: 0 };
    assert(up.spec_norm2() == 1 && east.spec_norm2() == 1) by (nonlinear_arith)
        requires
            up.spec_norm2() == up.x * up.x + up.y * up.y + up.z * up.z,
            east.spec_norm2() == east.x * east.x + east.y * east.y + east.z * east.z,
            up.x == 0 && up.y == 0 && up.z == 1,
            east.x == 1 && east.y == 0 && east.z == 0;
    assert(1nat * 1nat == 1 && (1nat + 1) * (1nat + 1) == 4) by (nonlinear_arith);
    crate::fixed::lemma_sqrt_floor_unique(1nat, 1nat);
    assert(div_trunc(1int * 1_000_000_000, 1int) == 1_000_000_000 && div_trunc(0int * 1_000_000_000, 1int)
        == 0) by (nonlinear_arith);
    assert(spec_asin(1_000_000_000) == HALF_PI_NRAD);
    // asin(0) goes through atan2(0, sqrt(ONE^2)) = atan2(0, ONE).
    assert(1_000_000_000nat * 1_000_000_000nat == 1_000_000_000_000_000_000nat
        && (1_000_000_000nat + 1) * (1_000_000_000nat + 1) > 1_000_000_000_000_000_000nat)
        by (nonlinear_arith);
    crate::fixed::lemma_sqrt_floor_unique(1_000_000_000_000_000_000nat, 1_000_000_000nat);
    assert(spec_atan2(0, 1_000_000_000) == 0) by {
        lemma_atan_unit_zero();
    }
    assert(spec_asin(0) == 0);
    // azimuth of (1, 0, 0): atan2(E = 1, N = 0) folds to pi/2 - atan(0).
    assert(spec_atan2(1, 0) == HALF_PI_NRAD as int) by {
        lemma_atan_unit_zero();
        assert(div_trunc(0int * 1_000_000_000, 1int) == 0) by (nonlinear_arith);
    }
    assert(spec_atan2(0, 0) == 0);
}

/// The arc-tangent series and its unit fold both vanish at zero.
proof fn lemma_atan_unit_zero()
    ensures
        crate::trig::spec_atan_series(0) == 0,
        crate::trig::spec_atan_unit(0) == 0,
{
    assert(div_trunc(0int, 1_000_000_000) == 0);
    assert(0int * 0 == 0 && 0int * 47_619_048 == 0) by (nonlinear_arith);
    let y = div_trunc(0int * 0, 1_000_000_000);
    assert(y == 0);
    assert(forall|c: int| #[trigger] (y * c) == 0) by (nonlinear_arith)
        requires y == 0;
    assert(crate::trig::spec_atan_series(0) == 0);
}

} // verus!
