//! Geodetic coordinates over the reference ellipsoid and the transform
//! to Earth-centered rectangular coordinates. Latitude and longitude are
//! carried in nano-degrees, heights and rectangular components in
//! millimeters; the ellipsoid is fixed by its equatorial radius and
//! first eccentricity.
use vstd::prelude::*;

verus! {

use crate::fixed::div_trunc;
use crate::fixed::isqrt;
use crate::fixed::sqrt_floor;
use crate::fixed::tdiv;
use crate::trig::cos_nrad;
use crate::trig::deg_to_nrad;
use crate::trig::sin_nrad;
use crate::trig::spec_cos;
use crate::trig::spec_deg_to_nrad;
use crate::trig::spec_sin;
use crate::vec3::Vec3;

/// Equatorial radius of the reference ellipsoid, in millimeters.
pub const RADIUS_EQUATOR_MM: i64 = 6_378_137_000;

/// First eccentricity of the reference ellipsoid, scaled by `ONE`.
pub const SURFACE_ECC_SCALED: i64 = 81_820_000;

/// A geodetic position: latitude and longitude in nano-degrees, height
/// above the ellipsoid in millimeters.
#[derive(Clone, Copy, PartialEq, Eq, Structural, Debug)]
pub struct GeodeticPosition {
    pub lat_ndeg: i64,
    pub lon_ndeg: i64,
    pub height_mm: i64,
}

impl GeodeticPosition {
    /// Latitude within a quarter turn, longitude within a few turns,
    /// height within a thousand kilometers of the surface.
    pub open spec fn wf(self) -> bool {
        -90_000_000_000 <= self.lat_ndeg <= 90_000_000_000 && -1_000_000_000_000
            <= self.lon_ndeg <= 1_000_000_000_000 && -1_000_000_000_000 <= self.height_mm
            <= 1_000_000_000_000
    }
}

/// Prime-vertical radius of curvature at a latitude, in millimeters:
/// the equatorial radius over `sqrt(1 - (e sin(lat))^2)`.
pub open spec fn spec_prime_vertical(lat_ndeg: int) -> int {
    let s = spec_sin(spec_deg_to_nrad(lat_ndeg));
    let es = div_trunc((SURFACE_ECC_SCALED as int) * s, 1_000_000_000);
    let den = sqrt_floor((1_000_000_000_000_000_000 - es * es) as nat) as int;
    div_trunc((RADIUS_EQUATOR_MM as int) * 1_000_000_000, den)
}

/// Prime-vertical radius of curvature at a latitude in nano-degrees.
pub fn calc_prime_vertical(lat_ndeg: i64) -> (r: i64)
    requires
        -1_000_000_000_000 <= lat_ndeg <= 1_000_000_000_000,
    ensures
        r == spec_prime_vertical(lat_ndeg as int),
        6_378_137_000 <= r <= 6_404_000_000,
{
    let lat_nrad: i64 = deg_to_nrad(lat_ndeg);
    let s: i64 = sin_nrad(lat_nrad);
    proof {
        assert((SURFACE_ECC_SCALED as i128) * (s as i128) == (SURFACE_ECC_SCALED as int) * (
        s as int));
        assert(-82_000_000_000_000_000 <= (SURFACE_ECC_SCALED as int) * (s as int)
            <= 82_000_000_000_000_000int) by (nonlinear_arith)
            requires
                SURFACE_ECC_SCALED == 81_820_000,
                -1_000_000_000 <= s <= 1_000_000_000;
    }
    let es128: i128 = tdiv(SURFACE_ECC_SCALED as i128 * (s as i128), 1_000_000_000);
    let es: i64 = es128 as i64;
    proof {
        assert(0 <= (es as i128) * (es as i128) <= 6_724_000_000_000_000int) by (nonlinear_arith)
            requires -82_000_000 <= es <= 82_000_000;
        assert((es as i128) * (es as i128) == (es as int) * (es as int));
    }
    let val: i128 = 1_000_000_000_000_000_000 - (es as i128) * (es as i128);
    let den: u64 = isqrt(val as u128);
    proof {
        let n = (1_000_000_000_000_000_000 - (es as int) * (es as int)) as nat;
        assert(val as u128 == n);
        assert(den == sqrt_floor(n));
        assert(996_000_000 <= den <= 1_000_000_000) by {
            if den > 1_000_000_000 {
                assert((den as int) * (den as int) > 1_000_000_000_000_000_000int)
                    by (nonlinear_arith)
                    requires den > 1_000_000_000;
            }
            if den < 996_000_000 {
                assert((den + 1) * (den + 1) <= 996_000_000 * 996_000_000int)
                    by (nonlinear_arith)
                    requires den + 1 <= 996_000_000;
            }
        }
        assert((den as int) * 6_404_000_000 >= 6_378_137_000_000_000_000int
            && 6_378_137_000 * (den as int) <= 6_378_137_000_000_000_000int) by (nonlinear_arith)
            requires 996_000_000 <= den <= 1_000_000_000;
        crate::fixed::lemma_div_trunc_le(
            6_378_137_000_000_000_000int,
            den as int,
            6_404_000_000,
        );
        crate::fixed::lemma_div_trunc_props(6_378_137_000_000_000_000int, den as int);
        assert(div_trunc(6_378_137_000_000_000_000int, den as int) >= 6_378_137_000)
            by (nonlinear_arith)
            requires
                996_000_000 <= den <= 1_000_000_000,
                (den as int) * div_trunc(6_378_137_000_000_000_000int, den as int)
                    <= 6_378_137_000_000_000_000int,
                6_378_137_000_000_000_000int < (den as int) * (div_trunc(
                    6_378_137_000_000_000_000int,
                    den as int,
                ) + 1);
    }
    let n128: i128 = tdiv(RADIUS_EQUATOR_MM as i128 * 1_000_000_000, den as i128);
    n128 as i64
}

/// The rectangular image of a geodetic position, in millimeters:
/// `x = (N+h) cos(lat) cos(lon)`, `y = (N+h) cos(lat) sin(lon)`,
/// `z = ((1-e^2) N + h) sin(lat)`.
pub open spec fn spec_llh_to_ecef(p: GeodeticPosition) -> Vec3 {
    let lat = spec_deg_to_nrad(p.lat_ndeg as int);
    let lon = spec_deg_to_nrad(p.lon_ndeg as int);
    let sl = spec_sin(lat);
    let cl = spec_cos(lat);
    let slo = spec_sin(lon);
    let clo = spec_cos(lon);
    let n = spec_prime_vertical(p.lat_ndeg as int);
    let e2 = div_trunc((SURFACE_ECC_SCALED as int) * (SURFACE_ECC_SCALED as int), 1_000_000_000);
    let t = n + p.height_mm;
    let xy = div_trunc(t * cl, 1_000_000_000);
    let z1 = div_trunc((1_000_000_000 - e2) * n, 1_000_000_000) + p.height_mm;
    Vec3 {
        x: div_trunc(xy * clo, 1_000_000_000) as i64,
        y: div_trunc(xy * slo, 1_000_000_000) as i64,
        z: div_trunc(z1 * sl, 1_000_000_000) as i64,
    }
}

/// Geodetic to Earth-centered rectangular coordinates.
pub fn llh_to_ecef(p: &GeodeticPosition) -> (r: Vec3)
    requires
        p.wf(),
    ensures
        r == spec_llh_to_ecef(*p),
        r.in_range(1_100_000_000_000),
{
    let lat_nrad: i64 = deg_to_nrad(p.lat_ndeg);
    let lon_nrad: i64 = deg_to_nrad(p.lon_ndeg);
    let sl: i64 = sin_nrad(lat_nrad);
    let cl: i64 = cos_nrad(lat_nrad);
    let slo: i64 = sin_nrad(lon_nrad);
    let clo: i64 = cos_nrad(lon_nrad);
    let n: i64 = calc_prime_vertical(p.lat_ndeg);
    let e2_128: i128 = tdiv(SURFACE_ECC_SCALED as i128 * (SURFACE_ECC_SCALED as i128), 1_000_000_000);
    proof {
        assert((SURFACE_ECC_SCALED as i128) * (SURFACE_ECC_SCALED as i128) == (
        SURFACE_ECC_SCALED as int) * (SURFACE_ECC_SCALED as int));
        assert(0 <= (SURFACE_ECC_SCALED as int) * (SURFACE_ECC_SCALED as int)
            <= 7_000_000_000_000_000int) by (nonlinear_arith)
            requires SURFACE_ECC_SCALED == 81_820_000;
    }
    let t: i64 = n + p.height_mm;
    proof {
        assert((t as i128) * (cl as i128) == t * cl);
        assert(-1_010_000_000_000_000_000_000int <= t * cl <= 1_010_000_000_000_000_000_000int)
            by (nonlinear_arith)
            requires
                -1_010_000_000_000 <= t <= 1_010_000_000_000,
                -1_000_000_000 <= cl <= 1_000_000_000;
    }
    let xy128: i128 = tdiv(t as i128 * (cl as i128), 1_000_000_000);
    proof {
        assert(xy128 * (clo as i128) == (xy128 as int) * (clo as int) && xy128 * (slo as i128) == (
        xy128 as int) * (slo as int));
        assert(-1_010_000_000_000_000_000_000int <= (xy128 as int) * (clo as int)
            <= 1_010_000_000_000_000_000_000int && -1_010_000_000_000_000_000_000int <= (
        xy128 as int) * (slo as int) <= 1_010_000_000_000_000_000_000int) by (nonlinear_arith)
            requires
                -1_010_000_000_000 <= xy128 <= 1_010_000_000_000,
                -1_000_000_000 <= clo <= 1_000_000_000,
                -1_000_000_000 <= slo <= 1_000_000_000;
    }
    let x128: i128 = tdiv(xy128 * (clo as i128), 1_000_000_000);
    let y128: i128 = tdiv(xy128 * (slo as i128), 1_000_000_000);
    proof {
        assert((1_000_000_000 - e2_128) * (n as i128) == (1_000_000_000 - (e2_128 as int)) * (
        n as int));
        assert(0 <= (1_000_000_000 - (e2_128 as int)) * (n as int)
            <= 6_500_000_000_000_000_000int) by (nonlinear_arith)
            requires
                0 <= e2_128 <= 7_000_000,
                6_378_137_000 <= n <= 6_404_000_000;
    }
    let z1: i128 = tdiv((1_000_000_000 - e2_128) * (n as i128), 1_000_000_000) + p.height_mm as i128;
    proof {
        assert(z1 * (sl as i128) == (z1 as int) * (sl as int));
        assert(-1_020_000_000_000_000_000_000int <= (z1 as int) * (sl as int)
            <= 1_020_000_000_000_000_000_000int) by (nonlinear_arith)
            requires
                -1_020_000_000_000 <= z1 <= 1_020_000_000_000,
                -1_000_000_000 <= sl <= 1_000_000_000;
    }
    let z128: i128 = tdiv(z1 * (sl as i128), 1_000_000_000);
    Vec3 { x: x128 as i64, y: y128 as i64, z: z128 as i64 }
}

} // verus!
