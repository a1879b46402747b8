//! The closed-form rectangular-to-geodetic transform: a single-pass
//! algebraic solution with no trigonometric root-finding loop. The
//! computation runs on meter-scaled values derived from the millimeter
//! input; latitude and longitude come out of the four-quadrant arc
//! tangent (longitude of a point on the axis is 0 by that convention),
//! height comes out in millimeters. Denominators that could degenerate
//! on extreme inputs are clamped away from zero, and the inner square
//! root argument is clamped to be non-negative, so every input in the
//! stated shell yields a defined result.
use vstd::prelude::*;

verus! {

use crate::fixed::cbrt_floor;
use crate::fixed::div_trunc;
use crate::fixed::icbrt;
use crate::fixed::isqrt;
use crate::fixed::sqrt_floor;
use crate::fixed::tdiv;
use crate::geodetic::GeodeticPosition;
use crate::trig::spec_atan2;
use crate::trig::spec_nrad_to_ndeg;
use crate::vec3::Vec3;

/// The geodetic image of a rectangular point, mirroring the staged
/// integer computation of `ecef_to_lla` step for step.
pub open spec fn spec_ecef_to_lla(v: Vec3) -> GeodeticPosition {
    let x = div_trunc(v.x as int, 1000);
    let y = div_trunc(v.y as int, 1000);
    let z = div_trunc(v.z as int, 1000);
    let sq1 = sqrt_floor(
        (1_000_000_000_000_000_000 - (81_820_000int * 81_820_000)) as nat,
    ) as int;
    let b = div_trunc(6_378_137 * sq1, 1_000_000_000);
    let asq = 6_378_137int * 6_378_137;
    let bsq = b * b;
    let ecc2 = div_trunc((asq - bsq) * 1_000_000_000, asq);
    let ecc2p = div_trunc(asq * 1_000_000_000, bsq) - 1_000_000_000;
    let p = sqrt_floor((x * x + y * y) as nat) as int;
    let p2 = p * p;
    let z2 = z * z;
    let g = p2 + div_trunc((1_000_000_000 - ecc2) * z2, 1_000_000_000) - div_trunc(
        ecc2 * (asq - bsq),
        1_000_000_000,
    );
    let f = 54 * bsq * z2;
    let e4 = div_trunc(ecc2 * ecc2, 1_000_000_000);
    let t1 = div_trunc(e4 * p2, 1_000_000_000);
    let s1 = div_trunc(f, g);
    let s2c = div_trunc(s1 * t1, g);
    let c12r = div_trunc(s2c * 1_000_000_000_000, g);
    let cc = if c12r < 0 {
        0
    } else if c12r > 10_000_000_000 {
        10_000_000_000int
    } else {
        c12r
    };
    let w = sqrt_floor((cc * cc + 2 * cc * 1_000_000_000_000) as nat) as int;
    let s12 = cbrt_floor(((1_000_000_000_000 + cc + w) * 1_000_000_000_000_000_000_000_000) as nat) as int;
    let k = s12 + 1_000_000_000_000 + div_trunc(1_000_000_000_000_000_000_000_000, s12);
    let k2 = div_trunc(k * k, 1_000_000_000_000);
    let h1 = div_trunc(f * 1000, g);
    let h2 = div_trunc(h1 * 1_000_000_000, g);
    let capp = div_trunc(h2 * 1_000_000_000_000, 3 * k2);
    let tq = 2000 * e4 * capp;
    let qv = sqrt_floor((1_000_000_000_000_000_000_000_000 + tq) as nat) as int;
    let u12 = 1_000_000_000_000 + div_trunc(1_000_000_000_000_000_000_000_000, qv);
    let terma = div_trunc(asq * u12, 2_000_000_000_000);
    let qq = div_trunc(qv * (qv + 1_000_000_000_000), 1_000_000_000_000);
    let b1t = div_trunc(capp * z2, 1_000_000_000_000);
    let b2t = div_trunc(b1t * (1_000_000_000 - ecc2), 1_000_000_000);
    let termb = div_trunc(b2t * 1_000_000_000_000, qq);
    let termc = div_trunc(capp * p2, 2_000_000_000_000);
    let inner = terma - termb - termc;
    let innc = if inner < 0 {
        0
    } else {
        inner
    };
    let rr0 = sqrt_floor(innc as nat) as int;
    let f1 = div_trunc(capp * ecc2, 1_000_000_000);
    let f2 = div_trunc(f1 * p, 1_000_000_000_000 + qv);
    let r0v = rr0 - f2;
    let pe = p - div_trunc(ecc2 * r0v, 1_000_000_000);
    let um = sqrt_floor((pe * pe + z2) as nat) as int;
    let vz = div_trunc((1_000_000_000 - ecc2) * z2, 1_000_000_000);
    let vm = sqrt_floor((pe * pe + vz) as nat) as int;
    let av = 6_378_137 * vm;
    let av1 = if av < 1_000_000_000_000 {
        1_000_000_000_000int
    } else {
        av
    };
    let z0 = div_trunc(bsq * z, av1);
    let zz0 = z + div_trunc(ecc2p * z0, 1_000_000_000);
    let lat_ndeg = spec_nrad_to_ndeg(spec_atan2(zz0, p));
    let lon_ndeg = spec_nrad_to_ndeg(spec_atan2(y, x));
    let w2 = div_trunc(bsq * 1_000_000_000, av1);
    let alt_m = div_trunc(um * (1_000_000_000 - w2), 1_000_000_000);
    GeodeticPosition {
        lat_ndeg: lat_ndeg as i64,
        lon_ndeg: lon_ndeg as i64,
        height_mm: (alt_m * 1000) as i64,
    }
}

/// Rectangular (rotating-frame) millimeters to geodetic latitude,
/// longitude and height. The input must lie in a shell around Earth:
/// at least 6325 km and at most some 100 000 km from the center.
#[verifier::rlimit(60)]
pub fn ecef_to_lla(ecef: &Vec3) -> (r: GeodeticPosition)
    requires
        ecef.in_range(100_000_000_000),
        ecef.spec_norm2() >= 40_000_000_000_000_000_000,
    ensures
        r == spec_ecef_to_lla(*ecef),
{
    let x: i128 = tdiv(ecef.x as i128, 1000);
    let y: i128 = tdiv(ecef.y as i128, 1000);
    let z: i128 = tdiv(ecef.z as i128, 1000);
    let sq1: i128 = isqrt((1_000_000_000_000_000_000i128 - 81_820_000 * 81_820_000) as u128) as i128;
    proof {
        lemma_sq_bounds(sq1 as int, 993_305_487_600_000_000, 996_000_000, 1_000_000_000);
    }
    let b: i128 = tdiv(6_378_137 * sq1, 1_000_000_000);
    proof {
        assert(6_352_000_000_000_000 <= 6_378_137 * sq1 <= 6_378_137_000_000_000int)
            by (nonlinear_arith)
            requires 996_000_000 <= sq1 <= 1_000_000_000;
    }
    let asq: i128 = 6_378_137 * 6_378_137;
    proof {
        assert(6_352_000 <= b <= 6_378_137 ==> 40_347_904_000_000 <= b * b
            <= 40_680_631_590_769int) by (nonlinear_arith);
    }
    let bsq: i128 = b * b;
    proof {
        assert((asq - bsq) * 1_000_000_000 <= 400_000_000_000_000_000_000int && 0 <= (asq - bsq)
            * 1_000_000_000) by (nonlinear_arith)
            requires 0 <= asq - bsq <= 400_000_000_000;
    }
    let ecc2: i128 = tdiv((asq - bsq) * 1_000_000_000, asq);
    proof {
        assert(ecc2 <= 10_000_000) by (nonlinear_arith)
            requires
                asq == 40_680_631_590_769,
                asq * ecc2 <= (asq - bsq) * 1_000_000_000,
                asq - bsq <= 400_000_000_000,
                ecc2 >= 0;
    }
    let ecc2p: i128 = tdiv(asq * 1_000_000_000, bsq) - 1_000_000_000;
    proof {
        crate::fixed::lemma_div_trunc_le(
            asq as int * 1_000_000_000,
            bsq as int,
            1_100_000_000,
        );
        assert(bsq * 1_100_000_000 >= asq * 1_000_000_000 && 0 <= asq * 1_000_000_000)
            by (nonlinear_arith)
            requires 40_347_904_000_000 <= bsq && asq == 40_680_631_590_769;
    }
    proof {
        assert(0 <= x * x <= 10_000_000_000_000_000int && 0 <= y * y <= 10_000_000_000_000_000int
            && 0 <= z * z <= 10_000_000_000_000_000int) by (nonlinear_arith)
            requires
                -100_000_000 <= x <= 100_000_000,
                -100_000_000 <= y <= 100_000_000,
                -100_000_000 <= z <= 100_000_000;
    }
    let p: i128 = isqrt((x * x + y * y) as u128) as i128;
    proof {
        assert(p <= 150_000_000 && 0 <= p) by {
            if p > 150_000_000 {
                assert(p * p > 20_000_000_000_000_000int) by (nonlinear_arith)
                    requires p > 150_000_000;
            }
        }
        assert(0 <= p * p <= 22_500_000_000_000_000int) by (nonlinear_arith)
            requires 0 <= p <= 150_000_000;
    }
    let p2: i128 = p * p;
    let z2: i128 = z * z;
    proof {
        assert(0 <= (1_000_000_000 - ecc2) * z2 <= 10_000_000_000_000_000_000_000_000int)
            by (nonlinear_arith)
            requires 0 <= ecc2 <= 10_000_000 && 0 <= z2 <= 10_000_000_000_000_000;
        assert(0 <= ecc2 * (asq - bsq) <= 4_000_000_000_000_000_000int) by (nonlinear_arith)
            requires 0 <= ecc2 <= 10_000_000 && 0 <= asq - bsq <= 400_000_000_000;
    }
    let g: i128 = p2 + tdiv((1_000_000_000 - ecc2) * z2, 1_000_000_000) - tdiv(
        ecc2 * (asq - bsq),
        1_000_000_000,
    );
    proof {
        lemma_shell_g_lower(
            ecef.x as int,
            ecef.y as int,
            ecef.z as int,
            x as int,
            y as int,
            z as int,
            p as int,
            ecc2 as int,
            g as int,
            div_trunc((1_000_000_000 - ecc2) * z2 as int, 1_000_000_000),
            div_trunc(ecc2 as int * (asq as int - bsq as int), 1_000_000_000),
            ecef.spec_norm2(),
        );
    }
    proof {
        assert(0 <= 54 * bsq <= 2_200_000_000_000_000int) by (nonlinear_arith)
            requires 0 <= bsq <= 40_680_631_590_769;
        assert(0 <= (54 * bsq) * z2 <= 22_000_000_000_000_000_000_000_000_000_000int)
            by (nonlinear_arith)
            requires 0 <= 54 * bsq <= 2_200_000_000_000_000 && 0 <= z2 <= 10_000_000_000_000_000;
    }
    let f: i128 = 54 * bsq * z2;
    proof {
        assert(0 <= ecc2 * ecc2 <= 100_000_000_000_000int) by (nonlinear_arith)
            requires 0 <= ecc2 <= 10_000_000;
    }
    let e4: i128 = tdiv(ecc2 * ecc2, 1_000_000_000);
    proof {
        assert(0 <= e4 * p2 <= 2_250_000_000_000_000_000_000int) by (nonlinear_arith)
            requires 0 <= e4 <= 100_000 && 0 <= p2 <= 22_500_000_000_000_000;
    }
    let t1: i128 = tdiv(e4 * p2, 1_000_000_000);
    proof {
        assert(g as int * 600_000_000_000_000_000 >= 22_000_000_000_000_000_000_000_000_000_000int)
            by (nonlinear_arith)
            requires g >= 39_000_000_000_000;
        crate::fixed::lemma_div_trunc_le(f as int, g as int, 600_000_000_000_000_000);
    }
    let s1: i128 = tdiv(f, g);
    proof {
        assert(0 <= s1 * t1 <= 1_400_000_000_000_000_000_000_000_000_000int) by (nonlinear_arith)
            requires 0 <= s1 <= 600_000_000_000_000_000 && 0 <= t1 <= 2_250_000_000_000;
        assert(g as int * 36_000_000_000_000_000 >= 1_400_000_000_000_000_000_000_000_000_000int)
            by (nonlinear_arith)
            requires g >= 39_000_000_000_000;
        crate::fixed::lemma_div_trunc_le(s1 as int * t1 as int, g as int, 36_000_000_000_000_000);
    }
    let s2c: i128 = tdiv(s1 * t1, g);
    proof {
        assert(g as int * 925_000_000_000_000 >= 36_000_000_000_000_000_000_000_000_000int)
            by (nonlinear_arith)
            requires g >= 39_000_000_000_000;
        crate::fixed::lemma_div_trunc_le(
            s2c as int * 1_000_000_000_000,
            g as int,
            925_000_000_000_000,
        );
    }
    let c12r: i128 = tdiv(s2c * 1_000_000_000_000, g);
    let cc: i128 = if c12r < 0 {
        0
    } else if c12r > 10_000_000_000 {
        10_000_000_000
    } else {
        c12r
    };
    proof {
        assert(0 <= cc * cc + 2 * cc * 1_000_000_000_000 <= 21_000_000_000_000_000_000_000int)
            by (nonlinear_arith)
            requires 0 <= cc <= 10_000_000_000;
    }
    let w: i128 = isqrt((cc * cc + 2 * cc * 1_000_000_000_000) as u128) as i128;
    proof {
        assert(w <= 150_000_000_000 && 0 <= w) by {
            if w > 150_000_000_000 {
                assert(w * w > 21_000_000_000_000_000_000_000int) by (nonlinear_arith)
                    requires w > 150_000_000_000;
            }
        }
        assert(1_000_000_000_000 <= 1_000_000_000_000 + cc + w <= 1_161_000_000_000int);
        assert(0 <= (1_000_000_000_000 + cc + w) * 1_000_000_000_000_000_000_000_000
            < 1_200_000_000_000_000_000_000_000_000_000_000_000int) by (nonlinear_arith)
            requires 1_000_000_000_000 <= 1_000_000_000_000 + cc + w <= 1_161_000_000_000;
    }
    let s12: i128 = icbrt(((1_000_000_000_000 + cc + w) * 1_000_000_000_000_000_000_000_000) as u128) as i128;
    proof {
        lemma_cb_bounds(
            s12 as int,
            ((1_000_000_000_000 + cc as int + w as int) * 1_000_000_000_000_000_000_000_000),
            1_000_000_000_000,
            1_052_000_000_000,
        );
        crate::fixed::lemma_div_trunc_le(
            1_000_000_000_000_000_000_000_000,
            s12 as int,
            1_000_000_000_000,
        );
        assert(s12 as int * 1_000_000_000_000 >= 1_000_000_000_000_000_000_000_000int
            && 0 <= 1_000_000_000_000_000_000_000_000int) by (nonlinear_arith)
            requires s12 >= 1_000_000_000_000;
    }
    let kq: i128 = tdiv(1_000_000_000_000_000_000_000_000, s12);
    proof {
        assert(kq >= 950_000_000_000) by (nonlinear_arith)
            requires
                1_000_000_000_000 <= s12 <= 1_052_000_000_000,
                s12 * (kq + 1) > 1_000_000_000_000_000_000_000_000;
    }
    let k: i128 = s12 + 1_000_000_000_000 + kq;
    proof {
        assert(0 <= k * k <= 10_000_000_000_000_000_000_000_000int) by (nonlinear_arith)
            requires 0 <= k <= 3_100_000_000_000;
    }
    let k2: i128 = tdiv(k * k, 1_000_000_000_000);
    proof {
        // k = s + 1 + 1/s >= 2.9 at the twelve-digit scale, so k^2/10^12
        // stays above 8.4e12 and 3 k2 is a sound denominator.
        assert(k >= 2_940_000_000_000int);
        assert(k * k >= 8_643_600_000_000_000_000_000_000int) by (nonlinear_arith)
            requires k >= 2_940_000_000_000;
        assert(k2 >= 8_643_600_000_000int - 1);
        assert(0 <= f * 1000 <= 22_000_000_000_000_000_000_000_000_000_000_000int)
            by (nonlinear_arith)
            requires 0 <= f <= 22_000_000_000_000_000_000_000_000_000_000;
        assert(g as int * 600_000_000_000_000_000_000
            >= 22_000_000_000_000_000_000_000_000_000_000_000int) by (nonlinear_arith)
            requires g >= 39_000_000_000_000;
        crate::fixed::lemma_div_trunc_le(
            f as int * 1000,
            g as int,
            600_000_000_000_000_000_000,
        );
    }
    let h1: i128 = tdiv(f * 1000, g);
    proof {
        assert(0 <= h1 * 1_000_000_000 <= 600_000_000_000_000_000_000_000_000_000int)
            by (nonlinear_arith)
            requires 0 <= h1 <= 600_000_000_000_000_000_000;
        assert(g as int * 16_000_000_000_000_000 >= 600_000_000_000_000_000_000_000_000_000int)
            by (nonlinear_arith)
            requires g >= 39_000_000_000_000;
        crate::fixed::lemma_div_trunc_le(
            h1 as int * 1_000_000_000,
            g as int,
            16_000_000_000_000_000,
        );
    }
    let h2: i128 = tdiv(h1 * 1_000_000_000, g);
    proof {
        assert((3 * k2) * 700_000_000_000_000 >= 16_000_000_000_000_000_000_000_000_000int && 0
            <= h2 * 1_000_000_000_000 <= 16_000_000_000_000_000_000_000_000_000int)
            by (nonlinear_arith)
            requires k2 >= 8_643_599_999_999 && 0 <= h2 <= 16_000_000_000_000_000;
        crate::fixed::lemma_div_trunc_le(
            h2 as int * 1_000_000_000_000,
            3 * k2 as int,
            700_000_000_000_000,
        );
    }
    let capp: i128 = tdiv(h2 * 1_000_000_000_000, 3 * k2);
    proof {
        assert(0 <= 2000 * e4 * capp <= 140_000_000_000_000_000_000_000int) by (nonlinear_arith)
            requires 0 <= e4 <= 100_000 && 0 <= capp <= 700_000_000_000_000;
    }
    let tq: i128 = 2000 * e4 * capp;
    let qv: i128 = isqrt((1_000_000_000_000_000_000_000_000i128 + tq) as u128) as i128;
    proof {
        lemma_sq_bounds(
            qv as int,
            1_000_000_000_000_000_000_000_000int + tq as int,
            1_000_000_000_000,
            1_070_000_000_000,
        );
        assert(qv as int * 1_000_000_000_000 >= 1_000_000_000_000_000_000_000_000int && 0
            <= 1_000_000_000_000_000_000_000_000int) by (nonlinear_arith)
            requires qv >= 1_000_000_000_000;
        crate::fixed::lemma_div_trunc_le(
            1_000_000_000_000_000_000_000_000,
            qv as int,
            1_000_000_000_000,
        );
    }
    let u12: i128 = 1_000_000_000_000 + tdiv(1_000_000_000_000_000_000_000_000, qv);
    proof {
        assert(0 <= asq * u12 <= 82_000_000_000_000_000_000_000_000int) by (nonlinear_arith)
            requires asq == 40_680_631_590_769 && 0 <= u12 <= 2_000_000_000_000;
        assert(0 <= qv * (qv + 1_000_000_000_000) <= 2_300_000_000_000_000_000_000_000int
            && qv * (qv + 1_000_000_000_000) >= 2_000_000_000_000_000_000_000_000int)
            by (nonlinear_arith)
            requires 1_000_000_000_000 <= qv <= 1_070_000_000_000;
    }
    let terma: i128 = tdiv(asq * u12, 2_000_000_000_000);
    let qq: i128 = tdiv(qv * (qv + 1_000_000_000_000), 1_000_000_000_000);
    proof {
        assert(qq >= 1_999_999_999_999int);
        assert(0 <= capp * z2 <= 7_000_000_000_000_000_000_000_000_000_000int)
            by (nonlinear_arith)
            requires 0 <= capp <= 700_000_000_000_000 && 0 <= z2 <= 10_000_000_000_000_000;
    }
    let b1t: i128 = tdiv(capp * z2, 1_000_000_000_000);
    proof {
        assert(0 <= b1t * (1_000_000_000 - ecc2) <= 7_000_000_000_000_000_000_000_000_000int)
            by (nonlinear_arith)
            requires 0 <= b1t <= 7_000_000_000_000_000_000 && 0 <= ecc2 <= 10_000_000;
    }
    let b2t: i128 = tdiv(b1t * (1_000_000_000 - ecc2), 1_000_000_000);
    proof {
        assert(0 <= b2t * 1_000_000_000_000 <= 7_000_000_000_000_000_000_000_000_000_000int)
            by (nonlinear_arith)
            requires 0 <= b2t <= 7_000_000_000_000_000_000;
        assert(qq as int * 3_600_000_000_000_000_000
            >= 7_000_000_000_000_000_000_000_000_000_000int) by (nonlinear_arith)
            requires qq >= 1_999_999_999_999;
        crate::fixed::lemma_div_trunc_le(
            b2t as int * 1_000_000_000_000,
            qq as int,
            3_600_000_000_000_000_000,
        );
    }
    let termb: i128 = tdiv(b2t * 1_000_000_000_000, qq);
    proof {
        assert(0 <= capp * p2 <= 16_000_000_000_000_000_000_000_000_000_000int)
            by (nonlinear_arith)
            requires 0 <= capp <= 700_000_000_000_000 && 0 <= p2 <= 22_500_000_000_000_000;
    }
    let termc: i128 = tdiv(capp * p2, 2_000_000_000_000);
    let inner: i128 = terma - termb - termc;
    let innc: i128 = if inner < 0 {
        0
    } else {
        inner
    };
    proof {
        assert(innc <= terma);
        assert(terma * 2_000_000_000_000 <= asq * u12 < (terma + 1) * 2_000_000_000_000);
    }
    let rr0: i128 = isqrt(innc as u128) as i128;
    proof {
        assert(rr0 <= 7_000_000 && 0 <= rr0) by {
            if rr0 > 7_000_000 {
                assert(rr0 * rr0 > 41_000_000_000_000int) by (nonlinear_arith)
                    requires rr0 > 7_000_000;
            }
        }
        assert(0 <= capp * ecc2 <= 7_000_000_000_000_000_000_000int) by (nonlinear_arith)
            requires 0 <= capp <= 700_000_000_000_000 && 0 <= ecc2 <= 10_000_000;
    }
    let f1: i128 = tdiv(capp * ecc2, 1_000_000_000);
    proof {
        assert(0 <= f1 * p <= 1_050_000_000_000_000_000_000int) by (nonlinear_arith)
            requires 0 <= f1 <= 7_000_000_000_000 && 0 <= p <= 150_000_000;
        assert((1_000_000_000_000int + qv) * 600_000_000 >= 1_050_000_000_000_000_000_000int)
            by (nonlinear_arith)
            requires qv >= 1_000_000_000_000;
        crate::fixed::lemma_div_trunc_le(
            f1 as int * p as int,
            1_000_000_000_000 + qv as int,
            600_000_000,
        );
    }
    let f2: i128 = tdiv(f1 * p, 1_000_000_000_000 + qv);
    let r0v: i128 = rr0 - f2;
    proof {
        assert(-6_100_000_000_000_000 <= ecc2 * r0v <= 6_100_000_000_000_000int)
            by (nonlinear_arith)
            requires 0 <= ecc2 <= 10_000_000 && -610_000_000 <= r0v <= 7_000_000;
    }
    let pe: i128 = p - tdiv(ecc2 * r0v, 1_000_000_000);
    proof {
        assert(0 <= pe * pe <= 60_000_000_000_000_000int) by (nonlinear_arith)
            requires -200_000_000 <= pe <= 200_000_000;
    }
    let um: i128 = isqrt((pe * pe + z2) as u128) as i128;
    let vz: i128 = tdiv((1_000_000_000 - ecc2) * z2, 1_000_000_000);
    let vm: i128 = isqrt((pe * pe + vz) as u128) as i128;
    proof {
        assert(um <= 300_000_000 && 0 <= um) by {
            if um > 300_000_000 {
                assert(um * um > 70_000_000_000_000_000int) by (nonlinear_arith)
                    requires um > 300_000_000;
            }
        }
        assert(vm <= 300_000_000 && 0 <= vm) by {
            if vm > 300_000_000 {
                assert(vm * vm > 70_000_000_000_000_000int) by (nonlinear_arith)
                    requires vm > 300_000_000;
            }
        }
    }
    let av: i128 = 6_378_137 * vm;
    let av1: i128 = if av < 1_000_000_000_000 {
        1_000_000_000_000
    } else {
        av
    };
    proof {
        assert(-410_000_000_000_000_000_000_000 <= bsq * z <= 410_000_000_000_000_000_000_000int)
            by (nonlinear_arith)
            requires 0 <= bsq <= 40_680_631_590_769 && -100_000_000 <= z <= 100_000_000;
        assert(av1 as int * 410_000_000_000 >= 410_000_000_000_000_000_000_000int)
            by (nonlinear_arith)
            requires av1 >= 1_000_000_000_000;
        crate::fixed::lemma_div_trunc_le(
            bsq as int * z as int,
            av1 as int,
            410_000_000_000,
        );
    }
    let z0: i128 = tdiv(bsq * z, av1);
    proof {
        assert(-820_000_000_000_000_000_000 <= ecc2p * z0 <= 820_000_000_000_000_000_000int)
            by (nonlinear_arith)
            requires -2_000_000_000 <= ecc2p <= 2_000_000_000 && -410_000_000_000 <= z0
                <= 410_000_000_000;
    }
    let zz0: i128 = z + tdiv(ecc2p * z0, 1_000_000_000);
    let lat_nrad: i64 = crate::trig::atan2_nrad(zz0 as i64, p as i64);
    let lat_ndeg: i64 = crate::trig::nrad_to_ndeg(lat_nrad);
    let lon_nrad: i64 = crate::trig::atan2_nrad(y as i64, x as i64);
    let lon_ndeg: i64 = crate::trig::nrad_to_ndeg(lon_nrad);
    proof {
        assert(0 <= bsq * 1_000_000_000 <= 41_000_000_000_000_000_000_000int)
            by (nonlinear_arith)
            requires 0 <= bsq <= 40_680_631_590_769;
        assert(av1 as int * 41_000_000_000 >= 41_000_000_000_000_000_000_000int)
            by (nonlinear_arith)
            requires av1 >= 1_000_000_000_000;
        crate::fixed::lemma_div_trunc_le(
            bsq as int * 1_000_000_000,
            av1 as int,
            41_000_000_000,
        );
    }
    let w2: i128 = tdiv(bsq * 1_000_000_000, av1);
    proof {
        assert(-13_000_000_000_000_000_000 <= um * (1_000_000_000 - w2)
            <= 13_000_000_000_000_000_000int) by (nonlinear_arith)
            requires 0 <= um <= 300_000_000 && -41_000_000_000 <= 1_000_000_000 - w2
                <= 1_000_000_000;
    }
    let alt_m: i128 = tdiv(um * (1_000_000_000 - w2), 1_000_000_000);
    GeodeticPosition {
        lat_ndeg,
        lon_ndeg,
        height_mm: (alt_m * 1000) as i64,
    }
}

/// The geodetic image of one inertial sample at an instant: the sample
/// rotated into the rotating frame and, when it lies in the shell the
/// transform accepts, taken geodetic.
pub open spec fn spec_eci_to_llh_sample(p: Vec3, d: int) -> Option<GeodeticPosition> {
    let m = crate::rotation::spec_rotation_z(crate::rotation::spec_sidereal_theta(d));
    let e = m.spec_apply(p);
    if e.in_range(100_000_000_000) && e.spec_norm2() >= 40_000_000_000_000_000_000 {
        Option::Some(spec_ecef_to_lla(e))
    } else {
        Option::None
    }
}

/// Geodetic coordinates for each sample of a propagated position/time
/// series; a sample whose rotating-frame image leaves the accepted
/// shell yields no coordinates.
pub fn eci_to_llh(xyzt: &Vec<(Vec3, crate::time::Instant)>) -> (r: Vec<Option<GeodeticPosition>>)
    requires
        forall|i: int|
            0 <= i < xyzt@.len() ==> (#[trigger] xyzt@[i]).0.in_range(100_000_000_000_000)
                && xyzt@[i].1.wf(),
    ensures
        r@.len() == xyzt@.len(),
        forall|i: int|
            0 <= i < r@.len() ==> r@[i] == spec_eci_to_llh_sample(
                (#[trigger] xyzt@[i]).0,
                xyzt@[i].1.spec_j2000_nanodays(),
            ),
{
    let mut out: Vec<Option<GeodeticPosition>> = Vec::new();
    let mut k: usize = 0;
    while k < xyzt.len()
        invariant
            0 <= k <= xyzt@.len(),
            out@.len() == k,
            forall|i: int|
                0 <= i < xyzt@.len() ==> (#[trigger] xyzt@[i]).0.in_range(100_000_000_000_000)
                    && xyzt@[i].1.wf(),
            forall|i: int|
                0 <= i < k ==> out@[i] == spec_eci_to_llh_sample(
                    (#[trigger] xyzt@[i]).0,
                    xyzt@[i].1.spec_j2000_nanodays(),
                ),
        decreases xyzt@.len() - k,
    {
        let (p, t) = xyzt[k];
        let m = crate::rotation::calc_eci_to_ecef_rotam(&t);
        let e = m.apply(&p);
        let ok_range: bool = -100_000_000_000 <= e.x && e.x <= 100_000_000_000
            && -100_000_000_000 <= e.y && e.y <= 100_000_000_000 && -100_000_000_000 <= e.z && e.z
            <= 100_000_000_000;
        if ok_range {
            proof {
                assert((e.x as i128) * (e.x as i128) == e.x * e.x && (e.y as i128) * (e.y as i128)
                    == e.y * e.y && (e.z as i128) * (e.z as i128) == e.z * e.z);
                assert(0 <= (e.x as i128) * (e.x as i128) <= 10_000_000_000_000_000_000_000int && 0
                    <= (e.y as i128) * (e.y as i128) <= 10_000_000_000_000_000_000_000int && 0 <= (
                e.z as i128) * (e.z as i128) <= 10_000_000_000_000_000_000_000int)
                    by (nonlinear_arith)
                    requires
                        -100_000_000_000 <= e.x <= 100_000_000_000,
                        -100_000_000_000 <= e.y <= 100_000_000_000,
                        -100_000_000_000 <= e.z <= 100_000_000_000;
            }
            let n2: i128 = (e.x as i128) * (e.x as i128) + (e.y as i128) * (e.y as i128) + (
            e.z as i128) * (e.z as i128);
            if n2 >= 40_000_000_000_000_000_000 {
                let lla = ecef_to_lla(&e);
                out.push(Option::Some(lla));
            } else {
                out.push(Option::None);
            }
        } else {
            out.push(Option::None);
        }
        k = k + 1;
    }
    out
}

/// From `r^2 <= n < (r+1)^2` and literal bounds on `n`, literal bounds
/// on `r`.
proof fn lemma_sq_bounds(r: int, n: int, lo: int, hi: int)
    requires
        r >= 0,
        r * r <= n,
        n < (r + 1) * (r + 1),
        lo * lo <= n,
        n < hi * hi,
        0 <= lo,
        0 <= hi,
    ensures
        lo <= r < hi,
{
    if r < lo {
        assert((r + 1) * (r + 1) <= lo * lo) by (nonlinear_arith)
            requires r + 1 <= lo && r >= 0;
    }
    if r >= hi {
        assert(hi * hi <= r * r) by (nonlinear_arith)
            requires hi <= r && hi >= 0;
    }
}

/// From `r^3 <= n < (r+1)^3` and literal bounds on `n`, literal bounds
/// on `r`.
proof fn lemma_cb_bounds(r: int, n: int, lo: int, hi: int)
    requires
        r >= 0,
        r * r * r <= n,
        n < (r + 1) * (r + 1) * (r + 1),
        lo * lo * lo <= n,
        n < hi * hi * hi,
        0 <= lo,
        0 <= hi,
    ensures
        lo <= r < hi,
{
    if r < lo {
        assert((r + 1) * (r + 1) * (r + 1) <= lo * lo * lo) by (nonlinear_arith)
            requires r + 1 <= lo && r >= 0;
    }
    if r >= hi {
        assert(hi * hi * hi <= r * r * r) by (nonlinear_arith)
            requires hi <= r && hi >= 0;
    }
}

/// In the required shell the quantity `g` stays well above zero: the
/// meter-scaled radius keeps `p^2 + z^2` large, and the eccentricity
/// terms take away at most a percent of it.
#[verifier::rlimit(60)]
proof fn lemma_shell_g_lower(
    nx: int,
    ny: int,
    nz: int,
    x: int,
    y: int,
    z: int,
    p: int,
    ecc2: int,
    g: int,
    qz: int,
    t2: int,
    norm2: int,
)
    requires
        norm2 == nx * nx + ny * ny + nz * nz,
        norm2 >= 40_000_000_000_000_000_000,
        -100_000_000_000 <= nx <= 100_000_000_000,
        -100_000_000_000 <= ny <= 100_000_000_000,
        -100_000_000_000 <= nz <= 100_000_000_000,
        x == div_trunc(nx, 1000),
        y == div_trunc(ny, 1000),
        z == div_trunc(nz, 1000),
        p >= 0,
        p * p <= x * x + y * y,
        x * x + y * y < (p + 1) * (p + 1),
        0 <= ecc2 <= 10_000_000,
        1_000_000_000 * qz > (1_000_000_000 - ecc2) * (z * z) - 1_000_000_000,
        t2 <= 4_000_000_000,
        g == p * p + qz - t2,
    ensures
        g >= 39_000_000_000_000,
{
    lemma_m_square(nx, x);
    lemma_m_square(ny, y);
    lemma_m_square(nz, z);
    assert(0 <= x * x <= 10_000_000_000_000_000 && 0 <= y * y <= 10_000_000_000_000_000 && 0 <= z
        * z <= 10_000_000_000_000_000int) by (nonlinear_arith)
        requires
            -100_000_000 <= x <= 100_000_000,
            -100_000_000 <= y <= 100_000_000,
            -100_000_000 <= z <= 100_000_000;
    let s2 = x * x + y * y + z * z;
    assert(1_000_000 * s2 >= norm2 - 600_000_000_000_000) by (nonlinear_arith)
        requires
            1_000_000 * (x * x) >= nx * nx - 200_000_000_000_000,
            1_000_000 * (y * y) >= ny * ny - 200_000_000_000_000,
            1_000_000 * (z * z) >= nz * nz - 200_000_000_000_000,
            s2 == x * x + y * y + z * z,
            norm2 == nx * nx + ny * ny + nz * nz;
    assert(s2 >= 39_999_000_000_000) by (nonlinear_arith)
        requires 1_000_000 * s2 >= 40_000_000_000_000_000_000 - 600_000_000_000_000int;
    assert(p * p >= x * x + y * y - 2 * p - 1) by (nonlinear_arith)
        requires x * x + y * y < (p + 1) * (p + 1);
    assert(p <= 150_000_000) by (nonlinear_arith)
        requires
            p * p <= x * x + y * y,
            x * x <= 10_000_000_000_000_000,
            y * y <= 10_000_000_000_000_000,
            -100_000_000 <= x <= 100_000_000,
            -100_000_000 <= y <= 100_000_000,
            p >= 0;
    assert(ecc2 * (z * z) <= ecc2 * s2) by (nonlinear_arith)
        requires s2 == x * x + y * y + z * z && ecc2 >= 0 && x * x >= 0 && y * y >= 0;
    assert(ecc2 * s2 <= 10_000_000 * s2) by (nonlinear_arith)
        requires ecc2 <= 10_000_000 && s2 >= 0;
    assert(1_000_000_000 * g >= 1_000_000_000 * (p * p) + (1_000_000_000 - ecc2) * (z * z)
        - 1_000_000_000 - 1_000_000_000 * t2) by (nonlinear_arith)
        requires
            g == p * p + qz - t2,
            1_000_000_000 * qz > (1_000_000_000 - ecc2) * (z * z) - 1_000_000_000;
    assert(1_000_000_000 * g >= 990_000_000 * s2 - 1_000_000_000 * (2 * p + 1) - 1_000_000_000
        - 4_000_000_000_000_000_000) by (nonlinear_arith)
        requires
            1_000_000_000 * g >= 1_000_000_000 * (p * p) + (1_000_000_000 - ecc2) * (z * z)
                - 1_000_000_000 - 1_000_000_000 * t2,
            p * p >= x * x + y * y - 2 * p - 1,
            ecc2 * (z * z) <= 10_000_000 * s2,
            s2 == x * x + y * y + z * z,
            0 <= ecc2 <= 10_000_000,
            z * z >= 0,
            x * x + y * y >= 0,
            t2 <= 4_000_000_000;
    assert(g >= 39_000_000_000_000) by (nonlinear_arith)
        requires
            1_000_000_000 * g >= 990_000_000 * s2 - 1_000_000_000 * (2 * p + 1) - 1_000_000_000
                - 4_000_000_000_000_000_000,
            s2 >= 39_999_000_000_000,
            0 <= p <= 150_000_000;
}

/// Dividing by 1000 keeps the square within a fixed slack of the
/// thousandth of the undivided square.
proof fn lemma_m_square(n: int, m: int)
    requires
        -100_000_000_000 <= n <= 100_000_000_000,
        m == div_trunc(n, 1000),
    ensures
        1_000_000 * (m * m) >= n * n - 200_000_000_000_000,
        -100_000_000 <= m <= 100_000_000,
{
    crate::fixed::lemma_div_trunc_props(n, 1000);
    let r = n - 1000 * m;
    assert(-1000 < r < 1000);
    assert(1_000_000 * (m * m) == (n - r) * (n - r)) by (nonlinear_arith)
        requires r == n - 1000 * m;
    assert((n - r) * (n - r) == n * n - 2 * (n * r) + r * r) by (nonlinear_arith);
    assert(-200_000_000_000_000 <= 2 * (n * r) <= 200_000_000_000_000 && 0 <= r * r)
        by (nonlinear_arith)
        requires
            -1000 < r < 1000,
            -100_000_000_000 <= n <= 100_000_000_000;
    assert((n - r) * (n - r) >= n * n - 200_000_000_000_000);
    if n >= 0 {
        assert(-100_000_000 <= m <= 100_000_000) by (nonlinear_arith)
            requires 1000 * m <= n && n <= 100_000_000_000 && m >= 0;
    } else {
        assert(-100_000_000 <= m <= 100_000_000) by (nonlinear_arith)
            requires n <= 1000 * m && -100_000_000_000 <= n && m <= 0;
    }
}

} // verus!
