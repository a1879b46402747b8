use skypass::geodetic::GeodeticPosition;
use skypass::geodetic::calc_prime_vertical;
use skypass::geodetic::llh_to_ecef;
use skypass::vec3::Vec3;
use skypass::zhu::ecef_to_lla;

#[test]
fn prime_vertical_at_equator_is_equatorial_radius() {
    assert_eq!(calc_prime_vertical(0), 6_378_137_000);
}

#[test]
fn prime_vertical_grows_toward_the_pole() {
    let eq = calc_prime_vertical(0);
    let mid = calc_prime_vertical(45_000_000_000);
    let pole = calc_prime_vertical(90_000_000_000);
    assert!(eq < mid && mid < pole);
    // N(90) = a / sqrt(1 - e^2) with e = 0.08182.
    assert!((pole - 6_399_593_000i64).abs() < 2_000);
}

#[test]
fn llh_to_ecef_at_origin_point() {
    let p = GeodeticPosition { lat_ndeg: 0, lon_ndeg: 0, height_mm: 0 };
    let v = llh_to_ecef(&p);
    assert_eq!(v.x, 6_378_137_000);
    assert_eq!(v.y, 0);
    assert_eq!(v.z, 0);
}

#[test]
fn llh_to_ecef_mid_latitude_reference() {
    // 45 degrees north, 30 degrees east, 1000 m up.
    let p = GeodeticPosition {
        lat_ndeg: 45_000_000_000,
        lon_ndeg: 30_000_000_000,
        height_mm: 1_000_000,
    };
    let v = llh_to_ecef(&p);
    assert!((v.x - 3_912_960_967i64).abs() < 2_000);
    assert!((v.y - 2_259_149_067i64).abs() < 2_000);
    assert!((v.z - 4_488_055_066i64).abs() < 2_000);
}

// Round trips: rectangular -> geodetic -> rectangular must come back to
// the same point. The closed form works on meter-scaled values, whose
// angular resolution at Earth radius is some ten nano-degrees times a
// thousand, so the round trip is checked to twenty micro-degrees and
// three meters.
fn roundtrip(lat_ndeg: i64, lon_ndeg: i64, height_mm: i64) {
    let p = GeodeticPosition { lat_ndeg, lon_ndeg, height_mm };
    let v = llh_to_ecef(&p);
    let q = ecef_to_lla(&v);
    assert!((q.lat_ndeg - lat_ndeg).abs() < 20_000, "lat {} vs {}", q.lat_ndeg, lat_ndeg);
    assert!((q.lon_ndeg - lon_ndeg).abs() < 20_000, "lon {} vs {}", q.lon_ndeg, lon_ndeg);
    assert!((q.height_mm - height_mm).abs() < 3_000, "h {} vs {}", q.height_mm, height_mm);
}

#[test]
fn roundtrip_mid_latitude() {
    roundtrip(45_000_000_000, 30_000_000_000, 1_000_000);
}

#[test]
fn roundtrip_southern_hemisphere() {
    roundtrip(-60_000_000_000, -120_000_000_000, 50_000_000);
}

#[test]
fn roundtrip_near_equator_low() {
    roundtrip(5_000_000_000, 170_000_000_000, 0);
}

#[test]
fn roundtrip_high_latitude() {
    roundtrip(80_000_000_000, -45_000_000_000, 10_000_000);
}

#[test]
fn lla_of_axis_point_has_zero_longitude() {
    // On the polar axis the longitude is undefined; the convention of
    // the four-quadrant arc tangent returns 0 there.
    let v = Vec3 { x: 0, y: 0, z: 7_000_000_000 };
    let q = ecef_to_lla(&v);
    assert_eq!(q.lon_ndeg, 0);
    assert!((q.lat_ndeg - 90_000_000_000i64).abs() < 10_000);
}

#[test]
fn lla_of_equatorial_surface_point() {
    let v = Vec3 { x: 6_378_137_000, y: 0, z: 0 };
    let q = ecef_to_lla(&v);
    assert_eq!(q.lon_ndeg, 0);
    assert!(q.lat_ndeg.abs() < 10_000);
    assert!(q.height_mm.abs() < 5_000);
}
