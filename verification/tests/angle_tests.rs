use skypass::geodetic::GeodeticPosition;
use skypass::geodetic::llh_to_ecef;
use skypass::rotation::rotation_z;
use skypass::time::Instant;
use skypass::topo::ecef_to_enu;
use skypass::topo::enu_to_azelrad;
use skypass::topo::calc_az_el_rads;
use skypass::trig::HALF_PI_NRAD;
use skypass::trig::QUARTER_PI_NRAD;
use skypass::trig::asin_scaled;
use skypass::trig::atan2_nrad;
use skypass::trig::cos_nrad;
use skypass::trig::deg_to_nrad;
use skypass::trig::sin_nrad;
use skypass::vec3::Vec3;

#[test]
fn sine_and_cosine_fixed_points() {
    assert_eq!(sin_nrad(0), 0);
    assert_eq!(cos_nrad(0), 1_000_000_000);
    assert!((sin_nrad(HALF_PI_NRAD) - 1_000_000_000).abs() < 10);
    assert!(cos_nrad(HALF_PI_NRAD).abs() < 10);
    // sin(pi/6) = 1/2, cos(pi/3) = 1/2.
    let sixth = deg_to_nrad(30_000_000_000);
    let third = deg_to_nrad(60_000_000_000);
    assert!((sin_nrad(sixth) - 500_000_000).abs() < 10);
    assert!((cos_nrad(third) - 500_000_000).abs() < 10);
}

#[test]
fn sine_is_periodic_and_odd() {
    let a = deg_to_nrad(37_000_000_000);
    let turn = skypass::trig::TWO_PI_NRAD;
    assert!((sin_nrad(a + turn) - sin_nrad(a)).abs() < 10);
    assert!((sin_nrad(-a) + sin_nrad(a)).abs() < 10);
    assert!((cos_nrad(-a) - cos_nrad(a)).abs() < 10);
}

#[test]
fn arc_functions_fixed_points() {
    assert_eq!(asin_scaled(1_000_000_000), HALF_PI_NRAD);
    assert_eq!(asin_scaled(-1_000_000_000), -HALF_PI_NRAD);
    assert_eq!(asin_scaled(0), 0);
    assert_eq!(atan2_nrad(0, 0), 0);
    assert!((atan2_nrad(1_000, 1_000) - QUARTER_PI_NRAD).abs() < 10);
    assert!((asin_scaled(500_000_000) - 523_598_776).abs() < 20);
}

#[test]
fn azelrad_of_axis_vectors() {
    // Straight up: elevation a quarter turn, range one millimeter.
    let up = enu_to_azelrad(&Vec3 { x: 0, y: 0, z: 1 });
    assert_eq!(up.az_nrad, 0);
    assert_eq!(up.el_nrad, HALF_PI_NRAD);
    assert_eq!(up.range_mm, 1);
    // Straight East: azimuth a quarter turn from North.
    let east = enu_to_azelrad(&Vec3 { x: 1, y: 0, z: 0 });
    assert_eq!(east.az_nrad, HALF_PI_NRAD);
    assert_eq!(east.el_nrad, 0);
    assert_eq!(east.range_mm, 1);
    // The zero vector takes the guarded conventional result.
    let zero = enu_to_azelrad(&Vec3 { x: 0, y: 0, z: 0 });
    assert_eq!(zero.az_nrad, 0);
    assert_eq!(zero.el_nrad, 0);
    assert_eq!(zero.range_mm, 0);
}

#[test]
fn azelrad_of_a_slanted_vector() {
    // East and up in equal parts: azimuth pi/2, elevation pi/4.
    let v = enu_to_azelrad(&Vec3 { x: 1_000_000, y: 0, z: 1_000_000 });
    assert_eq!(v.az_nrad, HALF_PI_NRAD);
    assert!((v.el_nrad - QUARTER_PI_NRAD).abs() < 2_000);
    assert!((v.range_mm - 1_414_213).abs() < 2);
}

#[test]
fn azelrad_over_a_series() {
    let vs = vec![
        Vec3 { x: 0, y: 0, z: 1 },
        Vec3 { x: 1, y: 0, z: 0 },
    ];
    let r = calc_az_el_rads(&vs);
    assert_eq!(r.len(), 2);
    assert_eq!(r[0].el_nrad, HALF_PI_NRAD);
    assert_eq!(r[1].az_nrad, HALF_PI_NRAD);
}

#[test]
fn enu_of_the_observer_itself_is_zero() {
    let obs = GeodeticPosition {
        lat_ndeg: 45_000_000_000,
        lon_ndeg: 30_000_000_000,
        height_mm: 1_000_000,
    };
    let o = llh_to_ecef(&obs);
    let enu = ecef_to_enu(&obs, &o);
    assert_eq!(enu, Vec3 { x: 0, y: 0, z: 0 });
}

#[test]
fn enu_points_up_for_a_raised_target() {
    let obs = GeodeticPosition { lat_ndeg: 0, lon_ndeg: 0, height_mm: 0 };
    // A point straight above the observer on the equatorial axis.
    let tgt = Vec3 { x: 7_378_137_000, y: 0, z: 0 };
    let enu = ecef_to_enu(&obs, &tgt);
    assert!(enu.z > 999_000_000);
    assert!(enu.x.abs() < 1_000_000 && enu.y.abs() < 1_000_000);
}

#[test]
fn rotation_columns_are_orthonormal() {
    // The rational rotation lies exactly on the circle: cn^2 + sn^2 = d^2.
    for theta in [0i64, 123_456_789, -987_654_321, 3_141_592_654, 6_000_000_000, 50_000_000_000] {
        let m = rotation_z(theta);
        let cn = m.cn as i128;
        let sn = m.sn as i128;
        let d = m.d as i128;
        assert_eq!(cn * cn + sn * sn, d * d);
        assert!(d >= 1);
    }
}

#[test]
fn rotation_at_zero_angle_is_identity() {
    let m = rotation_z(0);
    let v = Vec3 { x: 123, y: -456, z: 789 };
    assert_eq!(m.apply(&v), v);
}

#[test]
fn rotation_by_quarter_turn_swaps_axes() {
    let m = rotation_z(HALF_PI_NRAD);
    let v = Vec3 { x: 1_000_000_000, y: 0, z: 5 };
    let r = m.apply(&v);
    // cos ~ 0, sin ~ 1: x' ~ 0, y' ~ x, z untouched.
    assert!(r.x.abs() < 10);
    assert!((r.y - 1_000_000_000).abs() < 10);
    assert_eq!(r.z, 5);
}

#[test]
fn rotation_transpose_inverts() {
    let t = Instant::from_ymdhms(2020, 5, 17, 9, 0, 0);
    let m = skypass::rotation::calc_eci_to_ecef_rotam(&t);
    let v = Vec3 { x: 4_000_000_000, y: -2_500_000_000, z: 1_200_000_000 };
    let w = m.apply_transpose(&m.apply(&v));
    // The rational matrix is exactly orthogonal; only the integer
    // division on application loses the last digit.
    assert!((w.x - v.x).abs() <= 2);
    assert!((w.y - v.y).abs() <= 2);
    assert!((w.z - v.z).abs() <= 2);
}
