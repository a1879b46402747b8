use skypass::eclipse::is_eclipsed_by_earth;
use skypass::geodetic::GeodeticPosition;
use skypass::search::find_visible_passes;
use skypass::sun::calc_sun_norm_eci_vec;
use skypass::time::Instant;
use skypass::vec3::Vec3;
use skypass::visibility::classify;
use skypass::visibility::is_visible;
use skypass::zhu::eci_to_llh;

#[test]
fn sun_direction_at_the_epoch() {
    // The low-precision model at the J2000 epoch, against the same
    // formula evaluated in reals.
    let s = calc_sun_norm_eci_vec(0);
    assert!((s.x - 211_275_754i64).abs() < 200_000);
    assert!((s.y + 896_773_252i64).abs() < 200_000);
    assert!((s.z + 388_793_375i64).abs() < 200_000);
    let n2 = (s.x as i128) * (s.x as i128) + (s.y as i128) * (s.y as i128) + (s.z as i128)
        * (s.z as i128);
    let one2 = 1_000_000_000_000_000_000i128;
    assert!((n2 - one2).abs() < one2 / 100);
}

#[test]
fn sun_direction_stays_unit_over_years() {
    for d in [-3_650_000_000_000i64, 0, 500_000_000, 3_650_000_000_000] {
        let s = calc_sun_norm_eci_vec(d);
        let n2 = (s.x as i128) * (s.x as i128) + (s.y as i128) * (s.y as i128) + (s.z as i128)
            * (s.z as i128);
        let one2 = 1_000_000_000_000_000_000i128;
        assert!((n2 - one2).abs() < one2 / 100);
    }
}

#[test]
fn eclipse_test_follows_the_stated_comparison() {
    // Open question in the shadow model: the test
    // compares beta = asin(sun . p / |p|), which never exceeds pi/2,
    // against pi - asin(R / |p|), which is never below pi/2 once the
    // arc-sine argument is clamped into its domain. The comparison can
    // therefore never hold, and no point is ever reported eclipsed; the
    // old unnormalized behavior produced the same verdicts through an
    // undefined arc-sine. These checks record that behavior rather than
    // assert it as ground truth.
    let t = Instant::from_ymdhms(2000, 1, 1, 0, 0, 0);
    let s = calc_sun_norm_eci_vec(0);
    // Deep on the anti-sun side at low orbit altitude: geometrically in
    // shadow, still reported lit under the stated comparison.
    let anti = Vec3 { x: -7 * s.x, y: -7 * s.y, z: -7 * s.z };
    assert!(!is_eclipsed_by_earth(&anti, &t));
    // Directly sunward: lit.
    let toward = Vec3 { x: 7 * s.x, y: 7 * s.y, z: 7 * s.z };
    assert!(!is_eclipsed_by_earth(&toward, &t));
}

#[test]
fn classify_rejects_a_target_below_the_horizon() {
    // Horizon necessity: whatever the two eclipse verdicts, a target
    // under the observer's horizon is never visible.
    let obs = GeodeticPosition {
        lat_ndeg: 45_000_000_000,
        lon_ndeg: 30_000_000_000,
        height_mm: 0,
    };
    let t = Instant::from_ymdhms(2000, 1, 1, 0, 0, 0);
    let below = Vec3 { x: -7_000_000_000, y: -4_000_000_000, z: -5_000_000_000 };
    assert!(!classify(&below, &obs, &t));
}

fn iss_like_constants() -> sgp4::Constants {
    let elements = sgp4::Elements {
        object_name: Some("TESTSAT".to_string()),
        international_designator: Some("1998-067A".to_string()),
        norad_id: 25544,
        classification: sgp4::Classification::Unclassified,
        datetime: chrono::NaiveDate::from_ymd_opt(2020, 1, 1)
            .unwrap()
            .and_hms_opt(0, 0, 0)
            .unwrap(),
        mean_motion_dot: 0.00002182,
        mean_motion_ddot: 0.0,
        drag_term: 0.000011606,
        element_set_number: 999,
        inclination: 51.6416,
        right_ascension: 247.4627,
        eccentricity: 0.0006703,
        argument_of_perigee: 130.536,
        mean_anomaly: 325.0288,
        mean_motion: 15.49181026,
        revolution_number: 20_000,
        ephemeris_type: 0,
    };
    sgp4::Constants::from_elements(&elements).unwrap()
}

fn propagate_mm(constants: &sgp4::Constants, minutes: i64) -> Option<Vec3> {
    match constants.propagate(sgp4::MinutesSinceEpoch(minutes as f64)) {
        Ok(prediction) => {
            let [px, py, pz] = prediction.position;
            Some(Vec3 {
                x: (px * 1.0e6) as i64,
                y: (py * 1.0e6) as i64,
                z: (pz * 1.0e6) as i64,
            })
        },
        Err(_) => None,
    }
}

#[test]
fn end_to_end_low_orbit_scan() {
    // A known circular low orbit, a mid-latitude observer, and a
    // two-hour scan through the whole pipeline: the propagated series
    // converts to sane geodetic coordinates, the visibility verdicts
    // come out one per sample, and the pass list is time-ordered with
    // every emitted sample at or above the horizon. Under the stated
    // shadow comparison (see the eclipse test above) the observer is
    // never reported in darkness, so no sample survives the triple
    // conjunction; the scan itself, the ordering and the horizon rule
    // are what this scenario checks.
    let constants = iss_like_constants();
    let observer = GeodeticPosition {
        lat_ndeg: 45_000_000_000,
        lon_ndeg: 30_000_000_000,
        height_mm: 100_000,
    };
    let reference = Instant::from_ymdhms(2020, 1, 1, 0, 0, 0);
    let mut series: Vec<(Vec3, Instant)> = Vec::new();
    let mut positions: Vec<Option<Vec3>> = Vec::new();
    for k in 0..120i64 {
        let sample = propagate_mm(&constants, k);
        positions.push(sample);
        if let Some(p) = sample {
            series.push((p, reference.plus_minutes(k)));
        }
    }
    assert_eq!(positions.len(), 120);
    assert_eq!(series.len(), 120);

    // Geodetic heights of a low circular orbit stay in a narrow band.
    let llh = eci_to_llh(&series);
    assert_eq!(llh.len(), 120);
    for sample in &llh {
        let q = (*sample).expect("every sample lies in the accepted shell");
        assert!(q.height_mm > 200_000_000 && q.height_mm < 600_000_000);
        assert!(q.lat_ndeg.abs() < 52_500_000_000);
    }

    let verdicts = is_visible(&series, &observer);
    assert_eq!(verdicts.len(), 120);

    let passes = find_visible_passes(&positions, &observer, &reference);
    // Time order and the horizon rule hold of whatever is emitted.
    let mut last_minutes: i64 = i64::MIN;
    for (azel, when) in &passes {
        assert!(azel.el_nrad >= 0);
        let abs_minutes = when.jdn * 1440 + when.hour as i64 * 60 + when.minute as i64;
        assert!(abs_minutes > last_minutes);
        last_minutes = abs_minutes;
    }
    // With the stated shadow comparison the conjunction never fires.
    assert!(verdicts.iter().all(|v| !v));
    assert!(passes.is_empty());
}

#[test]
fn failed_sample_does_not_disturb_the_rest() {
    // A propagator failure at one minute is carried as an absent sample
    // and removes only its own contribution from the scan.
    let constants = iss_like_constants();
    let observer = GeodeticPosition {
        lat_ndeg: -33_000_000_000,
        lon_ndeg: 151_000_000_000,
        height_mm: 0,
    };
    let reference = Instant::from_ymdhms(2020, 1, 1, 6, 0, 0);
    let mut positions: Vec<Option<Vec3>> = Vec::new();
    for k in 0..30i64 {
        positions.push(propagate_mm(&constants, 360 + k));
    }
    let full = find_visible_passes(&positions, &observer, &reference);
    let mut with_hole = positions.clone();
    with_hole[13] = None;
    let holed = find_visible_passes(&with_hole, &observer, &reference);
    // Entries from minutes other than the failed one are identical.
    let thirteenth = reference.plus_minutes(13);
    let expect: Vec<_> = full.iter().filter(|(_, t)| *t != thirteenth).cloned().collect();
    assert_eq!(holed, expect);
}
