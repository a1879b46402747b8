use skypass::time::Instant;
use skypass::time::date_to_julian_day_num;
use skypass::time::datetime_to_j2000days;
use skypass::time::ymdhms_to_j2000days;

#[test]
fn julian_day_reference_values() {
    assert_eq!(date_to_julian_day_num(2000, 1, 1), 2_451_545);
    assert_eq!(date_to_julian_day_num(1999, 12, 31), 2_451_544);
    assert_eq!(date_to_julian_day_num(2024, 3, 1), 2_460_371);
    assert_eq!(date_to_julian_day_num(1, 1, 1), 1_721_426);
}

#[test]
fn epoch_days_at_j2000_noon_is_half_day() {
    // 2000-01-01 12:00: the Julian day number itself is the J2000 epoch,
    // and the hour term contributes half a day.
    let d = ymdhms_to_j2000days(2000, 1, 1, 12, 0, 0);
    assert_eq!(d, 500_000_000);
}

#[test]
fn epoch_days_ignores_minutes_and_seconds() {
    // The reference day-count convention integer-divides the minute and
    // second fields before they can contribute, so they never do.
    let base = ymdhms_to_j2000days(2000, 1, 1, 3, 0, 0);
    let later = ymdhms_to_j2000days(2000, 1, 1, 3, 59, 59);
    assert_eq!(base, later);
    assert_eq!(base, 3_000_000_000 / 24);
}

#[test]
fn epoch_days_is_monotonic_across_days() {
    let a = ymdhms_to_j2000days(2000, 1, 1, 23, 0, 0);
    let b = ymdhms_to_j2000days(2000, 1, 2, 0, 0, 0);
    let c = ymdhms_to_j2000days(2000, 1, 2, 1, 0, 0);
    assert!(a < b && b < c);
}

#[test]
fn plus_minutes_rolls_over_a_day() {
    let t = Instant::from_ymdhms(2024, 2, 28, 23, 30, 15);
    let u = t.plus_minutes(45);
    assert_eq!(u.jdn, t.jdn + 1);
    assert_eq!(u.hour, 0);
    assert_eq!(u.minute, 15);
    assert_eq!(u.second, 15);
}

#[test]
fn plus_minutes_zero_is_identity() {
    let t = Instant::from_ymdhms(2010, 6, 15, 4, 20, 7);
    let u = t.plus_minutes(0);
    assert_eq!(t, u);
}

#[test]
fn instant_epoch_matches_free_function() {
    let t = Instant::from_ymdhms(2015, 7, 20, 18, 45, 59);
    assert_eq!(datetime_to_j2000days(&t), ymdhms_to_j2000days(2015, 7, 20, 18, 45, 59));
}
