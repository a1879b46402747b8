//! Calendar timestamps and the J2000 day count. A timestamp carries its
//! Julian day number and a second-resolution time of day; the day count
//! since the J2000.0 epoch is carried in nano-days. By a deliberate
//! low-precision convention the fractional day keeps only whole hours:
//! the minute and second fields are integer-divided before they can
//! contribute, so they never do.
use vstd::prelude::*;

verus! {

use crate::fixed::div_trunc;
use crate::fixed::tdiv;

/// Julian day number of the J2000.0 epoch (2000-01-01 12:00 TT).
pub const J2000_JDN: i64 = 2_451_545;

/// Julian day number of a Gregorian calendar date, by the standard
/// integer formula (valid from 1 March -4800 on; here restricted to
/// years 1..=9999). January and February count as months 13 and 14 of
/// the preceding year.
pub open spec fn spec_julian_day(y: int, m: int, d: int) -> int {
    let dm: int = if m <= 2 {
        -1
    } else {
        0
    };
    (1461 * (y + 4800 + dm)) / 4 + (367 * (m - 2 - 12 * dm)) / 12 - (3 * ((y + 4900 + dm)
        / 100)) / 4 + d - 32075
}

/// J2000 day count in nano-days for a calendar date and time of day:
/// whole days from the Julian day number, plus the hour of day as a
/// fraction of 24; the minute and second terms vanish under integer
/// division, by the deliberate low-precision convention.
pub open spec fn spec_j2000_nanodays(y: int, m: int, d: int, h: int, mi: int, s: int) -> int {
    (spec_julian_day(y, m, d) - J2000_JDN) * 1_000_000_000 + ((h + (mi + s / 60) / 60)
        * 1_000_000_000) / 24
}

/// Julian day number of a Gregorian date.
pub fn date_to_julian_day_num(year: u32, month: u32, day: u32) -> (r: i32)
    requires
        1 <= year <= 9999,
        1 <= month <= 12,
        1 <= day <= 31,
    ensures
        r == spec_julian_day(year as int, month as int, day as int),
        1_700_000 <= r <= 5_400_000,
{
    let y: i64 = year as i64;
    let m: i64 = month as i64;
    let d: i64 = day as i64;
    let dm: i64 = if m <= 2 {
        -1
    } else {
        0
    };
    let t1: i64 = (1461 * (y + 4800 + dm)) / 4;
    let t2: i64 = (367 * (m - 2 - 12 * dm)) / 12;
    let t3: i64 = (3 * ((y + 4900 + dm) / 100)) / 4;
    let r: i64 = t1 + t2 - t3 + d - 32075;
    r as i32
}

/// A UTC calendar timestamp at second resolution, carried as a Julian
/// day number and a time of day.
#[derive(Clone, Copy, PartialEq, Eq, Structural, Debug)]
pub struct Instant {
    /// Julian day number of the date.
    pub jdn: i64,
    /// Hour of day, `0..=23`.
    pub hour: u32,
    /// Minute of hour, `0..=59`.
    pub minute: u32,
    /// Second of minute, `0..=59`.
    pub second: u32,
}

impl Instant {
    /// A timestamp is well formed when its fields are in range; the day
    /// number bound keeps all derived arithmetic far from overflow.
    pub open spec fn wf(self) -> bool {
        1_000_000 <= self.jdn <= 10_000_000 && self.hour <= 23 && self.minute <= 59
            && self.second <= 59
    }

    /// Minutes from the Julian day origin to this timestamp, ignoring
    /// seconds; the yardstick by which minute arithmetic is specified.
    pub open spec fn spec_abs_minutes(self) -> int {
        self.jdn * 1440 + self.hour * 60 + self.minute
    }

    /// J2000 day count of this timestamp, in nano-days.
    pub open spec fn spec_j2000_nanodays(self) -> int {
        (self.jdn - J2000_JDN) * 1_000_000_000 + ((self.hour + (self.minute + self.second
            / 60) / 60) * 1_000_000_000) / 24
    }

    /// Builds a timestamp from Gregorian calendar fields.
    pub fn from_ymdhms(year: u32, month: u32, day: u32, hour: u32, minute: u32, second: u32) -> (r:
        Instant)
        requires
            1 <= year <= 9999,
            1 <= month <= 12,
            1 <= day <= 31,
            hour <= 23,
            minute <= 59,
            second <= 59,
        ensures
            r.wf(),
            r.jdn == spec_julian_day(year as int, month as int, day as int),
            r.hour == hour,
            r.minute == minute,
            r.second == second,
    {
        let jdn: i32 = date_to_julian_day_num(year, month, day);
        Instant { jdn: jdn as i64, hour, minute, second }
    }

    /// The timestamp a whole number of minutes after this one, seconds
    /// unchanged: total minutes are split back into days, hours and
    /// minutes.
    pub open spec fn spec_plus_minutes(self, k: int) -> Instant {
        let t = self.spec_abs_minutes() + k;
        Instant {
            jdn: (t / 1440) as i64,
            hour: ((t % 1440) / 60) as u32,
            minute: ((t % 1440) % 60) as u32,
            second: self.second,
        }
    }

    /// The timestamp a whole number of minutes later, seconds unchanged.
    pub fn plus_minutes(&self, k: i64) -> (r: Instant)
        requires
            self.wf(),
            self.jdn <= 9_000_000,
            0 <= k <= 100_000_000,
        ensures
            r.wf(),
            r == self.spec_plus_minutes(k as int),
            r.spec_abs_minutes() == self.spec_abs_minutes() + k,
            r.second == self.second,
    {
        let total: i64 = self.hour as i64 * 60 + self.minute as i64 + k;
        let days: i64 = total / 1440;
        let rem: i64 = total - days * 1440;
        proof {
            crate::fixed::lemma_div_trunc_props(total as int, 1440);
        }
        let r = Instant {
            jdn: self.jdn + days,
            hour: (rem / 60) as u32,
            minute: (rem - (rem / 60) * 60) as u32,
            second: self.second,
        };
        proof {
            crate::fixed::lemma_div_trunc_props(rem as int, 60);
            assert(r.spec_abs_minutes() == self.spec_abs_minutes() + k) by (nonlinear_arith)
                requires
                    r.jdn == self.jdn + days,
                    rem == total - days * 1440,
                    r.hour == rem / 60,
                    r.minute == rem - (rem / 60) * 60,
                    total == self.hour * 60 + self.minute + k,
                    r.spec_abs_minutes() == r.jdn * 1440 + r.hour * 60 + r.minute,
                    self.spec_abs_minutes() == self.jdn * 1440 + self.hour * 60 + self.minute;
            let t = self.spec_abs_minutes() + k;
            assert(t == (self.jdn + days) * 1440 + rem && 0 <= rem < 1440) by (nonlinear_arith)
                requires
                    t == self.jdn * 1440 + self.hour * 60 + self.minute + k,
                    total == self.hour * 60 + self.minute + k,
                    days == total / 1440,
                    rem == total - days * 1440,
                    1440 * (total / 1440) <= total,
                    total < 1440 * (total / 1440 + 1);
            vstd::arithmetic::div_mod::lemma_fundamental_div_mod_converse(
                t,
                1440,
                self.jdn + days,
                rem as int,
            );
            assert(t / 1440 == self.jdn + days && t % 1440 == rem);
            vstd::arithmetic::div_mod::lemma_fundamental_div_mod(rem as int, 60);
            vstd::arithmetic::div_mod::lemma_mod_bound(rem as int, 60);
            assert(rem % 60 == rem - (rem / 60) * 60) by (nonlinear_arith)
                requires 60 * (rem as int / 60) + rem as int % 60 == rem;
            assert(r == self.spec_plus_minutes(k as int));
        }
        r
    }

    /// J2000 day count of this timestamp, in nano-days.
    pub fn j2000_nanodays(&self) -> (r: i64)
        requires
            self.wf(),
        ensures
            r == self.spec_j2000_nanodays(),
            -2_000_000_000_000_000 <= r <= 8_000_000_000_000_000,
    {
        let frac: i64 = ((self.hour + (self.minute + self.second / 60) / 60) as i64
            * 1_000_000_000) / 24;
        (self.jdn - J2000_JDN) * 1_000_000_000 + frac
    }
}

/// Adding minutes at the specification level adds exactly that many
/// minutes to the absolute minute count: the day/hour/minute split
/// recomposes to the total.
pub proof fn lemma_spec_plus_minutes_abs(r0: Instant, k: int)
    requires
        0 <= r0.spec_abs_minutes() + k <= 1_000_000_000_000_000_000,
    ensures
        r0.spec_plus_minutes(k).spec_abs_minutes() == r0.spec_abs_minutes() + k,
{
    let t = r0.spec_abs_minutes() + k;
    vstd::arithmetic::div_mod::lemma_fundamental_div_mod(t, 1440);
    vstd::arithmetic::div_mod::lemma_mod_bound(t, 1440);
    let m = t % 1440;
    vstd::arithmetic::div_mod::lemma_fundamental_div_mod(m, 60);
    vstd::arithmetic::div_mod::lemma_mod_bound(m, 60);
    assert(0 <= t / 1440 <= 1_000_000_000_000_000);
    assert(0 <= m / 60 <= 23);
    assert(((t / 1440) as i64) == t / 1440 && ((m / 60) as u32) == m / 60 && ((m % 60) as u32) == m
        % 60);
    assert((t / 1440) * 1440 + (m / 60) * 60 + m % 60 == t) by (nonlinear_arith)
        requires
            1440 * (t / 1440) + t % 1440 == t,
            m == t % 1440,
            60 * (m / 60) + m % 60 == m;
}

/// The J2000 day count is monotonic in the timestamp: a later day, or a
/// later hour of the same day, never gives a smaller day count. Minutes
/// and seconds below the hour do not move it, by the truncating
/// convention.
pub proof fn lemma_epoch_monotonic(a: Instant, b: Instant)
    requires
        a.wf(),
        b.wf(),
        a.jdn < b.jdn || (a.jdn == b.jdn && a.hour <= b.hour),
    ensures
        a.spec_j2000_nanodays() <= b.spec_j2000_nanodays(),
{
    let fa = ((a.hour + (a.minute + a.second / 60) / 60) * 1_000_000_000int) / 24;
    let fb = ((b.hour + (b.minute + b.second / 60) / 60) * 1_000_000_000int) / 24;
    assert(a.second / 60 == 0 && b.second / 60 == 0 && (a.minute + 0) / 60 == 0 && (b.minute + 0)
        / 60 == 0) by (nonlinear_arith)
        requires a.second <= 59 && b.second <= 59 && a.minute <= 59 && b.minute <= 59;
    assert(fa == (a.hour * 1_000_000_000int) / 24 && fb == (b.hour * 1_000_000_000int) / 24);
    crate::fixed::lemma_div_trunc_props(a.hour * 1_000_000_000int, 24);
    crate::fixed::lemma_div_trunc_props(b.hour * 1_000_000_000int, 24);
    assert(0 <= fa < 1_000_000_000 && 0 <= fb < 1_000_000_000) by (nonlinear_arith)
        requires
            fa == div_trunc(a.hour * 1_000_000_000int, 24),
            fb == div_trunc(b.hour * 1_000_000_000int, 24),
            24 * fa <= a.hour * 1_000_000_000int,
            24 * fb <= b.hour * 1_000_000_000int,
            a.hour * 1_000_000_000int < 24 * (fa + 1),
            b.hour * 1_000_000_000int < 24 * (fb + 1),
            0 <= a.hour <= 23,
            0 <= b.hour <= 23,
            fa >= 0,
            fb >= 0;
    if a.jdn == b.jdn {
        assert(fa <= fb) by (nonlinear_arith)
            requires
                a.hour <= b.hour,
                24 * fa <= a.hour * 1_000_000_000int,
                b.hour * 1_000_000_000int < 24 * (fb + 1),
                a.hour * 1_000_000_000int <= b.hour * 1_000_000_000int;
    }
}

/// J2000 day count in nano-days from Gregorian calendar fields.
pub fn ymdhms_to_j2000days(
    year: u32,
    month: u32,
    day: u32,
    hours: u32,
    minutes: u32,
    seconds: u32,
) -> (r: i64)
    requires
        1 <= year <= 9999,
        1 <= month <= 12,
        1 <= day <= 31,
        hours <= 23,
        minutes <= 59,
        seconds <= 59,
    ensures
        r == spec_j2000_nanodays(
            year as int,
            month as int,
            day as int,
            hours as int,
            minutes as int,
            seconds as int,
        ),
{
    let i = Instant::from_ymdhms(year, month, day, hours, minutes, seconds);
    i.j2000_nanodays()
}

/// J2000 day count in nano-days of a timestamp.
pub fn datetime_to_j2000days(instant: &Instant) -> (r: i64)
    requires
        instant.wf(),
    ensures
        r == instant.spec_j2000_nanodays(),
{
    instant.j2000_nanodays()
}

} // verus!
