//! The ISO 8601 week-date algorithm: Monday-start weeks, week 1 being the
//! week that contains the year's first Thursday. Dates in late December can
//! belong to week 1 of the following week-year, and dates in early January
//! to the last week of the previous one.
use vstd::prelude::*;
use vstd::arithmetic::div_mod::lemma_mod_multiples_vanish;
use vstd::arithmetic::div_mod::lemma_mod_bound;
use crate::Timestamp;
use crate::gregorian::NANOS_PER_DAY;
use crate::gregorian::days_before_year;
use crate::gregorian::days_from_civil;
use crate::gregorian::is_leap;
use crate::gregorian::is_leap_year;
use crate::gregorian::lemma_days_before_year_bounds;
use crate::gregorian::lemma_timestamp_day_in_range;
use crate::gregorian::split_days;
use crate::gregorian::year_and_doy;
use crate::gregorian::year_doy;

verus! {

/// The ISO weekday of an epoch day: 1 = Monday .. 7 = Sunday. Day zero,
/// 1970-01-01, was a Thursday (4).
pub open spec fn weekday_of_day(z: int) -> int {
    (z + 3) % 7 + 1
}

/// The ISO weekday of January 1st of year `y`.
pub open spec fn jan1_weekday(y: int) -> int {
    weekday_of_day(days_before_year(y))
}

/// How many ISO weeks year `y` has: 53 when January 1st is a Thursday, or a
/// Wednesday in a leap year; otherwise 52.
pub open spec fn weeks_in_year(y: int) -> int {
    if jan1_weekday(y) == 4 || (is_leap(y) && jan1_weekday(y) == 3) {
        53
    } else {
        52
    }
}

/// The ISO week date (week-year, week, weekday) of a nanosecond count. The
/// raw week index of a date is `(doy - wd + 10) / 7` over the 1-based day
/// of year and the ISO weekday; index 0 folds into the previous week-year's
/// last week, and an index past the year's week count into week 1 of the
/// next week-year.
pub open spec fn iso_week_of(n: int) -> (int, int, int) {
    let z = n / (NANOS_PER_DAY as int);
    let y = year_doy(z).0;
    let doy = year_doy(z).1 + 1;
    let wd = weekday_of_day(z);
    let week = (doy - wd + 10) / 7;
    if week < 1 {
        (y - 1, weeks_in_year(y - 1), wd)
    } else if week > weeks_in_year(y) {
        (y + 1, 1, wd)
    } else {
        (y, week, wd)
    }
}

/// Euclidean remainder of division by seven.
fn mod7(x: i64) -> (r: i64)
    requires
        -6_999_993 <= x <= 100_000_000,
    ensures
        r as int == (x as int) % 7,
        0 <= r < 7,
{
    proof {
        lemma_mod_multiples_vanish(999_999, x as int, 7);
        lemma_mod_bound(x as int, 7);
    }
    ((x + 6_999_993) as u64 % 7) as i64
}

/// The number of ISO weeks in year `y`.
pub fn iso_weeks_in_year(y: i64) -> (r: i64)
    requires
        1 <= y <= 9999,
    ensures
        r == weeks_in_year(y as int),
        52 <= r <= 53,
{
    let jd = days_from_civil(y, 1, 1);
    let wd1 = mod7(jd + 3) + 1;
    if wd1 == 4 || (is_leap_year(y) && wd1 == 3) {
        53
    } else {
        52
    }
}

impl Timestamp {
    /// The ISO week date of this timestamp: (week-year, week 1-53,
    /// weekday 1-7 with Monday as 1). Total: every timestamp has one.
    pub fn to_iso_week(&self) -> (r: (i32, i32, i32))
        ensures
            (r.0 as int, r.1 as int, r.2 as int) == iso_week_of(self@),
            1 <= r.1 <= 53,
            1 <= r.2 <= 7,
    {
        let n = self.as_nanos();
        let (z, _rem) = split_days(n);
        proof {
            lemma_timestamp_day_in_range(z as int);
        }
        let (y, doy0) = year_and_doy(z);
        proof {
            lemma_days_before_year_bounds(y as int);
        }
        let wd = mod7(z + 3) + 1;
        let week = ((doy0 + 11 - wd) as u64 / 7) as i64;
        let wiy = iso_weeks_in_year(y);
        if week < 1 {
            let wk = iso_weeks_in_year(y - 1);
            ((y - 1) as i32, wk as i32, wd as i32)
        } else if week > wiy {
            ((y + 1) as i32, 1i32, wd as i32)
        } else {
            (y as i32, week as i32, wd as i32)
        }
    }
}

} // verus!
