//! Proleptic Gregorian calendar math: leap years, month lengths, and the
//! conversion between a (year, month, day) date and its signed day count
//! relative to the Unix epoch day, 1970-01-01.
use vstd::prelude::*;
use vstd::arithmetic::div_mod::lemma_fundamental_div_mod;
use vstd::arithmetic::div_mod::lemma_fundamental_div_mod_converse;

verus! {

/// Nanoseconds in one civil day.
pub const NANOS_PER_DAY: i64 = 86_400_000_000_000;

/// The standard 4/100/400 leap-year rule.
pub open spec fn is_leap(y: int) -> bool {
    (y % 4 == 0 && y % 100 != 0) || y % 400 == 0
}

/// Number of days in a month (1 = January .. 12 = December).
pub open spec fn days_in_month_of(y: int, m: int) -> int {
    if m == 2 {
        if is_leap(y) { 29 } else { 28 }
    } else if m == 4 || m == 6 || m == 9 || m == 11 {
        30
    } else {
        31
    }
}

/// Number of days in a year: 365, or 366 in a leap year.
pub open spec fn days_in_year_of(y: int) -> int {
    if is_leap(y) { 366 } else { 365 }
}

/// Signed count of days from 1970-01-01 to the first day of year `y`:
/// zero for 1970, negative for earlier years.
pub open spec fn days_before_year(y: int) -> int
    decreases (if y >= 1970 { y - 1970 } else { 1970 - y }),
{
    if y == 1970 {
        0
    } else if y > 1970 {
        days_before_year(y - 1) + days_in_year_of(y - 1)
    } else {
        days_before_year(y + 1) - days_in_year_of(y)
    }
}

/// Days from the first day of year `y` to the first day of its month `m`.
pub open spec fn days_before_month(y: int, m: int) -> int
    decreases m,
{
    if m <= 1 {
        0
    } else {
        days_before_month(y, m - 1) + days_in_month_of(y, m - 1)
    }
}

/// Whether (y, m, d) is a real calendar date.
pub open spec fn valid_date(y: int, m: int, d: int) -> bool {
    1 <= m <= 12 && 1 <= d <= days_in_month_of(y, m)
}

/// The signed day count of the date (y, m, d) relative to 1970-01-01.
pub open spec fn day_number(y: int, m: int, d: int) -> int {
    days_before_year(y) + days_before_month(y, m) + d - 1
}

/// Walk forward from year `y` consuming whole years out of the nonnegative
/// day offset `z`; yields the year reached and the day-of-year left over.
pub open spec fn year_doy_up(y: int, z: int) -> (int, int)
    decreases (if z >= 0 { z } else { 0 }),
{
    if z < 0 || z < days_in_year_of(y) {
        (y, z)
    } else {
        year_doy_up(y + 1, z - days_in_year_of(y))
    }
}

/// Walk backward from year `y` until the negative day offset `z` has been
/// brought up to a day-of-year within the year reached.
pub open spec fn year_doy_down(y: int, z: int) -> (int, int)
    decreases (if z < 0 { -z } else { 0 }),
{
    if z >= 0 {
        (y, z)
    } else {
        year_doy_down(y - 1, z + days_in_year_of(y - 1))
    }
}

/// The year containing epoch day `z`, with the 0-based day of that year.
pub open spec fn year_doy(z: int) -> (int, int) {
    if z >= 0 {
        year_doy_up(1970, z)
    } else {
        year_doy_down(1970, z)
    }
}

/// Walk the months of year `y` from month `m`, consuming the 0-based day
/// offset `doy`; yields the month reached and its 1-based day.
pub open spec fn month_day(y: int, doy: int, m: int) -> (int, int)
    decreases 12 - m,
{
    if m >= 12 || doy < days_in_month_of(y, m) {
        (m, doy + 1)
    } else {
        month_day(y, doy - days_in_month_of(y, m), m + 1)
    }
}

/// The calendar date of epoch day `z`.
pub open spec fn civil_of_day(z: int) -> (int, int, int) {
    let (y, doy) = year_doy(z);
    let (m, d) = month_day(y, doy, 1);
    (y, m, d)
}

/// Splitting the days before a year at any adjacent pair of years.
pub proof fn lemma_days_before_year_step(y: int)
    ensures
        days_before_year(y + 1) == days_before_year(y) + days_in_year_of(y),
{
    if y + 1 > 1970 {
    } else {
        assert(days_before_year(y) == days_before_year(y + 1) - days_in_year_of(y));
    }
}

/// Coarse bounds: a year holds between 365 and 366 days, so the day count
/// before a year grows linearly with the year.
pub proof fn lemma_days_before_year_bounds(y: int)
    ensures
        y >= 1970 ==> 365 * (y - 1970) <= days_before_year(y) <= 366 * (y - 1970),
        y <= 1970 ==> -366 * (1970 - y) <= days_before_year(y) <= -365 * (1970 - y),
    decreases (if y >= 1970 { y - 1970 } else { 1970 - y }),
{
    if y > 1970 {
        lemma_days_before_year_bounds(y - 1);
    } else if y < 1970 {
        lemma_days_before_year_bounds(y + 1);
    }
}

/// The forward year walk lands inside the year it reports and preserves the
/// total day offset.
pub proof fn lemma_year_doy_up(y: int, z: int)
    requires
        z >= 0,
    ensures
        ({
            let (ry, rdoy) = year_doy_up(y, z);
            &&& ry >= y
            &&& 0 <= rdoy < days_in_year_of(ry)
            &&& days_before_year(ry) + rdoy == days_before_year(y) + z
        }),
    decreases z,
{
    if z >= days_in_year_of(y) {
        lemma_year_doy_up(y + 1, z - days_in_year_of(y));
        lemma_days_before_year_step(y);
    }
}

/// The backward year walk lands inside the year it reports and preserves the
/// total day offset.
pub proof fn lemma_year_doy_down(y: int, z: int)
    requires
        z < days_in_year_of(y) || z < 0,
    ensures
        ({
            let (ry, rdoy) = year_doy_down(y, z);
            &&& ry <= y
            &&& 0 <= rdoy < days_in_year_of(ry)
            &&& days_before_year(ry) + rdoy == days_before_year(y) + z
        }),
    decreases (if z < 0 { -z } else { 0 }),
{
    if z < 0 {
        lemma_year_doy_down(y - 1, z + days_in_year_of(y - 1));
        lemma_days_before_year_step(y - 1);
    }
}

/// The year of an epoch day brackets it: the reported day-of-year is the
/// exact distance from the start of the reported year.
pub proof fn lemma_year_doy(z: int)
    ensures
        ({
            let (ry, rdoy) = year_doy(z);
            &&& 0 <= rdoy < days_in_year_of(ry)
            &&& days_before_year(ry) + rdoy == z
        }),
{
    if z >= 0 {
        lemma_year_doy_up(1970, z);
    } else {
        lemma_year_doy_down(1970, z);
    }
}

/// The month walk yields a valid day of the month it reports and preserves
/// the day offset within the year.
pub proof fn lemma_month_day(y: int, doy: int, m: int)
    requires
        1 <= m <= 12,
        0 <= doy,
        doy + days_before_month(y, m) < days_in_year_of(y),
    ensures
        ({
            let (rm, rd) = month_day(y, doy, m);
            &&& m <= rm <= 12
            &&& 1 <= rd <= days_in_month_of(y, rm)
            &&& days_before_month(y, rm) + rd - 1 == days_before_month(y, m) + doy
        }),
    decreases 12 - m,
{
    lemma_year_days_split(y);
    if !(m >= 12 || doy < days_in_month_of(y, m)) {
        lemma_month_day(y, doy - days_in_month_of(y, m), m + 1);
    }
}

/// The twelve month lengths of a year sum to the year's length.
pub proof fn lemma_year_days_split(y: int)
    ensures
        days_before_month(y, 13) == days_in_year_of(y),
        forall|m: int| 1 <= m <= 12 ==> #[trigger] days_before_month(y, m) + days_in_month_of(
            y,
            m,
        ) <= days_in_year_of(y),
{
    reveal_with_fuel(days_before_month, 13);
    assert(days_before_month(y, 13) == days_in_year_of(y));
    assert forall|m: int| 1 <= m <= 12 implies #[trigger] days_before_month(y, m)
        + days_in_month_of(y, m) <= days_in_year_of(y) by {
        lemma_days_before_month_monotone(y, m + 1, 13);
    }
}

/// The running month-length sum is monotone in the month.
pub proof fn lemma_days_before_month_monotone(y: int, a: int, b: int)
    requires
        1 <= a <= b,
    ensures
        days_before_month(y, a) <= days_before_month(y, b),
    decreases b - a,
{
    if a < b {
        lemma_days_before_month_monotone(y, a, b - 1);
    }
}

/// A day count and a date determine each other: two valid dates with the
/// same day number are the same date.
pub proof fn lemma_day_number_injective(y1: int, m1: int, d1: int, y2: int, m2: int, d2: int)
    requires
        valid_date(y1, m1, d1),
        valid_date(y2, m2, d2),
        day_number(y1, m1, d1) == day_number(y2, m2, d2),
    ensures
        y1 == y2 && m1 == m2 && d1 == d2,
{
    lemma_year_days_split(y1);
    lemma_year_days_split(y2);
    lemma_days_before_month_bounds(y1, m1);
    lemma_days_before_month_bounds(y2, m2);
    if y1 < y2 {
        lemma_days_before_year_monotone(y1 + 1, y2);
        lemma_days_before_year_step(y1);
        assert(false);
    } else if y2 < y1 {
        lemma_days_before_year_monotone(y2 + 1, y1);
        lemma_days_before_year_step(y2);
        assert(false);
    }
    if m1 < m2 {
        lemma_days_before_month_monotone(y1, m1 + 1, m2);
        assert(false);
    } else if m2 < m1 {
        lemma_days_before_month_monotone(y1, m2 + 1, m1);
        assert(false);
    }
}

/// The day count before a year never decreases as the year grows.
pub proof fn lemma_days_before_year_monotone(a: int, b: int)
    requires
        a <= b,
    ensures
        days_before_year(a) <= days_before_year(b),
    decreases b - a,
{
    if a < b {
        lemma_days_before_year_monotone(a, b - 1);
        lemma_days_before_year_step(b - 1);
    }
}

/// The days before a month stay within the year.
pub proof fn lemma_days_before_month_bounds(y: int, m: int)
    requires
        1 <= m <= 12,
    ensures
        0 <= days_before_month(y, m),
        days_before_month(y, m) + days_in_month_of(y, m) <= days_in_year_of(y),
{
    lemma_days_before_month_monotone(y, 1, m);
    lemma_year_days_split(y);
}

/// The date assigned to an epoch day is valid and maps back to that day.
pub proof fn lemma_civil_of_day(z: int)
    ensures
        ({
            let (y, m, d) = civil_of_day(z);
            &&& valid_date(y, m, d)
            &&& day_number(y, m, d) == z
        }),
{
    lemma_year_doy(z);
    let (y, doy) = year_doy(z);
    lemma_month_day(y, doy, 1);
}

/// An epoch day between the years 0 and 10000 gets a year label in that
/// range.
pub proof fn lemma_civil_year_range(z: int)
    requires
        days_before_year(0) <= z < days_before_year(10000),
    ensures
        0 <= civil_of_day(z).0 <= 9999,
        civil_of_day(z).0 == year_doy(z).0,
{
    lemma_year_doy(z);
    let (y, doy) = year_doy(z);
    lemma_days_before_year_step(y);
    if y < 0 {
        lemma_days_before_year_monotone(y + 1, 0);
        assert(false);
    }
    if y > 9999 {
        lemma_days_before_year_monotone(10000, y);
        assert(false);
    }
}

/// The standard 4/100/400 leap-year test.
pub fn is_leap_year(y: i64) -> (r: bool)
    requires
        y >= 0,
    ensures
        r == is_leap(y as int),
{
    (y % 4 == 0 && y % 100 != 0) || y % 400 == 0
}

/// The number of days in month `m` of year `y`.
pub fn days_in_month(y: i64, m: i64) -> (r: i64)
    requires
        y >= 0,
        1 <= m <= 12,
    ensures
        r == days_in_month_of(y as int, m as int),
{
    if m == 2 {
        if is_leap_year(y) {
            29
        } else {
            28
        }
    } else if m == 4 || m == 6 || m == 9 || m == 11 {
        30
    } else {
        31
    }
}

fn days_in_year(y: i64) -> (r: i64)
    requires
        y >= 0,
    ensures
        r == days_in_year_of(y as int),
{
    if is_leap_year(y) {
        366
    } else {
        365
    }
}

/// The signed day count of the date (y, m, d) relative to 1970-01-01.
pub fn days_from_civil(y: i64, m: i64, d: i64) -> (z: i64)
    requires
        0 <= y <= 9999,
        1 <= m <= 12,
        1 <= d <= 31,
    ensures
        z == day_number(y as int, m as int, d as int),
        days_before_year(0) <= z < days_before_year(10000),
        -721020 <= z <= 2938980,
{
    let mut acc: i64 = 0;
    if y >= 1970 {
        let mut cur: i64 = 1970;
        while cur < y
            invariant
                1970 <= cur <= y,
                y <= 9999,
                acc == days_before_year(cur as int),
                0 <= acc <= 366 * (cur - 1970),
            decreases y - cur,
        {
            proof {
                lemma_days_before_year_step(cur as int);
                lemma_days_before_year_bounds(cur as int + 1);
            }
            acc = acc + days_in_year(cur);
            cur = cur + 1;
        }
    } else {
        let mut cur: i64 = 1970;
        while cur > y
            invariant
                y <= cur <= 1970,
                0 <= y,
                acc == days_before_year(cur as int),
                -366 * (1970 - cur) <= acc <= 0,
            decreases cur - y,
        {
            proof {
                lemma_days_before_year_step(cur as int - 1);
                lemma_days_before_year_bounds(cur as int - 1);
            }
            cur = cur - 1;
            acc = acc - days_in_year(cur);
        }
    }
    proof {
        lemma_days_before_year_bounds(y as int);
    }
    let mut mm: i64 = 1;
    while mm < m
        invariant
            1 <= mm <= m <= 12,
            0 <= y <= 9999,
            acc == days_before_year(y as int) + days_before_month(y as int, mm as int),
            -721020 <= days_before_year(y as int) <= 2938614,
            0 <= days_before_month(y as int, mm as int) <= 366,
        decreases m - mm,
    {
        proof {
            lemma_days_before_month_bounds(y as int, mm as int);
            lemma_year_days_split(y as int);
        }
        acc = acc + days_in_month(y, mm);
        mm = mm + 1;
    }
    proof {
        lemma_days_before_month_bounds(y as int, m as int);
        lemma_days_before_month_monotone(y as int, m as int, 12);
        lemma_days_before_month_bounds(y as int, 12);
        lemma_days_before_year_monotone(0, y as int);
        lemma_days_before_year_monotone(y as int + 1, 10000);
        lemma_days_before_year_step(y as int);
        lemma_days_before_year_bounds(0);
        lemma_days_before_year_bounds(10000);
    }
    acc + d - 1
}

/// The year containing epoch day `z`, with the 0-based day of that year.
pub fn year_and_doy(z: i64) -> (r: (i64, i64))
    requires
        days_before_year(0) <= z < days_before_year(10000),
    ensures
        (r.0 as int, r.1 as int) == year_doy(z as int),
        0 <= r.1 < days_in_year_of(r.0 as int),
        days_before_year(r.0 as int) + r.1 == z,
        0 <= r.0 <= 9999,
{
    proof {
        lemma_days_before_year_bounds(0);
        lemma_days_before_year_bounds(10000);
    }
    let mut y: i64 = 1970;
    let mut rem: i64 = z;
    if z >= 0 {
        loop
            invariant
                0 <= rem <= z,
                1970 <= y <= 10023,
                year_doy_up(y as int, rem as int) == year_doy_up(1970, z as int),
                days_before_year(y as int) + rem == z,
                z < days_before_year(10000),
            ensures
                0 <= rem < days_in_year_of(y as int),
                1970 <= y,
                year_doy_up(y as int, rem as int) == year_doy_up(1970, z as int),
                days_before_year(y as int) + rem == z,
            decreases rem,
        {
            let len = days_in_year(y);
            if rem < len {
                break ;
            }
            proof {
                lemma_days_before_year_step(y as int);
                lemma_days_before_year_bounds(y as int + 1);
                lemma_days_before_year_bounds(10000);
            }
            rem = rem - len;
            y = y + 1;
        }
        proof {
            lemma_year_doy_up(1970, z as int);
            if y as int >= 10000 {
                lemma_days_before_year_monotone(10000, y as int);
                assert(false);
            }
        }
    } else {
        while rem < 0
            invariant
                z <= rem,
                0 <= y <= 1970,
                year_doy_down(y as int, rem as int) == year_doy_down(1970, z as int),
                days_before_year(y as int) + rem == z,
                days_before_year(0) <= z,
                rem < 366,
            decreases 366 - rem,
        {
            proof {
                if y as int <= 0 {
                    lemma_days_before_year_monotone(y as int, 0);
                    assert(false);
                }
                lemma_days_before_year_step(y as int - 1);
                lemma_days_before_year_bounds(y as int - 1);
            }
            y = y - 1;
            rem = rem + days_in_year(y);
        }
        proof {
            lemma_year_doy_down(1970, z as int);
        }
    }
    (y, rem)
}

/// The calendar date of epoch day `z`.
pub fn civil_from_days(z: i64) -> (r: (i64, i64, i64))
    requires
        days_before_year(0) <= z < days_before_year(10000),
    ensures
        (r.0 as int, r.1 as int, r.2 as int) == civil_of_day(z as int),
        valid_date(r.0 as int, r.1 as int, r.2 as int),
        day_number(r.0 as int, r.1 as int, r.2 as int) == z,
        0 <= r.0 <= 9999,
{
    let (y, doy) = year_and_doy(z);
    proof {
        lemma_year_doy(z as int);
        lemma_month_day(y as int, doy as int, 1);
        lemma_civil_of_day(z as int);
    }
    let mut m: i64 = 1;
    let mut rem: i64 = doy;
    while m < 12 && rem >= days_in_month(y, m)
        invariant
            1 <= m <= 12,
            0 <= rem <= doy,
            0 <= y <= 9999,
            0 <= doy < days_in_year_of(y as int),
            month_day(y as int, rem as int, m as int) == month_day(y as int, doy as int, 1),
        decreases 12 - m,
    {
        rem = rem - days_in_month(y, m);
        m = m + 1;
    }
    proof {
        lemma_days_before_month_bounds(y as int, m as int);
    }
    (y, m, rem + 1)
}

/// Split a nanosecond count into its epoch day (floor division) and its
/// nonnegative nanosecond-of-day remainder.
pub fn split_days(n: i64) -> (r: (i64, i64))
    ensures
        r.0 == n as int / (NANOS_PER_DAY as int),
        r.1 == n as int % (NANOS_PER_DAY as int),
        -106752 <= r.0 <= 106751,
        0 <= r.1 < NANOS_PER_DAY,
        n as int == r.0 * (NANOS_PER_DAY as int) + r.1,
{
    let shifted: u128 = (n as i128 + 9_223_372_800_000_000_000i128) as u128;
    let q: u128 = shifted / 86_400_000_000_000u128;
    let rm: u128 = shifted % 86_400_000_000_000u128;
    proof {
        lemma_fundamental_div_mod(shifted as int, NANOS_PER_DAY as int);
    }
    let days: i64 = (q as i64) - 106_752;
    let rem: i64 = rm as i64;
    proof {
        assert(n as int == (days as int) * (NANOS_PER_DAY as int) + rem as int);
        lemma_fundamental_div_mod_converse(
            n as int,
            NANOS_PER_DAY as int,
            days as int,
            rem as int,
        );
    }
    (days, rem)
}

/// The epoch-day range of every 64-bit nanosecond count lies strictly inside
/// the years 0 to 9999, so every timestamp has a calendar date.
pub proof fn lemma_timestamp_day_in_range(z: int)
    requires
        -106752 <= z <= 106751,
    ensures
        days_before_year(0) <= z < days_before_year(10000),
{
    lemma_days_before_year_bounds(0);
    lemma_days_before_year_bounds(10000);
}

} // verus!
