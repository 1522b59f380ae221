//! The Japanese era resolver: an ordered table of era boundaries, from the
//! Meiji accession onward, with interval lookup over it.
//!
//! Eras and their Gregorian start dates: Meiji 1868-01-25, Taisho
//! 1912-07-30, Showa 1926-12-25, Heisei 1989-01-08, Reiwa 2019-05-01.
//! Era ordinals count from 1 (Meiji) upward; the era-relative year is
//! `Gregorian year - era start year + 1`, so an era's accession year is its
//! year 1.
use vstd::prelude::*;
use crate::Timestamp;
use crate::error::Error;
use crate::error::ErrorKind;
use crate::gregorian::NANOS_PER_DAY;
use crate::gregorian::day_number;
use crate::gregorian::days_from_civil;
use crate::gregorian::lemma_days_before_month_bounds;
use crate::gregorian::lemma_days_before_year_bounds;
use crate::gregorian::lemma_timestamp_day_in_range;
use crate::gregorian::split_days;
use crate::gregorian::year_and_doy;
use crate::gregorian::year_doy;
use vstd::string::StringExecFns;

verus! {

/// How many eras the table holds.
pub open spec fn era_count() -> int {
    5
}

/// The Gregorian year in which an era begins.
pub open spec fn era_start_year(e: int) -> int {
    if e == 1 {
        1868
    } else if e == 2 {
        1912
    } else if e == 3 {
        1926
    } else if e == 4 {
        1989
    } else {
        2019
    }
}

/// The epoch day on which an era begins.
pub open spec fn era_start_day(e: int) -> int {
    if e == 1 {
        day_number(1868, 1, 25)
    } else if e == 2 {
        day_number(1912, 7, 30)
    } else if e == 3 {
        day_number(1926, 12, 25)
    } else if e == 4 {
        day_number(1989, 1, 8)
    } else {
        day_number(2019, 5, 1)
    }
}

/// The timestamp at which an era begins.
pub open spec fn era_start_nanos(e: int) -> int {
    era_start_day(e) * (NANOS_PER_DAY as int)
}

/// The display name of an era.
pub open spec fn era_name_seq(e: int) -> Seq<char> {
    if e == 1 {
        "Meiji"@
    } else if e == 2 {
        "Taisho"@
    } else if e == 3 {
        "Showa"@
    } else if e == 4 {
        "Heisei"@
    } else {
        "Reiwa"@
    }
}

/// The Gregorian year containing a nanosecond count.
pub open spec fn gregorian_year_of(n: int) -> int {
    year_doy(n / (NANOS_PER_DAY as int)).0
}

fn era_start_ns(e: i32) -> (r: i64)
    requires
        1 <= e <= 5,
    ensures
        r == era_start_nanos(e as int),
{
    proof {
        lemma_days_before_year_bounds(1868);
        lemma_days_before_year_bounds(1912);
        lemma_days_before_year_bounds(1926);
        lemma_days_before_year_bounds(1989);
        lemma_days_before_year_bounds(2019);
        lemma_days_before_month_bounds(1868, 1);
        lemma_days_before_month_bounds(1912, 7);
        lemma_days_before_month_bounds(1926, 12);
        lemma_days_before_month_bounds(1989, 1);
        lemma_days_before_month_bounds(2019, 5);
    }
    let day: i64 = if e == 1 {
        days_from_civil(1868, 1, 25)
    } else if e == 2 {
        days_from_civil(1912, 7, 30)
    } else if e == 3 {
        days_from_civil(1926, 12, 25)
    } else if e == 4 {
        days_from_civil(1989, 1, 8)
    } else {
        days_from_civil(2019, 5, 1)
    };
    day * NANOS_PER_DAY
}

fn era_name_str(e: i32) -> (r: String)
    requires
        1 <= e <= 5,
    ensures
        r@ == era_name_seq(e as int),
{
    if e == 1 {
        String::from_str("Meiji")
    } else if e == 2 {
        String::from_str("Taisho")
    } else if e == 3 {
        String::from_str("Showa")
    } else if e == 4 {
        String::from_str("Heisei")
    } else {
        String::from_str("Reiwa")
    }
}

/// The display name of the era with ordinal `era`, failing outside the
/// table's range.
pub fn japanese_era_name(era: i32) -> (r: Result<String, Error>)
    ensures
        match r {
            Ok(name) => 1 <= era <= era_count() && name@ == era_name_seq(era as int),
            Err(e) => !(1 <= era <= era_count()) && e.kind_spec() == ErrorKind::UnknownEra
                && e.wf(),
        },
{
    if era < 1 || era > 5 {
        Err(Error::new(ErrorKind::UnknownEra))
    } else {
        Ok(era_name_str(era))
    }
}

impl Timestamp {
    /// The Japanese era containing this timestamp: its ordinal, the
    /// era-relative year (1 in the accession year), and the era name.
    /// Fails with an unknown-era error exactly when the timestamp predates
    /// the earliest table entry, the start of Meiji.
    pub fn to_japanese_era(&self) -> (r: Result<(i32, i32, String), Error>)
        ensures
            match r {
                Ok(v) => {
                    &&& self@ >= era_start_nanos(1)
                    &&& 1 <= v.0 <= era_count()
                    &&& self@ >= era_start_nanos(v.0 as int)
                    &&& v.0 < era_count() ==> self@ < era_start_nanos(v.0 as int + 1)
                    &&& v.1 == gregorian_year_of(self@) - era_start_year(v.0 as int) + 1
                    &&& v.2@ == era_name_seq(v.0 as int)
                },
                Err(e) => {
                    &&& self@ < era_start_nanos(1)
                    &&& e.kind_spec() == ErrorKind::UnknownEra
                    &&& e.wf()
                },
            },
    {
        let n = self.as_nanos();
        if n < era_start_ns(1) {
            return Err(Error::new(ErrorKind::UnknownEra));
        }
        let e: i32 = if n >= era_start_ns(5) {
            5
        } else if n >= era_start_ns(4) {
            4
        } else if n >= era_start_ns(3) {
            3
        } else if n >= era_start_ns(2) {
            2
        } else {
            1
        };
        let (z, _rem) = split_days(n);
        proof {
            lemma_timestamp_day_in_range(z as int);
        }
        let (gy, _doy) = year_and_doy(z);
        let start_year: i32 = if e == 1 {
            1868
        } else if e == 2 {
            1912
        } else if e == 3 {
            1926
        } else if e == 4 {
            1989
        } else {
            2019
        };
        let year = (gy as i32) - start_year + 1;
        Ok((e, year, era_name_str(e)))
    }
}

} // verus!
