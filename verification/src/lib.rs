//! A nanosecond-precision timestamp library with ISO-8601 parsing and
//! formatting, ISO week dates, and cross-calendar year conversion
//! (Thai solar, Dangi, Minguo, Japanese eras).
//!
//! A [`Timestamp`] is a signed 64-bit count of nanoseconds since the Unix
//! epoch, 1970-01-01T00:00:00Z; all values are implicitly UTC.
use vstd::prelude::*;

pub mod clock;
pub mod era;
pub mod error;

pub use crate::clock::MonotonicClock;
pub use crate::clock::Precision;
pub use crate::clock::get_clock_precision;
pub use crate::era::japanese_era_name;
pub use crate::error::Error;
pub use crate::error::ErrorKind;
pub use crate::error::error_string;
pub mod calendar;
pub mod gregorian;
pub mod iso8601;
pub mod isoweek;

verus! {

/// A point in time: nanoseconds relative to the Unix epoch, implicitly UTC.
///
/// Equality and ordering are exactly integer equality and ordering on the
/// nanosecond count.
#[derive(Debug, Copy, Clone, PartialEq, Eq, PartialOrd, Ord, Hash, Structural)]
pub struct Timestamp {
    nanos: i64,
}

impl View for Timestamp {
    type V = int;

    closed spec fn view(&self) -> int {
        self.nanos as int
    }
}

impl Timestamp {
    /// Construct a timestamp from a raw nanosecond count. Total: every `i64`
    /// value is a valid timestamp.
    pub fn from_nanos(nanos: i64) -> (t: Self)
        ensures
            t@ == nanos as int,
    {
        Timestamp { nanos }
    }

    /// The raw count of nanoseconds since the Unix epoch.
    ///
    /// Together with [`Timestamp::from_nanos`] this is an exact round trip:
    /// `from_nanos(n).as_nanos() == n` for every `n`.
    pub fn as_nanos(&self) -> (n: i64)
        ensures
            n as int == self@,
    {
        self.nanos
    }
}

/// Law: the nanosecond count round-trips exactly. A timestamp built from
/// `n` carries `n` as its value, and any count read back from it — any
/// `m` with `m == t@`, which is what [`Timestamp::as_nanos`] returns — is
/// `n` itself.
pub proof fn lemma_nanos_round_trip(n: i64, t: Timestamp, m: i64)
    requires
        t@ == n as int,
        m as int == t@,
    ensures
        m == n,
{
}

/// Law: timestamp equality is exactly integer equality on the nanosecond
/// count.
pub proof fn lemma_timestamp_eq(a: Timestamp, b: Timestamp)
    ensures
        (a == b) <==> (a@ == b@),
{
}

} // verus!
