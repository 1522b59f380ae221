//! Clock sources: the wall clock, a monotonic reading built on top of it,
//! and a probe for the resolution the host clock actually delivers.
use vstd::prelude::*;
use crate::Timestamp;

verus! {

/// The finest resolution the host clock delivers, as far as it can be
/// classified; purely informational.
#[derive(Debug, Copy, Clone, PartialEq, Eq, Structural)]
pub enum Precision {
    Nanosecond,
    Microsecond,
    Millisecond,
    Second,
    Error,
}

/// The precision class of an observed clock granularity in nanoseconds.
/// A nonpositive granularity cannot be classified.
pub open spec fn precision_of_gap(gap: int) -> Precision {
    if gap <= 0 {
        Precision::Error
    } else if gap < 1_000 {
        Precision::Nanosecond
    } else if gap < 1_000_000 {
        Precision::Microsecond
    } else if gap < 1_000_000_000 {
        Precision::Millisecond
    } else {
        Precision::Second
    }
}

/// Relies on std::time::SystemTime::now: the wall clock, read as whole
/// nanoseconds since the Unix epoch. A reading before the epoch yields
/// zero, and one beyond the 64-bit nanosecond range saturates; neither
/// occurs on a sanely configured host. The reading may move backward when
/// the host clock is adjusted, and nothing ties one call to the next.
#[verifier::external_body]
fn wall_clock_nanos() -> (r: i64)
    ensures
        r >= 0,
{
    match std::time::SystemTime::now().duration_since(std::time::UNIX_EPOCH) {
        Ok(d) => match i64::try_from(d.as_nanos()) {
            Ok(v) => v,
            Err(_) => i64::MAX,
        },
        Err(_) => 0,
    }
}

impl Timestamp {
    /// The current wall-clock time. Subject to host clock adjustments, so
    /// successive readings may go backward; see [`MonotonicClock`] for a
    /// non-decreasing source.
    pub fn now() -> (t: Timestamp)
        ensures
            t@ >= 0,
    {
        Timestamp::from_nanos(wall_clock_nanos())
    }
}

/// A monotonic clock: readings approximate the wall clock but are clamped
/// so that, within one clock value's lifetime, each reading is strictly
/// greater than the one before (until the 64-bit range is exhausted). The
/// readings are biased toward epoch alignment but not guaranteed to be
/// epoch-aligned.
pub struct MonotonicClock {
    last: i64,
}

impl MonotonicClock {
    /// The most recent reading handed out, which no later reading falls
    /// below.
    pub closed spec fn last_reading(&self) -> int {
        self.last as int
    }

    /// A fresh monotonic clock, starting from the epoch.
    pub fn new() -> (c: Self)
        ensures
            c.last_reading() == 0,
    {
        MonotonicClock { last: 0 }
    }

    /// The next monotonic reading: the wall clock, clamped to stay strictly
    /// above every earlier reading from this clock.
    pub fn now_monotonic(&mut self) -> (t: Timestamp)
        ensures
            t@ == final(self).last_reading(),
            final(self).last_reading() >= old(self).last_reading(),
            old(self).last_reading() < i64::MAX ==> final(self).last_reading() > old(
                self,
            ).last_reading(),
            old(self).last_reading() >= 0 ==> t@ >= 0,
    {
        let w = wall_clock_nanos();
        if w > self.last {
            self.last = w;
        } else if self.last < i64::MAX {
            self.last = self.last + 1;
        }
        Timestamp::from_nanos(self.last)
    }
}

/// Two monotonic readings taken one after the other from the same clock
/// never decrease: if the first call returns `t1` and leaves the clock in
/// state `c1`, and the second, starting from any state at least `c1`,
/// returns `t2`, then `t2 >= t1`.
pub proof fn lemma_monotonic_non_decreasing(
    c1: MonotonicClock,
    c2: MonotonicClock,
    t1: Timestamp,
    t2: Timestamp,
)
    requires
        t1@ == c1.last_reading(),
        c2.last_reading() >= c1.last_reading(),
        t2@ == c2.last_reading(),
    ensures
        t2@ >= t1@,
{
}

/// The precision class of a measured clock granularity, in nanoseconds.
pub fn precision_for_granularity(gap: i64) -> (p: Precision)
    ensures
        p == precision_of_gap(gap as int),
{
    if gap <= 0 {
        Precision::Error
    } else if gap < 1_000 {
        Precision::Nanosecond
    } else if gap < 1_000_000 {
        Precision::Microsecond
    } else if gap < 1_000_000_000 {
        Precision::Millisecond
    } else {
        Precision::Second
    }
}

/// Probe the host clock's resolution: read the wall clock until it moves
/// and classify the smallest step seen. Never fails; when the clock cannot
/// be observed moving, the resolution is reported as unclassifiable. The
/// step itself depends on the host, but whatever is returned is the
/// classification of some positive observed step.
pub fn get_clock_precision() -> (p: Precision)
    ensures
        p == Precision::Error || exists|g: int| g > 0 && p == precision_of_gap(g),
{
    let first = wall_clock_nanos();
    let mut tries: u32 = 0;
    while tries < 100_000
        invariant
            first >= 0,
        decreases 100_000 - tries,
    {
        let next = wall_clock_nanos();
        if next > first {
            let gap = next - first;
            let p = precision_for_granularity(gap);
            assert(gap > 0 && p == precision_of_gap(gap as int));
            return p;
        }
        tries = tries + 1;
    }
    Precision::Error
}

} // verus!
