//! Reading the clock around a step.
//!
//! A step is timed by two readings of the system clock, one before and one
//! after. The span between them is what the step's record reports.

use time::{Duration, Timespec};
use vstd::prelude::*;

verus! {

/// `time::Duration`, the span that a timed action reports.
#[verifier::external_type_specification]
#[verifier::external_body]
pub struct ExDuration(time::Duration);

/// What a span holds: its length in nanoseconds, negative where it runs
/// backwards.
pub uninterp spec fn nanoseconds(span: Duration) -> int;

/// The nanoseconds of one second.
pub const NANOS_PER_SEC: i32 = 1_000_000_000;

/// The most seconds, forwards or backwards, between two readings whose span a
/// `Duration` can hold.
pub const SPAN_LIMIT: i64 = 9_223_372_036_854_775;

/// A reading of the system clock: the seconds since the beginning of 1970, and
/// the nanoseconds into the second that was running.
#[derive(Clone, Copy, Debug, PartialEq, Eq)]
pub struct Reading {
    pub sec: i64,
    pub nsec: i32,
}

/// `time::get_time`. Claimed: the nanoseconds of the reading lie within one
/// second, as `time` checks of every reading it makes. Nothing is claimed of
/// the time that the clock shows.
#[verifier::external_body]
fn read_clock() -> (now: Reading)
    ensures
        now.valid(),
{
    let now = time::get_time();
    Reading { sec: now.sec, nsec: now.nsec }
}

/// `Timespec - Timespec`. Claimed: the span holds the nanoseconds from
/// `earlier` to `later`. `time` adds the difference of the seconds and the
/// difference of the nanoseconds, and gives up on seconds further apart than
/// it can count in milliseconds, so those are left out.
#[verifier::external_body]
fn span_between(later: Reading, earlier: Reading) -> (span: Duration)
    requires
        later.spans(earlier),
    ensures
        nanoseconds(span) == later.since(earlier),
{
    Timespec { sec: later.sec, nsec: later.nsec } - Timespec { sec: earlier.sec, nsec: earlier.nsec }
}

impl Reading {
    /// The nanoseconds lie within one second.
    pub open spec fn valid(self) -> bool {
        0 <= self.nsec < NANOS_PER_SEC
    }

    /// The nanoseconds from `earlier` to this reading; negative where the
    /// clock was set back in between.
    pub open spec fn since(self, earlier: Reading) -> int {
        (self.sec - earlier.sec) * NANOS_PER_SEC + (self.nsec - earlier.nsec)
    }

    /// This reading shows an earlier time than `other`.
    pub open spec fn is_before(self, other: Reading) -> bool {
        self.sec < other.sec || (self.sec == other.sec && self.nsec < other.nsec)
    }

    /// The two readings are close enough for a span between them.
    pub open spec fn spans(self, earlier: Reading) -> bool {
        &&& self.valid()
        &&& earlier.valid()
        &&& -SPAN_LIMIT <= self.sec - earlier.sec <= SPAN_LIMIT
    }

    /// Reads the clock now.
    pub fn now() -> (reading: Reading)
        ensures
            reading.valid(),
    {
        read_clock()
    }

    /// The time that passed from `earlier` to this reading, and `None` where
    /// a reading is malformed or the two lie further apart than a span can
    /// hold.
    pub fn elapsed_since(&self, earlier: &Reading) -> (elapsed: Option<Duration>)
        ensures
            elapsed is Some <==> self.spans(*earlier),
            elapsed matches Some(span) ==> nanoseconds(span) == self.since(*earlier),
    {
        if self.nsec < 0 || self.nsec >= NANOS_PER_SEC || earlier.nsec < 0 || earlier.nsec
            >= NANOS_PER_SEC {
            return None;
        }
        match self.sec.checked_sub(earlier.sec) {
            Some(apart) => if -SPAN_LIMIT <= apart && apart <= SPAN_LIMIT {
                Some(span_between(*self, *earlier))
            } else {
                None
            },
            None => None,
        }
    }
}

/// Time that passed is negative only where the clock ran backwards: between
/// two well-formed readings, the second of which does not show an earlier
/// time than the first, no negative span is measured.
pub proof fn lemma_elapsed_is_negative_only_backwards(later: Reading, earlier: Reading)
    requires
        later.valid(),
        earlier.valid(),
    ensures
        later.since(earlier) < 0 <==> later.is_before(earlier),
{
}

} // verus!
