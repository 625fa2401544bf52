//! Lengths of time and points in time, as plain numbers.

use vstd::prelude::*;

verus! {

/// The longest time a [`Span`] total may reach: 2^64 seconds, less one nanosecond.
pub const MAX_SPAN_NANOS: u128 = 18_446_744_073_709_551_615_999_999_999;

/// A length of time.
#[derive(Debug, Clone, Copy, PartialEq, Eq, Structural)]
pub struct Span {
    pub nanos: u128,
}

/// A point in time, counted from one fixed start for the whole process.
#[derive(Debug, Clone, Copy, PartialEq, Eq, Structural)]
pub struct Moment {
    pub nanos: u64,
}

/// The time from `earlier` to `later`, or none at all where they are the other way round.
pub open spec fn time_between(earlier: Moment, later: Moment) -> Span {
    if later.nanos >= earlier.nanos {
        Span { nanos: (later.nanos - earlier.nanos) as u128 }
    } else {
        Span { nanos: 0 }
    }
}

impl Span {
    pub fn from_millis(millis: u64) -> (s: Span)
        ensures
            s.nanos == millis * 1_000_000,
    {
        Span { nanos: (millis as u128) * 1_000_000 }
    }

    /// Whole milliseconds, rounded down.
    pub fn as_millis(self) -> (ms: u128)
        ensures
            ms == self.nanos / 1_000_000,
    {
        self.nanos / 1_000_000
    }

    pub fn is_zero(self) -> (b: bool)
        ensures
            b == (self.nanos == 0),
    {
        self.nanos == 0
    }
}

impl Moment {
    /// The time from `earlier` to this moment.
    pub fn since(self, earlier: Moment) -> (s: Span)
        ensures
            s == time_between(earlier, self),
    {
        if self.nanos >= earlier.nanos {
            Span { nanos: (self.nanos - earlier.nanos) as u128 }
        } else {
            Span { nanos: 0 }
        }
    }
}

/// The time between two moments is what has to be added to the first to get to the second, and
/// none at all where the second comes first.
pub proof fn law_time_between_leads_from_one_to_the_other(earlier: Moment, later: Moment, s: Span)
    requires
        call_ensures(Moment::since, (later, earlier), s),
    ensures
        earlier.nanos <= later.nanos ==> earlier.nanos + s.nanos == later.nanos,
        earlier.nanos >= later.nanos ==> s.nanos == 0,
{
}

/// A span in milliseconds is the largest whole number of them that fits in it, and milliseconds
/// make a span of exactly that many.
pub proof fn law_milliseconds_are_rounded_down(span: Span, ms: u128, millis: u64, made: Span)
    requires
        call_ensures(Span::as_millis, (span,), ms),
        call_ensures(Span::from_millis, (millis,), made),
    ensures
        ms * 1_000_000 <= span.nanos < (ms + 1) * 1_000_000,
        made.nanos == millis * 1_000_000,
{
}

} // verus!
