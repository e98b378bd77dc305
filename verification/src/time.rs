//! Spans of time, counted in whole nanoseconds.

use std::ops::Range;
use vstd::prelude::*;

verus! {

/// Nanoseconds in one second.
pub const NANOS_PER_SEC: u128 = 1_000_000_000;

/// Nanoseconds in one millisecond.
pub const NANOS_PER_MILLI: u128 = 1_000_000;

/// A span of time.
#[derive(Clone, Copy, Debug, PartialEq, Eq, Structural)]
pub struct Duration {
    pub nanos: u128,
}

impl Duration {
    /// A span of `secs` seconds.
    pub fn from_secs(secs: u64) -> (d: Duration)
        ensures
            d.nanos == secs * 1_000_000_000,
    {
        Duration { nanos: (secs as u128) * NANOS_PER_SEC }
    }

    /// A span of `millis` milliseconds.
    pub fn from_millis(millis: u64) -> (d: Duration)
        ensures
            d.nanos == millis * 1_000_000,
    {
        Duration { nanos: (millis as u128) * NANOS_PER_MILLI }
    }

    /// The whole seconds in this span.
    pub fn as_secs(&self) -> (s: u128)
        ensures
            s == self.nanos / 1_000_000_000,
    {
        self.nanos / NANOS_PER_SEC
    }

    /// The nanoseconds of this span beyond its whole seconds.
    pub fn subsec_nanos(&self) -> (n: u32)
        ensures
            n == self.nanos % 1_000_000_000,
    {
        (self.nanos % NANOS_PER_SEC) as u32
    }

    /// Whether this span lies in `range`: at least its start, less than its
    /// end.
    pub open spec fn within(self, range: Range<Duration>) -> bool {
        range.start.nanos <= self.nanos < range.end.nanos
    }

    /// Whether this span lies in `range`.
    pub fn is_within(&self, range: &Range<Duration>) -> (r: bool)
        ensures
            r == self.within(*range),
    {
        range.start.nanos <= self.nanos && self.nanos < range.end.nanos
    }
}

} // verus!
