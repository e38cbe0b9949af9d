//! A UTC instant, measured in whole seconds from the first instant of the
//! supported date range's calendar: second 0 is year 1, January 1, 00:00:00.

use vstd::prelude::*;
use crate::date::Date;

verus! {

pub const SECS_PER_DAY: i64 = 86_400;
pub const SECS_PER_HOUR: i64 = 3_600;

/// Seconds from year 1, January 1, 00:00:00 UTC to the first instant of the
/// day with day number `day`.
pub open spec fn day_start_sec(day: int) -> int {
    (day - 1) * 86_400
}

/// A UTC instant in whole seconds.
#[derive(Clone, Copy, Debug, PartialEq, Eq, Structural, Hash)]
pub struct Timestamp {
    pub secs: i64,
}

impl Timestamp {
    /// The first instant (midnight UTC) of the given day.
    pub fn start_of_day(date: &Date) -> (t: Timestamp)
        requires
            date.wf(),
        ensures
            t.secs == day_start_sec(date.day_num()),
    {
        let n: i64 = date.to_day_num();
        proof {
            crate::date::lemma_day_range_numeric();
        }
        Timestamp { secs: (n - 1) * SECS_PER_DAY }
    }
}

/// A half-open range of UTC instants: `start` inclusive, `end` exclusive.
#[derive(Clone, Copy, Debug, PartialEq, Eq, Structural, Hash)]
pub struct TimestampRange {
    pub start: Timestamp,
    pub end: Timestamp,
}

} // verus!
