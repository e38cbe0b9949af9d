//! A clock hour, stored as the number of whole hours since year 1,
//! January 1, 00:00.

use vstd::prelude::*;
use vstd::arithmetic::div_mod::{
    lemma_div_is_ordered, lemma_div_multiples_vanish_fancy, lemma_hoist_over_denominator,
};
use crate::date::{Date, lemma_day_range_numeric, max_day_num, min_day_num};
use crate::duration::TimespanDuration;
use crate::resolution::ResolutionKind;
use crate::timespans::{max_day_num_exec, min_day_num_exec};
use crate::timestamp::Timestamp;
use crate::traits::Timespan;

verus! {

/// Hour number of the first representable hour (midnight of the first day).
pub open spec fn min_hour_num() -> int {
    (min_day_num() - 1) * 24
}

/// Hour number of the last representable hour (23:00 of the last day).
pub open spec fn max_hour_num() -> int {
    (max_day_num() - 1) * 24 + 23
}

/// An hour of a day, as hours elapsed since year 1, January 1, 00:00.
#[derive(Clone, Copy, Debug, PartialEq, Eq, Structural, Hash)]
pub struct Hour {
    pub num: i64,
}

impl Hour {
    /// The hour containing the given instant; minutes and seconds are
    /// discarded.
    pub fn new(time: Timestamp) -> (r: Hour)
        requires
            min_hour_num() * 3600 <= time.secs,
            time.secs <= max_hour_num() * 3600 + 3599,
        ensures
            r.num == time.secs / 3600,
            r.wf(),
    {
        proof {
            lemma_day_range_numeric();
            lemma_div_is_ordered(min_hour_num() * 3600, time.secs as int, 3600);
            lemma_div_is_ordered(time.secs as int, max_hour_num() * 3600 + 3599, 3600);
            lemma_div_multiples_vanish_fancy(min_hour_num(), 0, 3600);
            lemma_div_multiples_vanish_fancy(max_hour_num(), 3599, 3600);
        }
        let min_hour: i64 = (min_day_num_exec() - 1) * 24;
        let shifted: u64 = (time.secs - min_hour * 3600) as u64;
        proof {
            lemma_hoist_over_denominator(time.secs as int - min_hour_num() * 3600, min_hour_num(), 3600);
        }
        let num: i64 = min_hour + (shifted / 3600) as i64;
        Hour { num }
    }
}

impl Timespan for Hour {
    open spec fn wf(self) -> bool {
        min_hour_num() <= self.num <= max_hour_num()
    }

    open spec fn key(self) -> int {
        self.num as int
    }

    open spec fn anchor_day(self) -> int {
        self.num as int / 24 + 1
    }

    open spec fn spec_from_day(day: int) -> Self {
        Hour { num: ((day - 1) * 24) as i64 }
    }

    open spec fn spec_add(self, n: nat) -> Self {
        if self.num + n > max_hour_num() {
            Hour { num: max_hour_num() as i64 }
        } else {
            Hour { num: (self.num + n) as i64 }
        }
    }

    open spec fn spec_sub(self, n: nat) -> Self {
        if self.num - n < min_hour_num() {
            Hour { num: min_hour_num() as i64 }
        } else {
            Hour { num: (self.num - n) as i64 }
        }
    }

    open spec fn start_sec(self) -> int {
        self.num * 3600
    }

    open spec fn max_elem() -> Self {
        Hour { num: max_hour_num() as i64 }
    }

    open spec fn resolution_spec() -> ResolutionKind {
        ResolutionKind::Hour
    }

    proof fn lemma_from_day_wf(day: int) {
        lemma_day_range_numeric();
        lemma_div_multiples_vanish_fancy(day - 1, 0, 24);
    }

    proof fn lemma_key_injective(a: Self, b: Self) {
    }

    proof fn lemma_key_anchor_monotone(a: Self, b: Self) {
        lemma_div_is_ordered(a.num as int, b.num as int, 24);
    }

    proof fn lemma_add_sub(t: Self, n: nat) {
        lemma_day_range_numeric();
    }

    fn enum_variant() -> (r: ResolutionKind) {
        ResolutionKind::Hour
    }

    fn from_date(date: Date) -> (r: Self) {
        let n: i64 = date.to_day_num();
        proof {
            lemma_day_range_numeric();
            crate::date::lemma_date_of_day_of_date(date);
            lemma_div_multiples_vanish_fancy(n as int - 1, 0, 24);
        }
        Hour { num: (n - 1) * 24 }
    }

    fn into_date(self) -> (r: Date) {
        proof {
            lemma_day_range_numeric();
            lemma_div_multiples_vanish_fancy(min_day_num() - 1, 0, 24);
            lemma_div_is_ordered(min_hour_num(), self.num as int, 24);
            lemma_div_is_ordered(self.num as int, max_hour_num(), 24);
            lemma_div_multiples_vanish_fancy(max_day_num() - 1, 23, 24);
        }
        let min_hour: i64 = (min_day_num_exec() - 1) * 24;
        let shifted: u64 = (self.num - min_hour) as u64;
        proof {
            lemma_hoist_over_denominator(self.num as int, -(min_day_num() - 1), 24);
        }
        let day: i64 = min_day_num_exec() + (shifted / 24) as i64;
        Date::from_day_num(day)
    }

    fn saturating_start_timestamp(&self) -> (t: Timestamp) {
        proof {
            lemma_day_range_numeric();
        }
        Timestamp { secs: self.num * 3600 }
    }

    fn saturating_add(&self, duration: TimespanDuration<Self>) -> (r: Self) {
        proof {
            lemma_day_range_numeric();
        }
        let maxh: i64 = (max_day_num_exec() - 1) * 24 + 23;
        let repeats: u64 = duration.repeats();
        let target: i64 = if repeats > 5_000_000_000 {
            maxh + 1
        } else {
            self.num + repeats as i64
        };
        if target > maxh {
            Hour { num: maxh }
        } else {
            Hour { num: target }
        }
    }

    fn saturating_sub(&self, duration: TimespanDuration<Self>) -> (r: Self) {
        proof {
            lemma_day_range_numeric();
        }
        let minh: i64 = (min_day_num_exec() - 1) * 24;
        let repeats: u64 = duration.repeats();
        let target: i64 = if repeats > 5_000_000_000 {
            minh - 1
        } else {
            self.num - repeats as i64
        };
        if target < minh {
            Hour { num: minh }
        } else {
            Hour { num: target }
        }
    }

    fn le(&self, other: &Self) -> (b: bool) {
        self.num <= other.num
    }
}

} // verus!
