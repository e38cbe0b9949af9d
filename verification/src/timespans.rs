//! The timespan kinds: hour, day (a `Date` itself), week, month and year.

pub mod hour;
pub mod month;
pub mod week;
pub mod year;

use vstd::prelude::*;
use crate::date::{
    Date, date_of_day_spec, lemma_date_of_day_of_date, lemma_date_of_day_spec,
    lemma_day_range_numeric, max_day_num, min_day_num, MAX_YEAR,
};
use crate::duration::TimespanDuration;
use crate::resolution::ResolutionKind;
use crate::timestamp::{Timestamp, day_start_sec};
use crate::traits::Timespan;

verus! {

/// Executable form of the smallest day number.
pub fn min_day_num_exec() -> (n: i64)
    ensures
        n == min_day_num(),
{
    let d = Date::min_date();
    d.to_day_num()
}

/// Executable form of the largest day number.
pub fn max_day_num_exec() -> (n: i64)
    ensures
        n == max_day_num(),
{
    let d = Date::max_date();
    d.to_day_num()
}

/// A single day is itself a timespan: the base granularity.
impl Timespan for Date {
    open spec fn wf(self) -> bool {
        crate::date::valid_ymd(self.year as int, self.month as int, self.day as int)
    }

    open spec fn key(self) -> int {
        self.day_num()
    }

    open spec fn anchor_day(self) -> int {
        self.day_num()
    }

    open spec fn spec_from_day(day: int) -> Self {
        date_of_day_spec(day)
    }

    open spec fn spec_add(self, n: nat) -> Self {
        if self.day_num() + n > max_day_num() {
            date_of_day_spec(max_day_num())
        } else {
            date_of_day_spec(self.day_num() + n)
        }
    }

    open spec fn spec_sub(self, n: nat) -> Self {
        if self.day_num() - n < min_day_num() {
            date_of_day_spec(min_day_num())
        } else {
            date_of_day_spec(self.day_num() - n)
        }
    }

    open spec fn start_sec(self) -> int {
        day_start_sec(self.day_num())
    }

    open spec fn max_elem() -> Self {
        Date { year: MAX_YEAR, month: 12u8, day: 31u8 }
    }

    open spec fn resolution_spec() -> ResolutionKind {
        ResolutionKind::Day
    }

    proof fn lemma_from_day_wf(day: int) {
        lemma_date_of_day_spec(day);
        lemma_date_of_day_of_date(date_of_day_spec(day));
    }

    proof fn lemma_key_injective(a: Self, b: Self) {
        crate::date::lemma_day_num_injective(
            a.year as int,
            a.month as int,
            a.day as int,
            b.year as int,
            b.month as int,
            b.day as int,
        );
    }

    proof fn lemma_key_anchor_monotone(a: Self, b: Self) {
    }

    proof fn lemma_add_sub(t: Self, n: nat) {
        crate::date::lemma_day_num_bounds(t.year as int, t.month as int, t.day as int);
        let up = t.spec_add(n);
        if t.day_num() + n > max_day_num() {
            lemma_date_of_day_spec(max_day_num());
            lemma_date_of_day_of_date(Date { year: MAX_YEAR, month: 12u8, day: 31u8 });
        } else {
            lemma_date_of_day_spec(t.day_num() + n);
            assert(up.day_num() == t.day_num() + n);
            lemma_date_of_day_spec(t.day_num());
            lemma_date_of_day_of_date(t);
        }
        lemma_date_of_day_spec(min_day_num());
        if t.day_num() - n >= min_day_num() {
            lemma_date_of_day_spec(t.day_num() - n);
        }
        if up.day_num() - n >= min_day_num() {
            lemma_date_of_day_spec(up.day_num() - n);
        }
    }

    fn enum_variant() -> (r: ResolutionKind) {
        ResolutionKind::Day
    }

    fn from_date(date: Date) -> (r: Self) {
        proof {
            lemma_date_of_day_of_date(date);
        }
        date
    }

    fn into_date(self) -> (r: Date) {
        self
    }

    fn saturating_start_timestamp(&self) -> (t: Timestamp) {
        Timestamp::start_of_day(self)
    }

    fn saturating_add(&self, duration: TimespanDuration<Self>) -> (r: Self) {
        let n: i64 = self.to_day_num();
        let repeats: u64 = duration.repeats();
        proof {
            lemma_day_range_numeric();
        }
        let target: i64 = if repeats > 200_000_000 {
            max_day_num_exec() + 1
        } else {
            n + repeats as i64
        };
        let maxd: i64 = max_day_num_exec();
        if target > maxd {
            let r = Date::max_date();
            proof {
                lemma_date_of_day_of_date(r);
            }
            r
        } else {
            Date::from_day_num(target)
        }
    }

    fn saturating_sub(&self, duration: TimespanDuration<Self>) -> (r: Self) {
        let n: i64 = self.to_day_num();
        let repeats: u64 = duration.repeats();
        proof {
            lemma_day_range_numeric();
        }
        let target: i64 = if repeats > 200_000_000 {
            min_day_num_exec() - 1
        } else {
            n - repeats as i64
        };
        let mind: i64 = min_day_num_exec();
        if target < mind {
            let r = Date::min_date();
            proof {
                lemma_date_of_day_of_date(r);
            }
            r
        } else {
            Date::from_day_num(target)
        }
    }

    fn le(&self, other: &Self) -> (b: bool) {
        let a: i64 = self.to_day_num();
        let b: i64 = other.to_day_num();
        a <= b
    }
}

} // verus!
