//! A calendar year within the supported range, anchored at January 1.

use vstd::prelude::*;
use crate::date::{
    Date, MAX_YEAR, MIN_YEAR, date_of_day_spec, day_num_of, lemma_date_of_day_of_date,
    lemma_date_of_day_spec, lemma_day_num_bounds, lemma_day_num_strict_mono,
};
use crate::duration::TimespanDuration;
use crate::resolution::ResolutionKind;
use crate::timespans::month::Month;
use crate::timestamp::{Timestamp, day_start_sec};
use crate::traits::{ConsistsOf, Timespan};

verus! {

/// A year number within the representable date range.
#[derive(Clone, Copy, Debug, PartialEq, Eq, Structural, Hash)]
pub struct Year {
    pub number: i32,
}

impl Year {
    pub closed spec fn spec_number(self) -> int {
        self.number as int
    }

    /// First day of the year.
    pub fn saturating_first_day(&self) -> (r: Date)
        requires
            self.wf(),
        ensures
            r == (Date { year: (self.spec_number()) as i32, month: 1u8, day: 1u8 }),
            r.wf(),
    {
        Date { year: self.number, month: 1, day: 1 }
    }

    /// The year number (clamped into the representable range).
    pub fn number_within_naive_date(self) -> (r: i32)
        requires
            self.wf(),
        ensures
            r == self.spec_number(),
    {
        self.number
    }
}

impl Timespan for Year {
    open spec fn wf(self) -> bool {
        MIN_YEAR <= self.number <= MAX_YEAR
    }

    open spec fn key(self) -> int {
        self.number as int
    }

    open spec fn anchor_day(self) -> int {
        day_num_of(self.number as int, 1, 1)
    }

    open spec fn spec_from_day(day: int) -> Self {
        Year { number: date_of_day_spec(day).year }
    }

    open spec fn spec_add(self, n: nat) -> Self {
        if self.number + n > MAX_YEAR {
            Year { number: MAX_YEAR }
        } else {
            Year { number: (self.number + n) as i32 }
        }
    }

    open spec fn spec_sub(self, n: nat) -> Self {
        if self.number - n < MIN_YEAR {
            Year { number: MIN_YEAR }
        } else {
            Year { number: (self.number - n) as i32 }
        }
    }

    open spec fn start_sec(self) -> int {
        day_start_sec(self.anchor_day())
    }

    open spec fn max_elem() -> Self {
        Year { number: MAX_YEAR }
    }

    open spec fn resolution_spec() -> ResolutionKind {
        ResolutionKind::Year
    }

    proof fn lemma_from_day_wf(day: int) {
        lemma_date_of_day_spec(day);
        let d = date_of_day_spec(day);
        let anchor_date = Date { year: d.year, month: 1u8, day: 1u8 };
        lemma_day_num_bounds(d.year as int, 1, 1);
        lemma_date_of_day_of_date(anchor_date);
    }

    proof fn lemma_key_injective(a: Self, b: Self) {
    }

    proof fn lemma_key_anchor_monotone(a: Self, b: Self) {
        if a.number < b.number {
            lemma_day_num_strict_mono(a.number as int, 1, 1, b.number as int, 1, 1);
        }
    }

    proof fn lemma_add_sub(t: Self, n: nat) {
    }

    fn enum_variant() -> (r: ResolutionKind) {
        ResolutionKind::Year
    }

    fn from_date(date: Date) -> (r: Self) {
        proof {
            lemma_date_of_day_of_date(date);
        }
        Year { number: date.year }
    }

    fn into_date(self) -> (r: Date) {
        proof {
            lemma_day_num_bounds(self.number as int, 1, 1);
        }
        Date { year: self.number, month: 1, day: 1 }
    }

    fn saturating_start_timestamp(&self) -> (t: Timestamp) {
        let first = Date { year: self.number, month: 1, day: 1 };
        Timestamp::start_of_day(&first)
    }

    fn saturating_add(&self, duration: TimespanDuration<Self>) -> (r: Self) {
        let repeats: u64 = duration.repeats();
        let target: i64 = if repeats > 600_000 {
            MAX_YEAR as i64 + 1
        } else {
            self.number as i64 + repeats as i64
        };
        if target > MAX_YEAR as i64 {
            Year { number: MAX_YEAR }
        } else {
            Year { number: target as i32 }
        }
    }

    fn saturating_sub(&self, duration: TimespanDuration<Self>) -> (r: Self) {
        let repeats: u64 = duration.repeats();
        let target: i64 = if repeats > 600_000 {
            MIN_YEAR as i64 - 1
        } else {
            self.number as i64 - repeats as i64
        };
        if target < MIN_YEAR as i64 {
            Year { number: MIN_YEAR }
        } else {
            Year { number: target as i32 }
        }
    }

    fn le(&self, other: &Self) -> (b: bool) {
        self.number <= other.number
    }
}

impl ConsistsOf<Date> for Year {
    open spec fn smaller_wf(smaller: Date) -> bool {
        smaller.wf()
    }

    open spec fn larger_wf(self) -> bool {
        self.wf()
    }

    open spec fn spec_from_smaller(smaller: Date) -> Self {
        Year { number: smaller.year }
    }

    open spec fn spec_into_smaller(self) -> Date {
        Date { year: self.number, month: 1u8, day: 1u8 }
    }

    fn from_smaller(smaller: Date) -> (r: Self) {
        Year { number: smaller.year }
    }

    fn into_smaller(self) -> (r: Date) {
        Date { year: self.number, month: 1, day: 1 }
    }
}

impl ConsistsOf<Month> for Year {
    open spec fn smaller_wf(smaller: Month) -> bool {
        smaller.wf()
    }

    open spec fn larger_wf(self) -> bool {
        self.wf()
    }

    open spec fn spec_from_smaller(smaller: Month) -> Self {
        Year { number: smaller.spec_year() as i32 }
    }

    open spec fn spec_into_smaller(self) -> Month {
        Month::spec_of_year_month(self.number as int, 1)
    }

    fn from_smaller(smaller: Month) -> (r: Self) {
        Year { number: smaller.year_number() }
    }

    fn into_smaller(self) -> (r: Month) {
        Month::first_month_of_year(self.number)
    }
}

} // verus!
