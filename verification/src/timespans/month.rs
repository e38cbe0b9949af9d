//! A calendar month within the supported range, anchored at its first day.

use vstd::prelude::*;
use vstd::arithmetic::div_mod::{
    lemma_hoist_over_denominator, lemma_mod_multiples_vanish,
};
use crate::date::{
    Date, MAX_YEAR, MIN_YEAR, date_of_day_spec, day_num_of, lemma_date_of_day_of_date,
    lemma_date_of_day_spec, lemma_day_num_bounds, lemma_day_num_strict_mono,
};
use crate::duration::TimespanDuration;
use crate::resolution::ResolutionKind;
use crate::timestamp::{Timestamp, day_start_sec};
use crate::traits::{ConsistsOf, Timespan};

verus! {

/// Smallest month index: January of the first representable year.
pub open spec fn min_month_index() -> int {
    12 * (MIN_YEAR as int)
}

/// Largest month index: December of the last representable year.
pub open spec fn max_month_index() -> int {
    12 * (MAX_YEAR as int) + 11
}

/// A calendar month, stored as the index `12 * year + (month - 1)`.
#[derive(Clone, Copy, Debug, PartialEq, Eq, Structural, Hash)]
pub struct Month {
    pub index: i32,
}

impl Month {
    /// The year this month belongs to.
    pub open spec fn spec_year(self) -> int {
        self.index as int / 12
    }

    /// The month number within its year, 1 to 12.
    pub open spec fn spec_month(self) -> int {
        self.index as int % 12 + 1
    }

    pub open spec fn spec_of_year_month(y: int, m: int) -> Month {
        Month { index: (12 * y + (m - 1)) as i32 }
    }

    /// Relates the index to its year and month components.
    pub proof fn lemma_components(self)
        requires
            self.wf(),
        ensures
            MIN_YEAR <= self.spec_year() <= MAX_YEAR,
            1 <= self.spec_month() <= 12,
            self.index as int == 12 * self.spec_year() + (self.spec_month() - 1),
            Month::spec_of_year_month(self.spec_year(), self.spec_month()) == self,
    {
        vstd::arithmetic::div_mod::lemma_fundamental_div_mod(self.index as int, 12);
        if self.spec_year() < MIN_YEAR || self.spec_year() > MAX_YEAR {
            assert(false);
        }
    }

    /// First day of the month.
    pub fn saturating_first_day(&self) -> (r: Date)
        requires
            self.wf(),
        ensures
            r == (Date { year: self.spec_year() as i32, month: self.spec_month() as u8, day: 1u8 }),
            r.wf(),
            r.day_num() == self.anchor_day(),
    {
        proof {
            self.lemma_components();
        }
        let shifted: u32 = (self.index - 12 * MIN_YEAR) as u32;
        proof {
            lemma_hoist_over_denominator(self.index as int, -(MIN_YEAR as int), 12);
            lemma_mod_multiples_vanish(-(MIN_YEAR as int), self.index as int, 12);
        }
        let year: i32 = MIN_YEAR + (shifted / 12) as i32;
        let month: u8 = (shifted % 12 + 1) as u8;
        Date { year, month, day: 1 }
    }

    /// The year number of this month, as an executable value.
    pub fn year_number(&self) -> (r: i32)
        requires
            self.wf(),
        ensures
            r == self.spec_year(),
    {
        proof {
            self.lemma_components();
            lemma_hoist_over_denominator(self.index as int, -(MIN_YEAR as int), 12);
        }
        let shifted: u32 = (self.index - 12 * MIN_YEAR) as u32;
        MIN_YEAR + (shifted / 12) as i32
    }

    /// January of the given year.
    pub fn first_month_of_year(y: i32) -> (r: Month)
        requires
            MIN_YEAR <= y <= MAX_YEAR,
        ensures
            r == Month::spec_of_year_month(y as int, 1),
            r.wf(),
    {
        Month { index: 12 * y }
    }
}

impl Timespan for Month {
    open spec fn wf(self) -> bool {
        min_month_index() <= self.index <= max_month_index()
    }

    open spec fn key(self) -> int {
        self.index as int
    }

    open spec fn anchor_day(self) -> int {
        day_num_of(self.spec_year(), self.spec_month(), 1)
    }

    open spec fn spec_from_day(day: int) -> Self {
        Month::spec_of_year_month(
            date_of_day_spec(day).year as int,
            date_of_day_spec(day).month as int,
        )
    }

    open spec fn spec_add(self, n: nat) -> Self {
        if self.index + n > max_month_index() {
            Month { index: max_month_index() as i32 }
        } else {
            Month { index: (self.index + n) as i32 }
        }
    }

    open spec fn spec_sub(self, n: nat) -> Self {
        if self.index - n < min_month_index() {
            Month { index: min_month_index() as i32 }
        } else {
            Month { index: (self.index - n) as i32 }
        }
    }

    open spec fn start_sec(self) -> int {
        day_start_sec(self.anchor_day())
    }

    open spec fn max_elem() -> Self {
        Month { index: max_month_index() as i32 }
    }

    open spec fn resolution_spec() -> ResolutionKind {
        ResolutionKind::Month
    }

    proof fn lemma_from_day_wf(day: int) {
        lemma_date_of_day_spec(day);
        let d = date_of_day_spec(day);
        let r = Month::spec_of_year_month(d.year as int, d.month as int);
        r.lemma_components();
        let anchor_date = Date { year: d.year, month: d.month, day: 1u8 };
        lemma_day_num_bounds(d.year as int, d.month as int, 1);
        lemma_date_of_day_of_date(anchor_date);
    }

    proof fn lemma_key_injective(a: Self, b: Self) {
    }

    proof fn lemma_key_anchor_monotone(a: Self, b: Self) {
        a.lemma_components();
        b.lemma_components();
        if a.index < b.index {
            lemma_day_num_strict_mono(
                a.spec_year(),
                a.spec_month(),
                1,
                b.spec_year(),
                b.spec_month(),
                1,
            );
        }
    }

    proof fn lemma_add_sub(t: Self, n: nat) {
    }

    fn enum_variant() -> (r: ResolutionKind) {
        ResolutionKind::Month
    }

    fn from_date(date: Date) -> (r: Self) {
        proof {
            lemma_date_of_day_of_date(date);
        }
        Month { index: 12 * date.year + (date.month as i32 - 1) }
    }

    fn into_date(self) -> (r: Date) {
        self.saturating_first_day()
    }

    fn saturating_start_timestamp(&self) -> (t: Timestamp) {
        let first = self.saturating_first_day();
        Timestamp::start_of_day(&first)
    }

    fn saturating_add(&self, duration: TimespanDuration<Self>) -> (r: Self) {
        let repeats: u64 = duration.repeats();
        let target: i64 = if repeats > 8_000_000 {
            12 * MAX_YEAR as i64 + 12
        } else {
            self.index as i64 + repeats as i64
        };
        if target > 12 * MAX_YEAR as i64 + 11 {
            Month { index: 12 * MAX_YEAR + 11 }
        } else {
            Month { index: target as i32 }
        }
    }

    fn saturating_sub(&self, duration: TimespanDuration<Self>) -> (r: Self) {
        let repeats: u64 = duration.repeats();
        let target: i64 = if repeats > 8_000_000 {
            12 * MIN_YEAR as i64 - 1
        } else {
            self.index as i64 - repeats as i64
        };
        if target < 12 * MIN_YEAR as i64 {
            Month { index: 12 * MIN_YEAR }
        } else {
            Month { index: target as i32 }
        }
    }

    fn le(&self, other: &Self) -> (b: bool) {
        self.index <= other.index
    }
}

impl ConsistsOf<Date> for Month {
    open spec fn smaller_wf(smaller: Date) -> bool {
        smaller.wf()
    }

    open spec fn larger_wf(self) -> bool {
        self.wf()
    }

    open spec fn spec_from_smaller(smaller: Date) -> Self {
        Month::spec_of_year_month(smaller.year as int, smaller.month as int)
    }

    open spec fn spec_into_smaller(self) -> Date {
        Date { year: self.spec_year() as i32, month: self.spec_month() as u8, day: 1u8 }
    }

    fn from_smaller(smaller: Date) -> (r: Self) {
        Month { index: 12 * smaller.year + (smaller.month as i32 - 1) }
    }

    fn into_smaller(self) -> (r: Date) {
        self.saturating_first_day()
    }
}

} // verus!
