//! A week starting on Monday, stored as the day number of its Monday.
//!
//! Day 1 of the calendar (year 1, January 1) is a Monday, so a day number
//! `x` is a Monday exactly when `(x - 1) % 7 == 0`. The Monday of the week
//! containing the first representable date may itself lie just before the
//! representable range; such a week is kept with its true (unrepresentable)
//! Monday and is clamped only when converted to a date.

use vstd::prelude::*;
use vstd::arithmetic::div_mod::{
    lemma_fundamental_div_mod, lemma_mod_multiples_basic, lemma_mod_multiples_vanish,
    lemma_small_mod,
};
use crate::date::{Date, lemma_day_range_numeric, max_day_num, min_day_num};
use crate::duration::TimespanDuration;
use crate::resolution::ResolutionKind;
use crate::timespans::{max_day_num_exec, min_day_num_exec};
use crate::timestamp::{Timestamp, day_start_sec};
use crate::traits::{ConsistsOf, Timespan};
use crate::values::TimespanValue;

verus! {

/// A value observed for one week.
pub type WeekValue<V> = TimespanValue<Week, V>;

/// The Monday on or before day `x`.
pub open spec fn week_anchor_of(x: int) -> int {
    x - ((x - 1) % 7)
}

pub open spec fn min_week_anchor() -> int {
    week_anchor_of(min_day_num())
}

pub open spec fn max_week_anchor() -> int {
    week_anchor_of(max_day_num())
}

/// The week containing a day has a Monday within the six days before it.
pub proof fn lemma_anchor_props(x: int)
    ensures
        x - 6 <= week_anchor_of(x) <= x,
        (week_anchor_of(x) - 1) % 7 == 0,
{
    lemma_fundamental_div_mod(x - 1, 7);
    lemma_mod_multiples_basic((x - 1) / 7, 7);
}

/// Every day within a Monday-started week has that Monday as its anchor.
pub proof fn lemma_anchor_of_aligned(a: int, x: int)
    requires
        (a - 1) % 7 == 0,
        a <= x <= a + 6,
    ensures
        week_anchor_of(x) == a,
{
    lemma_fundamental_div_mod(a - 1, 7);
    lemma_mod_multiples_vanish((a - 1) / 7, x - a, 7);
    lemma_small_mod((x - a) as nat, 7);
}

/// Shifting by whole weeks shifts the anchor by the same amount.
pub proof fn lemma_anchor_shift(x: int, j: int)
    ensures
        week_anchor_of(x + 7 * j) == week_anchor_of(x) + 7 * j,
{
    lemma_mod_multiples_vanish(j, x - 1, 7);
}

/// A week starting from Monday.
#[derive(Clone, Copy, Debug, PartialEq, Eq, Structural, Hash)]
pub struct Week {
    pub anchor: i64,
}

impl Week {
    /// The week containing the given day.
    pub fn new(day: Date) -> (r: Week)
        requires
            day.wf(),
        ensures
            r == Week::spec_from_day(day.day_num()),
            r.wf(),
    {
        Week::from_date(day)
    }

    /// The week's Monday, or `None` when it lies before the representable
    /// range (the week of the first representable date).
    pub fn checked_first_day(&self) -> (r: Option<Date>)
        requires
            self.wf(),
        ensures
            r is Some <==> self.anchor >= min_day_num(),
            r is Some ==> r.unwrap().wf() && r.unwrap().day_num() == self.anchor,
    {
        let mind: i64 = min_day_num_exec();
        if self.anchor >= mind {
            Some(Date::from_day_num(self.anchor))
        } else {
            None
        }
    }

    /// First day of the week, or the first representable date.
    pub fn saturating_first_day(&self) -> (r: Date)
        requires
            self.wf(),
        ensures
            r.wf(),
            r.day_num() == self.anchor_day(),
    {
        match self.checked_first_day() {
            Some(d) => d,
            None => Date::min_date(),
        }
    }

    /// The week's Sunday, or `None` when it lies past the representable
    /// range (the week of the last representable date, unless that date is
    /// itself a Sunday).
    pub fn checked_last_day(&self) -> (r: Option<Date>)
        requires
            self.wf(),
        ensures
            r is Some <==> self.anchor + 6 <= max_day_num(),
            r is Some ==> r.unwrap().wf() && r.unwrap().day_num() == self.anchor + 6,
    {
        proof {
            lemma_day_range_numeric();
        }
        let maxd: i64 = max_day_num_exec();
        if self.anchor <= maxd - 6 {
            Some(Date::from_day_num(self.anchor + 6))
        } else {
            None
        }
    }

    /// Last day of the week, or the last representable date.
    pub fn saturating_last_day(&self) -> (r: Date)
        requires
            self.wf(),
        ensures
            r.wf(),
            r.day_num() == (if self.anchor + 6 <= max_day_num() {
                self.anchor + 6
            } else {
                max_day_num()
            }),
    {
        match self.checked_last_day() {
            Some(d) => d,
            None => Date::max_date(),
        }
    }

    /// Both ends of the week, when both are representable.
    pub fn checked_days(&self) -> (r: Option<(Date, Date)>)
        requires
            self.wf(),
        ensures
            r is Some <==> (self.anchor >= min_day_num() && self.anchor + 6 <= max_day_num()),
            r is Some ==> r.unwrap().0.day_num() == self.anchor && r.unwrap().1.day_num()
                == self.anchor + 6,
    {
        let first = self.checked_first_day();
        let last = self.checked_last_day();
        match (first, last) {
            (Some(f), Some(l)) => Some((f, l)),
            _ => None,
        }
    }

    /// The week right after this one (saturating).
    pub fn saturating_next_week(&self) -> (r: Week)
        requires
            self.wf(),
        ensures
            r == self.spec_add(1),
            r.wf(),
    {
        self.saturating_add(TimespanDuration::from_timespan_repeats(1))
    }

    /// The week right before this one (saturating).
    pub fn saturating_previous_week(&self) -> (r: Week)
        requires
            self.wf(),
        ensures
            r == self.spec_sub(1),
            r.wf(),
    {
        self.saturating_sub(TimespanDuration::from_timespan_repeats(1))
    }
}

impl Timespan for Week {
    open spec fn wf(self) -> bool {
        &&& (self.anchor - 1) % 7 == 0
        &&& min_day_num() - 6 <= self.anchor <= max_day_num()
    }

    open spec fn key(self) -> int {
        self.anchor as int
    }

    open spec fn anchor_day(self) -> int {
        if self.anchor < min_day_num() {
            min_day_num()
        } else {
            self.anchor as int
        }
    }

    open spec fn spec_from_day(day: int) -> Self {
        Week { anchor: week_anchor_of(day) as i64 }
    }

    open spec fn spec_add(self, n: nat) -> Self {
        if self.anchor_day() + 7 * n <= max_day_num() {
            Week { anchor: week_anchor_of(self.anchor_day() + 7 * n) as i64 }
        } else {
            Week { anchor: max_week_anchor() as i64 }
        }
    }

    open spec fn spec_sub(self, n: nat) -> Self {
        if self.anchor_day() - 7 * n >= min_day_num() {
            Week { anchor: week_anchor_of(self.anchor_day() - 7 * n) as i64 }
        } else {
            Week { anchor: min_week_anchor() as i64 }
        }
    }

    open spec fn start_sec(self) -> int {
        day_start_sec(self.anchor_day())
    }

    open spec fn max_elem() -> Self {
        Week { anchor: max_week_anchor() as i64 }
    }

    open spec fn resolution_spec() -> ResolutionKind {
        ResolutionKind::Week
    }

    proof fn lemma_from_day_wf(day: int) {
        lemma_day_range_numeric();
        lemma_anchor_props(day);
        let w = Week::spec_from_day(day);
        if w.anchor >= min_day_num() {
            lemma_anchor_of_aligned(w.anchor as int, w.anchor_day());
        } else {
            lemma_anchor_of_aligned(w.anchor as int, min_day_num());
        }
    }

    proof fn lemma_key_injective(a: Self, b: Self) {
    }

    proof fn lemma_key_anchor_monotone(a: Self, b: Self) {
    }

    #[verifier::rlimit(60)]
    proof fn lemma_add_sub(t: Self, n: nat) {
        lemma_day_range_numeric();
        let sfd = t.anchor_day();
        let up = t.spec_add(n);
        lemma_anchor_props(min_day_num());
        lemma_anchor_props(max_day_num());
        // The anchor of the day the week is stored under is the week itself.
        lemma_anchor_of_aligned(t.anchor as int, sfd);
        if sfd + 7 * n <= max_day_num() {
            lemma_anchor_shift(sfd, n as int);
            assert(up.anchor == t.anchor + 7 * n);
            assert((up.anchor - 1) % 7 == 0) by {
                lemma_anchor_props(sfd + 7 * n);
            }
            assert(up.wf());
            // Walking back `n` weeks from the forward result returns `t`.
            let down = up.spec_sub(n);
            if n == 0 {
                if t.anchor >= min_day_num() {
                    lemma_anchor_of_aligned(t.anchor as int, t.anchor as int);
                } else {
                    lemma_anchor_of_aligned(t.anchor as int, min_day_num());
                }
                assert(down == t);
            } else {
                assert(up.anchor >= min_day_num());
                assert(up.anchor_day() == up.anchor as int);
                if t.anchor >= min_day_num() {
                    lemma_anchor_of_aligned(t.anchor as int, t.anchor as int);
                } else {
                    lemma_anchor_of_aligned(t.anchor as int, min_day_num());
                }
                assert(down == t);
            }
        } else {
            assert(up == Self::max_elem());
        }
        // Well-formedness of stepping backward from `t` itself.
        if sfd - 7 * n >= min_day_num() {
            lemma_anchor_props(sfd - 7 * n);
        }
    }

    fn enum_variant() -> (r: ResolutionKind) {
        ResolutionKind::Week
    }

    #[verifier::rlimit(60)]
    fn from_date(date: Date) -> (r: Self) {
        let day: i64 = date.to_day_num();
        proof {
            lemma_day_range_numeric();
            lemma_mod_multiples_vanish(96_000_000, day as int - 1, 7);
        }
        let shifted: u64 = ((day - 1) + 672_000_000) as u64;
        let offset: i64 = (shifted % 7) as i64;
        proof {
            assert(shifted as int == (day as int - 1) + 7 * 96_000_000);
            assert(offset == (day as int - 1) % 7);
        }
        let anchor: i64 = day - offset;
        proof {
            crate::date::lemma_date_of_day_of_date(date);
            lemma_anchor_props(day as int);
            assert(anchor == week_anchor_of(day as int));
            assert(-96_000_007 <= week_anchor_of(day as int) <= 96_001_000);
            assert(anchor == week_anchor_of(date.day_num()) as i64);
        }
        let r = Week { anchor };
        proof {
            assert(r == Week::spec_from_day(date.day_num()));
            assert(r.wf());
        }
        r
    }

    fn into_date(self) -> (r: Date) {
        self.saturating_first_day()
    }

    fn saturating_start_timestamp(&self) -> (t: Timestamp) {
        let first = self.saturating_first_day();
        Timestamp::start_of_day(&first)
    }

    #[verifier::rlimit(60)]
    fn saturating_add(&self, duration: TimespanDuration<Self>) -> (r: Self) {
        proof {
            lemma_day_range_numeric();
        }
        let maxd: i64 = max_day_num_exec();
        let first = self.saturating_first_day();
        let sfd: i64 = first.to_day_num();
        let repeats: u64 = duration.repeats();
        let capped: i64 = if repeats > 28_000_000 {
            28_000_001
        } else {
            repeats as i64
        };
        let target: i64 = sfd + 7 * capped;
        if target <= maxd {
            proof {
                if repeats > 28_000_000 {
                    assert(target >= min_day_num() + 7 * 28_000_001);
                    assert(false);
                }
                assert(capped == repeats as int);
            }
            let r = Week::from_date(Date::from_day_num(target));
            proof {
                assert(r == Week::spec_from_day(target as int));
                assert(target as int == self.anchor_day() + 7 * (repeats as int));
            }
            r
        } else {
            let r = Week::from_date(Date::max_date());
            proof {
                if self.anchor_day() + 7 * (repeats as int) <= max_day_num() {
                    assert(repeats <= 28_000_000);
                    assert(capped == repeats as int);
                    assert(false);
                }
            }
            r
        }
    }

    #[verifier::rlimit(60)]
    fn saturating_sub(&self, duration: TimespanDuration<Self>) -> (r: Self) {
        proof {
            lemma_day_range_numeric();
        }
        let mind: i64 = min_day_num_exec();
        let first = self.saturating_first_day();
        let sfd: i64 = first.to_day_num();
        let repeats: u64 = duration.repeats();
        let capped: i64 = if repeats > 28_000_000 {
            28_000_001
        } else {
            repeats as i64
        };
        let target: i64 = sfd - 7 * capped;
        if target >= mind {
            proof {
                if repeats > 28_000_000 {
                    assert(target <= max_day_num() - 7 * 28_000_001);
                    assert(false);
                }
                assert(capped == repeats as int);
            }
            let r = Week::from_date(Date::from_day_num(target));
            proof {
                assert(r == Week::spec_from_day(target as int));
                assert(target as int == self.anchor_day() - 7 * (repeats as int));
            }
            r
        } else {
            let r = Week::from_date(Date::min_date());
            proof {
                if self.anchor_day() - 7 * (repeats as int) >= min_day_num() {
                    assert(repeats <= 28_000_000);
                    assert(capped == repeats as int);
                    assert(false);
                }
            }
            r
        }
    }

    fn le(&self, other: &Self) -> (b: bool) {
        self.anchor <= other.anchor
    }
}

impl ConsistsOf<Date> for Week {
    open spec fn smaller_wf(smaller: Date) -> bool {
        smaller.wf()
    }

    open spec fn larger_wf(self) -> bool {
        self.wf()
    }

    open spec fn spec_from_smaller(smaller: Date) -> Self {
        Week::spec_from_day(smaller.day_num())
    }

    open spec fn spec_into_smaller(self) -> Date {
        crate::date::date_of_day_spec(self.anchor_day())
    }

    fn from_smaller(smaller: Date) -> (r: Self) {
        Week::from_date(smaller)
    }

    fn into_smaller(self) -> (r: Date) {
        let d = self.saturating_first_day();
        proof {
            crate::date::lemma_date_of_day_of_date(d);
        }
        d
    }
}

} // verus!
