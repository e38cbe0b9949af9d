//! A calendar date on the proleptic Gregorian calendar, restricted to the
//! same year range as the `chrono` crate's `NaiveDate` (so that saturation
//! behaves identically), together with its day-number model: day 1 is the
//! first of January of year 1, which is a Monday.

use vstd::prelude::*;
use vstd::arithmetic::div_mod::lemma_mod_multiples_vanish;

verus! {

/// First year with representable dates, as in `chrono`.
pub const MIN_YEAR: i32 = -262143;
/// Last year with representable dates, as in `chrono`.
pub const MAX_YEAR: i32 = 262142;

pub open spec fn is_leap_spec(y: int) -> bool {
    (y % 4 == 0 && y % 100 != 0) || y % 400 == 0
}

pub open spec fn days_in_year_spec(y: int) -> int {
    if is_leap_spec(y) {
        366
    } else {
        365
    }
}

pub open spec fn days_in_month_spec(y: int, m: int) -> int {
    if m == 1 {
        31
    } else if m == 2 {
        if is_leap_spec(y) {
            29
        } else {
            28
        }
    } else if m == 3 {
        31
    } else if m == 4 {
        30
    } else if m == 5 {
        31
    } else if m == 6 {
        30
    } else if m == 7 {
        31
    } else if m == 8 {
        31
    } else if m == 9 {
        30
    } else if m == 10 {
        31
    } else if m == 11 {
        30
    } else {
        31
    }
}

/// Days of year `y` that precede the first day of month `m`.
pub open spec fn days_before_month_spec(y: int, m: int) -> int {
    let l: int = if is_leap_spec(y) {
        1
    } else {
        0
    };
    if m == 1 {
        0
    } else if m == 2 {
        31
    } else if m == 3 {
        59 + l
    } else if m == 4 {
        90 + l
    } else if m == 5 {
        120 + l
    } else if m == 6 {
        151 + l
    } else if m == 7 {
        181 + l
    } else if m == 8 {
        212 + l
    } else if m == 9 {
        243 + l
    } else if m == 10 {
        273 + l
    } else if m == 11 {
        304 + l
    } else {
        334 + l
    }
}

/// Days that precede the first day of year `y`, counted from the first day
/// of year 1 (negative for earlier years).
pub open spec fn days_before_year_spec(y: int) -> int
    decreases (if y >= 1 { y } else { 2 - y }),
{
    if y == 1 {
        0
    } else if y > 1 {
        days_before_year_spec(y - 1) + days_in_year_spec(y - 1)
    } else {
        days_before_year_spec(y + 1) - days_in_year_spec(y)
    }
}

/// The day number of a date: day 1 is year 1, January 1 (a Monday).
pub open spec fn day_num_of(y: int, m: int, d: int) -> int {
    days_before_year_spec(y) + days_before_month_spec(y, m) + d
}

pub open spec fn valid_ymd(y: int, m: int, d: int) -> bool {
    &&& MIN_YEAR <= y <= MAX_YEAR
    &&& 1 <= m <= 12
    &&& 1 <= d <= days_in_month_spec(y, m)
}

pub open spec fn min_day_num() -> int {
    day_num_of(MIN_YEAR as int, 1, 1)
}

pub open spec fn max_day_num() -> int {
    day_num_of(MAX_YEAR as int, 12, 31)
}

pub proof fn lemma_dby_step(y: int)
    ensures
        days_before_year_spec(y + 1) == days_before_year_spec(y) + days_in_year_spec(y),
{
    if y + 1 <= 1 {
        assert(days_before_year_spec(y) == days_before_year_spec(y + 1) - days_in_year_spec(y));
    }
}

/// Every year has 365 or 366 days, so day counts over a span of years are
/// bounded linearly by the span.
pub proof fn lemma_dby_range(y1: int, y2: int)
    requires
        y1 <= y2,
    ensures
        days_before_year_spec(y1) + 365 * (y2 - y1) <= days_before_year_spec(y2),
        days_before_year_spec(y2) <= days_before_year_spec(y1) + 366 * (y2 - y1),
    decreases y2 - y1,
{
    if y1 < y2 {
        lemma_dby_range(y1, y2 - 1);
        lemma_dby_step(y2 - 1);
    }
}

/// Numeric bounds for day counts over the supported year range.
pub proof fn lemma_dby_in_bounds(y: int)
    requires
        MIN_YEAR <= y <= MAX_YEAR + 1,
    ensures
        -96_000_000 <= days_before_year_spec(y) <= 96_000_000,
{
    if y >= 1 {
        lemma_dby_range(1, y);
    } else {
        lemma_dby_range(y, 1);
    }
}

/// A valid date falls inside its own year's day-count span.
pub proof fn lemma_day_num_in_year(y: int, m: int, d: int)
    requires
        valid_ymd(y, m, d),
    ensures
        days_before_year_spec(y) + 1 <= day_num_of(y, m, d),
        day_num_of(y, m, d) <= days_before_year_spec(y) + days_in_year_spec(y),
{
}

/// The day number is strictly monotone in the lexicographic order of
/// (year, month, day); hence it identifies a valid date uniquely.
pub proof fn lemma_day_num_strict_mono(y1: int, m1: int, d1: int, y2: int, m2: int, d2: int)
    requires
        valid_ymd(y1, m1, d1),
        valid_ymd(y2, m2, d2),
        (y1 < y2) || (y1 == y2 && m1 < m2) || (y1 == y2 && m1 == m2 && d1 < d2),
    ensures
        day_num_of(y1, m1, d1) < day_num_of(y2, m2, d2),
{
    if y1 < y2 {
        lemma_day_num_in_year(y1, m1, d1);
        lemma_day_num_in_year(y2, m2, d2);
        lemma_dby_step(y1);
        lemma_dby_range(y1 + 1, y2);
    }
}

pub proof fn lemma_day_num_injective(y1: int, m1: int, d1: int, y2: int, m2: int, d2: int)
    requires
        valid_ymd(y1, m1, d1),
        valid_ymd(y2, m2, d2),
        day_num_of(y1, m1, d1) == day_num_of(y2, m2, d2),
    ensures
        y1 == y2 && m1 == m2 && d1 == d2,
{
    if (y1 < y2) || (y1 == y2 && m1 < m2) || (y1 == y2 && m1 == m2 && d1 < d2) {
        lemma_day_num_strict_mono(y1, m1, d1, y2, m2, d2);
    } else if (y2 < y1) || (y2 == y1 && m2 < m1) || (y2 == y1 && m2 == m1 && d2 < d1) {
        lemma_day_num_strict_mono(y2, m2, d2, y1, m1, d1);
    }
}

/// Every day number in range is the day number of some valid date.
pub proof fn lemma_exists_date_for_day(n: int)
    requires
        min_day_num() <= n <= max_day_num(),
    ensures
        exists|d: Date| d.wf() && d.day_num() == n,
    decreases n - min_day_num(),
{
    if n == min_day_num() {
        let d = Date { year: MIN_YEAR, month: 1u8, day: 1u8 };
        assert(d.wf() && d.day_num() == n);
    } else {
        lemma_exists_date_for_day(n - 1);
        let prev = choose|d: Date| d.wf() && d.day_num() == n - 1;
        if (prev.day as int) < days_in_month_spec(prev.year as int, prev.month as int) {
            let d2 = Date { year: prev.year, month: prev.month, day: (prev.day + 1) as u8 };
            assert(d2.wf() && d2.day_num() == n);
        } else if prev.month < 12 {
            let d2 = Date { year: prev.year, month: (prev.month + 1) as u8, day: 1u8 };
            assert(d2.wf() && d2.day_num() == n);
        } else {
            if prev.year == MAX_YEAR {
                // Then `prev` is the last representable date and `n` would
                // fall past the range.
                assert(false);
            }
            let d2 = Date { year: (prev.year + 1) as i32, month: 1u8, day: 1u8 };
            lemma_dby_step(prev.year as int);
            assert(d2.wf() && d2.day_num() == n);
        }
    }
}

/// The valid date with the given day number (unique by
/// `lemma_day_num_injective`).
pub open spec fn date_of_day_spec(n: int) -> Date {
    choose|d: Date| d.wf() && d.day_num() == n
}

pub proof fn lemma_date_of_day_spec(n: int)
    requires
        min_day_num() <= n <= max_day_num(),
    ensures
        date_of_day_spec(n).wf(),
        date_of_day_spec(n).day_num() == n,
{
    lemma_exists_date_for_day(n);
}

/// Applying `date_of_day_spec` to a valid date's day number gives that date back.
pub proof fn lemma_date_of_day_of_date(d: Date)
    requires
        d.wf(),
    ensures
        date_of_day_spec(d.day_num()) == d,
{
    lemma_day_num_bounds(d.year as int, d.month as int, d.day as int);
    lemma_date_of_day_spec(d.day_num());
    let d2 = date_of_day_spec(d.day_num());
    lemma_day_num_injective(
        d.year as int,
        d.month as int,
        d.day as int,
        d2.year as int,
        d2.month as int,
        d2.day as int,
    );
}

pub fn is_leap_year(y: i32) -> (b: bool)
    requires
        MIN_YEAR <= y <= MAX_YEAR + 1,
    ensures
        b == is_leap_spec(y as int),
{
    let shifted: u32 = (y + 400_000) as u32;
    proof {
        lemma_mod_multiples_vanish(100_000, y as int, 4);
        lemma_mod_multiples_vanish(4_000, y as int, 100);
        lemma_mod_multiples_vanish(1_000, y as int, 400);
    }
    (shifted % 4 == 0 && shifted % 100 != 0) || shifted % 400 == 0
}

pub fn days_in_year_of(y: i32) -> (n: u16)
    requires
        MIN_YEAR <= y <= MAX_YEAR + 1,
    ensures
        n == days_in_year_spec(y as int),
{
    if is_leap_year(y) {
        366
    } else {
        365
    }
}

pub fn days_in_month_of(y: i32, m: u8) -> (n: u8)
    requires
        MIN_YEAR <= y <= MAX_YEAR,
        1 <= m <= 12,
    ensures
        n == days_in_month_spec(y as int, m as int),
{
    if m == 1 {
        31
    } else if m == 2 {
        if is_leap_year(y) {
            29
        } else {
            28
        }
    } else if m == 3 {
        31
    } else if m == 4 {
        30
    } else if m == 5 {
        31
    } else if m == 6 {
        30
    } else if m == 7 {
        31
    } else if m == 8 {
        31
    } else if m == 9 {
        30
    } else if m == 10 {
        31
    } else if m == 11 {
        30
    } else {
        31
    }
}

pub fn days_before_month_of(y: i32, m: u8) -> (n: u16)
    requires
        MIN_YEAR <= y <= MAX_YEAR,
        1 <= m <= 12,
    ensures
        n == days_before_month_spec(y as int, m as int),
{
    let l: u16 = if is_leap_year(y) {
        1
    } else {
        0
    };
    if m == 1 {
        0
    } else if m == 2 {
        31
    } else if m == 3 {
        59 + l
    } else if m == 4 {
        90 + l
    } else if m == 5 {
        120 + l
    } else if m == 6 {
        151 + l
    } else if m == 7 {
        181 + l
    } else if m == 8 {
        212 + l
    } else if m == 9 {
        243 + l
    } else if m == 10 {
        273 + l
    } else if m == 11 {
        304 + l
    } else {
        334 + l
    }
}

/// Days that precede the first day of year `y`, as an executable count.
pub fn days_before_year_of(y: i32) -> (n: i64)
    requires
        MIN_YEAR <= y <= MAX_YEAR + 1,
    ensures
        n == days_before_year_spec(y as int),
{
    let mut yy: i32 = 1;
    let mut acc: i64 = 0;
    if y >= 1 {
        while yy < y
            invariant
                1 <= yy <= y,
                y <= MAX_YEAR + 1,
                acc == days_before_year_spec(yy as int),
                -96_000_000 <= acc <= 96_000_000,
            decreases y - yy,
        {
            proof {
                lemma_dby_step(yy as int);
                lemma_dby_in_bounds(yy + 1);
            }
            acc = acc + days_in_year_of(yy) as i64;
            yy = yy + 1;
        }
    } else {
        while yy > y
            invariant
                y <= yy <= 1,
                MIN_YEAR <= y,
                acc == days_before_year_spec(yy as int),
                -96_000_000 <= acc <= 96_000_000,
            decreases yy - y,
        {
            proof {
                lemma_dby_step(yy - 1);
                lemma_dby_in_bounds(yy - 1);
            }
            acc = acc - days_in_year_of(yy - 1) as i64;
            yy = yy - 1;
        }
    }
    acc
}

/// A calendar date within the supported year range.
#[derive(Clone, Copy, Debug, PartialEq, Eq, Structural, Hash)]
pub struct Date {
    pub year: i32,
    pub month: u8,
    pub day: u8,
}

impl Date {
    pub open spec fn wf(self) -> bool {
        valid_ymd(self.year as int, self.month as int, self.day as int)
    }

    /// The mathematical model of a date: its day number.
    pub open spec fn day_num(self) -> int {
        day_num_of(self.year as int, self.month as int, self.day as int)
    }

    /// Builds a date, or returns `None` when the components do not name a
    /// calendar date in the supported range.
    pub fn from_ymd_opt(year: i32, month: u8, day: u8) -> (r: Option<Date>)
        ensures
            r is Some <==> valid_ymd(year as int, month as int, day as int),
            r is Some ==> r.unwrap() == (Date { year, month, day }),
    {
        if MIN_YEAR <= year && year <= MAX_YEAR && 1 <= month && month <= 12 && 1 <= day
            && day <= days_in_month_of(year, month) {
            Some(Date { year, month, day })
        } else {
            None
        }
    }

    /// The earliest representable date.
    pub fn min_date() -> (r: Date)
        ensures
            r == (Date { year: MIN_YEAR, month: 1u8, day: 1u8 }),
            r.wf(),
            r.day_num() == min_day_num(),
    {
        Date { year: MIN_YEAR, month: 1, day: 1 }
    }

    /// The latest representable date.
    pub fn max_date() -> (r: Date)
        ensures
            r == (Date { year: MAX_YEAR, month: 12u8, day: 31u8 }),
            r.wf(),
            r.day_num() == max_day_num(),
    {
        Date { year: MAX_YEAR, month: 12, day: 31 }
    }

    /// The day number of this date, as an executable count.
    pub fn to_day_num(&self) -> (n: i64)
        requires
            self.wf(),
        ensures
            n == self.day_num(),
            min_day_num() <= n <= max_day_num(),
    {
        proof {
            lemma_dby_in_bounds(self.year as int);
            lemma_day_num_bounds(self.year as int, self.month as int, self.day as int);
        }
        days_before_year_of(self.year) + days_before_month_of(self.year, self.month) as i64
            + self.day as i64
    }

    /// The date with the given day number.
    pub fn from_day_num(n: i64) -> (r: Date)
        requires
            min_day_num() <= n <= max_day_num(),
        ensures
            r.wf(),
            r.day_num() == n,
            r == date_of_day_spec(n as int),
    {
        let mut y: i32 = 1;
        let mut acc: i64 = 0;
        if n >= 1 {
            // Walk forward until year `y` contains day `n`.
            let mut dy: i64 = days_in_year_of(y) as i64;
            while acc + dy < n
                invariant
                    1 <= y <= MAX_YEAR,
                    n <= max_day_num(),
                    acc == days_before_year_spec(y as int),
                    dy == days_in_year_spec(y as int),
                    acc < n,
                    -96_000_000 <= acc <= 96_000_000,
                decreases MAX_YEAR - y,
            {
                proof {
                    lemma_dby_step(y as int);
                    lemma_dby_in_bounds(y + 1);
                    if y == MAX_YEAR {
                        // Impossible: day `n` would lie past the range.
                        assert(false);
                    } else {
                        lemma_dby_range(y + 1, MAX_YEAR as int);
                    }
                }
                acc = acc + dy;
                y = y + 1;
                dy = days_in_year_of(y) as i64;
            }
        } else {
            // Walk backward until year `y` contains day `n`.
            while acc >= n
                invariant
                    MIN_YEAR <= y <= 1,
                    min_day_num() <= n,
                    n <= 0,
                    acc == days_before_year_spec(y as int),
                    n <= days_before_year_spec(y as int) + days_in_year_spec(y as int),
                    -96_000_000 <= acc <= 96_000_000,
                decreases y - MIN_YEAR,
            {
                proof {
                    lemma_dby_step(y - 1);
                    lemma_dby_in_bounds(y - 1);
                    if y == MIN_YEAR {
                        // Impossible: day `n` would lie before the range.
                        assert(false);
                    }
                }
                acc = acc - days_in_year_of(y - 1) as i64;
                y = y - 1;
            }
        }
        // Here `acc == days_before_year_spec(y)` and the target day lies in year `y`.
        let mut rem: i64 = n - acc;
        assert(1 <= rem && rem <= days_in_year_spec(y as int));
        let mut m: u8 = 1;
        let mut dm: i64 = days_in_month_of(y, m) as i64;
        while rem > dm
            invariant
                1 <= m <= 12,
                MIN_YEAR <= y <= MAX_YEAR,
                dm == days_in_month_spec(y as int, m as int),
                rem == n - days_before_year_spec(y as int) - days_before_month_spec(
                    y as int,
                    m as int,
                ),
                1 <= rem,
                n <= days_before_year_spec(y as int) + days_in_year_spec(y as int),
            decreases 12 - m,
        {
            rem = rem - dm;
            assert(m < 12);
            m = m + 1;
            dm = days_in_month_of(y, m) as i64;
        }
        let r = Date { year: y, month: m, day: rem as u8 };
        proof {
            lemma_date_of_day_of_date(r);
        }
        r
    }
}

/// Numeric bounds for the whole supported day-number range.
pub proof fn lemma_day_range_numeric()
    ensures
        -96_000_000 <= min_day_num(),
        max_day_num() <= 96_001_000,
{
    lemma_dby_in_bounds(MIN_YEAR as int);
    lemma_dby_in_bounds(MAX_YEAR as int);
}

/// A valid date's day number lies between the day numbers of the extreme dates.
pub proof fn lemma_day_num_bounds(y: int, m: int, d: int)
    requires
        valid_ymd(y, m, d),
    ensures
        min_day_num() <= day_num_of(y, m, d) <= max_day_num(),
{
    if y == MIN_YEAR && m == 1 && d == 1 {
    } else {
        lemma_day_num_strict_mono(MIN_YEAR as int, 1, 1, y, m, d);
    }
    if y == MAX_YEAR && m == 12 && d == 31 {
    } else {
        lemma_day_num_strict_mono(y, m, d, MAX_YEAR as int, 12, 31);
    }
}

} // verus!
