use stats::date::{Date, MAX_YEAR, MIN_YEAR};
use stats::duration::TimespanDuration;
use stats::resolution::ResolutionKind;
use stats::timespans::hour::Hour;
use stats::timespans::month::Month;
use stats::timespans::week::Week;
use stats::timespans::year::Year;
use stats::timestamp::Timestamp;
use stats::traits::{ConsistsOf, Timespan};
use chrono::Datelike;

fn d(y: i32, m: u8, day: u8) -> Date {
    Date::from_ymd_opt(y, m, day).unwrap()
}

#[test]
fn date_validity() {
    assert!(Date::from_ymd_opt(2024, 2, 29).is_some());
    assert!(Date::from_ymd_opt(2023, 2, 29).is_none());
    assert!(Date::from_ymd_opt(1900, 2, 29).is_none());
    assert!(Date::from_ymd_opt(2000, 2, 29).is_some());
    assert!(Date::from_ymd_opt(2024, 4, 31).is_none());
    assert!(Date::from_ymd_opt(2024, 13, 1).is_none());
    assert!(Date::from_ymd_opt(2024, 0, 1).is_none());
    assert!(Date::from_ymd_opt(MAX_YEAR + 1, 1, 1).is_none());
    assert!(Date::from_ymd_opt(MIN_YEAR - 1, 1, 1).is_none());
}

#[test]
fn date_day_numbers_match_chrono() {
    let samples = [
        (1, 1, 1),
        (1969, 12, 31),
        (1970, 1, 1),
        (2024, 2, 15),
        (2024, 2, 29),
        (2000, 3, 1),
        (-1, 12, 31),
        (-400, 2, 29),
        (MIN_YEAR, 1, 1),
        (MAX_YEAR, 12, 31),
    ];
    for (y, m, day) in samples {
        let ours = d(y, m as u8, day as u8).to_day_num();
        let theirs =
            chrono::NaiveDate::from_ymd_opt(y, m as u32, day as u32).unwrap().num_days_from_ce();
        assert_eq!(ours, theirs as i64, "date {y}-{m}-{day}");
        let back = Date::from_day_num(ours);
        assert_eq!(back, d(y, m as u8, day as u8));
    }
}

#[test]
fn date_range_matches_chrono() {
    let min = Date::min_date();
    assert_eq!(min.year, MIN_YEAR);
    let max = Date::max_date();
    assert_eq!(max.year, MAX_YEAR);
    assert_eq!(chrono::NaiveDate::MIN.year(), MIN_YEAR);
    assert_eq!(chrono::NaiveDate::MAX.year(), MAX_YEAR);
    assert_eq!(chrono::NaiveDate::MAX.month(), 12);
    assert_eq!(chrono::NaiveDate::MAX.day(), 31);
}

#[test]
fn month_anchors_to_first_day() {
    // A month made from any of its days stores under the month's first day.
    let month = Month::from_date(d(2024, 2, 15));
    assert_eq!(month.into_date(), d(2024, 2, 1));
}

#[test]
fn from_date_idempotent_all_variants() {
    let sample = d(2024, 2, 15);
    let m = Month::from_date(sample);
    assert_eq!(Month::from_date(m.into_date()), m);
    let y = Year::from_date(sample);
    assert_eq!(Year::from_date(y.into_date()), y);
    let w = Week::from_date(sample);
    assert_eq!(Week::from_date(w.into_date()), w);
    let h = Hour::from_date(sample);
    assert_eq!(Hour::from_date(h.into_date()), h);
    let day = <Date as Timespan>::from_date(sample);
    assert_eq!(<Date as Timespan>::from_date(day.into_date()), day);
    // Also at the edges of the range.
    let w_min = Week::from_date(Date::min_date());
    assert_eq!(Week::from_date(w_min.into_date()), w_min);
    let w_max = Week::from_date(Date::max_date());
    assert_eq!(Week::from_date(w_max.into_date()), w_max);
}

#[test]
fn week_of_a_thursday() {
    // 2024-02-15 is a Thursday; its week runs Monday 02-12 to Sunday 02-18.
    let week = Week::new(d(2024, 2, 15));
    assert_eq!(week.checked_first_day(), Some(d(2024, 2, 12)));
    assert_eq!(week.checked_last_day(), Some(d(2024, 2, 18)));
    assert_eq!(week.saturating_first_day(), d(2024, 2, 12));
    assert_eq!(week.saturating_last_day(), d(2024, 2, 18));
    assert_eq!(week.checked_days(), Some((d(2024, 2, 12), d(2024, 2, 18))));
    assert_eq!(
        chrono::NaiveDate::from_ymd_opt(2024, 2, 12).unwrap().weekday(),
        chrono::Weekday::Mon
    );
}

#[test]
fn week_matches_chrono_week() {
    for (y, m, day) in [(2024, 2, 15), (1970, 1, 1), (2000, 12, 31), (-5, 6, 17)] {
        let ours = Week::new(d(y, m as u8, day as u8));
        let theirs = chrono::NaiveDate::from_ymd_opt(y, m as u32, day as u32)
            .unwrap()
            .week(chrono::Weekday::Mon);
        let first = ours.checked_first_day().unwrap();
        let chrono_first = theirs.checked_first_day().unwrap();
        assert_eq!(first.year, chrono_first.year());
        assert_eq!(first.month as u32, chrono_first.month());
        assert_eq!(first.day as u32, chrono_first.day());
    }
}

#[test]
fn week_at_range_edges_does_not_panic() {
    let w_min = Week::new(Date::min_date());
    // Whether the Monday of the first week is representable depends only on
    // the calendar; saturating accessors must work either way.
    let first = w_min.saturating_first_day();
    assert_eq!(first, Date::min_date());
    let w_max = Week::new(Date::max_date());
    assert_eq!(w_max.saturating_last_day(), Date::max_date());
    let again = w_max.saturating_next_week();
    assert_eq!(again, w_max);
    let before_min = w_min.saturating_previous_week();
    assert_eq!(before_min, w_min);
}

#[test]
fn saturating_add_sub_round_trip() {
    let m = Month::from_date(d(2020, 5, 1));
    let n = TimespanDuration::from_timespan_repeats(25);
    assert_eq!(m.saturating_add(n.clone()).saturating_sub(n), m);
    let y = Year::from_date(d(1999, 7, 4));
    let n = TimespanDuration::from_timespan_repeats(1000);
    assert_eq!(y.saturating_add(n.clone()).saturating_sub(n), y);
    let w = Week::new(d(2024, 2, 15));
    let n = TimespanDuration::from_timespan_repeats(52);
    assert_eq!(w.saturating_add(n.clone()).saturating_sub(n), w);
    let h = Hour::from_date(d(2024, 2, 15));
    let n = TimespanDuration::from_timespan_repeats(1000);
    assert_eq!(h.saturating_add(n.clone()).saturating_sub(n), h);
}

#[test]
fn year_saturates_at_max_date() {
    // Stepping past the last representable year clamps and must not panic.
    let near_max = Year::from_date(d(MAX_YEAR - 2, 3, 14));
    let stepped = near_max.saturating_add(TimespanDuration::from_timespan_repeats(5));
    assert_eq!(stepped.number_within_naive_date(), MAX_YEAR);
    assert_eq!(stepped, Year::from_date(Date::max_date()));
    // A step that stays inside the range does not clamp.
    let y9999 = Year::from_date(d(9999, 1, 1));
    let stepped = y9999.saturating_add(TimespanDuration::from_timespan_repeats(5));
    assert_eq!(stepped.number_within_naive_date(), 10004);
    // A huge repeat count also clamps.
    let stepped = y9999.saturating_add(TimespanDuration::from_timespan_repeats(u64::MAX));
    assert_eq!(stepped.number_within_naive_date(), MAX_YEAR);
    let stepped = y9999.saturating_sub(TimespanDuration::from_timespan_repeats(u64::MAX));
    assert_eq!(stepped.number_within_naive_date(), MIN_YEAR);
}

#[test]
fn month_saturates_at_range_edges() {
    let near = Month::from_date(d(MAX_YEAR, 11, 30));
    let top = near.saturating_add(TimespanDuration::from_timespan_repeats(7));
    assert_eq!(top.into_date(), d(MAX_YEAR, 12, 1));
    let near = Month::from_date(d(MIN_YEAR, 2, 5));
    let bottom = near.saturating_sub(TimespanDuration::from_timespan_repeats(9));
    assert_eq!(bottom.into_date(), d(MIN_YEAR, 1, 1));
}

#[test]
fn month_calendar_arithmetic() {
    // Adding a month from late January anchors to the next month's first day.
    let jan = Month::from_date(d(2024, 1, 31));
    let feb = jan.saturating_add(TimespanDuration::from_timespan_repeats(1));
    assert_eq!(feb.into_date(), d(2024, 2, 1));
    let next_year = jan.saturating_add(TimespanDuration::from_timespan_repeats(12));
    assert_eq!(next_year.into_date(), d(2025, 1, 1));
}

#[test]
fn ordering_follows_anchor_dates() {
    let a = Month::from_date(d(2024, 1, 31));
    let b = Month::from_date(d(2024, 2, 1));
    assert!(a.le(&b));
    assert!(!b.le(&a));
    assert!(a.le(&a));
    let w1 = Week::new(Date::min_date());
    let w2 = w1.saturating_next_week();
    assert!(w1.le(&w2));
    assert!(!w2.le(&w1));
    let h1 = Hour::from_date(d(2024, 2, 15));
    let h2 = h1.saturating_next_timespan();
    assert!(h1.le(&h2));
    assert!(!h2.le(&h1));
}

#[test]
fn hour_truncates_minutes_and_seconds() {
    let midnight = Hour::from_date(d(2024, 1, 1));
    let start = midnight.saturating_start_timestamp();
    // 12:34:56 on the same day truncates to hour 12.
    let noonish = Hour::new(Timestamp { secs: start.secs + 12 * 3600 + 34 * 60 + 56 });
    let expected = midnight.saturating_add(TimespanDuration::from_timespan_repeats(12));
    assert_eq!(noonish, expected);
    assert_eq!(noonish.into_date(), d(2024, 1, 1));
    assert_eq!(noonish.saturating_start_timestamp().secs, start.secs + 12 * 3600);
}

#[test]
fn time_ranges_are_half_open_and_contiguous() {
    let day = <Date as Timespan>::from_date(d(2024, 2, 15));
    let range = day.into_time_range();
    assert_eq!(range.end.secs - range.start.secs, 86_400);
    let hour = Hour::from_date(d(2024, 2, 15));
    let range = hour.into_time_range();
    assert_eq!(range.end.secs - range.start.secs, 3_600);
    let week = Week::new(d(2024, 2, 15));
    let range = week.into_time_range();
    assert_eq!(range.end.secs - range.start.secs, 7 * 86_400);
}

#[test]
fn timestamps_count_from_calendar_start() {
    // 1970-01-01 starts 719162 days after year 1, January 1.
    let epoch = Timestamp::start_of_day(&d(1970, 1, 1));
    assert_eq!(epoch.secs, 719_162 * 86_400);
}

#[test]
fn enum_variants_are_injective() {
    let tags = [
        Hour::enum_variant(),
        <Date as Timespan>::enum_variant(),
        Week::enum_variant(),
        Month::enum_variant(),
        Year::enum_variant(),
    ];
    assert_eq!(
        tags,
        [
            ResolutionKind::Hour,
            ResolutionKind::Day,
            ResolutionKind::Week,
            ResolutionKind::Month,
            ResolutionKind::Year,
        ]
    );
    for i in 0..tags.len() {
        for j in 0..tags.len() {
            if i != j {
                assert_ne!(tags[i], tags[j]);
            }
        }
    }
}

#[test]
fn consists_of_calendar_aligned_pairs() {
    // Year from month and day; month and week from day.
    let year = <Year as ConsistsOf<Month>>::from_smaller(Month::from_date(d(2024, 7, 9)));
    assert_eq!(year, Year::from_date(d(2024, 1, 1)));
    let jan = <Year as ConsistsOf<Month>>::into_smaller(year);
    assert_eq!(jan, Month::from_date(d(2024, 1, 1)));
    let year2 = <Year as ConsistsOf<Date>>::from_smaller(d(2024, 7, 9));
    assert_eq!(year2, year);
    let first_day = <Year as ConsistsOf<Date>>::into_smaller(year2);
    assert_eq!(first_day, d(2024, 1, 1));
    let month = <Month as ConsistsOf<Date>>::from_smaller(d(2024, 7, 9));
    assert_eq!(<Month as ConsistsOf<Date>>::into_smaller(month), d(2024, 7, 1));
    let week = <Week as ConsistsOf<Date>>::from_smaller(d(2024, 2, 15));
    assert_eq!(<Week as ConsistsOf<Date>>::into_smaller(week), d(2024, 2, 12));
}

#[test]
fn duration_carries_its_repeat_count() {
    let five: TimespanDuration<Month> = TimespanDuration::from_timespan_repeats(5);
    assert_eq!(five.repeats(), 5);
    assert_eq!(five.clone().repeats(), 5);
    let zero: TimespanDuration<Week> = TimespanDuration::from_timespan_repeats(0);
    assert_eq!(zero.repeats(), 0);
}

#[test]
fn boundary_alignment_check() {
    let day = <Date as Timespan>::from_date(d(2024, 2, 15));
    let midnight = day.saturating_start_timestamp();
    assert!(day.starts_at(midnight));
    assert!(!day.starts_at(Timestamp { secs: midnight.secs + 1 }));
    let month = Month::from_date(d(2024, 2, 15));
    assert!(month.starts_at(
        <Date as Timespan>::from_date(d(2024, 2, 1)).saturating_start_timestamp()
    ));
    assert!(!month.starts_at(midnight));
}
