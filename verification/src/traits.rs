//! The common contract of all timespan kinds, the decomposition relation
//! between calendar-aligned kinds, and per-chart static metadata.

use vstd::prelude::*;
use vstd::string::StringExecFns;
use crate::date::{Date, min_day_num, max_day_num};
use crate::duration::TimespanDuration;
use crate::resolution::{ResolutionKind, db_str_spec};
use crate::timestamp::{Timestamp, TimestampRange};

verus! {

/// A calendar-aligned interval kind. Well-formed values are canonical: each
/// interval of the kind has exactly one well-formed representation, ordered
/// and compared through an integer key.
pub trait Timespan: Sized {
    /// Canonical-form invariant.
    spec fn wf(self) -> bool;

    /// Total ordering key; injective on well-formed values.
    spec fn key(self) -> int;

    /// Day number of the interval's anchor date (clamped into the
    /// representable range when the true start lies outside it).
    spec fn anchor_day(self) -> int;

    /// The interval of this kind containing the given day.
    spec fn spec_from_day(day: int) -> Self;

    /// Shift forward by `n` intervals, clamped at the last representable one.
    spec fn spec_add(self, n: nat) -> Self;

    /// Shift backward by `n` intervals, clamped at the first representable one.
    spec fn spec_sub(self, n: nat) -> Self;

    /// First instant of the interval, in seconds (see `Timestamp`).
    spec fn start_sec(self) -> int;

    /// The last representable interval of this kind.
    spec fn max_elem() -> Self;

    /// The runtime tag of this kind.
    spec fn resolution_spec() -> ResolutionKind;

    /// Anchoring is total on the representable range and idempotent: the
    /// interval of an interval's anchor date is that interval again.
    proof fn lemma_from_day_wf(day: int)
        requires
            min_day_num() <= day <= max_day_num(),
        ensures
            Self::spec_from_day(day).wf(),
            min_day_num() <= Self::spec_from_day(day).anchor_day() <= max_day_num(),
            Self::spec_from_day(Self::spec_from_day(day).anchor_day()) == Self::spec_from_day(day),
    ;

    /// Equal keys mean equal (canonical) values.
    proof fn lemma_key_injective(a: Self, b: Self)
        requires
            a.wf(),
            b.wf(),
            a.key() == b.key(),
        ensures
            a == b,
    ;

    /// The key order never disagrees with the anchor-date order.
    proof fn lemma_key_anchor_monotone(a: Self, b: Self)
        requires
            a.wf(),
            b.wf(),
            a.key() <= b.key(),
        ensures
            a.anchor_day() <= b.anchor_day(),
    ;

    /// Saturating arithmetic round trip: stepping forward then backward by
    /// the same count returns the start, unless the forward step clamped at
    /// the last representable interval.
    proof fn lemma_add_sub(t: Self, n: nat)
        requires
            t.wf(),
        ensures
            t.spec_add(n).wf(),
            t.spec_sub(n).wf(),
            t.spec_add(n).spec_sub(n) == t || t.spec_add(n) == Self::max_elem(),
    ;

    /// The runtime tag of this timespan kind.
    fn enum_variant() -> (r: ResolutionKind)
        ensures
            r == Self::resolution_spec(),
    ;

    /// The interval containing `date`. Not reversible: `into_date` returns
    /// the anchor date, not necessarily `date`.
    fn from_date(date: Date) -> (r: Self)
        requires
            date.wf(),
        ensures
            r == Self::spec_from_day(date.day_num()),
            r.wf(),
    ;

    /// The anchor date, under which the interval is stored.
    fn into_date(self) -> (r: Date)
        requires
            self.wf(),
        ensures
            r.wf(),
            r.day_num() == self.anchor_day(),
    ;

    /// The first instant of the interval, in UTC.
    fn saturating_start_timestamp(&self) -> (t: Timestamp)
        requires
            self.wf(),
        ensures
            t.secs == self.start_sec(),
    ;

    fn saturating_add(&self, duration: TimespanDuration<Self>) -> (r: Self)
        requires
            self.wf(),
        ensures
            r == self.spec_add(duration.spec_repeats() as nat),
            r.wf(),
    ;

    fn saturating_sub(&self, duration: TimespanDuration<Self>) -> (r: Self)
        requires
            self.wf(),
        ensures
            r == self.spec_sub(duration.spec_repeats() as nat),
            r.wf(),
    ;

    /// Whether `self` starts no later than `other`.
    fn le(&self, other: &Self) -> (b: bool)
        requires
            self.wf(),
            other.wf(),
        ensures
            b == (self.key() <= other.key()),
    ;

    /// The interval right after this one (saturating).
    fn saturating_next_timespan(&self) -> (r: Self)
        requires
            self.wf(),
        ensures
            r == self.spec_add(1),
            r.wf(),
    {
        self.saturating_add(TimespanDuration::from_timespan_repeats(1))
    }

    /// The interval right before this one (saturating).
    fn saturating_previous_timespan(&self) -> (r: Self)
        requires
            self.wf(),
        ensures
            r == self.spec_sub(1),
            r.wf(),
    {
        self.saturating_sub(TimespanDuration::from_timespan_repeats(1))
    }

    /// Whether the given instant is exactly the interval's start. When a
    /// recomputation ran exactly at an interval boundary, callers mark one
    /// fewer trailing point approximate: the closed interval's data is
    /// already final.
    fn starts_at(&self, at: Timestamp) -> (b: bool)
        requires
            self.wf(),
        ensures
            b <==> at.secs == self.start_sec(),
    {
        let start = self.saturating_start_timestamp();
        at.secs == start.secs
    }

    /// The interval as a half-open range of UTC instants.
    fn into_time_range(self) -> (r: TimestampRange)
        requires
            self.wf(),
        ensures
            r.start.secs == self.start_sec(),
            r.end.secs == self.spec_add(1).start_sec(),
    {
        let start = self.saturating_start_timestamp();
        let next = self.saturating_next_timespan();
        let end = next.saturating_start_timestamp();
        TimestampRange { start, end }
    }
}

/// Anchoring a date twice changes nothing: re-entering an interval's anchor
/// date yields the interval itself, for every timespan kind.
pub proof fn lemma_from_date_idempotent<T: Timespan>(day: int)
    requires
        min_day_num() <= day <= max_day_num(),
    ensures
        T::spec_from_day(T::spec_from_day(day).anchor_day()) == T::spec_from_day(day),
{
    T::lemma_from_day_wf(day);
}

/// Stepping forward then backward by the same count is the identity, unless
/// the forward step clamped at the last representable interval, in which
/// case the forward result stays clamped rather than wrapping.
pub proof fn lemma_saturating_round_trip<T: Timespan>(t: T, n: nat)
    requires
        t.wf(),
    ensures
        t.spec_add(n).spec_sub(n) == t || t.spec_add(n) == T::max_elem(),
{
    T::lemma_add_sub(t, n);
}

/// The key comparison is a total order, antisymmetric up to canonical
/// equality, and consistent with the anchor-date order — also for intervals
/// clamped at the representable range's edges.
pub proof fn lemma_ordering_total<T: Timespan>(a: T, b: T, c: T)
    requires
        a.wf(),
        b.wf(),
        c.wf(),
    ensures
        a.key() <= b.key() || b.key() <= a.key(),
        (a.key() <= b.key() && b.key() <= a.key()) ==> a == b,
        (a.key() <= b.key() && b.key() <= c.key()) ==> a.key() <= c.key(),
        a.key() <= b.key() ==> a.anchor_day() <= b.anchor_day(),
{
    if a.key() <= b.key() && b.key() <= a.key() {
        T::lemma_key_injective(a, b);
    }
    if a.key() <= b.key() {
        T::lemma_key_anchor_monotone(a, b);
    }
}

/// Declares that each interval of the implementing kind decomposes exactly
/// into intervals of the smaller kind `S`. Implemented only for pairs whose
/// calendar boundaries align; weeks never decompose months or years.
pub trait ConsistsOf<S>: Sized {
    /// Canonical-form invariant of the smaller kind.
    spec fn smaller_wf(smaller: S) -> bool;

    /// Canonical-form invariant of this kind.
    spec fn larger_wf(self) -> bool;

    /// The interval containing the smaller interval.
    spec fn spec_from_smaller(smaller: S) -> Self;

    /// The first smaller interval contained in `self`.
    spec fn spec_into_smaller(self) -> S;

    /// Construct the timespan containing the smaller timespan. Usually not
    /// reversible.
    fn from_smaller(smaller: S) -> (r: Self)
        requires
            Self::smaller_wf(smaller),
        ensures
            r == Self::spec_from_smaller(smaller),
            r.larger_wf(),
    ;

    /// The smaller timespan at the start of `self`.
    fn into_smaller(self) -> (r: S)
        requires
            self.larger_wf(),
        ensures
            r == self.spec_into_smaller(),
            Self::smaller_wf(r),
    ;
}

/// The shape of a chart: a single current value, or a series over time.
#[derive(Clone, Copy, Debug, PartialEq, Eq, Structural, Hash)]
pub enum ChartType {
    Counter,
    Line,
}

/// How gaps in a sparse series are filled.
#[derive(Clone, Copy, Debug, PartialEq, Eq, Structural, Hash)]
pub enum MissingDatePolicy {
    FillZero,
    FillPrevious,
}

/// A name for chart data that represents its contents.
pub trait NamedProperty {
    spec fn property_name_spec() -> Seq<char>;

    fn property_name() -> (r: String)
        ensures
            r@ == Self::property_name_spec(),
    ;
}

/// Static metadata of one chart type.
pub trait ChartProperties: NamedProperty {
    /// Granularity of the chart's time axis. The name + resolution pair is
    /// expected (not enforced) to be unique per chart.
    type Resolution: Timespan;

    spec fn chart_type_spec() -> ChartType;

    fn chart_type() -> (r: ChartType)
        ensures
            r == Self::chart_type_spec(),
    ;

    fn resolution() -> (r: ResolutionKind)
        ensures
            r == <Self::Resolution as Timespan>::resolution_spec(),
    {
        Self::Resolution::enum_variant()
    }

    /// Expected but not guaranteed to be unique for each chart.
    fn key() -> (r: ChartKey)
        ensures
            r.spec_name() == Self::property_name_spec(),
            r.spec_resolution() == <Self::Resolution as Timespan>::resolution_spec(),
    {
        let name = Self::property_name();
        let resolution = Self::resolution();
        ChartKey::new(name, resolution)
    }

    fn missing_date_policy() -> (r: MissingDatePolicy)
        default_ensures
            r == MissingDatePolicy::FillZero,
    {
        MissingDatePolicy::FillZero
    }

    /// Number of trailing values that are considered approximate: the most
    /// recent interval of a series is only partially observed until it
    /// closes, so one point for a line chart and none for a counter. When an
    /// update lands exactly on an interval boundary the caller may subtract
    /// one, using the boundary check exposed by the timespan types.
    fn approximate_trailing_points() -> (r: u64)
        default_ensures
            r == (if Self::chart_type_spec() == ChartType::Counter {
                0int
            } else {
                1int
            }),
    {
        if Self::chart_type() == ChartType::Counter {
            // there's only one value in a counter
            0
        } else {
            1
        }
    }
}

/// Identity of one chart series: name plus resolution.
#[derive(Clone, Debug, Hash)]
pub struct ChartKey {
    name: String,
    resolution: ResolutionKind,
}

impl ChartKey {
    pub closed spec fn spec_name(self) -> Seq<char> {
        self.name@
    }

    pub closed spec fn spec_resolution(self) -> ResolutionKind {
        self.resolution
    }

    pub fn new(name: String, resolution: ResolutionKind) -> (r: Self)
        ensures
            r.spec_name() == name@,
            r.spec_resolution() == resolution,
    {
        Self { name, resolution }
    }

    pub fn name(&self) -> (r: &str)
        ensures
            r@ == self.spec_name(),
    {
        self.name.as_str()
    }

    pub fn resolution(&self) -> (r: &ResolutionKind)
        ensures
            *r == self.spec_resolution(),
    {
        &self.resolution
    }

    /// The string form `"{name}_{RESOLUTION}"`.
    pub fn to_key_string(&self) -> (r: String)
        ensures
            r@ == self.spec_name() + "_"@ + db_str_spec(self.spec_resolution()),
    {
        let mut s = self.name.clone();
        s.append("_");
        s.append(self.resolution.as_db_str());
        s
    }
}

impl PartialEq for ChartKey {
    fn eq(&self, other: &Self) -> (r: bool) {
        self.name == other.name && self.resolution == other.resolution
    }
}

impl Eq for ChartKey {

}

impl vstd::std_specs::cmp::PartialEqSpecImpl for ChartKey {
    open spec fn obeys_eq_spec() -> bool {
        true
    }

    open spec fn eq_spec(&self, other: &Self) -> bool {
        self.spec_name() == other.spec_name() && self.spec_resolution() == other.spec_resolution()
    }
}

} // verus!
