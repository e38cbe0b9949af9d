//! A single observation: an interval paired with a value, optionally
//! flagged approximate, and the zero-fill primitive used during gap-filling.

use vstd::prelude::*;
use vstd::string::StringExecFns;
use crate::traits::Timespan;

verus! {

/// Some value for some time interval.
#[derive(Clone, Debug, PartialEq, Eq)]
pub struct TimespanValue<T, V> {
    pub timespan: T,
    pub value: V,
}

impl<T, V> TimespanValue<T, V> {
    pub fn parts(&self) -> (r: (&T, &V))
        ensures
            *r.0 == self.timespan,
            *r.1 == self.value,
    {
        (&self.timespan, &self.value)
    }

    pub fn into_parts(self) -> (r: (T, V))
        ensures
            r.0 == self.timespan,
            r.1 == self.value,
    {
        (self.timespan, self.value)
    }

    pub fn from_parts(t: T, v: V) -> (r: Self)
        ensures
            r.timespan == t,
            r.value == v,
    {
        TimespanValue { timespan: t, value: v }
    }
}

impl<T: Timespan> TimespanValue<T, String> {
    /// The zero observation at the given interval; textual numeric storage
    /// uses the string `"0"`.
    pub fn with_zero_value(timespan: T) -> (r: Self)
        ensures
            r.timespan == timespan,
            r.value@ == "0"@,
    {
        TimespanValue { timespan, value: String::from_str("0") }
    }

    /// Keeps the observation when its interval is `current_timespan` or
    /// later; a stale observation is replaced by the zero value anchored at
    /// `current_timespan`, so stale values are never reused as current.
    pub fn relevant_or_zero(self, current_timespan: T) -> (r: Self)
        requires
            self.timespan.wf(),
            current_timespan.wf(),
        ensures
            self.timespan.key() < current_timespan.key() ==> (r.timespan == current_timespan
                && r.value@ == "0"@),
            self.timespan.key() >= current_timespan.key() ==> r == self,
    {
        if current_timespan.le(&self.timespan) {
            self
        } else {
            Self::with_zero_value(current_timespan)
        }
    }
}

/// An observation marked as precise or approximate.
#[derive(Clone, Debug, PartialEq, Eq)]
pub struct ExtendedTimespanValue<T, V> {
    pub timespan: T,
    pub value: V,
    pub is_approximate: bool,
}

impl<T, V> ExtendedTimespanValue<T, V> {
    pub fn from_timespan_value(v: TimespanValue<T, V>, is_approximate: bool) -> (r: Self)
        ensures
            r.timespan == v.timespan,
            r.value == v.value,
            r.is_approximate == is_approximate,
    {
        ExtendedTimespanValue { timespan: v.timespan, value: v.value, is_approximate }
    }
}

impl<T, V> From<ExtendedTimespanValue<T, V>> for TimespanValue<T, V> {
    /// Discards the approximate flag.
    fn from(dv: ExtendedTimespanValue<T, V>) -> (r: Self) {
        TimespanValue { timespan: dv.timespan, value: dv.value }
    }
}

impl<T, V> vstd::std_specs::convert::FromSpecImpl<ExtendedTimespanValue<T, V>> for TimespanValue<T, V> {
    open spec fn obeys_from_spec() -> bool {
        true
    }

    open spec fn from_spec(dv: ExtendedTimespanValue<T, V>) -> Self {
        TimespanValue { timespan: dv.timespan, value: dv.value }
    }
}

/// Zero-fillable observations over an interval kind.
pub trait ZeroTimespanValue<T: Timespan>: Sized {
    spec fn timespan_of(self) -> T;

    /// Whether the observation carries the series' zero element.
    spec fn is_zero_value(self) -> bool;

    fn with_zero_value(timespan: T) -> (r: Self)
        ensures
            r.timespan_of() == timespan,
            Self::is_zero_value(r),
    ;

    fn timespan_ref(&self) -> (r: &T)
        ensures
            *r == self.timespan_of(),
    ;

    /// The gap-fill primitive: a stale observation becomes the zero value
    /// anchored at `current_timespan`; anything else is kept unchanged.
    fn relevant_or_zero(self, current_timespan: T) -> (r: Self)
        requires
            self.timespan_of().wf(),
            current_timespan.wf(),
        ensures
            self.timespan_of().key() < current_timespan.key() ==> (r.timespan_of()
                == current_timespan && Self::is_zero_value(r)),
            self.timespan_of().key() >= current_timespan.key() ==> r == self,
    {
        if current_timespan.le(self.timespan_ref()) {
            self
        } else {
            Self::with_zero_value(current_timespan)
        }
    }
}

impl<T: Timespan> ZeroTimespanValue<T> for TimespanValue<T, String> {
    open spec fn timespan_of(self) -> T {
        self.timespan
    }

    open spec fn is_zero_value(self) -> bool {
        self.value@ == "0"@
    }

    fn with_zero_value(timespan: T) -> (r: Self) {
        TimespanValue { timespan, value: String::from_str("0") }
    }

    fn timespan_ref(&self) -> (r: &T) {
        &self.timespan
    }
}

impl<T: Timespan> ZeroTimespanValue<T> for TimespanValue<T, i64> {
    open spec fn timespan_of(self) -> T {
        self.timespan
    }

    open spec fn is_zero_value(self) -> bool {
        self.value == 0
    }

    fn with_zero_value(timespan: T) -> (r: Self) {
        TimespanValue { timespan, value: 0 }
    }

    fn timespan_ref(&self) -> (r: &T) {
        &self.timespan
    }
}

} // verus!
