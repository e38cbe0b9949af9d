//! A repeat count tagged with the timespan type it measures, so that counts
//! of different interval kinds cannot be mixed in arithmetic.

use vstd::prelude::*;
use core::marker::PhantomData;

verus! {

/// A non-negative number of repetitions of the timespan `T`.
#[derive(Debug, PartialEq, Eq)]
pub struct TimespanDuration<T> {
    repeats: u64,
    marker: PhantomData<T>,
}

impl<T> Clone for TimespanDuration<T> {
    fn clone(&self) -> (r: Self)
        ensures
            r.spec_repeats() == self.spec_repeats(),
    {
        TimespanDuration { repeats: self.repeats, marker: PhantomData }
    }
}

impl<T> TimespanDuration<T> {
    pub closed spec fn spec_repeats(self) -> u64 {
        self.repeats
    }

    pub fn from_timespan_repeats(repeats: u64) -> (r: Self)
        ensures
            r.spec_repeats() == repeats,
    {
        TimespanDuration { repeats, marker: PhantomData }
    }

    pub fn repeats(&self) -> (r: u64)
        ensures
            r == self.spec_repeats(),
    {
        self.repeats
    }
}

} // verus!
