//! The closed set of chart resolutions, and its persisted string form.

use vstd::prelude::*;

verus! {

/// Runtime tag for the granularity of a chart's time axis.
#[derive(Clone, Copy, Debug, PartialEq, Eq, Structural, Hash)]
pub enum ResolutionKind {
    Hour,
    Day,
    Week,
    Month,
    Year,
}

/// The string under which each resolution is persisted.
pub open spec fn db_str_spec(r: ResolutionKind) -> Seq<char> {
    match r {
        ResolutionKind::Hour => "HOUR"@,
        ResolutionKind::Day => "DAY"@,
        ResolutionKind::Week => "WEEK"@,
        ResolutionKind::Month => "MONTH"@,
        ResolutionKind::Year => "YEAR"@,
    }
}

/// The resolution named by a persisted string, if any.
pub open spec fn from_db_str_spec(s: Seq<char>) -> Option<ResolutionKind> {
    if s == "HOUR"@ {
        Some(ResolutionKind::Hour)
    } else if s == "DAY"@ {
        Some(ResolutionKind::Day)
    } else if s == "WEEK"@ {
        Some(ResolutionKind::Week)
    } else if s == "MONTH"@ {
        Some(ResolutionKind::Month)
    } else if s == "YEAR"@ {
        Some(ResolutionKind::Year)
    } else {
        None
    }
}

impl ResolutionKind {
    /// The upper-case string form used in persistence and in chart keys.
    pub fn as_db_str(&self) -> (r: &'static str)
        ensures
            r@ == db_str_spec(*self),
    {
        match self {
            ResolutionKind::Hour => "HOUR",
            ResolutionKind::Day => "DAY",
            ResolutionKind::Week => "WEEK",
            ResolutionKind::Month => "MONTH",
            ResolutionKind::Year => "YEAR",
        }
    }

    /// Parses the persisted string form back into a resolution.
    pub fn from_db_str(s: &String) -> (r: Option<ResolutionKind>)
        ensures
            r == from_db_str_spec(s@),
    {
        proof {
            reveal_strlit("HOUR");
            reveal_strlit("DAY");
            reveal_strlit("WEEK");
            reveal_strlit("MONTH");
            reveal_strlit("YEAR");
        }
        if *s == String::from_str("HOUR") {
            Some(ResolutionKind::Hour)
        } else if *s == String::from_str("DAY") {
            Some(ResolutionKind::Day)
        } else if *s == String::from_str("WEEK") {
            Some(ResolutionKind::Week)
        } else if *s == String::from_str("MONTH") {
            Some(ResolutionKind::Month)
        } else if *s == String::from_str("YEAR") {
            Some(ResolutionKind::Year)
        } else {
            None
        }
    }
}

/// The persisted string form loses nothing: parsing the string of a
/// resolution returns that resolution.
pub proof fn lemma_db_str_round_trip(r: ResolutionKind)
    ensures
        from_db_str_spec(db_str_spec(r)) == Some(r),
{
    reveal_strlit("HOUR");
    reveal_strlit("DAY");
    reveal_strlit("WEEK");
    reveal_strlit("MONTH");
    reveal_strlit("YEAR");
    assert("HOUR"@[0] == 'H' && "DAY"@[0] == 'D' && "WEEK"@[0] == 'W' && "MONTH"@[0] == 'M'
        && "YEAR"@[0] == 'Y');
    match r {
        ResolutionKind::Hour => {
            assert(from_db_str_spec("HOUR"@) == Some(ResolutionKind::Hour));
        },
        ResolutionKind::Day => {
            assert(from_db_str_spec("DAY"@) == Some(ResolutionKind::Day));
        },
        ResolutionKind::Week => {
            assert(from_db_str_spec("WEEK"@) == Some(ResolutionKind::Week));
        },
        ResolutionKind::Month => {
            assert(from_db_str_spec("MONTH"@) == Some(ResolutionKind::Month));
        },
        ResolutionKind::Year => {
            assert(from_db_str_spec("YEAR"@) == Some(ResolutionKind::Year));
        },
    }
}

} // verus!
