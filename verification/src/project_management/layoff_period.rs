//! Periods of collective leave.

use vstd::prelude::*;

verus! {

/// A period of collective leave, with its dates as texts.
#[derive(Debug, Clone, PartialEq, Eq, Default)]
pub struct LayoffPeriod {
    pub start_date: String,
    pub end_date: String,
}

/// The rendering of a period of collective leave.
pub open spec fn layoff_period_text(p: LayoffPeriod) -> Seq<char> {
    "LayoffPeriod { start_date: "@ + p.start_date@ + ", end_date: "@ + p.end_date@ + " }"@
}

impl LayoffPeriod {
    /// The rendering of the period.
    pub fn to_string(&self) -> (s: String)
        ensures
            s@ == layoff_period_text(*self),
    {
        String::from_str("LayoffPeriod { start_date: ").concat(self.start_date.as_str()).concat(", end_date: ").concat(
            self.end_date.as_str(),
        ).concat(" }")
    }
}

} // verus!
