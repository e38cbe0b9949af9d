//! Two minimal chart definitions, one per chart shape. Real charts add a
//! formula on top of these properties; the formula layer is external, so
//! these stand in for it wherever a concrete `ChartProperties` is needed.

use vstd::prelude::*;
use vstd::string::StringExecFns;
use crate::date::Date;
use crate::traits::{ChartProperties, ChartType, NamedProperty};

verus! {

/// A line chart of daily transaction counts.
pub struct NewTxnsChart;

impl NamedProperty for NewTxnsChart {
    open spec fn property_name_spec() -> Seq<char> {
        "newTxns"@
    }

    fn property_name() -> (r: String) {
        String::from_str("newTxns")
    }
}

impl ChartProperties for NewTxnsChart {
    type Resolution = Date;

    open spec fn chart_type_spec() -> ChartType {
        ChartType::Line
    }

    fn chart_type() -> (r: ChartType) {
        ChartType::Line
    }
}

/// A counter holding the total number of transactions.
pub struct TotalTxnsChart;

impl NamedProperty for TotalTxnsChart {
    open spec fn property_name_spec() -> Seq<char> {
        "totalTxns"@
    }

    fn property_name() -> (r: String) {
        String::from_str("totalTxns")
    }
}

impl ChartProperties for TotalTxnsChart {
    type Resolution = Date;

    open spec fn chart_type_spec() -> ChartType {
        ChartType::Counter
    }

    fn chart_type() -> (r: ChartType) {
        ChartType::Counter
    }
}

} // verus!
