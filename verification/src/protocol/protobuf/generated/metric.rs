//! The value of a metric.

use vstd::prelude::*;
use crate::protocol::protobuf::generated::HistogramValue;

verus! {

/// The value of a metric. A gauge holds the bit pattern of its `f64`.
#[derive(Debug, Clone, PartialEq)]
pub enum Value {
    Gauge(u64),
    Counter(u64),
    Histogram(HistogramValue),
}

} // verus!
