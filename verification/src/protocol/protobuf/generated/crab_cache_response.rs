//! The answer carried by a protobuf response message.

use vstd::prelude::*;
use crate::protocol::protobuf::generated::{
    BatchResponse, ErrorResponse, MetricsResponse, NullResponse, OkResponse, PongResponse,
    StatsResponse, ValueResponse,
};

verus! {

/// One of the answers a protobuf response message can carry.
#[derive(Debug)]
pub enum Response {
    Okay(OkResponse),
    Value(ValueResponse),
    Null(NullResponse),
    Error(ErrorResponse),
    Pong(PongResponse),
    Stats(StatsResponse),
    Metrics(MetricsResponse),
    Batch(BatchResponse),
}

} // verus!
