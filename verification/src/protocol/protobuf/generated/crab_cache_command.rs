//! The command carried by a protobuf command message.

use vstd::prelude::*;
use crate::protocol::protobuf::generated::{
    BatchCommand, DelCommand, ExpireCommand, GetCommand, MetricsCommand, PingCommand, PutCommand,
    StatsCommand,
};

verus! {

/// One of the commands a protobuf command message can carry.
#[derive(Debug)]
pub enum Command {
    Put(PutCommand),
    Get(GetCommand),
    Del(DelCommand),
    Expire(ExpireCommand),
    Stats(StatsCommand),
    Metrics(MetricsCommand),
    Ping(PingCommand),
    Batch(BatchCommand),
}

} // verus!
