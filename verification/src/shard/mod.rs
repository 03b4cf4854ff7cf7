//! Shards: a store with expiry tracking that answers commands.

pub mod shard;
