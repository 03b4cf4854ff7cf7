//! CrabCache: the wire protocols, codecs and bookkeeping of a key-value
//! cache server, with their behaviour stated as contracts and proved.

pub mod clock;
pub mod protocol;
pub mod security;
pub mod server;
pub mod shard;
pub mod store;
pub mod ttl;
