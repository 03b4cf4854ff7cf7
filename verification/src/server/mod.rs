//! Server-side bookkeeping: connection figures and command handling.

pub mod buffer_pool;
pub mod connection_metrics;
pub mod handler;
pub mod metrics_handler;
pub mod streaming_buffer;
