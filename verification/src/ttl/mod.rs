//! Tracking when keys expire.

pub mod wheel;
