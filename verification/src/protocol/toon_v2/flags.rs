//! The bits of the flags byte of a TOON V2 packet.

use vstd::prelude::*;

verus! {

pub const ZERO_COPY: u8 = 0x01;
pub const COMPRESSED: u8 = 0x02;
pub const INTERNED_KEY: u8 = 0x04;
pub const INTERNED_VALUE: u8 = 0x08;
pub const BATCH_OPERATION: u8 = 0x10;
pub const SIMD_OPTIMIZED: u8 = 0x20;

} // verus!
