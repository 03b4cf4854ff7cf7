//! Storage: cache entries and their layout, the shard store, bump and
//! free-list arenas, and the concurrent map's sizing rules.

pub mod arena;
pub mod hashmap;
pub mod item;
pub mod lockfree_map;
pub mod zerocopy;
