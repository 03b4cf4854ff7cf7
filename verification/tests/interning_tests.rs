use crabcache::protocol::toon::interning::{AdvancedStringInterner, InterningConfig};
use crabcache::protocol::varint::varint_size;

#[test]
fn test_basic_interning() {
    let mut interner = AdvancedStringInterner::new();
    let id1 = interner.intern("hello world");
    let id2 = interner.intern("hello world");
    let id3 = interner.intern("different string");
    assert_eq!(id1, id2);
    assert_ne!(id1, id3);
    assert_eq!(interner.get(id1), Some("hello world"));
    assert_eq!(interner.get(id3), Some("different string"));
}

#[test]
fn test_short_string_handling() {
    let mut interner = AdvancedStringInterner::new();
    let id1 = interner.intern("hi");
    let id2 = interner.intern("hi");
    assert_eq!(id1, id2);
    assert_eq!(interner.get(id1), Some("hi"));
}

#[test]
fn test_memory_savings_calculation() {
    let mut interner = AdvancedStringInterner::new();
    let long_string = "this is a very long string that should save memory when interned";
    interner.intern(long_string);
    interner.intern(long_string);
    interner.intern(long_string);
    let total_saved = interner.total_memory_saved();
    assert!(total_saved > 0);
    let expected_savings = 2 * (long_string.len() - varint_size(0));
    assert!(total_saved >= expected_savings as u64);
}

#[test]
fn test_interner_optimization() {
    let mut interner = AdvancedStringInterner::new();
    interner.intern("keep1");
    interner.intern("keep2");
    interner.intern("remove");
    interner.remove_string(2);
    let old_len = interner.len();
    interner.optimize();
    let new_len = interner.len();
    assert!(new_len < old_len);
    assert!(interner.get(0).is_some());
    assert!(interner.get(1).is_some());
}

#[test]
fn interning_repeats_count_once() {
    let mut interner = AdvancedStringInterner::new();
    interner.intern("test string");
    interner.intern("test string");
    interner.intern("test string");
    assert_eq!(interner.len(), 1);
    assert!(interner.total_memory_saved() > 0);
}

#[test]
fn interning_stops_storing_at_the_limit_without_cleanup() {
    let mut interner = AdvancedStringInterner::with_config(InterningConfig {
        min_length: 4,
        min_usage_count: 2,
        max_interned_strings: 1,
        auto_cleanup: false,
        cleanup_threshold: std::time::Duration::from_secs(300),
    });
    assert_eq!(interner.intern("aaaa"), 0);
    let _ = interner.intern("bbbb");
    assert_eq!(interner.get(0), Some("aaaa"));
    assert_eq!(interner.get(1), None);
    assert_eq!(interner.intern("aaaa"), 0);
}
