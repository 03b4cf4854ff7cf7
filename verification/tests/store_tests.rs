use crabcache::store::arena::ArenaAllocator;
use crabcache::store::lockfree_map::{is_prime, next_prime, LockFreeHashMap};
use crabcache::store::zerocopy::{Arena, ArenaError, ZeroCopyStore};

#[test]
fn test_arena_basic() {
    let mut arena = ArenaAllocator::new(1024);
    let ptr1 = arena.allocate(64, 8);
    assert!(ptr1.is_some());
    let ptr2 = arena.allocate(128, 8);
    assert!(ptr2.is_some());
    let (used, total) = arena.usage();
    assert!(used > 0);
    assert_eq!(total, 1024);
}

#[test]
fn test_arena_overflow() {
    let mut arena = ArenaAllocator::new(100);
    let ptr = arena.allocate(200, 8);
    assert!(ptr.is_none());
}

#[test]
fn test_arena_reset() {
    let mut arena = ArenaAllocator::new(1024);
    arena.allocate(64, 8);
    let (used_before, _) = arena.usage();
    assert!(used_before > 0);
    arena.reset();
    let (used_after, _) = arena.usage();
    assert_eq!(used_after, 0);
}

#[test]
fn arena_aligns_offsets() {
    let mut arena = ArenaAllocator::new(64);
    assert_eq!(arena.allocate(3, 1), Some(0));
    assert_eq!(arena.allocate(4, 8), Some(8));
    assert!(arena.can_allocate(52, 1));
    assert!(!arena.can_allocate(53, 1));
}

#[test]
fn test_prime_calculation() {
    assert_eq!(next_prime(10), 11);
    assert_eq!(next_prime(16), 17);
    assert_eq!(next_prime(100), 101);
    assert_eq!(next_prime(1000), 1009);
}

#[test]
fn primes_small() {
    let primes: Vec<usize> = (0..30).filter(|&n| is_prime(n)).collect();
    assert_eq!(primes, vec![2, 3, 5, 7, 11, 13, 17, 19, 23, 29]);
    assert_eq!(next_prime(0), 2);
    assert_eq!(next_prime(2), 2);
    assert_eq!(next_prime(24), 29);
    assert!(!is_prime(25));
    assert!(!is_prime(49));
}

#[test]
fn test_arena_allocation() {
    let mut arena = Arena::new(1024);
    let data1 = b"Hello, World!";
    let ref1 = arena.allocate(data1).unwrap();
    let retrieved = arena.get_data(&ref1).unwrap();
    assert_eq!(retrieved.as_slice(), data1);
}

#[test]
fn test_arena_free_list() {
    let mut arena = Arena::new(1024);
    let data1 = b"data1";
    let data2 = b"data2";
    let ref1 = arena.allocate(data1).unwrap();
    let ref2 = arena.allocate(data2).unwrap();
    arena.deallocate(&ref1);
    let data3 = b"data3";
    let ref3 = arena.allocate(data3).unwrap();
    let retrieved2 = arena.get_data(&ref2).unwrap();
    let retrieved3 = arena.get_data(&ref3).unwrap();
    assert_eq!(retrieved2.as_slice(), data2);
    assert_eq!(retrieved3.as_slice(), data3);
}

#[test]
fn arena_full_and_coalescing() {
    let mut arena = Arena::new(8);
    let a = arena.allocate(b"abcd").unwrap();
    let b = arena.allocate(b"efgh").unwrap();
    assert_eq!(arena.allocate(b"i"), Err(ArenaError::ArenaFull));
    arena.deallocate(&b);
    arena.deallocate(&a);
    let (_, free) = arena.used_and_free();
    assert_eq!(free, 8);
    let c = arena.allocate(b"12345678").unwrap();
    assert_eq!(arena.get_data(&c).unwrap(), b"12345678".to_vec());
}

#[test]
fn test_basic_operations() {
    let mut map = LockFreeHashMap::new(16);
    assert_eq!(map.insert(b"key1".to_vec(), b"value1".to_vec()), None);
    assert_eq!(map.len(), 1);
    assert_eq!(map.get(b"key1"), Some(b"value1".to_vec()));
    assert_eq!(map.get(b"nonexistent"), None);
    assert_eq!(map.insert(b"key1".to_vec(), b"value2".to_vec()), Some(b"value1".to_vec()));
    assert_eq!(map.len(), 1);
    assert_eq!(map.remove(b"key1"), Some(b"value2".to_vec()));
    assert_eq!(map.len(), 0);
    assert_eq!(map.get(b"key1"), None);
}

#[test]
fn lockfree_map_bulk_and_sizing() {
    let mut map = LockFreeHashMap::new_optimized(10);
    assert_eq!(map.capacity(), 23);
    let n = map.bulk_insert(vec![
        (b"a".to_vec(), b"1".to_vec()),
        (b"b".to_vec(), b"2".to_vec()),
        (b"a".to_vec(), b"3".to_vec()),
    ]);
    assert_eq!(n, 2);
    assert_eq!(map.get(b"a"), Some(b"3".to_vec()));
    assert!(!map.is_empty());
    assert_eq!(map.remove(b"zz"), None);
    assert_eq!(map.metrics().total_operations, 5);
    let mut one = LockFreeHashMap::new(1);
    for i in 0..20u8 {
        one.insert(vec![i], vec![i]);
    }
    assert_eq!(one.len(), 20);
    assert_eq!(one.get(&[7]), Some(vec![7]));
}

#[test]
fn test_zero_copy_store() {
    let mut store = ZeroCopyStore::new(1024);
    let key = b"test_key".to_vec();
    let value = b"test_value".to_vec();
    store.put_zero_copy(key.clone(), value.clone()).unwrap();
    let retrieved = store.get_zero_copy(&key).unwrap();
    assert_eq!(retrieved, value);
    assert!(store.del_zero_copy(&key));
    assert!(store.get_zero_copy(&key).is_none());
}

#[test]
fn test_zero_copy_metrics() {
    let mut store = ZeroCopyStore::new(1024);
    let key1 = b"key1".to_vec();
    let value1 = b"value1".to_vec();
    let key2 = b"key2".to_vec();
    let value2 = b"value2".to_vec();
    store.put_zero_copy(key1.clone(), value1.clone()).unwrap();
    store.put_zero_copy(key2.clone(), value2.clone()).unwrap();
    let _ = store.get_zero_copy(&key1);
    let _ = store.get_zero_copy(&key2);
    let metrics = store.metrics();
    assert_eq!(metrics.allocation_count, 2);
    assert!(metrics.zero_copy_operations >= 4);
    let total = metrics.bytes_copied + metrics.bytes_zero_copied;
    let efficiency = if total == 0 {
        100.0
    } else {
        metrics.bytes_zero_copied as f64 / total as f64 * 100.0
    };
    assert!(efficiency > 0.0);
}

#[test]
fn zero_copy_store_replace_and_full() {
    let mut store = ZeroCopyStore::new(8);
    store.put_zero_copy(b"k".to_vec(), b"abc".to_vec()).unwrap();
    store.put_zero_copy(b"k".to_vec(), b"de".to_vec()).unwrap();
    assert_eq!(store.get_zero_copy(b"k"), Some(b"de".to_vec()));
    assert_eq!(store.put_zero_copy(b"x".to_vec(), b"1234".to_vec()), Err(ArenaError::ArenaFull));
    assert_eq!(store.get_zero_copy(b"x"), None);
    assert!(!store.del_zero_copy(b"x"));
    assert_eq!(store.metrics().zero_copy_operations, 3);
    assert_eq!(store.metrics().bytes_zero_copied, 7);
    assert!(store.compact_arena().is_ok());
}

#[test]
fn zero_copy_store_arena_usage() {
    let mut store = ZeroCopyStore::new(64);
    assert_eq!(store.arena_usage(), (0, 0, 64));
    store.put_zero_copy(b"a".to_vec(), b"12345".to_vec()).unwrap();
    store.put_zero_copy(b"b".to_vec(), b"678".to_vec()).unwrap();
    assert!(store.del_zero_copy(b"a"));
    assert_eq!(store.arena_usage(), (8, 5, 64));
}

#[test]
fn lockfree_map_with_no_buckets_is_empty() {
    let map: LockFreeHashMap = LockFreeHashMap::new(0);
    assert!(map.is_empty());
    assert_eq!(map.len(), 0);
}

#[test]
fn arena_can_allocate_agrees_with_allocate() {
    let mut arena = ArenaAllocator::new(100);
    assert!(!arena.can_allocate(200, 8));
    assert_eq!(arena.allocate(200, 8), None);
    assert!(arena.can_allocate(60, 8));
    assert_eq!(arena.allocate(60, 8), Some(0));
    assert!(!arena.can_allocate(40, 8));
    assert_eq!(arena.allocate(40, 8), None);
    assert!(arena.can_allocate(36, 4));
    assert_eq!(arena.allocate(36, 4), Some(60));
}
