use crabcache::protocol::buffer_pool::{BufferPool, BufferPoolConfig};

#[test]
fn buffer_pool_prewarms_and_reuses() {
    let mut pool = BufferPool::new();
    let s = pool.get_stats();
    assert_eq!(
        (s.small_buffers_available, s.medium_buffers_available, s.large_buffers_available, s.xlarge_buffers_available),
        (10, 10, 5, 2)
    );
    assert_eq!(s.current_memory_usage, 10 * 4096 + 10 * 65536 + 5 * 262144 + 2 * 1048576);
    // taking from a class with buffers reuses one
    let b = pool.take_buffer(100, false, 50);
    assert!(b.is_empty());
    let s = pool.get_stats();
    assert_eq!(s.small_reuses, 1);
    assert_eq!(s.total_reuses, 1);
    assert_eq!(s.small_buffers_available, 9);
    assert_eq!(s.avg_allocation_time_ns, 50);
    assert_eq!(s.peak_memory_usage, 9 * 4096 + 10 * 65536 + 5 * 262144 + 2 * 1048576);
    // the average moves a tenth of the way
    pool.take_buffer(5000, false, 150);
    assert_eq!(pool.get_stats().avg_allocation_time_ns, (50 * 9 + 150) / 10);
    assert_eq!(pool.get_stats().medium_reuses, 1);
}

#[test]
fn buffer_pool_allocates_when_empty() {
    let mut config = BufferPoolConfig::default();
    config.enable_prewarming = false;
    let mut pool = BufferPool::with_config(config);
    let b = pool.take_buffer(2_000_000, false, 0);
    assert!(b.capacity() >= 2_000_000);
    let s = pool.get_stats();
    assert_eq!(s.xlarge_allocations, 1);
    assert_eq!(s.total_allocations, 1);
    assert_eq!(s.total_memory_allocated, 2_000_000);
    let b = pool.get_buffer(70_000);
    assert!(b.capacity() >= 262144);
    assert_eq!(pool.get_stats().large_allocations, 1);
    assert_eq!(pool.get_stats().total_memory_allocated, 2_000_000 + 262144);
}

#[test]
fn buffer_pool_returns_by_capacity() {
    let mut config = BufferPoolConfig::default();
    config.enable_prewarming = false;
    config.max_medium_buffers = 1;
    let mut pool = BufferPool::with_config(config);
    pool.return_buffer_with_capacity(vec![1, 2, 3], 10_000);
    pool.return_buffer_with_capacity(Vec::new(), 10_000);
    let s = pool.get_stats();
    assert_eq!(s.medium_buffers_available, 1);
    assert_eq!(s.total_returns, 1);
    assert_eq!(s.total_memory_reused, 10_000);
    // the kept buffer comes back empty
    let b = pool.take_buffer(5000, false, 0);
    assert!(b.is_empty());
    assert_eq!(pool.get_stats().medium_reuses, 1);
    pool.return_buffer(Vec::with_capacity(10));
    assert_eq!(pool.get_stats().small_buffers_available, 1);
}

#[test]
fn buffer_pool_cleanup_keeps_half() {
    let mut config = BufferPoolConfig::default();
    config.max_small_buffers = 4;
    config.prewarm_count = 8;
    let mut pool = BufferPool::with_config(config);
    assert_eq!(pool.get_stats().small_buffers_available, 8);
    pool.take_buffer(10, true, 0);
    let s = pool.get_stats();
    assert_eq!(s.cleanup_count, 1);
    // trimmed to 2, then one taken
    assert_eq!(s.small_buffers_available, 1);
    assert_eq!(s.medium_buffers_available, 8.min(100 / 2));
    assert_eq!(s.large_buffers_available, 4);
    assert_eq!(s.xlarge_buffers_available, 2);
    let r = pool.get_read_buffer();
    assert!(r.is_empty());
    let w = pool.get_write_buffer();
    assert!(w.is_empty());
}
