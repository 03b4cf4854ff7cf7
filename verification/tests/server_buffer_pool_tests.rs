use crabcache::protocol::protobuf::buffer_pool::ProtobufBufferPool;
use crabcache::server::buffer_pool::{BufferPool, BufferPoolStats};

fn hit_rate(stats: &BufferPoolStats) -> f64 {
    let total = stats.hits + stats.misses;
    if total == 0 {
        0.0
    } else {
        (stats.hits as f64 / total as f64) * 100.0
    }
}

#[test]
fn test_buffer_pool_reuse() {
    let mut pool = BufferPool::new(1024, 10);
    let buffer1 = pool.get_buffer();
    assert_eq!(buffer1.len(), 1024);
    pool.return_buffer(buffer1);
    let buffer2 = pool.get_buffer();
    assert_eq!(buffer2.len(), 1024);
    let stats = pool.stats();
    assert_eq!(stats.max_size, 10);
    assert_eq!(stats.hits, 1);
    assert_eq!(stats.misses, 1);
}

#[test]
fn test_buffer_pool_max_size() {
    let mut pool = BufferPool::new(1024, 2);
    let buf1 = pool.get_buffer();
    let buf2 = pool.get_buffer();
    let buf3 = pool.get_buffer();
    pool.return_buffer(buf1);
    pool.return_buffer(buf2);
    pool.return_buffer(buf3);
    let stats = pool.stats();
    assert_eq!(stats.current_size, 2);
    assert_eq!(stats.returns, 3);
}

#[test]
fn test_buffer_pool_prewarm() {
    let mut pool = BufferPool::new(1024, 10);
    pool.prewarm(5);
    let stats = pool.stats();
    assert_eq!(stats.current_size, 5);
    for _ in 0..5 {
        let buffer = pool.get_buffer();
        assert_eq!(buffer.len(), 1024);
    }
    let stats = pool.stats();
    assert_eq!(stats.hits, 5);
    assert_eq!(stats.misses, 0);
    assert_eq!(hit_rate(&stats), 100.0);
}

#[test]
fn test_buffer_pool_stats() {
    let mut pool = BufferPool::new(2048, 5);
    let buf1 = pool.get_buffer();
    let buf2 = pool.get_buffer();
    pool.return_buffer(buf1);
    let buf3 = pool.get_buffer();
    pool.return_buffer(buf2);
    pool.return_buffer(buf3);
    let stats = pool.stats();
    assert_eq!(stats.buffer_size, 2048);
    assert_eq!(stats.hits, 1);
    assert_eq!(stats.misses, 2);
    assert_eq!(stats.returns, 3);
    assert!((hit_rate(&stats) - 33.33).abs() < 0.1);
}

#[test]
fn server_buffer_pool_small_buffers_and_reset() {
    let mut pool = BufferPool::new(16, 4);
    pool.return_buffer(Vec::with_capacity(4));
    assert_eq!(pool.stats().current_size, 0);
    pool.return_buffer_with_capacity(vec![7, 7], 16);
    let b = pool.get_buffer();
    assert_eq!(b, vec![0u8; 16]);
    pool.prewarm(9);
    assert_eq!(pool.stats().current_size, 4);
}

#[test]
fn protobuf_buffer_pool_fifo_and_limit() {
    let mut pool = ProtobufBufferPool::new(2, 64);
    assert_eq!(pool.stats().available_buffers, 0);
    let fresh = pool.get_buffer();
    assert!(fresh.is_empty());
    pool.return_buffer(vec![1, 2, 3]);
    pool.return_buffer(vec![4]);
    pool.return_buffer(vec![5]);
    let stats = pool.stats();
    assert_eq!(stats.available_buffers, 2);
    assert_eq!(stats.max_size, 2);
    assert_eq!(stats.default_capacity, 64);
    let b = pool.get_buffer();
    assert!(b.is_empty());
    assert_eq!(pool.stats().available_buffers, 1);
    let d = ProtobufBufferPool::default().stats();
    assert_eq!((d.max_size, d.default_capacity), (1000, 4096));
}
