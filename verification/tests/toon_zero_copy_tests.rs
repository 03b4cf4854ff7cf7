use crabcache::protocol::toon::zero_copy::{
    ToonZeroCopyBuilder, ToonZeroCopyConfig, ToonZeroCopyManager, ZeroCopyError,
};
use crabcache::protocol::toon::ToonType;

#[test]
fn test_buffer_pool() {
    let mut manager = ToonZeroCopyManager::new();
    let buffer1 = manager.get_buffer(1024);
    assert!(buffer1.capacity() >= 1024);
    manager.return_buffer(buffer1);
    let buffer2 = manager.get_buffer(1024);
    assert!(buffer2.capacity() >= 1024);
    let stats = manager.get_stats();
    assert!(stats.pool_hits > 0);
}

#[test]
fn test_zero_copy_encoding() {
    let mut manager = ToonZeroCopyManager::new();
    let bytes_data = b"hello world".to_vec();
    let value = ToonType::Bytes(bytes_data.clone());
    let encoded = manager.zero_copy_encode(&value).unwrap();
    assert_eq!(encoded, bytes_data);
    let stats = manager.get_stats();
    assert!(stats.allocations_avoided > 0);
    assert!(stats.bytes_saved > 0);
}

#[test]
fn test_string_zero_copy() {
    let mut manager = ToonZeroCopyManager::new();
    let string_value = ToonType::String("test string".to_string());
    let encoded = manager.zero_copy_encode(&string_value).unwrap();
    assert_eq!(encoded, b"test string".to_vec());
    let stats = manager.get_stats();
    assert!(stats.allocations_avoided > 0);
}

#[test]
fn zero_copy_test_efficiency_calculation() {
    let mut manager = ToonZeroCopyManager::new();
    let _buffer1 = manager.get_buffer(1024);
    let buffer2 = manager.get_buffer(1024);
    manager.return_buffer(buffer2);
    let _buffer3 = manager.get_buffer(1024);
    let stats = manager.get_stats();
    let total = stats.pool_hits + stats.pool_misses;
    let efficiency = if total == 0 { 0.0 } else { stats.pool_hits as f64 / total as f64 };
    assert!(efficiency > 0.0 && efficiency <= 1.0);
}

#[test]
fn test_zero_copy_builder() {
    let mut builder = ToonZeroCopyBuilder::new();
    let value = ToonType::String("builder test".to_string());
    let encoded = builder.encode_value(&value).unwrap();
    assert_eq!(encoded, b"builder test".to_vec());
    let stats = builder.get_stats();
    assert!(stats.allocations_avoided > 0);
}

#[test]
fn zero_copy_arrays_objects_and_scalars() {
    let mut m = ToonZeroCopyManager::new();
    let arr = ToonType::Array(vec![
        ToonType::Bytes(vec![9]),
        ToonType::String("ab".to_string()),
        ToonType::UInt16(0x0102),
        ToonType::Bool(true),
    ]);
    let out = m.zero_copy_encode(&arr).unwrap();
    assert_eq!(
        out,
        vec![4, 0x0D, 1, 0, 0, 0, 9, 0x0C, 2, 0, 0, 0, b'a', b'b', 0x07, 0x02, 0x01, 0x01, 1]
    );
    let obj = ToonType::Object(vec![("k".to_string(), ToonType::Int8(-1))]);
    assert_eq!(m.zero_copy_encode(&obj).unwrap(), vec![1, 0x0C, 1, 0, 0, 0, b'k', 0x02, 0xFF]);
    assert_eq!(m.zero_copy_encode(&ToonType::UInt32(7)).unwrap(), vec![0x08, 7, 0, 0, 0]);
    assert_eq!(m.zero_copy_encode(&ToonType::Null).unwrap(), vec![0x00]);
    let nested = ToonType::Array(vec![ToonType::Array(vec![])]);
    assert_eq!(m.zero_copy_encode(&nested), Err(ZeroCopyError::ComplexAsPrimitive));
    assert_eq!(m.zero_copy_encode(&ToonType::InternedString(3)), Err(ZeroCopyError::ComplexAsPrimitive));
}

#[test]
fn zero_copy_regions_and_copies() {
    let mut m = ToonZeroCopyManager::new();
    assert_eq!(m.create_mmap_region(10).unwrap_err(), ZeroCopyError::RegionTooSmall);
    let r = m.create_mmap_region(2 * 1024 * 1024).unwrap();
    assert_eq!(r.size, 2 * 1024 * 1024);
    assert!(r.data.iter().all(|b| *b == 0));
    assert_eq!(m.get_stats().mmap_operations, 1);
    let mut dst = vec![0u8; 3];
    m.simd_copy(&[1, 2, 3], &mut dst).unwrap();
    assert_eq!(dst, vec![1, 2, 3]);
    let mut config = ToonZeroCopyConfig::default();
    config.enable_simd = true;
    let mut m2 = ToonZeroCopyManager::with_config(config);
    let mut short = vec![0u8; 2];
    assert_eq!(m2.simd_copy(&[1, 2, 3], &mut short), Err(ZeroCopyError::LengthMismatch));
    let mut ok = vec![0u8; 3];
    m2.simd_copy(&[4, 5, 6], &mut ok).unwrap();
    assert_eq!(m2.get_stats().simd_operations, 1);
    assert_eq!(m.create_zero_copy_slice(b"xy"), b"xy".to_vec());
}
