use crabcache::protocol::toon::decoder::{ToonDecodeError, ToonDecoder};
use crabcache::protocol::toon::encoder::ToonEncoder;
use crabcache::protocol::toon::types::ToonTypeAnalyzer;
use crabcache::protocol::toon::{StringInterner, ToonFlags, ToonPacket, ToonType};
use crabcache::protocol::varint::{read_varint, varint_size};

#[test]
fn test_toon_flags() {
    let flags = ToonFlags::default();
    let byte = flags.to_byte();
    let restored = ToonFlags::from_byte(byte);

    assert_eq!(flags.zero_copy, restored.zero_copy);
    assert_eq!(flags.string_interning, restored.string_interning);
    assert_eq!(flags.compression, restored.compression);
    assert_eq!(flags.simd_optimized, restored.simd_optimized);
}

#[test]
fn test_toon_type_sizes() {
    assert_eq!(ToonType::Null.estimated_size(), 1);
    assert_eq!(ToonType::Bool(true).estimated_size(), 2);
    assert_eq!(ToonType::Int8(42).estimated_size(), 2);
    assert_eq!(ToonType::String("hello".to_string()).estimated_size(), 7);
}

#[test]
fn mod_test_string_interning() {
    let mut interner = StringInterner::new();

    let id1 = interner.intern("hello");
    let id2 = interner.intern("world");
    let id3 = interner.intern("hello");

    assert_eq!(id1, id3);
    assert_ne!(id1, id2);
    assert_eq!(interner.get(id1), Some("hello"));
    assert_eq!(interner.get(id2), Some("world"));
}

#[test]
fn mod_test_magic_bytes() {
    let packet = ToonPacket::new(ToonType::Null);
    assert_eq!(packet.magic, *b"TOON");

    assert!(ToonPacket::is_valid_magic(b"TOON123"));
    assert!(!ToonPacket::is_valid_magic(b"CRAB123"));
    assert!(!ToonPacket::is_valid_magic(b"TOO"));
}

#[test]
fn test_varint_size() {
    assert_eq!(varint_size(0), 1);
    assert_eq!(varint_size(127), 1);
    assert_eq!(varint_size(128), 2);
    assert_eq!(varint_size(16383), 2);
    assert_eq!(varint_size(16384), 3);
}

#[test]
fn test_encode_null() {
    let mut encoder = ToonEncoder::new();
    let packet = ToonPacket::new(ToonType::Null);
    let result = encoder.encode(&packet).unwrap();
    assert!(result.len() >= 7);
    assert_eq!(&result[0..4], b"TOON");
}

#[test]
fn test_encode_bool() {
    let mut encoder = ToonEncoder::new();
    let packet = ToonPacket::new(ToonType::Bool(true));
    let result = encoder.encode(&packet).unwrap();
    assert_eq!(&result[0..4], b"TOON");
    assert!(result.len() >= 8);
}

#[test]
fn test_encode_string() {
    let mut encoder = ToonEncoder::new();
    let packet = ToonPacket::new(ToonType::String("hello".to_string()));
    let result = encoder.encode(&packet).unwrap();
    assert_eq!(&result[0..4], b"TOON");
    assert!(result.len() >= 12);
}

#[test]
fn encoder_test_string_interning() {
    let mut encoder = ToonEncoder::new();
    let packet1 = ToonPacket::new(ToonType::String("repeated_string".to_string()));
    let _result1 = encoder.encode(&packet1).unwrap();
    let packet2 = ToonPacket::new(ToonType::String("repeated_string".to_string()));
    let _result2 = encoder.encode(&packet2).unwrap();
    let (interned_count, _memory_saved) = encoder.get_interning_stats();
    assert!(interned_count > 0);
}

#[test]
fn test_encode_array() {
    let mut encoder = ToonEncoder::new();
    let array = vec![ToonType::Int32(1), ToonType::Int32(2), ToonType::Int32(3)];
    let packet = ToonPacket::new(ToonType::Array(array));
    let result = encoder.encode(&packet).unwrap();
    assert_eq!(&result[0..4], b"TOON");
    assert!(result.len() >= 10);
}

#[test]
fn test_encode_object() {
    let mut encoder = ToonEncoder::new();
    let obj = vec![
        ("key1".to_string(), ToonType::String("value1".to_string())),
        ("key2".to_string(), ToonType::Int32(42)),
    ];
    let packet = ToonPacket::new(ToonType::Object(obj));
    let result = encoder.encode(&packet).unwrap();
    assert_eq!(&result[0..4], b"TOON");
    assert!(result.len() >= 15);
}

#[test]
fn test_varint_encoding() {
    let encoder = ToonEncoder::new();
    assert_eq!(encoder.encode_varint_bytes(0), vec![0]);
    assert_eq!(encoder.encode_varint_bytes(127), vec![127]);
    assert_eq!(encoder.encode_varint_bytes(128), vec![128, 1]);
    assert_eq!(encoder.encode_varint_bytes(16383), vec![255, 127]);
    assert_eq!(encoder.encode_varint_bytes(16384), vec![128, 128, 1]);
}

#[test]
fn test_decode_null() {
    let mut encoder = ToonEncoder::new();
    let mut decoder = ToonDecoder::new();
    let packet = ToonPacket::new(ToonType::Null);
    let encoded = encoder.encode(&packet).unwrap();
    let decoded = decoder.decode(&encoded).unwrap();
    assert_eq!(decoded.data, ToonType::Null);
}

#[test]
fn test_decode_bool() {
    let mut encoder = ToonEncoder::new();
    let mut decoder = ToonDecoder::new();
    let packet = ToonPacket::new(ToonType::Bool(true));
    let encoded = encoder.encode(&packet).unwrap();
    let decoded = decoder.decode(&encoded).unwrap();
    assert_eq!(decoded.data, ToonType::Bool(true));
}

#[test]
fn test_decode_string() {
    let mut encoder = ToonEncoder::new();
    let mut decoder = ToonDecoder::new();
    let packet = ToonPacket::new(ToonType::String("hello world".to_string()));
    let encoded = encoder.encode(&packet).unwrap();
    let decoded = decoder.decode(&encoded).unwrap();
    match decoded.data {
        ToonType::String(s) => assert_eq!(s, "hello world"),
        ToonType::InternedString(_) => {}
        _ => panic!("Expected string or interned string"),
    }
}

#[test]
fn test_decode_array() {
    let mut encoder = ToonEncoder::new();
    let mut decoder = ToonDecoder::new();
    let array = vec![
        ToonType::Int32(1),
        ToonType::Int32(2),
        ToonType::String("test".to_string()),
    ];
    let packet = ToonPacket::new(ToonType::Array(array));
    let encoded = encoder.encode(&packet).unwrap();
    let decoded = decoder.decode(&encoded).unwrap();
    match decoded.data {
        ToonType::Array(arr) => {
            assert_eq!(arr.len(), 3);
            assert_eq!(arr[0], ToonType::Int32(1));
            assert_eq!(arr[1], ToonType::Int32(2));
        }
        _ => panic!("Expected array"),
    }
}

#[test]
fn test_roundtrip_object() {
    let mut encoder = ToonEncoder::new();
    let mut decoder = ToonDecoder::new();
    let obj = vec![
        ("name".to_string(), ToonType::String("Alice".to_string())),
        ("age".to_string(), ToonType::UInt32(30)),
        ("active".to_string(), ToonType::Bool(true)),
    ];
    let packet = ToonPacket::new(ToonType::Object(obj));
    let encoded = encoder.encode(&packet).unwrap();
    let decoded = decoder.decode(&encoded).unwrap();
    match decoded.data {
        ToonType::Object(decoded_obj) => {
            assert_eq!(decoded_obj.len(), 3);
            assert!(decoded_obj.iter().any(|(k, _)| k == "name"));
            assert!(decoded_obj.iter().any(|(k, _)| k == "age"));
            assert!(decoded_obj.iter().any(|(k, _)| k == "active"));
        }
        _ => panic!("Expected object"),
    }
}

#[test]
fn test_varint_decoding() {
    assert_eq!(read_varint(&[0]).unwrap(), (0, 1));
    assert_eq!(read_varint(&[127]).unwrap(), (127, 1));
    assert_eq!(read_varint(&[128, 1]).unwrap(), (128, 2));
    assert_eq!(read_varint(&[255, 127]).unwrap(), (16383, 2));
}

#[test]
fn decoder_test_invalid_magic_bytes() {
    let mut decoder = ToonDecoder::new();
    let invalid_data = b"CRAB\x01\x00\x01\x00";
    let result = decoder.decode(invalid_data);
    assert!(result.is_err());
    assert!(matches!(result.unwrap_err(), ToonDecodeError::InvalidMagic));
}

#[test]
fn toon_plain_packet_roundtrip_keeps_value() {
    let mut encoder = ToonEncoder::new();
    let mut decoder = ToonDecoder::new();
    let flags = ToonFlags { zero_copy: true, string_interning: false, compression: false, simd_optimized: false };
    let value = ToonType::Array(vec![
        ToonType::UInt64(300),
        ToonType::Int64(-5),
        ToonType::String("a longer string".to_string()),
        ToonType::Bytes(vec![1, 2, 3]),
    ]);
    let packet = ToonPacket::with_flags(value, flags);
    let encoded = encoder.encode(&packet).unwrap();
    let decoded = decoder.decode(&encoded).unwrap();
    assert_eq!(decoded.data, packet.data);
}

#[test]
fn toon_flags_byte_masks_unknown_bits() {
    let flags = ToonFlags::from_byte(0xFF);
    assert_eq!(flags.to_byte(), 0x0F);
}

fn narrow_f64(bits: u64) -> Option<u32> {
    let v = f64::from_bits(bits);
    let f = v as f32;
    if ((f as f64) - v).abs() < f32::EPSILON as f64 {
        Some(f.to_bits())
    } else {
        None
    }
}

#[test]
fn test_type_optimization() {
    let large_int = ToonType::Int64(42);
    let optimized = ToonTypeAnalyzer::optimize_value(&large_int, &narrow_f64);
    assert_eq!(optimized, ToonType::Int8(42));
    let large_float = ToonType::Float64(3.14f64.to_bits());
    let optimized = ToonTypeAnalyzer::optimize_value(&large_float, &narrow_f64);
    assert_eq!(optimized, ToonType::Float32(3.14f32.to_bits()));
}

#[test]
fn optimize_nested_values() {
    let v = ToonType::Object(vec![
        ("a".to_string(), ToonType::UInt64(70000)),
        ("b".to_string(), ToonType::Array(vec![ToonType::Int64(-40000), ToonType::Int64(1 << 40)])),
    ]);
    let o = ToonTypeAnalyzer::optimize_value(&v, &narrow_f64);
    assert_eq!(
        o,
        ToonType::Object(vec![
            ("a".to_string(), ToonType::UInt32(70000)),
            ("b".to_string(), ToonType::Array(vec![ToonType::Int32(-40000), ToonType::Int64(1 << 40)])),
        ])
    );
    assert!(ToonTypeAnalyzer::should_intern_string("hello", 2));
    assert!(!ToonTypeAnalyzer::should_intern_string("hell", 5));
}

#[test]
fn toon_encoder_writes_first_long_string_in_full_then_refers_to_it() {
    let mut encoder = ToonEncoder::new();
    let value = ToonType::String("hello world".to_string());
    let mut first = Vec::new();
    encoder.encode_value(&value, &mut first, true).unwrap();
    let mut expected = vec![0x0C, 11];
    expected.extend_from_slice(b"hello world");
    assert_eq!(first, expected);
    assert_eq!(encoder.get_interning_stats().0, 1);
    let mut second = Vec::new();
    encoder.encode_value(&value, &mut second, true).unwrap();
    assert_eq!(second, vec![0x10, 0x00]);
    assert_eq!(encoder.get_interning_stats().0, 1);
    let mut short = Vec::new();
    encoder.encode_value(&ToonType::String("hi".to_string()), &mut short, true).unwrap();
    assert_eq!(short, vec![0x0C, 2, b'h', b'i']);
}

#[test]
fn toon_interned_roundtrip_with_decoder_in_step() {
    let mut encoder = ToonEncoder::new();
    let mut decoder = ToonDecoder::new();
    let value = ToonType::Array(vec![
        ToonType::String("hello world".to_string()),
        ToonType::String("abc".to_string()),
        ToonType::String("hello world".to_string()),
    ]);
    let packet = ToonPacket::new(value);
    let encoded = encoder.encode(&packet).unwrap();
    let decoded = decoder.decode(&encoded).unwrap();
    assert_eq!(
        decoded.data,
        ToonType::Array(vec![
            ToonType::InternedString(0),
            ToonType::String("abc".to_string()),
            ToonType::InternedString(0),
        ])
    );
    assert_eq!(decoder.get_interning_stats().0, 1);
    let again = encoder.encode(&ToonPacket::new(ToonType::String("hello world".to_string()))).unwrap();
    let decoded_again = decoder.decode(&again).unwrap();
    assert_eq!(decoded_again.data, ToonType::InternedString(0));
}

#[test]
fn string_interner_counts_saved_bytes_per_repeat() {
    let mut interner = StringInterner::new();
    assert_eq!(interner.intern("hello"), 0);
    assert_eq!(interner.memory_saved(), 0);
    assert_eq!(interner.intern("hello"), 0);
    assert_eq!(interner.memory_saved(), 5);
    assert_eq!(interner.intern("hello"), 0);
    assert_eq!(interner.memory_saved(), 10);
    assert_eq!(interner.intern("abc"), 1);
    assert_eq!(interner.memory_saved(), 10);
}

#[test]
fn synced_decoder_reads_reference_keys_as_the_encoders_strings() {
    let mut encoder = ToonEncoder::new();
    let packet = ToonPacket::new(ToonType::Array(vec![
        ToonType::String("hello world".to_string()),
        ToonType::String("second string".to_string()),
    ]));
    encoder.encode(&packet).unwrap();
    let mut decoder = ToonDecoder::new();
    decoder.sync_interner(encoder.interner());
    assert_eq!(decoder.get_interning_stats().0, 2);
    let mut cursor = 0usize;
    let value = decoder.decode_value(&[0x0F, 0x01, 0x10, 0x01, 0x00], &mut cursor, false).unwrap();
    assert_eq!(value, ToonType::Object(vec![("second string".to_string(), ToonType::Null)]));
    assert_eq!(cursor, 5);
}
