use crabcache::protocol::commands::Response;
use crabcache::protocol::protobuf::generated::{
    crab_cache_response, CrabCacheCommand, CrabCacheResponse, ResponseStatus, StubFormatError,
};
use crabcache::protocol::protobuf::parser::ProtobufParser;
use crabcache::protocol::protobuf::schema_registry::SchemaRegistry;
use crabcache::protocol::protobuf::serializer::ProtobufSerializer;
use crabcache::protocol::protobuf::zero_copy::ProtobufZeroCopy;
use crabcache::protocol::protobuf::{ProtobufConfig, ProtobufError, PROTOBUF_MAGIC, PROTOBUF_VERSION};

#[test]
fn test_parse_put_command() {
    let mut parser = ProtobufParser::default();
    let data = vec![
        0x0A, 0x08, 0x74, 0x65, 0x73, 0x74, 0x5F, 0x6B, 0x65, 0x79, 0x12, 0x0A, 0x74, 0x65, 0x73,
        0x74, 0x5F, 0x76, 0x61, 0x6C, 0x75, 0x65,
    ];
    let result = parser.parse_command(&data);
    assert!(result.is_err());
}

#[test]
fn test_parse_get_command() {
    let mut parser = ProtobufParser::default();
    let data = vec![0x0A, 0x08, 0x74, 0x65, 0x73, 0x74, 0x5F, 0x6B, 0x65, 0x79];
    let result = parser.parse_command(&data);
    assert!(result.is_err());
}

#[test]
fn test_parse_batch_commands() {
    let mut parser = ProtobufParser::default();
    let data = vec![
        0x0A, 0x04, 0x6B, 0x65, 0x79, 0x31, 0x12, 0x06, 0x76, 0x61, 0x6C, 0x75, 0x65, 0x31,
    ];
    let result = parser.parse_batch(&data);
    assert!(result.is_err());
}

#[test]
fn test_message_size_limit() {
    let config = ProtobufConfig { max_message_size: 100, ..Default::default() };
    let mut parser = ProtobufParser::new(config);
    let large_data = vec![0u8; 200];
    let result = parser.parse_command(&large_data);
    assert!(result.is_err());
    match result.unwrap_err() {
        ProtobufError::MessageTooLarge { size: 200, max: 100 } => {}
        _ => panic!("Expected MessageTooLarge error"),
    }
}

#[test]
fn test_serialize_ok_response() {
    let mut serializer = ProtobufSerializer::default();
    let serialized = serializer.serialize_response(Response::Okay, "test_123".to_string()).unwrap();
    assert_eq!(&serialized[0..4], &PROTOBUF_MAGIC);
    assert_eq!(serialized[4], PROTOBUF_VERSION);
    assert!(serialized.len() > 9);
}

#[test]
fn test_serialize_value_response() {
    let mut serializer = ProtobufSerializer::default();
    let serialized = serializer
        .serialize_response(Response::Value(b"test_value_data".to_vec()), "test_456".to_string())
        .unwrap();
    assert_eq!(&serialized[0..4], &PROTOBUF_MAGIC);
    assert_eq!(serialized[4], PROTOBUF_VERSION);
    let message_len =
        u32::from_be_bytes([serialized[5], serialized[6], serialized[7], serialized[8]]) as usize;
    assert_eq!(serialized.len(), 9 + message_len);
    let decoded = CrabCacheResponse::decode(&serialized[9..]).unwrap();
    assert_eq!(decoded.request_id, "test_456");
    assert_eq!(decoded.status, ResponseStatus::Success);
}

#[test]
fn test_serialize_error_response() {
    let mut serializer = ProtobufSerializer::default();
    let serialized = serializer
        .serialize_response(Response::Error("Test error message".to_string()), "test_error".to_string())
        .unwrap();
    let decoded = CrabCacheResponse::decode(&serialized[9..]).unwrap();
    assert_eq!(decoded.request_id, "test_error");
}

#[test]
fn test_serialize_batch_response() {
    let mut serializer = ProtobufSerializer::default();
    let responses = vec![
        Response::Okay,
        Response::Value(b"test_value".to_vec()),
        Response::Error("test_error".to_string()),
    ];
    let ids = vec!["req_1".to_string(), "req_2".to_string(), "req_3".to_string()];
    let batch = serializer.batch_response_at(&responses, &ids, 7).unwrap();
    match batch.response {
        Some(crab_cache_response::Response::Batch(batch_response)) => {
            assert_eq!(batch_response.responses.len(), 3);
            assert_eq!(batch_response.successful_count, 2);
            assert_eq!(batch_response.failed_count, 1);
        }
        _ => panic!("Expected Batch response"),
    }
    let serialized = serializer.serialize_batch_response(responses, ids).unwrap();
    let decoded = CrabCacheResponse::decode(&serialized[9..]).unwrap();
    assert_eq!(decoded.request_id, "batch");
}

#[test]
fn test_protocol_header_format() {
    let mut serializer = ProtobufSerializer::default();
    let serialized = serializer.serialize_response(Response::Pong, "ping_test".to_string()).unwrap();
    assert_eq!(serialized[0], 0x43);
    assert_eq!(serialized[1], 0x52);
    assert_eq!(serialized[2], 0x41);
    assert_eq!(serialized[3], 0x42);
    assert_eq!(serialized[4], 0x01);
    let expected_length = serialized.len() - 9;
    let actual_length =
        u32::from_be_bytes([serialized[5], serialized[6], serialized[7], serialized[8]]) as usize;
    assert_eq!(actual_length, expected_length);
}

#[test]
fn batch_with_mismatched_ids_is_refused() {
    let mut serializer = ProtobufSerializer::default();
    let result = serializer.serialize_batch_response(vec![Response::Okay], vec![]);
    assert!(matches!(result, Err(ProtobufError::DecodeError(_))));
}

#[test]
fn response_conversion_at_a_time() {
    let serializer = ProtobufSerializer::default();
    let r = serializer.response_to_proto_at(Response::Null, "r".to_string(), 11).unwrap();
    assert_eq!(r.status, ResponseStatus::NotFound);
    assert_eq!(r.timestamp, 11);
    match r.response {
        Some(crab_cache_response::Response::Null(n)) => assert_eq!(n.reason, "Key not found"),
        _ => panic!("Expected Null response"),
    }
    let s = serializer.response_to_proto_at(Response::Stats("{}".to_string()), "s".to_string(), 1).unwrap();
    match s.response {
        Some(crab_cache_response::Response::Stats(st)) => {
            assert_eq!(st.stats, vec![("json_data".to_string(), "{}".to_string())]);
            assert_eq!(st.server_info.capabilities.max_batch_size, 128);
        }
        _ => panic!("Expected Stats response"),
    }
}

#[test]
fn stub_messages_roundtrip() {
    let c = CrabCacheCommand { request_id: "abc".to_string(), timestamp: 5, command: None };
    let bytes = c.encode_to_vec();
    assert_eq!(bytes, b"STUB_COMMAND:abc".to_vec());
    let d = CrabCacheCommand::decode(&bytes).unwrap();
    assert_eq!(d.request_id, "abc");
    assert!(matches!(CrabCacheCommand::decode(b"nope"), Err(StubFormatError::InvalidFormat)));
    let mut buf = vec![1u8];
    c.encode(&mut buf).unwrap();
    assert_eq!(buf.len(), 1 + bytes.len());
}

#[test]
fn schema_registry_evicts_oldest() {
    let mut registry = SchemaRegistry::new(2);
    registry.register_schema("a".to_string(), vec![1]).unwrap();
    registry.register_schema("b".to_string(), vec![2]).unwrap();
    registry.register_schema("c".to_string(), vec![3]).unwrap();
    assert_eq!(registry.schema_count(), 2);
    assert!(!registry.has_schema("a"));
    assert_eq!(registry.get_schema("c"), Some(vec![3]));
    registry.register_schema("c".to_string(), vec![4]).unwrap();
    assert_eq!(registry.get_schema("c"), Some(vec![4]));
    assert_eq!(registry.get_schema("zzz"), None);
}

#[test]
fn schema_registry_reads_back_what_was_registered_and_stays_within_size() {
    let mut registry = SchemaRegistry::new(2);
    assert_eq!(registry.schema_count(), 0);
    assert_eq!(registry.get_schema("never"), None);
    for (i, name) in ["a", "b", "c", "b", "d"].iter().enumerate() {
        registry.register_schema(name.to_string(), vec![i as u8]).unwrap();
        assert_eq!(registry.get_schema(name), Some(vec![i as u8]));
        assert!(registry.has_schema(name));
        assert!(registry.schema_count() <= 2);
    }
}

#[test]
fn zero_copy_pool_reuses_the_last_buffer_and_keeps_at_most_its_size() {
    let mut config = ProtobufConfig::default();
    config.buffer_pool_size = 1;
    let mut zc = ProtobufZeroCopy::new(config);
    let fresh = zc.get_buffer(10);
    assert!(fresh.is_empty());
    assert!(fresh.capacity() >= 4096);
    let mut used = Vec::with_capacity(8192);
    used.extend_from_slice(b"old data");
    zc.return_buffer(used);
    zc.return_buffer(vec![1, 2, 3]);
    let again = zc.get_buffer(100);
    assert!(again.is_empty());
    assert!(again.capacity() >= 8192);
    let big = zc.get_buffer(10000);
    assert!(big.capacity() >= 10000);
    assert_eq!(zc.parse_zero_copy(vec![9, 8, 7]).unwrap(), vec![9, 8, 7]);
}
