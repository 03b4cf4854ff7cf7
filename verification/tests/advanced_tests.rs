use crabcache::protocol::advanced_pipeline::{
    AdvancedPipelineConfig, AdvancedPipelineProcessor, ParallelBatchParser,
};
use crabcache::protocol::commands::{Command, Response};
use crabcache::protocol::zero_copy_buffer::{
    ZeroCopyBufferPool, ZeroCopyConfig, ZeroCopySerializer,
};

#[test]
fn test_advanced_pipeline_processor() {
    let config = AdvancedPipelineConfig::with_parser_threads(4);
    let mut processor = AdvancedPipelineProcessor::new(config);

    let test_data = b"PING\nGET test\nPUT key value\n";
    let result = processor.process_batch_advanced(test_data);

    assert!(result.is_ok());
    let response_batch = result.unwrap();
    assert_eq!(response_batch.responses.len(), 3);
}

#[test]
fn test_parallel_batch_parser() {
    let parser = ParallelBatchParser::new(2);
    let test_data = b"PING\nGET test\nPUT key value\n";

    let result = parser.parse_batch_parallel(test_data);
    assert!(result.is_ok());

    let batch = result.unwrap();
    assert_eq!(batch.len(), 3);
}

#[test]
fn advanced_pipeline_each_parser_path() {
    let data = b"PING\nGET a\nSTATS\nPUT k v\nDEL d\nbogus\n";
    let base = AdvancedPipelineConfig::with_parser_threads(2);
    // vectorised batch parser: STATS is read too
    let mut p = AdvancedPipelineProcessor::new(base);
    assert_eq!(p.process_batch_advanced(data).unwrap().responses.len(), 5);
    // zero-copy parser
    let mut c = base;
    c.enable_simd = false;
    let mut p = AdvancedPipelineProcessor::new(c);
    let r = p.process_batch_advanced(data).unwrap();
    assert!(r.responses.iter().all(|x| *x == Response::Okay));
    // plain parser, stopping at the batch size
    c.enable_zero_copy = false;
    c.max_batch_size = 2;
    let mut p = AdvancedPipelineProcessor::new(c);
    assert_eq!(p.process_batch_advanced(data).unwrap().responses.len(), 2);
    c.max_batch_size = 64;
    let mut p = AdvancedPipelineProcessor::new(c);
    assert_eq!(p.process_batch_advanced(data).unwrap().responses.len(), 4);
}

#[test]
fn parallel_parser_skips_unknown_and_unterminated_lines() {
    let parser = ParallelBatchParser::new(1);
    let v = parser.parse_batch_sequential(b"get a\nSTATS\nnope\nDEL b\nPING").unwrap();
    assert_eq!(v.len(), 2);
    assert!(matches!(&v[0], Command::Get { key } if key.as_slice() == b"a"));
    assert!(matches!(&v[1], Command::Del { key } if key.as_slice() == b"b"));
}

#[test]
fn test_zero_copy_buffer_pool() {
    let config = ZeroCopyConfig::default();
    let mut pool = ZeroCopyBufferPool::new(config);

    let buffer1 = pool.get_buffer(1024);
    assert!(buffer1.capacity() >= 1024);

    pool.return_buffer(buffer1);

    let buffer2 = pool.get_buffer(1024);
    assert!(buffer2.capacity() >= 1024);

    let stats = pool.get_stats();
    let total_requests = stats.reuse_hits + stats.reuse_misses;
    let efficiency =
        if total_requests == 0 { 0.0 } else { stats.reuse_hits as f64 / total_requests as f64 };
    assert!(efficiency > 0.0);
}

#[test]
fn test_zero_copy_serializer() {
    let config = ZeroCopyConfig::default();
    let pool = ZeroCopyBufferPool::new(config);
    let mut serializer = ZeroCopySerializer::new(pool);

    let responses = vec![Response::Okay, Response::Pong, Response::Value(b"test_value".to_vec())];

    let result = serializer.serialize_response_batch_zero_copy(&responses);
    assert!(result.is_ok());

    let serialized = result.unwrap();
    assert!(!serialized.is_empty());

    let stats = serializer.get_stats();
    assert_eq!(stats.responses_serialized, 3);
}

#[test]
fn test_zero_copy_command_parsing() {
    let config = ZeroCopyConfig::default();
    let pool = ZeroCopyBufferPool::new(config);
    let mut serializer = ZeroCopySerializer::new(pool);

    let test_data = b"PING\nGET test_key\nPUT key value\nDEL old_key\n";

    let result = serializer.parse_command_batch_zero_copy(test_data);
    assert!(result.is_ok());

    let commands = result.unwrap();
    assert_eq!(commands.len(), 4);

    match &commands[0] {
        Command::Ping => {}
        _ => panic!("Expected PING command"),
    }

    match &commands[1] {
        Command::Get { key } => {
            assert_eq!(key.as_slice(), b"test_key");
        }
        _ => panic!("Expected GET command"),
    }
}
