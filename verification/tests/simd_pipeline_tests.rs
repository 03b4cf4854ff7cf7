use crabcache::protocol::binary::BinaryProtocol;
use crabcache::protocol::commands::{Command, Response};
use crabcache::protocol::pipeline::{
    BinaryPipelineProtocol, PipelineBuilder, PipelineError, PipelineProcessor, PipelineProtocol,
    PipelineResponseBatch, TextPipelineProtocol,
};
use crabcache::protocol::simd_parser::{SIMDParser, SimdParseError};

#[test]
fn test_simd_parser_creation() {
    let parser = SIMDParser::new();
    println!("SIMD available: {}", parser.is_simd_available());
}

#[test]
fn test_simd_command_parsing() {
    for simd in [false, true] {
        let mut parser = SIMDParser::with_simd(simd);
        let test_data = b"PING\nGET test_key\nPUT key value\nDEL old_key\n";
        let result = parser.parse_batch_simd(test_data);
        assert!(result.is_ok());
        let commands = result.unwrap();
        assert_eq!(commands.len(), 4);
        match &commands[0] {
            Command::Ping => {}
            _ => panic!("Expected PING command"),
        }
        match &commands[1] {
            Command::Get { key } => assert_eq!(key.as_slice(), b"test_key"),
            _ => panic!("Expected GET command"),
        }
    }
}

#[test]
fn test_large_batch_parsing() {
    let mut parser = SIMDParser::new();
    let mut large_batch = Vec::new();
    for i in 0..1000 {
        large_batch.extend_from_slice(format!("GET key_{}\n", i).as_bytes());
        large_batch.extend_from_slice(format!("PUT key_{} value_{}\n", i, i).as_bytes());
    }
    let result = parser.parse_batch_simd(&large_batch);
    assert!(result.is_ok());
    assert_eq!(result.unwrap().len(), 2000);
}

#[test]
fn simd_fast_paths() {
    let parser = SIMDParser::with_simd(true);
    assert_eq!(
        parser.parse_put_command_simd(b"k v w").unwrap(),
        Command::Put { key: b"k".to_vec(), value: b"v w".to_vec(), ttl: None }
    );
    assert_eq!(parser.parse_put_command_simd(b"kv"), Err(SimdParseError::MissingValue));
    assert_eq!(parser.parse_put_command_simd(b" v"), Err(SimdParseError::InvalidPutFormat));
    assert_eq!(parser.parse_get_command_simd(b"key rest").unwrap(), Command::Get { key: b"key".to_vec() });
    assert_eq!(parser.parse_del_command_simd(b" x"), Err(SimdParseError::MissingKey(0x04)));
    assert_eq!(parser.parse_single_command_simd(b""), Err(SimdParseError::EmptyCommand));
    assert_eq!(
        parser.parse_single_command_scalar(b"fly"),
        Err(SimdParseError::UnknownCommand("fly".to_string()))
    );
    assert_eq!(parser.parse_single_command_scalar(b"get"), Err(SimdParseError::UnknownCommand("get".to_string())));
}

#[test]
fn simd_batch_equals_scalar_batch() {
    let mut parser = SIMDParser::with_simd(true);
    let mut data = vec![b'x'; 40];
    data.extend_from_slice(b"\nPING\n");
    let commands = parser.parse_batch_simd(&data).unwrap();
    assert_eq!(commands, vec![Command::Ping]);
    let mut scalar = SIMDParser::new();
    assert_eq!(scalar.parse_batch_simd(&data).unwrap(), vec![Command::Ping]);
}

#[test]
fn test_text_pipeline_protocol() {
    let protocol = TextPipelineProtocol;
    let batch_data = b"PING\nGET test\nPUT key value\n";
    let commands = protocol.parse_batch(batch_data).unwrap();
    assert_eq!(commands.len(), 3);
    assert!(matches!(commands[0], Command::Ping));
    assert!(matches!(commands[1], Command::Get { .. }));
    assert!(matches!(commands[2], Command::Put { .. }));
}

#[test]
fn test_pipeline_processor_creation() {
    let processor = PipelineProcessor::new(16);
    assert_eq!(processor.max_batch_size(), 16);
    assert_eq!(processor.get_stats().total_batches, 0);
}

#[test]
fn test_pipeline_builder() {
    let mut builder = PipelineBuilder::new(3, false);
    assert!(builder.is_empty());
    assert!(!builder.is_full());
    builder.add_command(Command::Ping).unwrap();
    builder.add_command(Command::Get { key: b"test".to_vec() }).unwrap();
    builder
        .add_command(Command::Put { key: b"key".to_vec(), value: b"value".to_vec(), ttl: None })
        .unwrap();
    assert!(builder.is_full());
    assert_eq!(builder.len(), 3);
    assert!(builder.add_command(Command::Ping).is_err());
    let batch = builder.build();
    assert_eq!(batch.commands.len(), 3);
}

#[test]
fn pipeline_processor_reads_text_batches() {
    let mut processor = PipelineProcessor::new(2);
    let batch = processor.parse_batch(b"PING\nGET a\nDEL b\n").unwrap();
    assert_eq!(batch.commands, vec![Command::Ping, Command::Get { key: b"a".to_vec() }]);
    assert!(!batch.use_binary_protocol);
    assert_eq!(batch.batch_id, 0);
    assert_eq!(processor.get_stats().total_batches, 1);
    assert_eq!(processor.get_stats().total_commands, 2);
    assert!(matches!(processor.parse_batch(b"PING"), Err(PipelineError::IncompleteCommand)));
    assert!(matches!(processor.parse_batch(b""), Err(PipelineError::EmptyBatch)));
    assert_eq!(processor.get_stats().total_batches, 1);
}

#[test]
fn pipeline_processor_reads_binary_batches() {
    let mut processor = PipelineProcessor::new(10);
    let batch = processor.parse_batch(&[0x01, 0x06]).unwrap();
    assert!(batch.use_binary_protocol);
    assert_eq!(batch.commands, vec![Command::Ping, Command::Stats]);
}

#[test]
fn pipeline_response_batches() {
    let processor = PipelineProcessor::new(4);
    let batch = PipelineResponseBatch {
        responses: vec![Response::Okay, Response::Pong],
        batch_id: 3,
        use_binary_protocol: false,
    };
    assert_eq!(processor.serialize_response_batch(&batch).unwrap(), b"OK\r\nPONG\r\n".to_vec());
    let binary = BinaryPipelineProtocol;
    assert_eq!(binary.serialize_batch(&[Response::Okay, Response::Null]).unwrap(), vec![0x10, 0x12]);
    assert_eq!(binary.protocol_name(), "binary");
    assert_eq!(binary.parse_batch(&[0x01, 0x01]).unwrap(), vec![Command::Ping, Command::Ping]);
}

#[test]
fn binary_batch_reads_each_command_after_the_last() {
    let mut data = BinaryProtocol::serialize_command(&Command::Put {
        key: b"k".to_vec(),
        value: b"v1".to_vec(),
        ttl: Some(7),
    });
    data.extend(BinaryProtocol::serialize_command(&Command::Get { key: b"key".to_vec() }));
    data.extend(BinaryProtocol::serialize_command(&Command::Put {
        key: b"a".to_vec(),
        value: b"b".to_vec(),
        ttl: None,
    }));
    data.push(0x01);
    let binary = BinaryPipelineProtocol;
    assert_eq!(
        binary.parse_batch(&data).unwrap(),
        vec![
            Command::Put { key: b"k".to_vec(), value: b"v1".to_vec(), ttl: Some(7) },
            Command::Get { key: b"key".to_vec() },
            Command::Put { key: b"a".to_vec(), value: b"b".to_vec(), ttl: None },
            Command::Ping,
        ]
    );
}

#[test]
fn simd_batch_reads_lines_longer_than_a_window() {
    let mut parser = SIMDParser::with_simd(true);
    let long_key = vec![b'k'; 40];
    let mut data = b"GET ".to_vec();
    data.extend_from_slice(&long_key);
    data.extend_from_slice(b"\nDEL x\n");
    let commands = parser.parse_batch_simd(&data).unwrap();
    assert_eq!(commands, vec![Command::Get { key: long_key.clone() }, Command::Del { key: b"x".to_vec() }]);
    let mut scalar = SIMDParser::with_simd(false);
    assert_eq!(scalar.parse_batch_simd(&data).unwrap(), commands);
}

#[test]
fn binary_parse_with_simd_keys_matches_parse_command() {
    let cmd = Command::Get { key: b"some_key".to_vec() };
    let bytes = BinaryProtocol::serialize_command(&cmd);
    assert_eq!(BinaryProtocol::parse_command_with_simd_keys(&bytes).unwrap(), cmd);
    assert_eq!(
        BinaryProtocol::parse_command_with_simd_keys(&bytes).unwrap(),
        BinaryProtocol::parse_command(&bytes).unwrap()
    );
    assert!(BinaryProtocol::parse_command_with_simd_keys(&[]).is_err());
}

#[test]
fn simd_batch_reads_zero_bytes_as_the_scalar_reading_does() {
    let mut data = b"GET abcdefgh\0\0\0\0\n".to_vec();
    data.extend_from_slice(b"PUT some_key some_value\n");
    let mut vector = SIMDParser::with_simd(true);
    let mut scalar = SIMDParser::new();
    let commands = vector.parse_batch_simd(&data).unwrap();
    assert_eq!(commands, scalar.parse_batch_simd(&data).unwrap());
    assert_eq!(commands[0], Command::Get { key: b"abcdefgh\0\0\0\0".to_vec() });
}
