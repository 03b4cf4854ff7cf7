use crabcache::protocol::toon_v2::fast_decoder::{ToonV2Error, ToonV2FastDecoder};
use crabcache::protocol::toon_v2::fast_encoder::{ToonV2BatchResponseEncoder, ToonV2FastEncoder};
use crabcache::protocol::toon_v2::{
    FastStringInterner, ToonV2Batch, ToonV2Command, ToonV2Metrics, ToonV2Packet, ToonV2Response,
    ToonV2ResponsePacket, ToonV2SingleCommand, TOON_V2_MAGIC, TOON_V2_VERSION,
};

#[test]
fn test_toon_v2_packet_size() {
    let packet = ToonV2Packet::new(ToonV2Command::Put, 10, 100);
    assert_eq!(packet.total_size(), 121);
    assert_eq!(ToonV2Packet::HEADER_SIZE, 11);
}

#[test]
fn v2_test_magic_bytes() {
    let packet = ToonV2Packet::new(ToonV2Command::Get, 5, 0);
    assert_eq!(packet.magic, TOON_V2_MAGIC);
    let bytes = [0xF0, 0x0D, 0x02, 0x02];
    assert!(ToonV2Packet::is_valid_magic(&bytes));
    let invalid_bytes = [0xF0, 0x0C, 0x02, 0x02];
    assert!(!ToonV2Packet::is_valid_magic(&invalid_bytes));
}

#[test]
fn test_command_conversion() {
    assert_eq!(ToonV2Command::from_byte(0x02), Some(ToonV2Command::Get));
    assert_eq!(ToonV2Command::from_byte(0x03), Some(ToonV2Command::Put));
    assert_eq!(ToonV2Command::from_byte(0xFF), None);
}

#[test]
fn test_fast_string_interner() {
    let mut interner = FastStringInterner::new();
    let id1 = interner.intern_fast("hello");
    let id2 = interner.intern_fast("world");
    let id3 = interner.intern_fast("hello");
    assert_eq!(id1, id3);
    assert_ne!(id1, id2);
    assert_eq!(interner.get_fast(id1), Some("hello".to_string()));
    assert_eq!(interner.get_fast(id2), Some("world".to_string()));
}

#[test]
fn test_batch_operations() {
    let mut batch = ToonV2Batch::new();
    let cmd = ToonV2SingleCommand {
        command: ToonV2Command::Put,
        key: b"key1".to_vec(),
        value: Some(b"value1".to_vec()),
        ttl: None,
    };
    batch.add_command(cmd);
    assert_eq!(batch.commands.len(), 1);
    assert!(batch.total_size > 0);
}

#[test]
fn test_metrics() {
    let mut metrics = ToonV2Metrics::default();
    metrics.record_command(100);
    metrics.record_batch(5);
    metrics.record_intern_hit();
    metrics.record_intern_miss();
    assert_eq!(metrics.commands_processed, 6);
    assert_eq!(metrics.bytes_processed, 100);
    assert_eq!(metrics.string_intern_hits, 1);
    assert_eq!(metrics.string_intern_misses, 1);
}

fn packet(command: u8, key: &[u8], value: &[u8]) -> Vec<u8> {
    let mut packet_bytes = Vec::new();
    packet_bytes.extend_from_slice(&TOON_V2_MAGIC);
    packet_bytes.push(TOON_V2_VERSION);
    packet_bytes.push(command);
    packet_bytes.push(0);
    packet_bytes.extend_from_slice(&(key.len() as u16).to_le_bytes());
    packet_bytes.extend_from_slice(&(value.len() as u32).to_le_bytes());
    packet_bytes.extend_from_slice(key);
    packet_bytes.extend_from_slice(value);
    packet_bytes
}

#[test]
fn test_fast_decoder_single_command() {
    let mut decoder = ToonV2FastDecoder::new();
    let packet_bytes = packet(ToonV2Command::Put.to_byte(), b"test", b"value");
    let result = decoder.decode_command(&packet_bytes).unwrap();
    assert_eq!(result.command, ToonV2Command::Put);
    assert_eq!(result.key, b"test".to_vec());
    assert_eq!(result.value, Some(b"value".to_vec()));
}

#[test]
fn test_fast_decoder_invalid_magic() {
    let mut decoder = ToonV2FastDecoder::new();
    let mut packet_bytes = Vec::new();
    packet_bytes.extend_from_slice(b"XX");
    packet_bytes.push(TOON_V2_VERSION);
    packet_bytes.push(ToonV2Command::Get.to_byte());
    let result = decoder.decode_command(&packet_bytes);
    assert!(result.is_err());
    assert!(matches!(result.unwrap_err(), ToonV2Error::InvalidMagic));
}

#[test]
fn test_decoder_metrics() {
    let mut decoder = ToonV2FastDecoder::new();
    let packet_bytes = packet(ToonV2Command::Ping.to_byte(), b"", b"");
    decoder.decode_command(&packet_bytes).unwrap();
    let metrics = decoder.get_metrics();
    assert_eq!(metrics.commands_processed, 1);
}

#[test]
fn fast_decoder_reads_a_batch() {
    let mut decoder = ToonV2FastDecoder::new();
    let mut bytes = packet(ToonV2Command::Get.to_byte(), b"k1", b"");
    bytes.extend_from_slice(&packet(ToonV2Command::Del.to_byte(), b"k2", b""));
    let batch = decoder.decode_batch(&bytes).unwrap();
    assert_eq!(batch.commands.len(), 2);
    assert_eq!(batch.commands[1].command, ToonV2Command::Del);
    assert_eq!(batch.commands[1].key, b"k2".to_vec());
}

#[test]
fn test_fast_encoder_single_command() {
    let mut encoder = ToonV2FastEncoder::new();
    let command = ToonV2SingleCommand {
        command: ToonV2Command::Put,
        key: b"test_key".to_vec(),
        value: Some(b"test_value".to_vec()),
        ttl: None,
    };
    let result = encoder.encode_command(&command).unwrap();
    assert!(result.len() > ToonV2Packet::HEADER_SIZE);
    assert_eq!(&result[0..2], &TOON_V2_MAGIC);
    assert_eq!(result[2], TOON_V2_VERSION);
    assert_eq!(result[3], ToonV2Command::Put.to_byte());
}

#[test]
fn test_fast_encoder_response() {
    let mut encoder = ToonV2FastEncoder::new();
    let data = b"response_data";
    let result = encoder.encode_response(ToonV2Response::Value, Some(data)).unwrap();
    assert!(result.len() >= ToonV2ResponsePacket::HEADER_SIZE + data.len());
    assert_eq!(&result[0..2], &TOON_V2_MAGIC);
    assert_eq!(result[2], TOON_V2_VERSION);
    assert_eq!(result[3], ToonV2Response::Value.to_byte());
}

#[test]
fn test_batch_encoder() {
    let mut encoder = ToonV2FastEncoder::new();
    let mut batch = ToonV2Batch::new();
    batch.add_command(ToonV2SingleCommand {
        command: ToonV2Command::Get,
        key: b"key1".to_vec(),
        value: None,
        ttl: None,
    });
    batch.add_command(ToonV2SingleCommand {
        command: ToonV2Command::Put,
        key: b"key2".to_vec(),
        value: Some(b"value2".to_vec()),
        ttl: None,
    });
    let result = encoder.encode_batch(&batch).unwrap();
    assert!(result.len() > ToonV2Packet::HEADER_SIZE * 2);
}

#[test]
fn fast_encoder_test_string_interning() {
    let mut encoder = ToonV2FastEncoder::new();
    let command1 = ToonV2SingleCommand {
        command: ToonV2Command::Put,
        key: b"common_key".to_vec(),
        value: Some(b"common_value".to_vec()),
        ttl: None,
    };
    let result1 = encoder.encode_command(&command1).unwrap();
    let command2 = ToonV2SingleCommand {
        command: ToonV2Command::Get,
        key: b"common_key".to_vec(),
        value: None,
        ttl: None,
    };
    let result2 = encoder.encode_command(&command2).unwrap();
    assert!(result2.len() < result1.len());
}

#[test]
fn test_encoder_metrics() {
    let mut encoder = ToonV2FastEncoder::new();
    let command = ToonV2SingleCommand {
        command: ToonV2Command::Ping,
        key: b"test".to_vec(),
        value: None,
        ttl: None,
    };
    encoder.encode_command(&command).unwrap();
    let metrics = encoder.get_metrics();
    assert_eq!(metrics.commands_processed, 1);
}

#[test]
fn test_batch_response_encoder() {
    let mut encoder = ToonV2BatchResponseEncoder::new();
    let responses: Vec<(ToonV2Response, Option<&[u8]>)> = vec![
        (ToonV2Response::Okay, None),
        (ToonV2Response::Value, Some(b"test_data" as &[u8])),
        (ToonV2Response::Null, None),
    ];
    let result = encoder.encode_responses(&responses).unwrap();
    assert!(result.len() >= ToonV2ResponsePacket::HEADER_SIZE * 3);
}

#[test]
fn v2_command_encode_then_decode() {
    let mut encoder = ToonV2FastEncoder::new();
    let mut decoder = ToonV2FastDecoder::new();
    let command = ToonV2SingleCommand {
        command: ToonV2Command::Put,
        key: b"k".to_vec(),
        value: Some(b"v".to_vec()),
        ttl: None,
    };
    let bytes = encoder.encode_command(&command).unwrap();
    let decoded = decoder.decode_command(&bytes).unwrap();
    assert_eq!(decoded.command, ToonV2Command::Put);
    assert_eq!(decoded.key, b"k".to_vec());
    assert_eq!(decoded.value, Some(b"v".to_vec()));
}

#[test]
fn batch_response_encoder_writes_each_header_then_data() {
    let mut encoder = ToonV2BatchResponseEncoder::new();
    let responses: Vec<(ToonV2Response, Option<&[u8]>)> =
        vec![(ToonV2Response::Null, None), (ToonV2Response::Value, Some(b"ab" as &[u8]))];
    let bytes = encoder.encode_responses(&responses).unwrap();
    assert_eq!(bytes.len(), 2 * ToonV2ResponsePacket::HEADER_SIZE + 2);
    assert_eq!(&bytes[bytes.len() - 2..], b"ab");
}
