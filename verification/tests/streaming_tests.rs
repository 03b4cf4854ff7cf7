use crabcache::server::streaming_buffer::{too_large_message, StreamingBuffer};

#[test]
fn test_streaming_buffer_single_command() {
    let mut buffer = StreamingBuffer::new(1024);
    buffer.append(b"GET key1\n").unwrap();
    assert!(buffer.has_complete_commands());
    let command = buffer.extract_command().unwrap();
    assert_eq!(command, b"GET key1");
    assert!(!buffer.has_complete_commands());
}

#[test]
fn test_streaming_buffer_multiple_commands() {
    let mut buffer = StreamingBuffer::new(1024);
    buffer.append(b"GET key1\nPUT key2 value2\nDEL key3\n").unwrap();
    assert!(buffer.has_complete_commands());
    let cmd1 = buffer.extract_command().unwrap();
    assert_eq!(cmd1, b"GET key1");
    let cmd2 = buffer.extract_command().unwrap();
    assert_eq!(cmd2, b"PUT key2 value2");
    let cmd3 = buffer.extract_command().unwrap();
    assert_eq!(cmd3, b"DEL key3");
    assert!(!buffer.has_complete_commands());
}

#[test]
fn test_streaming_buffer_partial_command() {
    let mut buffer = StreamingBuffer::new(1024);
    buffer.append(b"GET key").unwrap();
    assert!(!buffer.has_complete_commands());
    buffer.append(b"1\n").unwrap();
    assert!(buffer.has_complete_commands());
    let command = buffer.extract_command().unwrap();
    assert_eq!(command, b"GET key1");
}

#[test]
fn test_streaming_buffer_size_limit() {
    let mut buffer = StreamingBuffer::new(10);
    let result = buffer.append(b"This is a very long command that exceeds the limit");
    assert!(result.is_err());
    assert!(result.unwrap_err().contains("Command too large"));
}

#[test]
fn test_streaming_buffer_expected_size() {
    let mut buffer = StreamingBuffer::new(1024);
    buffer.set_expected_size(10);
    buffer.append(b"12345").unwrap();
    assert!(!buffer.has_expected_data());
    buffer.append(b"67890").unwrap();
    assert!(buffer.has_expected_data());
    let data = buffer.extract_expected().unwrap();
    assert_eq!(data, b"1234567890");
}

#[test]
fn test_streaming_buffer_with_quotes() {
    let mut buffer = StreamingBuffer::new(1024);
    buffer.append(b"PUT key \"Hello World\"\n").unwrap();
    assert!(buffer.has_complete_commands());
    let command = buffer.extract_command().unwrap();
    assert_eq!(command, b"PUT key \"Hello World\"");
}

#[test]
fn test_streaming_buffer_large_value() {
    let mut buffer = StreamingBuffer::new(10240);
    let large_value = "x".repeat(5000);
    let command = format!("PUT large_key \"{}\"\n", large_value);
    buffer.append(command.as_bytes()).unwrap();
    assert!(buffer.has_complete_commands());
    let extracted = buffer.extract_command().unwrap();
    let extracted_str = String::from_utf8(extracted).unwrap();
    assert!(extracted_str.starts_with("PUT large_key"));
    assert!(extracted_str.contains(&large_value));
}

#[test]
fn streaming_buffer_refusal_message_and_state() {
    assert_eq!(too_large_message(51, 10), "Command too large: 51 bytes (max: 10)");
    assert_eq!(too_large_message(0, 1234567890), "Command too large: 0 bytes (max: 1234567890)");
    let mut buffer = StreamingBuffer::new(4);
    buffer.append(b"ab").unwrap();
    let err = buffer.append(b"cde").unwrap_err();
    assert_eq!(err, "Command too large: 5 bytes (max: 4)");
    assert_eq!(buffer.len(), 2);
    assert_eq!(buffer.remaining_capacity(), 2);
}

#[test]
fn streaming_buffer_binary_commands_and_handshakes() {
    let mut buffer = StreamingBuffer::new(1024);
    // a GET with a two-byte key, then a PING
    buffer.append(&[0x03, 2, 0, 0, 0, b'k', b'1']).unwrap();
    assert!(buffer.has_complete_commands());
    assert_eq!(buffer.extract_command().unwrap(), vec![0x03, 2, 0, 0, 0, b'k', b'1']);
    assert!(buffer.is_empty());
    // an incomplete PUT is not a command yet
    buffer.append(&[0x02, 1, 0, 0, 0, b'k', 1, 0, 0]).unwrap();
    assert!(!buffer.has_complete_commands());
    buffer.append(&[0, b'v', 0]).unwrap();
    assert_eq!(buffer.extract_command().unwrap(), vec![0x02, 1, 0, 0, 0, b'k', 1, 0, 0, 0, b'v', 0]);
    // a handshake is six bytes
    buffer.clear();
    buffer.append(b"TOON\x02\x00").unwrap();
    assert_eq!(buffer.extract_command().unwrap(), b"TOON\x02\x00".to_vec());
    // text lines lose CR LF
    buffer.append(b"PING\r\n").unwrap();
    assert_eq!(buffer.extract_command().unwrap(), b"PING".to_vec());
    assert!(buffer.extract_command().is_none());
}
