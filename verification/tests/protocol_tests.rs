use crabcache::protocol::binary::BinaryProtocol;
use crabcache::protocol::commands::{Command, Response, SerializableResponse};
use crabcache::protocol::error::ProtocolError;
use crabcache::protocol::parser::ProtocolParser;
use crabcache::protocol::serializer::{ProtocolSerializer, CMD_PING, RESP_NULL, RESP_OK, RESP_PONG, RESP_VALUE};

#[test]
fn test_static_responses() {
    let ok_response = BinaryProtocol::serialize_response(&Response::Okay);
    assert_eq!(ok_response.as_slice(), &[RESP_OK]);
    assert_eq!(ok_response.len(), 1);
    let pong_response = BinaryProtocol::serialize_response(&Response::Pong);
    assert_eq!(pong_response.as_slice(), &[RESP_PONG]);
    assert_eq!(pong_response.len(), 1);
    let null_response = BinaryProtocol::serialize_response(&Response::Null);
    assert_eq!(null_response.as_slice(), &[RESP_NULL]);
    assert_eq!(null_response.len(), 1);
}

#[test]
fn test_value_response() {
    let value = b"test_value";
    let response = Response::Value(value.to_vec());
    let serialized = BinaryProtocol::serialize_response(&response);
    assert_eq!(serialized[0], RESP_VALUE);
    assert_eq!(serialized.len(), 1 + 4 + value.len());
}

#[test]
fn test_command_serialization_roundtrip() {
    let original_cmd = Command::Put {
        key: b"test_key".to_vec(),
        value: b"test_value".to_vec(),
        ttl: Some(3600),
    };
    let serialized = BinaryProtocol::serialize_command(&original_cmd);
    let parsed = BinaryProtocol::parse_command(&serialized).unwrap();
    match (original_cmd, parsed) {
        (Command::Put { key: k1, value: v1, ttl: t1 }, Command::Put { key: k2, value: v2, ttl: t2 }) => {
            assert_eq!(k1, k2);
            assert_eq!(v1, v2);
            assert_eq!(t1, t2);
        }
        _ => panic!("Command roundtrip failed"),
    }
}

#[test]
fn test_ping_command() {
    let cmd = Command::Ping;
    let serialized = BinaryProtocol::serialize_command(&cmd);
    assert_eq!(serialized.as_slice(), &[CMD_PING]);
    let parsed = BinaryProtocol::parse_command(&serialized).unwrap();
    assert!(matches!(parsed, Command::Ping));
}

#[test]
fn test_size_reduction() {
    let text_ok = "OK\r\n".len();
    let text_pong = "PONG\r\n".len();
    let text_null = "NULL\r\n".len();
    let binary_ok = BinaryProtocol::serialize_response(&Response::Okay).len();
    let binary_pong = BinaryProtocol::serialize_response(&Response::Pong).len();
    let binary_null = BinaryProtocol::serialize_response(&Response::Null).len();
    assert!(binary_ok < text_ok);
    assert!(binary_pong < text_pong);
    assert!(binary_null < text_null);
    let ok_reduction = (text_ok - binary_ok) as f64 / text_ok as f64 * 100.0;
    assert!(ok_reduction > 70.0);
}

#[test]
fn text_command_from_readme_example() {
    let cmd = ProtocolParser::parse_command(b"PUT user:123 {\"name\":\"Alice\"}\n").unwrap();
    assert_eq!(
        cmd,
        Command::Put { key: b"user:123".to_vec(), value: b"{\"name\":\"Alice\"}".to_vec(), ttl: None }
    );
    let cmd = ProtocolParser::parse_command(b"GET user:123\n").unwrap();
    assert_eq!(cmd, Command::Get { key: b"user:123".to_vec() });
}

#[test]
fn text_commands_with_ttl_and_case() {
    assert_eq!(
        ProtocolParser::parse_command(b"put k v 60\r\n").unwrap(),
        Command::Put { key: b"k".to_vec(), value: b"v".to_vec(), ttl: Some(60) }
    );
    assert_eq!(
        ProtocolParser::parse_command(b"PUT k v notanumber").unwrap(),
        Command::Put { key: b"k".to_vec(), value: b"v".to_vec(), ttl: None }
    );
    assert_eq!(
        ProtocolParser::parse_command(b"EXPIRE k +42").unwrap(),
        Command::Expire { key: b"k".to_vec(), ttl: 42 }
    );
    assert_eq!(ProtocolParser::parse_command(b"  ping  ").unwrap(), Command::Ping);
    assert_eq!(ProtocolParser::parse_command(b"STATS").unwrap(), Command::Stats);
    assert_eq!(ProtocolParser::parse_command(b"metrics").unwrap(), Command::Metrics);
    assert_eq!(ProtocolParser::parse_command(b"DEL  spaced key ").unwrap(), Command::Del { key: b"spaced key".to_vec() });
}

#[test]
fn text_command_errors() {
    assert_eq!(ProtocolParser::parse_command(b""), Err(ProtocolError::EmptyCommand));
    assert_eq!(ProtocolParser::parse_command(b"   "), Err(ProtocolError::EmptyCommand));
    assert_eq!(ProtocolParser::parse_command(b"PUT k"), Err(ProtocolError::MissingArguments(0x02)));
    assert_eq!(ProtocolParser::parse_command(b"GET"), Err(ProtocolError::MissingArguments(0x03)));
    assert_eq!(ProtocolParser::parse_command(b"EXPIRE k x"), Err(ProtocolError::InvalidNumber));
    assert_eq!(ProtocolParser::parse_command(b"EXPIRE k 18446744073709551616"), Err(ProtocolError::InvalidNumber));
    assert_eq!(ProtocolParser::parse_command(b"FLY away"), Err(ProtocolError::UnknownCommand("FLY".to_string())));
    assert_eq!(ProtocolParser::parse_command(&[0xFF, 0xFE]), Err(ProtocolError::InvalidUtf8));
}

#[test]
fn text_responses() {
    assert_eq!(ProtocolParser::parse_response(b"OK\r\n").unwrap(), Response::Okay);
    assert_eq!(ProtocolParser::parse_response(b"PONG\n").unwrap(), Response::Pong);
    assert_eq!(ProtocolParser::parse_response(b"NULL").unwrap(), Response::Null);
    assert_eq!(ProtocolParser::parse_response(b"ERROR:  boom \r\n").unwrap(), Response::Error("boom".to_string()));
    assert_eq!(ProtocolParser::parse_response(b"STATS: {}").unwrap(), Response::Stats("{}".to_string()));
    assert_eq!(ProtocolParser::parse_response(b"hello\r\n").unwrap(), Response::Value(b"hello".to_vec()));
    assert_eq!(ProtocolParser::parse_response(b""), Err(ProtocolError::EmptyResponse));
}

#[test]
fn text_serialization() {
    let put = Command::Put { key: b"k".to_vec(), value: b"v".to_vec(), ttl: Some(120) };
    assert_eq!(ProtocolSerializer::serialize_command(&put).unwrap(), b"PUT k v 120\r\n".to_vec());
    let exp = Command::Expire { key: b"k".to_vec(), ttl: 0 };
    assert_eq!(ProtocolSerializer::serialize_command(&exp).unwrap(), b"EXPIRE k 0\r\n".to_vec());
    assert_eq!(ProtocolSerializer::serialize_command(&Command::Ping).unwrap(), b"PING\r\n".to_vec());
    let err = Response::Error("bad".to_string());
    assert_eq!(ProtocolSerializer::serialize_response(&err).unwrap(), b"ERROR: bad\r\n".to_vec());
    assert_eq!(ProtocolSerializer::serialize_response(&Response::Okay).unwrap(), b"OK\r\n".to_vec());
    assert_eq!(ProtocolSerializer::serialize_response(&Response::Value(b"x".to_vec())).unwrap(), b"x\r\n".to_vec());
}

#[test]
fn text_command_roundtrip() {
    let cmds = vec![
        Command::Ping,
        Command::Put { key: b"k1".to_vec(), value: b"v1".to_vec(), ttl: Some(5) },
        Command::Get { key: b"k1".to_vec() },
        Command::Del { key: b"k1".to_vec() },
        Command::Expire { key: b"k1".to_vec(), ttl: 99 },
        Command::Stats,
        Command::Metrics,
    ];
    for c in cmds {
        let b = ProtocolSerializer::serialize_command(&c).unwrap();
        assert_eq!(ProtocolParser::parse_command(&b).unwrap(), c);
    }
}

#[test]
fn binary_wire_roundtrip() {
    let c = Command::Expire { key: b"key".to_vec(), ttl: 7 };
    let b = ProtocolSerializer::serialize_command_binary(&c).unwrap();
    assert_eq!(ProtocolParser::parse_command_binary(&b).unwrap(), c);
    let r = Response::Stats("s".to_string());
    let b = ProtocolSerializer::serialize_response_binary(&r).unwrap();
    assert_eq!(ProtocolParser::parse_response_binary(&b).unwrap(), r);
    assert_eq!(ProtocolParser::parse_response(&b).unwrap(), r);
}

#[test]
fn serializable_response_conversion() {
    let r = Response::Value(vec![1, 2]);
    let s: SerializableResponse = r.clone().into();
    assert_eq!(s, SerializableResponse::Value(vec![1, 2]));
    let back: Response = s.into();
    assert_eq!(back, r);
}
