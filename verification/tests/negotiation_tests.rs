use crabcache::protocol::protobuf::negotiation::{ProtocolNegotiator, ProtocolType};
use crabcache::protocol::protobuf::ProtobufError;
use crabcache::protocol::toon::negotiation::{
    NegotiationFailure, ToonCapabilities, ToonNegotiationResult, ToonNegotiator, ToonProtocolDetector,
};
use crabcache::protocol::toon::{ToonFlags, TOON_MAGIC, TOON_VERSION};

#[test]
fn test_protocol_detection() {
    let negotiator = ProtocolNegotiator::new();

    let protobuf_data = [0x43, 0x52, 0x41, 0x42, 0x01, 0x00];
    assert_eq!(negotiator.detect_protocol(&protobuf_data).unwrap(), ProtocolType::Protobuf);

    let text_data = b"GET key\n";
    assert_eq!(negotiator.detect_protocol(text_data).unwrap(), ProtocolType::Text);

    let short_data = [0x43, 0x52];
    assert_eq!(negotiator.detect_protocol(&short_data).unwrap(), ProtocolType::Text);
}

#[test]
fn negotiation_test_protocol_detection() {
    assert_eq!(ToonProtocolDetector::detect_protocol(b"TOON123"), "TOON");
    assert_eq!(ToonProtocolDetector::detect_protocol(b"CRAB123"), "Protobuf");
    assert_eq!(ToonProtocolDetector::detect_protocol(b"PING"), "Text");
    assert_eq!(ToonProtocolDetector::detect_protocol(b"GET key"), "Text");
}

#[test]
fn test_protobuf_negotiation() {
    let negotiator = ProtocolNegotiator::new();
    let valid_request = [0x43, 0x52, 0x41, 0x42, 0x01, 0x00];
    let result = negotiator.negotiate(&valid_request).unwrap();
    assert_eq!(result.protocol, ProtocolType::Protobuf);
    assert_eq!(result.version, 1);
    assert!(result.compression_enabled);
    assert!(result.zero_copy_enabled);
}

#[test]
fn negotiation_test_invalid_magic_bytes() {
    let negotiator = ProtocolNegotiator::new();
    let invalid_request = [0x00, 0x00, 0x00, 0x00, 0x01, 0x00];
    let result = negotiator.negotiate(&invalid_request);
    assert!(result.is_ok());
    assert_eq!(result.unwrap().protocol, ProtocolType::Text);
}

#[test]
fn test_unsupported_version() {
    let negotiator = ProtocolNegotiator::new();
    let unsupported_version = [0x43, 0x52, 0x41, 0x42, 0xFF, 0x00];
    let result = negotiator.negotiate(&unsupported_version);
    assert!(result.is_err());
    match result.unwrap_err() {
        ProtobufError::UnsupportedVersion(255) => {}
        _ => panic!("Expected UnsupportedVersion error"),
    }
}

#[test]
fn protobuf_negotiation_short_request_fails() {
    let negotiator = ProtocolNegotiator::new();
    match negotiator.negotiate(&[0x43, 0x52, 0x41, 0x42, 0x01]) {
        Err(ProtobufError::NegotiationFailed { reason }) => {
            assert_eq!(reason, "Insufficient data for Protobuf negotiation")
        }
        _ => panic!("Expected NegotiationFailed"),
    }
}

#[test]
fn protobuf_negotiation_capabilities_and_response() {
    let negotiator = ProtocolNegotiator::new();
    let result = negotiator.negotiate(b"PING").unwrap();
    assert_eq!(result.capabilities.len(), 5);
    assert_eq!(result.capabilities[0], ("max_message_size".to_string(), "16777216".to_string()));
    assert_eq!(negotiator.create_negotiation_response(&result), b"OK\n".to_vec());
    let pb = negotiator.negotiate(&[0x43, 0x52, 0x41, 0x42, 0x01, 0x00]).unwrap();
    assert_eq!(negotiator.create_negotiation_response(&pb), vec![0x43, 0x52, 0x41, 0x42, 1, 0, 0, 0]);
    assert!(negotiator.is_supported(&ProtocolType::Protobuf));
    assert!(!negotiator.is_supported(&ProtocolType::Toon));
    assert_eq!(negotiator.get_preferred_protocols(), &[ProtocolType::Protobuf, ProtocolType::Text]);
}

#[test]
fn protocol_type_names() {
    assert_eq!(ProtocolType::Protobuf.as_str(), "protobuf");
    assert_eq!(ProtocolType::from_str("PROTO"), Some(ProtocolType::Protobuf));
    assert_eq!(ProtocolType::from_str("Text"), Some(ProtocolType::Text));
    assert_eq!(ProtocolType::from_str("toon"), Some(ProtocolType::Toon));
    assert_eq!(ProtocolType::from_str("json"), None);
}

#[test]
fn test_negotiation_request_creation() {
    let negotiator = ToonNegotiator::new();
    let request = negotiator.create_negotiation_request();
    assert_eq!(&request[0..4], &TOON_MAGIC);
    assert_eq!(request[4], TOON_VERSION);
    assert!(request.len() > 6);
}

#[test]
fn test_negotiation_process() {
    let negotiator = ToonNegotiator::new();
    let request = negotiator.create_negotiation_request();
    let (result, response) = negotiator.process_negotiation_request(&request);
    match result {
        ToonNegotiationResult::ToonAccepted { version, .. } => {
            assert_eq!(version, TOON_VERSION);
            assert!(response.is_some());
        }
        _ => panic!("Expected TOON accepted"),
    }
}

#[test]
fn test_protocol_efficiency() {
    assert_eq!(ToonProtocolDetector::get_protocol_efficiency("TOON"), 100);
    assert_eq!(ToonProtocolDetector::get_protocol_efficiency("Protobuf"), 70);
    assert_eq!(ToonProtocolDetector::get_protocol_efficiency("Text"), 30);
}

#[test]
fn test_protocol_recommendation() {
    assert_eq!(ToonProtocolDetector::recommend_protocol(2048), "TOON");
    assert_eq!(ToonProtocolDetector::recommend_protocol(512), "Protobuf");
    assert_eq!(ToonProtocolDetector::recommend_protocol(50), "Text");
}

#[test]
fn test_fallback_detection() {
    let negotiator = ToonNegotiator::new();
    let (result, _) = negotiator.process_negotiation_request(b"CRAB\x01\x00");
    assert_eq!(result, ToonNegotiationResult::ProtobufFallback);
    let (result, _) = negotiator.process_negotiation_request(b"PING");
    assert_eq!(result, ToonNegotiationResult::TextFallback);
}

#[test]
fn test_capabilities_encoding() {
    let negotiator = ToonNegotiator::new();
    let caps_data = negotiator.encode_capabilities_simple();
    assert!(caps_data.len() >= 5);
    let decoded = negotiator.decode_capabilities(&caps_data).unwrap();
    assert_eq!(decoded.max_packet_size, negotiator.get_capabilities().max_packet_size);
    assert_eq!(decoded.supported_types, negotiator.get_capabilities().supported_types);
}

#[test]
fn toon_negotiation_response_roundtrip() {
    let negotiator = ToonNegotiator::new();
    let request = negotiator.create_negotiation_request();
    let (_, response) = negotiator.process_negotiation_request(&request);
    let result = negotiator.process_negotiation_response(&response.unwrap());
    match result {
        ToonNegotiationResult::ToonAccepted { version, capabilities, .. } => {
            assert_eq!(version, TOON_VERSION);
            assert_eq!(capabilities.supported_types.len(), 17);
        }
        _ => panic!("Expected TOON accepted"),
    }
    assert_eq!(
        negotiator.process_negotiation_response(b"TOON\x01\x00"),
        ToonNegotiationResult::Failed(NegotiationFailure::ResponseTooShort)
    );
}

#[test]
fn toon_negotiation_priority() {
    assert_eq!(ToonNegotiator::get_protocol_priority(), vec!["TOON", "Protobuf", "Text"]);
    assert!(ToonNegotiator::is_toon_request(b"TOON"));
    assert!(ToonNegotiator::is_protobuf_request(b"CRAB.."));
    assert!(!ToonNegotiator::is_protobuf_request(b"CRA"));
}

#[test]
fn protocol_names_read_back_in_any_case() {
    for p in [ProtocolType::Text, ProtocolType::Protobuf, ProtocolType::Toon] {
        assert_eq!(ProtocolType::from_str(p.as_str()), Some(p));
        assert_eq!(ProtocolType::from_str(&p.as_str().to_uppercase()), Some(p));
    }
    assert_eq!(ProtocolType::from_str("Proto"), Some(ProtocolType::Protobuf));
    assert_eq!(ProtocolType::from_str("json"), None);
}

#[test]
fn toon_negotiation_round_trip_agrees_on_own_capabilities() {
    let caps = ToonCapabilities {
        zero_copy: true,
        string_interning: false,
        compression: true,
        simd_optimized: false,
        max_packet_size: 4096,
        supported_types: vec![0x00, 0x0C, 0x10],
    };
    let client = ToonNegotiator::with_capabilities(caps.clone());
    let server = ToonNegotiator::with_capabilities(caps.clone());
    let request = client.create_negotiation_request();
    let (accepted, response) = server.process_negotiation_request(&request);
    let expected = ToonNegotiationResult::ToonAccepted {
        version: TOON_VERSION,
        flags: ToonFlags { zero_copy: true, string_interning: false, compression: true, simd_optimized: false },
        capabilities: caps,
    };
    assert_eq!(accepted, expected);
    assert_eq!(client.process_negotiation_response(&response.unwrap()), expected);
}
