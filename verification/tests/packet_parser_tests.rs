use crabcache::protocol::simd_packet_parser::{
    PacketType, SIMDPacketParser, SIMDParserConfig,
};

fn packet(flags: u8, payload: &[u8]) -> Vec<u8> {
    let mut p = b"TOON".to_vec();
    p.push(1);
    p.push(flags);
    p.push((payload.len() >> 8) as u8);
    p.push(payload.len() as u8);
    p.extend_from_slice(payload);
    p
}

fn sample() -> (Vec<u8>, Vec<u8>, Vec<u8>) {
    let a = packet(0x01, b"abc");
    let b = packet(0x02, b"");
    let mut data = b"xx".to_vec();
    data.extend_from_slice(&a);
    // a magic with a wrong version is skipped
    data.extend_from_slice(b"TOON\x02\x00\x00\x00");
    data.extend_from_slice(b"zz");
    data.extend_from_slice(&b);
    (data, a, b)
}

#[test]
fn packet_parser_finds_packets_both_ways() {
    let (data, a, b) = sample();
    for simd in [true, false] {
        let mut config = SIMDParserConfig::default();
        config.enable_simd = simd;
        let mut parser = SIMDPacketParser::with_config(config);
        let packets = parser.find_toon_packets(&data);
        assert_eq!(packets.len(), 2);
        assert_eq!(packets[0], a.as_slice());
        assert_eq!(packets[1], b.as_slice());
        let stats = parser.get_stats();
        assert_eq!(stats.total_parses, 1);
        assert_eq!(stats.packets_found, 2);
        assert_eq!(stats.parse_errors, 1);
        assert_eq!(stats.bytes_processed, data.len() as u64);
        assert_eq!(stats.simd_operations, if simd { 3 } else { 0 });
    }
}

#[test]
fn packet_parser_notes_cut_off_packets() {
    let mut data = packet(0x03, b"hello");
    let mut cut = packet(0x04, b"0123456789");
    cut.truncate(12);
    data.extend_from_slice(&cut);
    let mut parser = SIMDPacketParser::new();
    let packets = parser.find_toon_packets(&data);
    assert_eq!(packets.len(), 1);
    let incomplete = parser.get_incomplete_packets();
    assert_eq!(incomplete.len(), 1);
    assert_eq!(incomplete[0].start_offset, 13);
    assert_eq!(incomplete[0].expected_length, 18);
    assert_eq!(incomplete[0].received_length, 12);
    assert_eq!(parser.get_stats().incomplete_packets, 1);
    parser.clear_incomplete_packets();
    assert!(parser.get_incomplete_packets().is_empty());
    assert_eq!(parser.get_stats().incomplete_packets, 0);
}

#[test]
fn packet_parser_caches_boundaries() {
    let (data, _, _) = sample();
    let mut parser = SIMDPacketParser::new();
    parser.find_toon_packets(&data);
    let cached = parser.check_cached_boundaries(0, data.len());
    assert_eq!(cached.len(), 2);
    assert_eq!(cached[0].start, 2);
    assert_eq!(cached[0].length, 11);
    assert_eq!(cached[0].packet_type, PacketType::Command);
    assert_eq!(cached[1].packet_type, PacketType::Response);
    assert_eq!(parser.get_stats().cache_hits, 2);
    let none = parser.check_cached_boundaries(0, 5);
    assert!(none.is_empty());
    assert_eq!(parser.get_stats().cache_misses, 1);
    // with ages given, old boundaries are left out
    let picked = parser.select_cached_boundaries(0, data.len(), &[0, 3]);
    assert_eq!(picked.len(), 1);
    parser.cleanup_with_ages(&[9, 1], &[]);
    let left = parser.select_cached_boundaries(0, data.len(), &[0]);
    assert_eq!(left.len(), 1);
    assert_eq!(left[0].start, data.len() - 8);
}

#[test]
fn packet_parser_refuses_large_payloads() {
    let mut config = SIMDParserConfig::default();
    config.max_packet_size = 2;
    let mut parser = SIMDPacketParser::with_config(config);
    let data = packet(0x01, b"abc");
    assert!(parser.find_toon_packets(&data).is_empty());
    assert_eq!(parser.get_stats().parse_errors, 1);
}
