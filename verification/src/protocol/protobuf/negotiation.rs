//! Choosing between the text and protobuf protocols from the first bytes a
//! client sends.

use vstd::prelude::*;
use vstd::utf8::encode_utf8;
use crate::protocol::protobuf::{protobuf_magic, ProtobufError, PROTOBUF_MAGIC, PROTOBUF_VERSION};
use vstd::utf8::is_ascii_chars;
use crate::protocol::text::{
    ascii_lower, ascii_upper, clone_pairs, pairs_view, str_eq, str_to_lowercase, text_lower, text_upper,
};
use crate::protocol::wire::append_bytes;

verus! {

/// The protocols a connection can speak.
#[derive(Debug, Clone, Copy, PartialEq, Eq, Hash, Structural)]
pub enum ProtocolType {
    /// The line-oriented text protocol.
    Text,
    /// Protobuf messages in "CRAB" frames.
    Protobuf,
    /// TOON packets.
    Toon,
}

/// The protocol a (lower-cased) name stands for.
pub open spec fn protocol_named(name: Seq<char>) -> Option<ProtocolType> {
    if name == "text"@ {
        Some(ProtocolType::Text)
    } else if name == "protobuf"@ || name == "proto"@ {
        Some(ProtocolType::Protobuf)
    } else if name == "toon"@ {
        Some(ProtocolType::Toon)
    } else {
        None
    }
}

/// The name of a protocol.
pub open spec fn protocol_name(p: ProtocolType) -> Seq<char> {
    match p {
        ProtocolType::Text => "text"@,
        ProtocolType::Protobuf => "protobuf"@,
        ProtocolType::Toon => "toon"@,
    }
}

/// A protocol's own name, read back by `ProtocolType::from_str`, is that
/// protocol.
pub proof fn lemma_protocol_name_roundtrip(p: ProtocolType)
    ensures
        protocol_named(text_lower(protocol_name(p))) == Some(p),
{
    reveal_strlit("text");
    reveal_strlit("protobuf");
    reveal_strlit("proto");
    reveal_strlit("toon");
    let n = protocol_name(p);
    assert(is_ascii_chars(n));
    assert(ascii_lower(n) =~= n);
    assert(text_lower(n) == n);
    assert("text"@.len() == 4 && "toon"@.len() == 4 && "protobuf"@.len() == 8 && "proto"@.len() == 5);
    assert("text"@[1] != "toon"@[1]);
}

/// For ASCII text the case does not matter to `ProtocolType::from_str`:
/// the text upper-cased names the same protocol, or none, as the text.
pub proof fn lemma_protocol_named_ignores_case(s: Seq<char>)
    requires
        is_ascii_chars(s),
    ensures
        protocol_named(text_lower(text_upper(s))) == protocol_named(text_lower(s)),
{
    let u = ascii_upper(s);
    assert forall|i: int| 0 <= i < u.len() implies '\0' <= #[trigger] u[i] <= '\u{7f}' by {
        assert('\0' <= s[i] <= '\u{7f}');
    }
    assert(is_ascii_chars(u));
    assert forall|i: int| 0 <= i < s.len() implies #[trigger] ascii_lower(u)[i] == ascii_lower(s)[i] by {
        assert('\0' <= s[i] <= '\u{7f}');
    }
    assert(ascii_lower(u) =~= ascii_lower(s));
}

impl ProtocolType {
    /// The protocol's name.
    pub fn as_str(&self) -> (s: &'static str)
        ensures
            s@ == protocol_name(*self),
    {
        match self {
            ProtocolType::Text => "text",
            ProtocolType::Protobuf => "protobuf",
            ProtocolType::Toon => "toon",
        }
    }

    /// The protocol a name stands for, in any case: "text", "protobuf" or
    /// "proto", "toon".
    pub fn from_str(s: &str) -> (r: Option<ProtocolType>)
        ensures
            r == protocol_named(text_lower(s@)),
    {
        let lower = str_to_lowercase(s);
        let l = lower.as_str();
        if str_eq(l, "text") {
            Some(ProtocolType::Text)
        } else if str_eq(l, "protobuf") || str_eq(l, "proto") {
            Some(ProtocolType::Protobuf)
        } else if str_eq(l, "toon") {
            Some(ProtocolType::Toon)
        } else {
            None
        }
    }
}

/// The outcome of a negotiation.
#[derive(Debug, Clone)]
pub struct NegotiationResult {
    pub protocol: ProtocolType,
    pub version: u8,
    pub capabilities: Vec<(String, String)>,
    pub compression_enabled: bool,
    pub zero_copy_enabled: bool,
}

/// The capabilities a negotiator announces, in order.
pub open spec fn default_capabilities() -> Seq<(Seq<char>, Seq<char>)> {
    seq![
        ("max_message_size"@, "16777216"@),
        ("supports_compression"@, "true"@),
        ("supports_zero_copy"@, "true"@),
        ("supports_batch"@, "true"@),
        ("supports_simd"@, "true"@),
    ]
}

/// The protocol that the first bytes of a connection announce: protobuf
/// where they start with "CRAB", else text (also when there are fewer than
/// four).
pub open spec fn detect_spec(data: Seq<u8>) -> ProtocolType {
    if data.len() >= 4 && data.subrange(0, 4) == protobuf_magic() {
        ProtocolType::Protobuf
    } else {
        ProtocolType::Text
    }
}

/// Detects the protocol of a connection and agrees on its settings.
pub struct ProtocolNegotiator {
    supported_protocols: Vec<ProtocolType>,
    default_protocol: ProtocolType,
    capabilities: Vec<(String, String)>,
}

impl ProtocolNegotiator {
    /// The protocols supported, most preferred first.
    pub closed spec fn supported(&self) -> Seq<ProtocolType> {
        self.supported_protocols@
    }

    /// The protocol used when nothing else is known.
    pub closed spec fn fallback(&self) -> ProtocolType {
        self.default_protocol
    }

    /// The capabilities announced.
    pub closed spec fn capability_pairs(&self) -> Seq<(Seq<char>, Seq<char>)> {
        pairs_view(self.capabilities@)
    }

    /// A negotiator that prefers protobuf, falls back to text, and announces
    /// the default capabilities.
    pub fn new() -> (n: Self)
        ensures
            n.supported() == seq![ProtocolType::Protobuf, ProtocolType::Text],
            n.fallback() == ProtocolType::Text,
            n.capability_pairs() == default_capabilities(),
    {
        let mut capabilities: Vec<(String, String)> = Vec::new();
        capabilities.push(("max_message_size".to_owned(), "16777216".to_owned()));
        capabilities.push(("supports_compression".to_owned(), "true".to_owned()));
        capabilities.push(("supports_zero_copy".to_owned(), "true".to_owned()));
        capabilities.push(("supports_batch".to_owned(), "true".to_owned()));
        capabilities.push(("supports_simd".to_owned(), "true".to_owned()));
        let mut supported_protocols: Vec<ProtocolType> = Vec::new();
        supported_protocols.push(ProtocolType::Protobuf);
        supported_protocols.push(ProtocolType::Text);
        let n = ProtocolNegotiator {
            supported_protocols,
            default_protocol: ProtocolType::Text,
            capabilities,
        };
        assert(n.supported() =~= seq![ProtocolType::Protobuf, ProtocolType::Text]);
        assert(n.capability_pairs() =~= default_capabilities());
        n
    }

    /// Detects the protocol from the first bytes of a connection; it never
    /// fails.
    pub fn detect_protocol(&self, data: &[u8]) -> (res: Result<ProtocolType, ProtobufError>)
        ensures
            res matches Ok(p) && p == detect_spec(data@),
    {
        if data.len() < 4 {
            return Ok(ProtocolType::Text);
        }
        if data[0] == PROTOBUF_MAGIC[0] && data[1] == PROTOBUF_MAGIC[1] && data[2]
            == PROTOBUF_MAGIC[2] && data[3] == PROTOBUF_MAGIC[3] {
            assert(data@.subrange(0, 4) =~= protobuf_magic());
            return Ok(ProtocolType::Protobuf);
        }
        assert(data@.subrange(0, 4) != protobuf_magic() ) by {
            if data@.subrange(0, 4) == protobuf_magic() {
                assert(data@.subrange(0, 4)[0] == data@[0]);
                assert(data@.subrange(0, 4)[1] == data@[1]);
                assert(data@.subrange(0, 4)[2] == data@[2]);
                assert(data@.subrange(0, 4)[3] == data@[3]);
            }
        }
        Ok(ProtocolType::Text)
    }

    /// Negotiates from a client's first bytes. A protobuf client must send
    /// the magic bytes and a version byte and one more byte, and the version
    /// must be the one spoken here; anything else is taken as text.
    pub fn negotiate(&self, client_request: &[u8]) -> (res: Result<NegotiationResult, ProtobufError>)
        ensures
            detect_spec(client_request@) == ProtocolType::Text ==> (res matches Ok(r)
                && r.protocol == ProtocolType::Text && r.version == 1 && !r.compression_enabled
                && !r.zero_copy_enabled && pairs_view(r.capabilities@) == self.capability_pairs()),
            detect_spec(client_request@) == ProtocolType::Protobuf && client_request@.len() < 6
                ==> (res matches Err(ProtobufError::NegotiationFailed { reason }) && reason@
                == "Insufficient data for Protobuf negotiation"@),
            detect_spec(client_request@) == ProtocolType::Protobuf && client_request@.len() >= 6
                && client_request@[4] != PROTOBUF_VERSION ==> (res matches Err(
                ProtobufError::UnsupportedVersion(v),
            ) && v == client_request@[4]),
            detect_spec(client_request@) == ProtocolType::Protobuf && client_request@.len() >= 6
                && client_request@[4] == PROTOBUF_VERSION ==> (res matches Ok(r) && r.protocol
                == ProtocolType::Protobuf && r.version == PROTOBUF_VERSION && r.compression_enabled
                && r.zero_copy_enabled && pairs_view(r.capabilities@) == self.capability_pairs()),
    {
        let detected = self.detect_protocol(client_request);
        match detected {
            Ok(ProtocolType::Protobuf) => {
                if client_request.len() < 6 {
                    return Err(
                        ProtobufError::NegotiationFailed {
                            reason: "Insufficient data for Protobuf negotiation".to_owned(),
                        },
                    );
                }
                let version = client_request[4];
                if version != PROTOBUF_VERSION {
                    return Err(ProtobufError::UnsupportedVersion(version));
                }
                Ok(
                    NegotiationResult {
                        protocol: ProtocolType::Protobuf,
                        version,
                        capabilities: clone_pairs(&self.capabilities),
                        compression_enabled: true,
                        zero_copy_enabled: true,
                    },
                )
            },
            Ok(ProtocolType::Toon) => Err(
                ProtobufError::NegotiationFailed {
                    reason: "TOON protocol not yet implemented".to_owned(),
                },
            ),
            _ => Ok(
                NegotiationResult {
                    protocol: ProtocolType::Text,
                    version: 1,
                    capabilities: clone_pairs(&self.capabilities),
                    compression_enabled: false,
                    zero_copy_enabled: false,
                },
            ),
        }
    }

    /// The reply to a negotiation: for protobuf the magic bytes, the
    /// version, a success status and an empty capability length (big-endian
    /// u16); for text "OK\n"; for TOON an error line.
    pub fn create_negotiation_response(&self, result: &NegotiationResult) -> (b: Vec<u8>)
        ensures
            b@ == match result.protocol {
                ProtocolType::Protobuf => protobuf_magic() + seq![result.version, 0u8, 0u8, 0u8],
                ProtocolType::Text => encode_utf8("OK\n"@),
                ProtocolType::Toon => encode_utf8("ERROR TOON not implemented\n"@),
            },
    {
        match result.protocol {
            ProtocolType::Protobuf => {
                let mut b: Vec<u8> = Vec::new();
                b.push(PROTOBUF_MAGIC[0]);
                b.push(PROTOBUF_MAGIC[1]);
                b.push(PROTOBUF_MAGIC[2]);
                b.push(PROTOBUF_MAGIC[3]);
                b.push(result.version);
                b.push(0u8);
                b.push(0u8);
                b.push(0u8);
                assert(b@ =~= protobuf_magic() + seq![result.version, 0u8, 0u8, 0u8]);
                b
            },
            ProtocolType::Text => {
                let mut b: Vec<u8> = Vec::new();
                append_bytes(&mut b, "OK\n".as_bytes());
                assert(b@ =~= encode_utf8("OK\n"@));
                b
            },
            ProtocolType::Toon => {
                let mut b: Vec<u8> = Vec::new();
                append_bytes(&mut b, "ERROR TOON not implemented\n".as_bytes());
                assert(b@ =~= encode_utf8("ERROR TOON not implemented\n"@));
                b
            },
        }
    }

    /// Whether the protocol is one this negotiator supports.
    pub fn is_supported(&self, protocol: &ProtocolType) -> (b: bool)
        ensures
            b == self.supported().contains(*protocol),
    {
        let mut i: usize = 0;
        while i < self.supported_protocols.len()
            invariant
                i <= self.supported_protocols@.len(),
                forall|k: int| 0 <= k < i ==> self.supported_protocols@[k] != *protocol,
            decreases self.supported_protocols@.len() - i,
        {
            if self.supported_protocols[i] == *protocol {
                return true;
            }
            i = i + 1;
        }
        false
    }

    /// The supported protocols, most preferred first.
    pub fn get_preferred_protocols(&self) -> (s: &[ProtocolType])
        ensures
            s@ == self.supported(),
    {
        self.supported_protocols.as_slice()
    }
}

impl Default for ProtocolNegotiator {
    fn default() -> (n: Self)
        ensures
            n.supported() == seq![ProtocolType::Protobuf, ProtocolType::Text],
            n.fallback() == ProtocolType::Text,
            n.capability_pairs() == default_capabilities(),
    {
        Self::new()
    }
}

} // verus!
