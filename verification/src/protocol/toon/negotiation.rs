//! Choosing between TOON, the protobuf framing and text when a client
//! connects.

use vstd::prelude::*;
use vstd::bytes::{spec_u32_from_le_bytes, spec_u32_to_le_bytes, u32_from_le_bytes, u32_to_le_bytes};
use crate::protocol::text::str_eq;
use crate::protocol::toon::{
    flags_byte, flags_of_byte, has_toon_magic, is_toon_magic, toon_magic, ToonFlags, TOON_MAGIC,
    TOON_VERSION,
};
use crate::protocol::wire::{append_bytes, copy_range, has_prefix, starts_with};

verus! {

/// The four bytes that open a protobuf-framed message: `CRAB`.
pub open spec fn crab_magic() -> Seq<u8> {
    seq![0x43u8, 0x52u8, 0x41u8, 0x42u8]
}

/// The marker of an accepted negotiation: `ACCEPTED`.
pub open spec fn accepted_marker() -> Seq<u8> {
    seq![0x41u8, 0x43u8, 0x43u8, 0x45u8, 0x50u8, 0x54u8, 0x45u8, 0x44u8]
}

/// Whether `data` starts with `CRAB`.
pub fn is_crab_magic(data: &[u8]) -> (b: bool)
    ensures
        b == has_prefix(data@, crab_magic()),
{
    let magic: [u8; 4] = [0x43u8, 0x52u8, 0x41u8, 0x42u8];
    assert(magic@ == crab_magic());
    starts_with(data, magic.as_slice())
}

/// Why a negotiation failed.
#[derive(Debug, Clone, Copy, PartialEq, Eq, Structural)]
pub enum NegotiationFailure {
    /// A request of TOON shorter than its six header bytes.
    RequestTooShort,
    /// A request for a TOON version this crate does not speak.
    UnsupportedVersion(u8),
    /// A response shorter than its fourteen header bytes.
    ResponseTooShort,
    /// A response that does not start with `TOON`.
    InvalidResponseMagic,
    /// A response for a TOON version this crate does not speak.
    UnsupportedResponseVersion(u8),
    /// The server did not accept TOON.
    Rejected,
}

/// What a TOON peer can do.
#[derive(Debug, Clone, PartialEq, Eq)]
pub struct ToonCapabilities {
    pub zero_copy: bool,
    pub string_interning: bool,
    pub compression: bool,
    pub simd_optimized: bool,
    pub max_packet_size: usize,
    pub supported_types: Vec<u8>,
}

/// The outcome of a negotiation.
#[derive(Debug, Clone, PartialEq, Eq)]
pub enum ToonNegotiationResult {
    /// TOON with these flags and capabilities.
    ToonAccepted { version: u8, flags: ToonFlags, capabilities: ToonCapabilities },
    /// The peer speaks the protobuf framing.
    ProtobufFallback,
    /// The peer speaks text.
    TextFallback,
    /// Negotiation failed.
    Failed(NegotiationFailure),
}

/// The type bytes of every TOON value.
pub open spec fn all_type_ids() -> Seq<u8> {
    seq![0x00u8, 0x01, 0x02, 0x03, 0x04, 0x05, 0x06, 0x07, 0x08, 0x09, 0x0A, 0x0B, 0x0C, 0x0D, 0x0E, 0x0F, 0x10]
}

/// The capabilities of this crate: zero-copy and interning, no compression
/// or SIMD, packets up to 16 MiB, every value type.
pub open spec fn default_capabilities_hold(c: ToonCapabilities) -> bool {
    &&& c.zero_copy
    &&& c.string_interning
    &&& !c.compression
    &&& !c.simd_optimized
    &&& c.max_packet_size == 16 * 1024 * 1024
    &&& c.supported_types@ == all_type_ids()
}

impl Default for ToonCapabilities {
    fn default() -> (c: Self)
        ensures
            default_capabilities_hold(c),
    {
        let types: Vec<u8> = vec![
            0x00u8, 0x01, 0x02, 0x03, 0x04, 0x05, 0x06, 0x07, 0x08, 0x09, 0x0A, 0x0B, 0x0C, 0x0D,
            0x0E, 0x0F, 0x10,
        ];
        assert(types@ =~= all_type_ids());
        ToonCapabilities {
            zero_copy: true,
            string_interning: true,
            compression: false,
            simd_optimized: false,
            max_packet_size: 16 * 1024 * 1024,
            supported_types: types,
        }
    }
}

/// The capabilities bytes: the maximum packet size as four little-endian
/// bytes (modulo 2^32), the number of supported types as one byte (modulo
/// 256), then the type bytes.
pub open spec fn capabilities_bytes(c: ToonCapabilities) -> Seq<u8> {
    spec_u32_to_le_bytes(c.max_packet_size as u32) + seq![c.supported_types@.len() as u8]
        + c.supported_types@
}

/// The negotiation request: magic, version, the flags of the capabilities,
/// the length of the capabilities bytes (one byte, modulo 256), then them.
pub open spec fn request_bytes(c: ToonCapabilities) -> Seq<u8> {
    toon_magic() + seq![TOON_VERSION, flags_byte(caps_flags(c))] + seq![capabilities_bytes(c).len() as u8]
        + capabilities_bytes(c)
}

/// The flags that capabilities ask for.
pub open spec fn caps_flags(c: ToonCapabilities) -> ToonFlags {
    ToonFlags {
        zero_copy: c.zero_copy,
        string_interning: c.string_interning,
        compression: c.compression,
        simd_optimized: c.simd_optimized,
    }
}

/// The negotiation response: magic, version, the negotiated flags,
/// `ACCEPTED`, the length of the capabilities bytes, then them.
pub open spec fn response_bytes(flags: ToonFlags, c: ToonCapabilities) -> Seq<u8> {
    toon_magic() + seq![TOON_VERSION, flags_byte(flags)] + accepted_marker() + seq![
        capabilities_bytes(c).len() as u8,
    ] + capabilities_bytes(c)
}

/// Why capabilities bytes could not be read.
#[derive(Debug, Clone, Copy, PartialEq, Eq, Structural)]
pub enum CapabilitiesError {
    /// Fewer than five bytes.
    TooShort,
    /// Fewer type bytes than announced.
    InvalidSupportedTypes,
}

/// Negotiates the protocol of a connection.
pub struct ToonNegotiator {
    capabilities: ToonCapabilities,
}

fn capabilities_data(caps: &ToonCapabilities) -> (data: Vec<u8>)
    ensures
        data@ == capabilities_bytes(*caps),
{
    let mut data = u32_to_le_bytes(caps.max_packet_size as u32);
    data.push(caps.supported_types.len() as u8);
    append_bytes(&mut data, caps.supported_types.as_slice());
    assert(data@ =~= capabilities_bytes(*caps));
    data
}

fn clone_bytes(v: &Vec<u8>) -> (c: Vec<u8>)
    ensures
        c@ == v@,
{
    let c = v.clone();
    assert(c@ =~= v@);
    c
}

impl ToonNegotiator {
    /// A negotiator with the default capabilities.
    pub fn new() -> (n: Self)
        ensures
            default_capabilities_hold(n.capabilities()),
    {
        ToonNegotiator { capabilities: ToonCapabilities::default() }
    }

    /// A negotiator with the given capabilities.
    pub fn with_capabilities(capabilities: ToonCapabilities) -> (n: Self)
        ensures
            n.capabilities() == capabilities,
    {
        ToonNegotiator { capabilities }
    }

    /// The capabilities of this side.
    pub closed spec fn capabilities(&self) -> ToonCapabilities {
        self.capabilities
    }

    /// The capabilities of this side.
    pub fn get_capabilities(&self) -> (c: &ToonCapabilities)
        ensures
            *c == self.capabilities(),
    {
        &self.capabilities
    }

    /// The negotiation request that this side sends.
    pub fn create_negotiation_request(&self) -> (req: Vec<u8>)
        ensures
            req@ == request_bytes(self.capabilities()),
    {
        let mut buf: Vec<u8> = Vec::new();
        let magic: [u8; 4] = TOON_MAGIC;
        append_bytes(&mut buf, magic.as_slice());
        buf.push(TOON_VERSION);
        let flags = ToonFlags {
            zero_copy: self.capabilities.zero_copy,
            string_interning: self.capabilities.string_interning,
            compression: self.capabilities.compression,
            simd_optimized: self.capabilities.simd_optimized,
        };
        buf.push(flags.to_byte());
        let caps_data = self.encode_capabilities_simple();
        buf.push(caps_data.len() as u8);
        append_bytes(&mut buf, caps_data.as_slice());
        assert(buf@ =~= request_bytes(self.capabilities()));
        buf
    }

    /// The capabilities bytes of this side.
    pub fn encode_capabilities_simple(&self) -> (data: Vec<u8>)
        ensures
            data@ == capabilities_bytes(self.capabilities()),
    {
        capabilities_data(&self.capabilities)
    }

    /// The capabilities bytes of `caps`.
    pub fn encode_capabilities_for_response(&self, caps: &ToonCapabilities) -> (data: Vec<u8>)
        ensures
            data@ == capabilities_bytes(*caps),
    {
        capabilities_data(caps)
    }

    /// The response that accepts TOON with these flags and capabilities.
    pub fn create_negotiation_response(&self, flags: &ToonFlags, caps: &ToonCapabilities) -> (resp: Vec<u8>)
        ensures
            resp@ == response_bytes(*flags, *caps),
    {
        let mut buf: Vec<u8> = Vec::new();
        let magic: [u8; 4] = TOON_MAGIC;
        append_bytes(&mut buf, magic.as_slice());
        buf.push(TOON_VERSION);
        buf.push(flags.to_byte());
        let accepted: [u8; 8] = [0x41u8, 0x43u8, 0x43u8, 0x45u8, 0x50u8, 0x54u8, 0x45u8, 0x44u8];
        append_bytes(&mut buf, accepted.as_slice());
        let caps_data = self.encode_capabilities_for_response(caps);
        buf.push(caps_data.len() as u8);
        append_bytes(&mut buf, caps_data.as_slice());
        assert(buf@ =~= response_bytes(*flags, *caps));
        buf
    }
}


/// The flags both sides support.
pub open spec fn negotiated_flags(mine: ToonCapabilities, client: ToonFlags) -> ToonFlags {
    ToonFlags {
        zero_copy: mine.zero_copy && client.zero_copy,
        string_interning: mine.string_interning && client.string_interning,
        compression: mine.compression && client.compression,
        simd_optimized: mine.simd_optimized && client.simd_optimized,
    }
}

/// Capabilities with the given flags and this side's limits and types.
pub open spec fn caps_with(mine: ToonCapabilities, f: ToonFlags, c: ToonCapabilities) -> bool {
    &&& c.zero_copy == f.zero_copy
    &&& c.string_interning == f.string_interning
    &&& c.compression == f.compression
    &&& c.simd_optimized == f.simd_optimized
    &&& c.max_packet_size == mine.max_packet_size
    &&& c.supported_types@ == mine.supported_types@
}

/// What capabilities bytes carry: the maximum packet size and the types.
pub open spec fn decode_caps(d: Seq<u8>) -> Result<(usize, Seq<u8>), CapabilitiesError> {
    if d.len() < 5 {
        Err(CapabilitiesError::TooShort)
    } else if 5 + d[4] > d.len() {
        Err(CapabilitiesError::InvalidSupportedTypes)
    } else {
        Ok((spec_u32_from_le_bytes(d.subrange(0, 4)) as usize, d.subrange(5, 5 + d[4])))
    }
}

/// What a negotiation response gives, when it is accepted: the version and
/// flags it names, and where it carries capabilities that can be read (a
/// length byte after `ACCEPTED`, more bytes than that byte alone, and at
/// least as many as it says), their size limit and types; otherwise those of
/// `ToonCapabilities::default()`.
pub open spec fn response_caps(r: Seq<u8>) -> Option<(usize, Seq<u8>)> {
    if r.len() > 15 && r.len() >= 15 + r[14] {
        match decode_caps(r.subrange(15, 15 + r[14])) {
            Ok(x) => Some(x),
            Err(_) => None,
        }
    } else {
        None
    }
}

/// What answering the first bytes `request` of a client gives, with this
/// side's capabilities `mine`: the outcome and the response to send.
pub open spec fn request_outcome(mine: ToonCapabilities, request: Seq<u8>, res: ToonNegotiationResult, out: Option<Vec<u8>>) -> bool {
    &&& (request.len() >= 4 && !has_toon_magic(request) ==> out is None && if has_prefix(request, crab_magic()) {
            res == ToonNegotiationResult::ProtobufFallback
        } else {
            res == ToonNegotiationResult::TextFallback
        })
    &&& (has_toon_magic(request) || request.len() < 4 ==> {
            if request.len() < 6 {
                res == ToonNegotiationResult::Failed(NegotiationFailure::RequestTooShort) && out is None
            } else if request[4] != TOON_VERSION {
                res == ToonNegotiationResult::Failed(NegotiationFailure::UnsupportedVersion(request[4])) && out is None
            } else {
                let f = negotiated_flags(mine, flags_of_byte(request[5]));
                match res {
                    ToonNegotiationResult::ToonAccepted { version, flags, capabilities } => version == TOON_VERSION
                        && flags == f && caps_with(mine, f, capabilities)
                        && (out matches Some(r) && r@ == response_bytes(f, capabilities)),
                    _ => false,
                }
            }
        })
}

/// What reading the server's answer `response` gives, with this side's
/// capabilities `mine`.
pub open spec fn response_outcome(mine: ToonCapabilities, response: Seq<u8>, res: ToonNegotiationResult) -> bool {
    if response.len() < 14 {
        res == ToonNegotiationResult::Failed(NegotiationFailure::ResponseTooShort)
    } else if !has_toon_magic(response) {
        res == ToonNegotiationResult::Failed(NegotiationFailure::InvalidResponseMagic)
    } else if response[4] != TOON_VERSION {
        res == ToonNegotiationResult::Failed(NegotiationFailure::UnsupportedResponseVersion(response[4]))
    } else if response.subrange(6, 14) != accepted_marker() {
        res == ToonNegotiationResult::Failed(NegotiationFailure::Rejected)
    } else {
        match res {
            ToonNegotiationResult::ToonAccepted { version, flags, capabilities } => {
                &&& version == response[4]
                &&& flags == flags_of_byte(response[5])
                &&& match response_caps(response) {
                    Some((mps, types)) => capabilities.max_packet_size == mps
                        && capabilities.supported_types@ == types
                        && capabilities.zero_copy == mine.zero_copy
                        && capabilities.string_interning == mine.string_interning
                        && capabilities.compression == mine.compression
                        && capabilities.simd_optimized == mine.simd_optimized,
                    None => default_capabilities_hold(capabilities),
                }
            },
            _ => false,
        }
    }
}

impl ToonNegotiator {
    /// Reads the capabilities bytes of the other side; the flags are this
    /// side's.
    pub fn decode_capabilities(&self, data: &[u8]) -> (res: Result<ToonCapabilities, CapabilitiesError>)
        ensures
            match (res, decode_caps(data@)) {
                (Ok(c), Ok((mps, types))) => c.max_packet_size == mps && c.supported_types@ == types
                    && c.zero_copy == self.capabilities().zero_copy
                    && c.string_interning == self.capabilities().string_interning
                    && c.compression == self.capabilities().compression
                    && c.simd_optimized == self.capabilities().simd_optimized,
                (Err(e), Err(se)) => e == se,
                _ => false,
            },
    {
        if data.len() < 5 {
            return Err(CapabilitiesError::TooShort);
        }
        let max_packet_size = u32_from_le_bytes(vstd::slice::slice_subrange(data, 0, 4)) as usize;
        let types_count = data[4] as usize;
        if data.len() - 5 < types_count {
            return Err(CapabilitiesError::InvalidSupportedTypes);
        }
        let supported_types = copy_range(data, 5, 5 + types_count);
        Ok(ToonCapabilities {
            zero_copy: self.capabilities.zero_copy,
            string_interning: self.capabilities.string_interning,
            compression: self.capabilities.compression,
            simd_optimized: self.capabilities.simd_optimized,
            max_packet_size,
            supported_types,
        })
    }

    /// Answers a client's first bytes: TOON with the flags both sides
    /// support (and the response to send), or a fallback to the protobuf
    /// framing (`CRAB`) or to text (anything else of four bytes or more), or
    /// a failure.
    pub fn process_negotiation_request(&self, request: &[u8]) -> (res: (ToonNegotiationResult, Option<Vec<u8>>))
        ensures
            request_outcome(self.capabilities(), request@, res.0, res.1),
    {
        if request.len() >= 4 && !is_toon_magic(request) {
            if is_crab_magic(request) {
                return (ToonNegotiationResult::ProtobufFallback, None);
            } else {
                return (ToonNegotiationResult::TextFallback, None);
            }
        }
        if request.len() < 6 {
            return (ToonNegotiationResult::Failed(NegotiationFailure::RequestTooShort), None);
        }
        let version = request[4];
        if version != TOON_VERSION {
            return (ToonNegotiationResult::Failed(NegotiationFailure::UnsupportedVersion(version)), None);
        }
        let client_flags = ToonFlags::from_byte(request[5]);
        let negotiated = ToonFlags {
            zero_copy: self.capabilities.zero_copy && client_flags.zero_copy,
            string_interning: self.capabilities.string_interning && client_flags.string_interning,
            compression: self.capabilities.compression && client_flags.compression,
            simd_optimized: self.capabilities.simd_optimized && client_flags.simd_optimized,
        };
        let caps = ToonCapabilities {
            zero_copy: negotiated.zero_copy,
            string_interning: negotiated.string_interning,
            compression: negotiated.compression,
            simd_optimized: negotiated.simd_optimized,
            max_packet_size: self.capabilities.max_packet_size,
            supported_types: clone_bytes(&self.capabilities.supported_types),
        };
        let response = self.create_negotiation_response(&negotiated, &caps);
        (
            ToonNegotiationResult::ToonAccepted { version: TOON_VERSION, flags: negotiated, capabilities: caps },
            Some(response),
        )
    }

    /// Reads the server's answer to a negotiation request.
    pub fn process_negotiation_response(&self, response: &[u8]) -> (res: ToonNegotiationResult)
        ensures
            response_outcome(self.capabilities(), response@, res),
    {
        if response.len() < 14 {
            return ToonNegotiationResult::Failed(NegotiationFailure::ResponseTooShort);
        }
        if !is_toon_magic(response) {
            return ToonNegotiationResult::Failed(NegotiationFailure::InvalidResponseMagic);
        }
        let version = response[4];
        if version != TOON_VERSION {
            return ToonNegotiationResult::Failed(NegotiationFailure::UnsupportedResponseVersion(version));
        }
        let flags = ToonFlags::from_byte(response[5]);
        let accepted: [u8; 8] = [0x41u8, 0x43u8, 0x43u8, 0x45u8, 0x50u8, 0x54u8, 0x45u8, 0x44u8];
        assert(accepted@ == accepted_marker());
        let marker = vstd::slice::slice_subrange(response, 6, 14);
        if !crate::protocol::wire::bytes_eq(marker, accepted.as_slice()) {
            return ToonNegotiationResult::Failed(NegotiationFailure::Rejected);
        }
        let capabilities = if response.len() > 15 {
            let caps_len = response[14] as usize;
            if response.len() - 15 >= caps_len {
                match self.decode_capabilities(vstd::slice::slice_subrange(response, 15, 15 + caps_len)) {
                    Ok(c) => c,
                    Err(_) => ToonCapabilities::default(),
                }
            } else {
                ToonCapabilities::default()
            }
        } else {
            ToonCapabilities::default()
        };
        ToonNegotiationResult::ToonAccepted { version, flags, capabilities }
    }

    /// Whether `data` starts with `TOON`.
    pub fn is_toon_request(data: &[u8]) -> (b: bool)
        ensures
            b == has_toon_magic(data@),
    {
        is_toon_magic(data)
    }

    /// Whether `data` starts with `CRAB`.
    pub fn is_protobuf_request(data: &[u8]) -> (b: bool)
        ensures
            b == has_prefix(data@, crab_magic()),
    {
        is_crab_magic(data)
    }

    /// The protocols in the order they are preferred.
    pub fn get_protocol_priority() -> (p: Vec<&'static str>)
        ensures
            p@.len() == 3,
            p@[0]@ == "TOON"@,
            p@[1]@ == "Protobuf"@,
            p@[2]@ == "Text"@,
    {
        let mut p: Vec<&'static str> = Vec::new();
        p.push("TOON");
        p.push("Protobuf");
        p.push("Text");
        p
    }
}

/// Recognises the protocol of incoming bytes.
pub struct ToonProtocolDetector;

impl ToonProtocolDetector {
    /// `TOON` for bytes that start with `TOON`, `Protobuf` for `CRAB`,
    /// `Text` for anything else.
    pub fn detect_protocol(data: &[u8]) -> (p: &'static str)
        ensures
            p@ == (if has_toon_magic(data@) {
                "TOON"@
            } else if has_prefix(data@, crab_magic()) {
                "Protobuf"@
            } else {
                "Text"@
            }),
    {
        if is_toon_magic(data) {
            "TOON"
        } else if is_crab_magic(data) {
            "Protobuf"
        } else {
            "Text"
        }
    }

    /// The efficiency score of a protocol: 100 for TOON, 70 for Protobuf,
    /// 30 for Text, 0 for anything else.
    pub fn get_protocol_efficiency(protocol: &str) -> (score: u32)
        ensures
            score == (if protocol@ == "TOON"@ {
                100u32
            } else if protocol@ == "Protobuf"@ {
                70u32
            } else if protocol@ == "Text"@ {
                30u32
            } else {
                0u32
            }),
    {
        if str_eq(protocol, "TOON") {
            100
        } else if str_eq(protocol, "Protobuf") {
            70
        } else if str_eq(protocol, "Text") {
            30
        } else {
            0
        }
    }

    /// TOON above 1024 bytes, Protobuf above 100, Text otherwise.
    pub fn recommend_protocol(data_size: usize) -> (p: &'static str)
        ensures
            p@ == (if data_size > 1024 {
                "TOON"@
            } else if data_size > 100 {
                "Protobuf"@
            } else {
                "Text"@
            }),
    {
        if data_size > 1024 {
            "TOON"
        } else if data_size > 100 {
            "Protobuf"
        } else {
            "Text"
        }
    }
}

/// Reading the capabilities bytes of capabilities with at most 255 types
/// and a size limit that fits in 32 bits gives that limit and those types.
pub proof fn lemma_capabilities_roundtrip(c: ToonCapabilities)
    requires
        c.supported_types@.len() <= 255,
        c.max_packet_size <= u32::MAX,
    ensures
        decode_caps(capabilities_bytes(c)) == Ok::<(usize, Seq<u8>), CapabilitiesError>((c.max_packet_size, c.supported_types@)),
{
    vstd::bytes::lemma_auto_spec_u32_to_from_le_bytes();
    let d = capabilities_bytes(c);
    let n = c.supported_types@.len();
    assert(d[4] == n as u8);
    assert(d.subrange(0, 4) =~= spec_u32_to_le_bytes(c.max_packet_size as u32));
    assert(d.subrange(5, 5 + n as int) =~= c.supported_types@);
}

/// Whether `a` and `b` are the same capabilities, field by field.
pub open spec fn same_capabilities(a: ToonCapabilities, b: ToonCapabilities) -> bool {
    &&& a.zero_copy == b.zero_copy
    &&& a.string_interning == b.string_interning
    &&& a.compression == b.compression
    &&& a.simd_optimized == b.simd_optimized
    &&& a.max_packet_size == b.max_packet_size
    &&& a.supported_types@ == b.supported_types@
}

/// Two negotiators with the same capabilities `c` (at most 250 types, a
/// size limit that fits in 32 bits) agree on TOON with their own flags and
/// capabilities: the request of one is accepted by the other with the flags
/// of `c` and capabilities `c`, and reading the response gives the same.
pub proof fn lemma_negotiation_roundtrip(
    c: ToonCapabilities,
    accepted: ToonNegotiationResult,
    out: Option<Vec<u8>>,
    read: ToonNegotiationResult,
)
    requires
        c.supported_types@.len() <= 250,
        c.max_packet_size <= u32::MAX,
        request_outcome(c, request_bytes(c), accepted, out),
        out matches Some(r) && response_outcome(c, r@, read),
    ensures
        accepted matches ToonNegotiationResult::ToonAccepted { version, flags, capabilities }
            && version == TOON_VERSION && flags == caps_flags(c) && same_capabilities(capabilities, c),
        read matches ToonNegotiationResult::ToonAccepted { version, flags, capabilities }
            && version == TOON_VERSION && flags == caps_flags(c) && same_capabilities(capabilities, c),
{
    let f = caps_flags(c);
    let req = request_bytes(c);
    crate::protocol::toon::lemma_flags_roundtrip(f);
    assert(req.subrange(0, 4) =~= toon_magic());
    assert(has_toon_magic(req));
    assert(req[4] == TOON_VERSION);
    assert(req[5] == flags_byte(f));
    assert(negotiated_flags(c, flags_of_byte(req[5])) == f);
    let caps = accepted->capabilities;
    assert(caps_with(c, f, caps));
    let r = out.unwrap()@;
    assert(r == response_bytes(f, caps));
    let n = caps.supported_types@.len();
    let cb = capabilities_bytes(caps);
    vstd::bytes::lemma_auto_spec_u32_to_from_le_bytes();
    assert(cb.len() == 5 + n);
    assert(r.subrange(0, 4) =~= toon_magic());
    assert(has_toon_magic(r));
    assert(r[4] == TOON_VERSION);
    assert(r[5] == flags_byte(f));
    assert(r.subrange(6, 14) =~= accepted_marker());
    assert(r[14] == cb.len() as u8);
    assert(r.len() == 15 + cb.len());
    assert(r.subrange(15, 15 + r[14]) =~= cb);
    lemma_capabilities_roundtrip(caps);
    assert(response_caps(r) == Some((c.max_packet_size, c.supported_types@)));
}

} // verus!
