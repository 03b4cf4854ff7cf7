//! The protobuf messages of the cache protocol. Their wire encoding is a
//! placeholder framing: the message kind and the request id, as text.

pub mod crab_cache_command;
pub mod crab_cache_response;
pub mod metric;

use vstd::prelude::*;
use vstd::slice::slice_to_vec;
use vstd::string::{StrSliceExecFns, StringExecFns};
use vstd::utf8::encode_utf8;
use crate::protocol::text::{lossy_text, str_eq, string_from_utf8_lossy};
use crate::protocol::wire::append_bytes;

verus! {

/// A command message: the request it belongs to, when it was sent, and the
/// command.
#[derive(Debug)]
pub struct CrabCacheCommand {
    pub request_id: String,
    pub timestamp: u64,
    pub command: Option<crab_cache_command::Command>,
}

/// PUT with optional TTL and metadata pairs.
#[derive(Debug, Clone, PartialEq)]
pub struct PutCommand {
    pub key: Vec<u8>,
    pub value: Vec<u8>,
    pub ttl_seconds: Option<u64>,
    pub metadata: Vec<(String, String)>,
}

/// GET.
#[derive(Debug, Clone, PartialEq)]
pub struct GetCommand {
    pub key: Vec<u8>,
    pub include_metadata: bool,
}

/// DEL.
#[derive(Debug, Clone, PartialEq)]
pub struct DelCommand {
    pub key: Vec<u8>,
}

/// EXPIRE.
#[derive(Debug, Clone, PartialEq)]
pub struct ExpireCommand {
    pub key: Vec<u8>,
    pub ttl_seconds: u64,
}

/// STATS.
#[derive(Debug, Clone, PartialEq)]
pub struct StatsCommand {
    pub detailed: bool,
}

/// METRICS, optionally restricted to some names.
#[derive(Debug, Clone, PartialEq)]
pub struct MetricsCommand {
    pub metric_names: Vec<String>,
}

/// PING with an optional message.
#[derive(Debug, Clone, PartialEq)]
pub struct PingCommand {
    pub message: Option<String>,
}

/// Several commands in one message.
#[derive(Debug)]
pub struct BatchCommand {
    pub commands: Vec<CrabCacheCommand>,
    pub atomic: bool,
}

/// A response message: the request it answers, when, its status and the
/// answer.
#[derive(Debug)]
pub struct CrabCacheResponse {
    pub request_id: String,
    pub timestamp: u64,
    pub status: ResponseStatus,
    pub response: Option<crab_cache_response::Response>,
}

/// How a request went.
#[derive(Debug, Clone, Copy, PartialEq, Eq)]
pub enum ResponseStatus {
    Success,
    NotFound,
    Error,
    Timeout,
    InvalidRequest,
}

impl ResponseStatus {
    /// The protobuf enum number of the status.
    pub fn as_i32(&self) -> (n: i32)
        ensures
            n == match *self {
                ResponseStatus::Success => 0i32,
                ResponseStatus::NotFound => 1i32,
                ResponseStatus::Error => 2i32,
                ResponseStatus::Timeout => 3i32,
                ResponseStatus::InvalidRequest => 4i32,
            },
    {
        match self {
            ResponseStatus::Success => 0,
            ResponseStatus::NotFound => 1,
            ResponseStatus::Error => 2,
            ResponseStatus::Timeout => 3,
            ResponseStatus::InvalidRequest => 4,
        }
    }
}

/// OK with an optional message.
#[derive(Debug, Clone, PartialEq)]
pub struct OkResponse {
    pub message: Option<String>,
}

/// A value, its metadata pairs and the TTL it has left.
#[derive(Debug, Clone, PartialEq)]
pub struct ValueResponse {
    pub value: Vec<u8>,
    pub metadata: Vec<(String, String)>,
    pub ttl_remaining: Option<u64>,
}

/// The key is not there, and why.
#[derive(Debug, Clone, PartialEq)]
pub struct NullResponse {
    pub reason: String,
}

/// An error code, message and optional details.
#[derive(Debug, Clone, PartialEq)]
pub struct ErrorResponse {
    pub error_code: String,
    pub message: String,
    pub details: Option<String>,
}

/// PONG with an optional message and the server's clock.
#[derive(Debug, Clone, PartialEq)]
pub struct PongResponse {
    pub message: Option<String>,
    pub server_timestamp: u64,
}

/// Statistics as name/value pairs, with facts about the server.
#[derive(Debug, Clone, PartialEq)]
pub struct StatsResponse {
    pub stats: Vec<(String, String)>,
    pub server_info: ServerInfo,
}

/// Metrics.
#[derive(Debug, Clone, PartialEq)]
pub struct MetricsResponse {
    pub metrics: Vec<Metric>,
}

/// Several responses in one message, with how many succeeded and failed.
#[derive(Debug)]
pub struct BatchResponse {
    pub responses: Vec<CrabCacheResponse>,
    pub successful_count: u32,
    pub failed_count: u32,
}

/// Facts about the server.
#[derive(Debug, Clone, PartialEq)]
pub struct ServerInfo {
    pub version: String,
    pub uptime_seconds: u64,
    pub total_connections: u64,
    pub current_connections: u64,
    pub capabilities: ProtocolCapabilities,
}

/// What the server's protocol supports.
#[derive(Debug, Clone, Copy, PartialEq, Eq)]
pub struct ProtocolCapabilities {
    pub supports_batch: bool,
    pub supports_ttl: bool,
    pub supports_metadata: bool,
    pub supports_compression: bool,
    pub supports_zero_copy: bool,
    pub supports_simd: bool,
    pub max_batch_size: u32,
    pub max_value_size: u64,
}

/// A named metric with labels.
#[derive(Debug, Clone, PartialEq)]
pub struct Metric {
    pub name: String,
    pub value: Option<metric::Value>,
    pub labels: Vec<(String, String)>,
    pub timestamp: u64,
}

/// A histogram: how many samples, their sum and the bucket bounds, each
/// `f64` held as its bit pattern.
#[derive(Debug, Clone, PartialEq)]
pub struct HistogramValue {
    pub count: u64,
    pub sum: u64,
    pub buckets: Vec<u64>,
}

/// A client's negotiation message.
#[derive(Debug, Clone, PartialEq)]
pub struct ProtocolNegotiation {
    pub client_version: String,
    pub supported_protocols: Vec<String>,
    pub capabilities: Vec<(String, String)>,
}

/// Why bytes are not a placeholder-framed message.
#[derive(Debug, Clone, Copy, PartialEq, Eq)]
pub enum StubFormatError {
    /// The text does not start with the message kind.
    InvalidFormat,
}

/// The text that opens an encoded command message.
pub open spec fn stub_command_prefix() -> Seq<char> {
    "STUB_COMMAND:"@
}

/// The text that opens an encoded response message.
pub open spec fn stub_response_prefix() -> Seq<char> {
    "STUB_RESPONSE:"@
}

/// The bytes of a message of the given kind for a request id.
pub open spec fn stub_bytes(prefix: Seq<char>, request_id: Seq<char>) -> Seq<u8> {
    encode_utf8(prefix + request_id)
}

/// The request id that bytes framed with `prefix` carry, if they are framed
/// so: the text after the prefix, read as `String::from_utf8_lossy` reads it.
pub open spec fn stub_request_id(prefix: Seq<char>, bytes: Seq<u8>) -> Option<Seq<char>> {
    let t = lossy_text(bytes);
    if t.len() >= prefix.len() && t.subrange(0, prefix.len() as int) == prefix {
        Some(t.subrange(prefix.len() as int, t.len() as int))
    } else {
        None
    }
}

fn stub_encode(prefix: &str, request_id: &str) -> (b: Vec<u8>)
    ensures
        b@ == stub_bytes(prefix@, request_id@),
{
    let mut s = prefix.to_owned();
    s.append(request_id);
    slice_to_vec(s.as_str().as_bytes())
}

fn stub_decode(prefix: &str, buf: &[u8]) -> (r: Option<String>)
    ensures
        match (r, stub_request_id(prefix@, buf@)) {
            (Some(s), Some(id)) => s@ == id,
            (None, None) => true,
            _ => false,
        },
{
    let text = string_from_utf8_lossy(buf);
    let s = text.as_str();
    let n = s.unicode_len();
    let p = prefix.unicode_len();
    if n < p {
        return None;
    }
    let head = s.substring_char(0, p);
    if !str_eq(head, prefix) {
        return None;
    }
    Some(s.substring_char(p, n).to_owned())
}

impl CrabCacheCommand {
    /// Encodes the message: "STUB_COMMAND:" and the request id, in UTF-8.
    pub fn encode_to_vec(&self) -> (b: Vec<u8>)
        ensures
            b@ == stub_bytes(stub_command_prefix(), self.request_id@),
    {
        stub_encode("STUB_COMMAND:", self.request_id.as_str())
    }

    /// Decodes a message: it succeeds exactly on text that starts with
    /// "STUB_COMMAND:", and gives the rest as the request id, with no
    /// command and time 0.
    pub fn decode(buf: &[u8]) -> (res: Result<Self, StubFormatError>)
        ensures
            match (res, stub_request_id(stub_command_prefix(), buf@)) {
                (Ok(c), Some(id)) => c.request_id@ == id && c.timestamp == 0 && c.command is None,
                (Err(e), None) => e == StubFormatError::InvalidFormat,
                _ => false,
            },
    {
        match stub_decode("STUB_COMMAND:", buf) {
            Some(id) => Ok(CrabCacheCommand { request_id: id, timestamp: 0, command: None }),
            None => Err(StubFormatError::InvalidFormat),
        }
    }

    /// Appends the encoded message to `buf`; it never fails.
    pub fn encode(&self, buf: &mut Vec<u8>) -> (res: Result<(), StubFormatError>)
        ensures
            res is Ok,
            final(buf)@ == old(buf)@ + stub_bytes(stub_command_prefix(), self.request_id@),
    {
        let encoded = self.encode_to_vec();
        append_bytes(buf, encoded.as_slice());
        Ok(())
    }
}

impl CrabCacheResponse {
    /// Encodes the message: "STUB_RESPONSE:" and the request id, in UTF-8.
    pub fn encode_to_vec(&self) -> (b: Vec<u8>)
        ensures
            b@ == stub_bytes(stub_response_prefix(), self.request_id@),
    {
        stub_encode("STUB_RESPONSE:", self.request_id.as_str())
    }

    /// Decodes a message: it succeeds exactly on text that starts with
    /// "STUB_RESPONSE:", and gives the rest as the request id, with status
    /// success, no answer and time 0.
    pub fn decode(buf: &[u8]) -> (res: Result<Self, StubFormatError>)
        ensures
            match (res, stub_request_id(stub_response_prefix(), buf@)) {
                (Ok(r), Some(id)) => r.request_id@ == id && r.timestamp == 0 && r.status
                    == ResponseStatus::Success && r.response is None,
                (Err(e), None) => e == StubFormatError::InvalidFormat,
                _ => false,
            },
    {
        match stub_decode("STUB_RESPONSE:", buf) {
            Some(id) => Ok(
                CrabCacheResponse {
                    request_id: id,
                    timestamp: 0,
                    status: ResponseStatus::Success,
                    response: None,
                },
            ),
            None => Err(StubFormatError::InvalidFormat),
        }
    }

    /// Appends the encoded message to `buf`; it never fails.
    pub fn encode(&self, buf: &mut Vec<u8>) -> (res: Result<(), StubFormatError>)
        ensures
            res is Ok,
            final(buf)@ == old(buf)@ + stub_bytes(stub_response_prefix(), self.request_id@),
    {
        let encoded = self.encode_to_vec();
        append_bytes(buf, encoded.as_slice());
        Ok(())
    }
}

/// Decoding an encoded message gives its request id back.
pub proof fn lemma_stub_roundtrip(prefix: Seq<char>, request_id: Seq<char>)
    ensures
        stub_request_id(prefix, stub_bytes(prefix, request_id)) == Some(request_id),
{
    let t = prefix + request_id;
    vstd::utf8::encode_utf8_valid_utf8(t);
    vstd::utf8::encode_utf8_decode_utf8(t);
    assert(t.subrange(0, prefix.len() as int) =~= prefix);
    assert(t.subrange(prefix.len() as int, t.len() as int) =~= request_id);
}

} // verus!
