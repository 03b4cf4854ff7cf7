//! Writing the cache's responses as protobuf messages in "CRAB" frames.

use vstd::prelude::*;
use vstd::slice::slice_to_vec;
use crate::protocol::commands::{Response, ResponseView};
use crate::protocol::protobuf::generated::{
    crab_cache_response, stub_bytes, stub_response_prefix, BatchResponse, CrabCacheResponse,
    ErrorResponse, NullResponse, OkResponse, PongResponse, ProtocolCapabilities, ResponseStatus,
    ServerInfo, StatsResponse, ValueResponse,
};
use crate::protocol::protobuf::{
    decode_error, protobuf_magic, ProtobufConfig, ProtobufError, PROTOBUF_MAGIC, PROTOBUF_VERSION,
};
use crate::protocol::text::pairs_view;
use crate::protocol::wire::append_bytes;

verus! {

/// The version the server reports: this crate's.
pub fn server_version() -> (s: &'static str)
    ensures
        s@ == "0.1.0"@,
{
    "0.1.0"
}

/// A 32-bit number as four bytes, most significant first.
pub open spec fn u32_be_bytes(n: u32) -> Seq<u8> {
    seq![(n >> 24u32) as u8, (n >> 16u32) as u8, (n >> 8u32) as u8, n as u8]
}

/// A message in a frame: the magic bytes, the version, the message length
/// (big-endian, 32 bits) and the message.
pub open spec fn framed(data: Seq<u8>) -> Seq<u8> {
    protobuf_magic() + seq![PROTOBUF_VERSION] + u32_be_bytes(data.len() as u32) + data
}

/// The facts about the server that a statistics response carries.
pub open spec fn server_info_is(info: ServerInfo, config: ProtobufConfig) -> bool {
    &&& info.version@ == "0.1.0"@
    &&& info.uptime_seconds == 0
    &&& info.total_connections == 0
    &&& info.current_connections == 0
    &&& info.capabilities == ProtocolCapabilities {
        supports_batch: true,
        supports_ttl: true,
        supports_metadata: true,
        supports_compression: config.enable_compression,
        supports_zero_copy: config.enable_zero_copy,
        supports_simd: true,
        max_batch_size: 128,
        max_value_size: config.max_message_size as u64,
    }
}

/// Whether `r` is the protobuf form of the response `resp` to request
/// `request_id` made at time `ts`.
pub open spec fn proto_response_is(
    r: CrabCacheResponse,
    resp: ResponseView,
    request_id: Seq<char>,
    ts: u64,
    config: ProtobufConfig,
) -> bool {
    &&& r.request_id@ == request_id
    &&& r.timestamp == ts
    &&& match resp {
        ResponseView::Okay => r.status == ResponseStatus::Success && (r.response matches Some(
            crab_cache_response::Response::Okay(o),
        ) && o.message is None),
        ResponseView::Value(v) => r.status == ResponseStatus::Success && (r.response matches Some(
            crab_cache_response::Response::Value(vr),
        ) && vr.value@ == v && vr.metadata@.len() == 0 && vr.ttl_remaining is None),
        ResponseView::Null => r.status == ResponseStatus::NotFound && (r.response matches Some(
            crab_cache_response::Response::Null(n),
        ) && n.reason@ == "Key not found"@),
        ResponseView::Error(m) => r.status == ResponseStatus::Error && (r.response matches Some(
            crab_cache_response::Response::Error(e),
        ) && e.error_code@ == "GENERIC_ERROR"@ && e.message@ == m && e.details is None),
        ResponseView::Pong => r.status == ResponseStatus::Success && (r.response matches Some(
            crab_cache_response::Response::Pong(p),
        ) && p.message is None && p.server_timestamp == ts),
        ResponseView::Stats(s) => r.status == ResponseStatus::Success && (r.response matches Some(
            crab_cache_response::Response::Stats(st),
        ) && pairs_view(st.stats@) == seq![("json_data"@, s)] && server_info_is(
            st.server_info,
            config,
        )),
    }
}

/// How many of the responses are errors.
pub open spec fn error_count(rs: Seq<Response>) -> nat
    decreases rs.len(),
{
    if rs.len() == 0 {
        0
    } else {
        error_count(rs.drop_last()) + if rs.last() is Error {
            1nat
        } else {
            0nat
        }
    }
}

fn copy_response(r: &Response) -> (c: Response)
    ensures
        c@ == r@,
{
    match r {
        Response::Okay => Response::Okay,
        Response::Value(v) => Response::Value(slice_to_vec(v.as_slice())),
        Response::Null => Response::Null,
        Response::Error(m) => Response::Error(m.clone()),
        Response::Pong => Response::Pong,
        Response::Stats(s) => Response::Stats(s.clone()),
    }
}

/// Writes responses as protobuf messages.
pub struct ProtobufSerializer {
    config: ProtobufConfig,
    messages_processed: u64,
    bytes_processed: u64,
    zero_copy_enabled: bool,
}

impl ProtobufSerializer {
    /// The settings the serializer was made with.
    pub closed spec fn config(&self) -> ProtobufConfig {
        self.config
    }

    /// Whether zero-copy is on.
    pub closed spec fn zero_copy(&self) -> bool {
        self.zero_copy_enabled
    }

    /// How many messages were written (modulo 2^64).
    pub closed spec fn processed(&self) -> u64 {
        self.messages_processed
    }

    /// How many bytes those messages held (modulo 2^64).
    pub closed spec fn processed_bytes(&self) -> u64 {
        self.bytes_processed
    }

    /// A serializer with the given settings; zero-copy follows the settings.
    pub fn new(config: ProtobufConfig) -> (s: Self)
        ensures
            s.config() == config,
            s.zero_copy() == config.enable_zero_copy,
            s.processed() == 0,
            s.processed_bytes() == 0,
    {
        ProtobufSerializer {
            zero_copy_enabled: config.enable_zero_copy,
            config,
            messages_processed: 0,
            bytes_processed: 0,
        }
    }

    /// The statistics text as name/value pairs: the whole text under
    /// "json_data".
    pub fn parse_stats_json(&self, stats_json: String) -> (res: Result<Vec<(String, String)>, ProtobufError>)
        ensures
            res matches Ok(v) && pairs_view(v@) == seq![("json_data"@, stats_json@)],
    {
        let mut v: Vec<(String, String)> = Vec::new();
        v.push(("json_data".to_owned(), stats_json));
        assert(pairs_view(v@) =~= seq![("json_data"@, stats_json@)]);
        Ok(v)
    }

    /// The facts about the server that statistics responses carry.
    pub fn create_server_info(&self) -> (info: ServerInfo)
        ensures
            server_info_is(info, self.config()),
    {
        ServerInfo {
            version: server_version().to_owned(),
            uptime_seconds: 0,
            total_connections: 0,
            current_connections: 0,
            capabilities: ProtocolCapabilities {
                supports_batch: true,
                supports_ttl: true,
                supports_metadata: true,
                supports_compression: self.config.enable_compression,
                supports_zero_copy: self.config.enable_zero_copy,
                supports_simd: true,
                max_batch_size: 128,
                max_value_size: self.config.max_message_size as u64,
            },
        }
    }

    /// The protobuf form of a response to a request, made at time
    /// `timestamp`.
    pub fn response_to_proto_at(&self, response: Response, request_id: String, timestamp: u64) -> (res: Result<CrabCacheResponse, ProtobufError>)
        ensures
            res matches Ok(r) && proto_response_is(r, response@, request_id@, timestamp, self.config()),
    {
        let ghost resp = response@;
        let (status, proto_response) = match response {
            Response::Okay => (
                ResponseStatus::Success,
                Some(crab_cache_response::Response::Okay(OkResponse { message: None })),
            ),
            Response::Value(bytes) => (
                ResponseStatus::Success,
                Some(
                    crab_cache_response::Response::Value(
                        ValueResponse { value: bytes, metadata: Vec::new(), ttl_remaining: None },
                    ),
                ),
            ),
            Response::Null => (
                ResponseStatus::NotFound,
                Some(
                    crab_cache_response::Response::Null(
                        NullResponse { reason: "Key not found".to_owned() },
                    ),
                ),
            ),
            Response::Error(msg) => (
                ResponseStatus::Error,
                Some(
                    crab_cache_response::Response::Error(
                        ErrorResponse {
                            error_code: "GENERIC_ERROR".to_owned(),
                            message: msg,
                            details: None,
                        },
                    ),
                ),
            ),
            Response::Pong => (
                ResponseStatus::Success,
                Some(
                    crab_cache_response::Response::Pong(
                        PongResponse { message: None, server_timestamp: timestamp },
                    ),
                ),
            ),
            Response::Stats(stats_json) => {
                let stats = self.parse_stats_json(stats_json)?;
                (
                    ResponseStatus::Success,
                    Some(
                        crab_cache_response::Response::Stats(
                            StatsResponse { stats, server_info: self.create_server_info() },
                        ),
                    ),
                )
            },
        };
        Ok(CrabCacheResponse { request_id, timestamp, status, response: proto_response })
    }

    /// The protobuf form of a response to a request, stamped with the
    /// current time in whole seconds since 1970 (0 where the clock reads
    /// before 1970).
    pub fn convert_response_to_proto(&self, response: Response, request_id: String) -> (res: Result<CrabCacheResponse, ProtobufError>)
        ensures
            res matches Ok(r) && proto_response_is(r, response@, request_id@, r.timestamp, self.config()),
    {
        let timestamp = crate::store::item::now_seconds();
        self.response_to_proto_at(response, request_id, timestamp)
    }

    /// Puts a message in a frame; it never fails. A length over 32 bits is
    /// written modulo 2^32.
    pub fn create_message_with_header(&self, message_data: Vec<u8>) -> (res: Result<Vec<u8>, ProtobufError>)
        ensures
            res matches Ok(b) && b@ == framed(message_data@),
    {
        let n = message_data.len() as u32;
        let mut buf: Vec<u8> = Vec::new();
        buf.push(PROTOBUF_MAGIC[0]);
        buf.push(PROTOBUF_MAGIC[1]);
        buf.push(PROTOBUF_MAGIC[2]);
        buf.push(PROTOBUF_MAGIC[3]);
        buf.push(PROTOBUF_VERSION);
        buf.push((n >> 24u32) as u8);
        buf.push((n >> 16u32) as u8);
        buf.push((n >> 8u32) as u8);
        buf.push(n as u8);
        append_bytes(&mut buf, message_data.as_slice());
        assert(buf@ =~= framed(message_data@));
        Ok(buf)
    }

    /// Writes a response to a request as a framed protobuf message. The
    /// placeholder message encoding holds the request id only.
    pub fn serialize_response(&mut self, response: Response, request_id: String) -> (res: Result<Vec<u8>, ProtobufError>)
        ensures
            res matches Ok(b) && b@ == framed(stub_bytes(stub_response_prefix(), request_id@))
                && final(self).processed() == old(self).processed().wrapping_add(1)
                && final(self).processed_bytes() == old(self).processed_bytes().wrapping_add(
                b@.len() as u64,
            ),
            final(self).config() == old(self).config(),
            final(self).zero_copy() == old(self).zero_copy(),
    {
        let proto_response = self.convert_response_to_proto(response, request_id)?;
        let mut buf: Vec<u8> = Vec::new();
        let _ = proto_response.encode(&mut buf);
        let final_message = self.create_message_with_header(buf)?;
        self.record(final_message.len());
        Ok(final_message)
    }

    /// The batch message for responses to requests, made at time
    /// `timestamp`: each response in protobuf form, and how many succeeded
    /// and failed. The two lists must be as long as each other.
    pub fn batch_response_at(&self, responses: &Vec<Response>, request_ids: &Vec<String>, timestamp: u64) -> (res: Result<CrabCacheResponse, ProtobufError>)
        requires
            responses@.len() <= u32::MAX,
        ensures
            responses@.len() != request_ids@.len() ==> res matches Err(ProtobufError::DecodeError(_)),
            responses@.len() == request_ids@.len() ==> (res matches Ok(r) && r.request_id@
                == "batch"@ && r.timestamp == timestamp && r.status == ResponseStatus::Success
                && (r.response matches Some(crab_cache_response::Response::Batch(b))
                && b.responses@.len() == responses@.len() && b.failed_count == error_count(
                responses@,
            ) && b.successful_count == responses@.len() - error_count(responses@) && (forall|
                i: int,
            |
                0 <= i < responses@.len() ==> proto_response_is(
                    #[trigger] b.responses@[i],
                    responses@[i]@,
                    request_ids@[i]@,
                    timestamp,
                    self.config(),
                )))),
    {
        if responses.len() != request_ids.len() {
            return Err(
                ProtobufError::DecodeError(decode_error("Response and request ID count mismatch")),
            );
        }
        let mut protos: Vec<CrabCacheResponse> = Vec::new();
        let mut successful_count: u32 = 0;
        let mut failed_count: u32 = 0;
        let mut i: usize = 0;
        while i < responses.len()
            invariant
                responses@.len() == request_ids@.len(),
                responses@.len() <= u32::MAX,
                i <= responses@.len(),
                protos@.len() == i,
                failed_count == error_count(responses@.subrange(0, i as int)),
                successful_count + failed_count == i,
                forall|k: int|
                    0 <= k < i ==> proto_response_is(
                        #[trigger] protos@[k],
                        responses@[k]@,
                        request_ids@[k]@,
                        timestamp,
                        self.config(),
                    ),
            decreases responses@.len() - i,
        {
            let ghost sub = responses@.subrange(0, i as int + 1);
            assert(sub.drop_last() =~= responses@.subrange(0, i as int));
            match &responses[i] {
                Response::Error(_) => {
                    failed_count = failed_count + 1;
                },
                _ => {
                    successful_count = successful_count + 1;
                },
            }
            let r = copy_response(&responses[i]);
            let id = request_ids[i].clone();
            let p = self.response_to_proto_at(r, id, timestamp)?;
            protos.push(p);
            i = i + 1;
        }
        assert(responses@.subrange(0, i as int) =~= responses@);
        let batch = BatchResponse { responses: protos, successful_count, failed_count };
        Ok(
            CrabCacheResponse {
                request_id: "batch".to_owned(),
                timestamp,
                status: ResponseStatus::Success,
                response: Some(crab_cache_response::Response::Batch(batch)),
            },
        )
    }

    /// Writes responses to requests as one framed batch message. The two
    /// lists must be as long as each other. The placeholder message encoding
    /// holds the batch's request id, "batch", only.
    pub fn serialize_batch_response(&mut self, responses: Vec<Response>, request_ids: Vec<String>) -> (res: Result<Vec<u8>, ProtobufError>)
        requires
            responses@.len() <= u32::MAX,
        ensures
            responses@.len() != request_ids@.len() ==> res matches Err(ProtobufError::DecodeError(_)),
            responses@.len() == request_ids@.len() ==> (res matches Ok(b) && b@ == framed(
                stub_bytes(stub_response_prefix(), "batch"@),
            ) && final(self).processed() == old(self).processed().wrapping_add(1)
                && final(self).processed_bytes() == old(self).processed_bytes().wrapping_add(
                b@.len() as u64,
            )),
            final(self).config() == old(self).config(),
            final(self).zero_copy() == old(self).zero_copy(),
    {
        let timestamp = crate::store::item::now_seconds();
        let main_response = self.batch_response_at(&responses, &request_ids, timestamp)?;
        let mut buf: Vec<u8> = Vec::new();
        let _ = main_response.encode(&mut buf);
        let final_message = self.create_message_with_header(buf)?;
        self.record(final_message.len());
        Ok(final_message)
    }

    fn record(&mut self, size: usize)
        ensures
            final(self).config() == old(self).config(),
            final(self).zero_copy() == old(self).zero_copy(),
            final(self).processed() == old(self).processed().wrapping_add(1),
            final(self).processed_bytes() == old(self).processed_bytes().wrapping_add(size as u64),
    {
        self.messages_processed = self.messages_processed.wrapping_add(1);
        self.bytes_processed = self.bytes_processed.wrapping_add(size as u64);
    }

    /// How many messages were written (modulo 2^64).
    pub fn messages_processed(&self) -> (n: u64)
        ensures
            n == self.processed(),
    {
        self.messages_processed
    }

    /// How many bytes the messages written held (modulo 2^64).
    pub fn bytes_processed(&self) -> (n: u64)
        ensures
            n == self.processed_bytes(),
    {
        self.bytes_processed
    }

    /// Sets the counters back to zero.
    pub fn reset_metrics(&mut self)
        ensures
            final(self).processed() == 0,
            final(self).processed_bytes() == 0,
            final(self).config() == old(self).config(),
            final(self).zero_copy() == old(self).zero_copy(),
    {
        self.messages_processed = 0;
        self.bytes_processed = 0;
    }

    /// Whether zero-copy is on.
    pub fn is_zero_copy_enabled(&self) -> (b: bool)
        ensures
            b == self.zero_copy(),
    {
        self.zero_copy_enabled
    }

    /// Turns zero-copy on or off.
    pub fn set_zero_copy_enabled(&mut self, enabled: bool)
        ensures
            final(self).zero_copy() == enabled,
            final(self).config() == old(self).config(),
            final(self).processed() == old(self).processed(),
            final(self).processed_bytes() == old(self).processed_bytes(),
    {
        self.zero_copy_enabled = enabled;
    }
}

impl Default for ProtobufSerializer {
    fn default() -> (s: Self)
        ensures
            s.config() == ProtobufConfig::default_spec(),
            s.zero_copy(),
            s.processed() == 0,
    {
        Self::new(ProtobufConfig::default())
    }
}

} // verus!
