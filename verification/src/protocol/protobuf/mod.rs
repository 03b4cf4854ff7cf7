//! The protobuf-compatible framing of the cache protocol: a `CRAB` header,
//! protocol negotiation, and conversion between protobuf messages and the
//! cache's commands and responses.

pub mod buffer_pool;
pub mod generated;
pub mod negotiation;
pub mod parser;
pub mod schema_registry;
pub mod serializer;
pub mod zero_copy;

use vstd::prelude::*;

verus! {

/// Magic bytes that open a protobuf frame: "CRAB" in ASCII.
pub const PROTOBUF_MAGIC: [u8; 4] = [0x43, 0x52, 0x41, 0x42];

/// The protobuf protocol version this library speaks.
pub const PROTOBUF_VERSION: u8 = 1;

/// The largest protobuf message accepted, 16 MiB.
pub const MAX_PROTOBUF_MESSAGE_SIZE: usize = 16777216;

/// The magic bytes as a sequence.
pub open spec fn protobuf_magic() -> Seq<u8> {
    seq![0x43u8, 0x52u8, 0x41u8, 0x42u8]
}

#[verifier::external_type_specification]
#[verifier::external_body]
pub struct ExDecodeError(prost::DecodeError);

#[verifier::external_type_specification]
#[verifier::external_body]
pub struct ExEncodeError(prost::EncodeError);

/// Makes a `prost::DecodeError` with a best-effort description. Nothing is
/// claimed of the value: its description is private to prost.
#[verifier::external_body]
pub(crate) fn decode_error(description: &'static str) -> prost::DecodeError {
    prost::DecodeError::new(description)
}

/// Why a protobuf frame could not be handled.
#[derive(Debug)]
pub enum ProtobufError {
    /// The frame does not start with "CRAB"; the four bytes it starts with.
    InvalidMagic([u8; 4]),
    /// The frame names a protocol version this library does not speak.
    UnsupportedVersion(u8),
    /// The message is larger than the configured limit.
    MessageTooLarge { size: usize, max: usize },
    /// The message could not be decoded.
    DecodeError(prost::DecodeError),
    /// The message could not be encoded.
    EncodeError(prost::EncodeError),
    /// No schema is registered under the name.
    SchemaNotFound { schema_name: String },
    /// Negotiation could not agree on a protocol.
    NegotiationFailed { reason: String },
}

/// Settings of the protobuf codec.
#[derive(Debug, Clone, Copy)]
pub struct ProtobufConfig {
    /// Whether zero-copy paths are used.
    pub enable_zero_copy: bool,
    /// Whether large messages are compressed.
    pub enable_compression: bool,
    /// Messages of at least this many bytes are compressed.
    pub compression_threshold: usize,
    /// The largest message accepted.
    pub max_message_size: usize,
    /// How many buffers the pool keeps.
    pub buffer_pool_size: usize,
    /// Whether schemas are cached.
    pub enable_schema_cache: bool,
    /// How many schemas the cache keeps.
    pub schema_cache_size: usize,
}

impl ProtobufConfig {
    /// The settings `default` gives.
    pub open spec fn default_spec() -> ProtobufConfig {
        ProtobufConfig {
            enable_zero_copy: true,
            enable_compression: true,
            compression_threshold: 1024,
            max_message_size: MAX_PROTOBUF_MESSAGE_SIZE,
            buffer_pool_size: 1000,
            enable_schema_cache: true,
            schema_cache_size: 100,
        }
    }
}

impl Default for ProtobufConfig {
    fn default() -> (c: Self)
        ensures
            c == ProtobufConfig::default_spec(),
    {
        ProtobufConfig {
            enable_zero_copy: true,
            enable_compression: true,
            compression_threshold: 1024,
            max_message_size: MAX_PROTOBUF_MESSAGE_SIZE,
            buffer_pool_size: 1000,
            enable_schema_cache: true,
            schema_cache_size: 100,
        }
    }
}

} // verus!
