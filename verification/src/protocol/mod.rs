//! Wire formats of the cache: commands and responses, their binary and text
//! encodings, and the TOON and protobuf-compatible framings.

pub mod advanced_pipeline;
pub mod binary;
pub mod buffer_pool;
pub mod commands;
pub mod error;
pub mod parser;
pub mod pipeline;
pub mod protobuf;
pub mod serializer;
pub mod simd_packet_parser;
pub mod simd_parser;
pub mod text;
pub mod text_parser;
pub mod text_serializer;
pub mod toon;
pub mod toon_v2;
pub mod varint;
pub mod wire;
pub mod zero_copy_buffer;
