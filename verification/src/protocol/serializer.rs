//! Encoding of commands and responses: the compact binary format, whose
//! lengths are LEB128 varints, and the line-oriented text format.

use vstd::prelude::*;
use vstd::bytes::{spec_u64_to_le_bytes, u64_to_le_bytes};
use crate::protocol::commands::{Command, CommandView, Response, ResponseView};
use crate::protocol::error::ProtocolError;
use crate::protocol::varint::{varint_bytes, write_varint};
use crate::protocol::wire::append_bytes;

verus! {

/// Encoder for commands and responses.
pub struct ProtocolSerializer;

pub const CMD_PING: u8 = 0x01;
pub const CMD_PUT: u8 = 0x02;
pub const CMD_GET: u8 = 0x03;
pub const CMD_DEL: u8 = 0x04;
pub const CMD_EXPIRE: u8 = 0x05;
pub const CMD_STATS: u8 = 0x06;
pub const CMD_METRICS: u8 = 0x07;

pub const RESP_OK: u8 = 0x10;
pub const RESP_PONG: u8 = 0x11;
pub const RESP_NULL: u8 = 0x12;
pub const RESP_ERROR: u8 = 0x13;
pub const RESP_VALUE: u8 = 0x14;
pub const RESP_STATS: u8 = 0x15;

/// A byte string preceded by its length as a varint.
pub open spec fn length_prefixed(data: Seq<u8>) -> Seq<u8> {
    varint_bytes(data.len() as u64) + data
}

/// The binary encoding of a command: its type byte, then each key and value
/// length-prefixed, then for PUT a TTL flag (and the TTL, little-endian) and
/// for EXPIRE the TTL.
pub open spec fn command_binary_bytes(c: CommandView) -> Seq<u8> {
    match c {
        CommandView::Ping => seq![CMD_PING],
        CommandView::Put { key, value, ttl } => seq![CMD_PUT] + length_prefixed(key)
            + length_prefixed(value) + match ttl {
            Some(t) => seq![1u8] + spec_u64_to_le_bytes(t),
            None => seq![0u8],
        },
        CommandView::Get { key } => seq![CMD_GET] + length_prefixed(key),
        CommandView::Del { key } => seq![CMD_DEL] + length_prefixed(key),
        CommandView::Expire { key, ttl } => seq![CMD_EXPIRE] + length_prefixed(key)
            + spec_u64_to_le_bytes(ttl),
        CommandView::Stats => seq![CMD_STATS],
        CommandView::Metrics => seq![CMD_METRICS],
    }
}

/// The binary encoding of a response: its type byte, then for an error, a
/// value or statistics, the length-prefixed payload (text as UTF-8).
pub open spec fn response_binary_bytes(r: ResponseView) -> Seq<u8> {
    match r {
        ResponseView::Okay => seq![RESP_OK],
        ResponseView::Pong => seq![RESP_PONG],
        ResponseView::Null => seq![RESP_NULL],
        ResponseView::Error(msg) => seq![RESP_ERROR] + length_prefixed(
            vstd::utf8::encode_utf8(msg),
        ),
        ResponseView::Value(v) => seq![RESP_VALUE] + length_prefixed(v),
        ResponseView::Stats(s) => seq![RESP_STATS] + length_prefixed(vstd::utf8::encode_utf8(s)),
    }
}

fn write_length_prefixed(buf: &mut Vec<u8>, data: &[u8])
    ensures
        final(buf)@ == old(buf)@ + length_prefixed(data@),
{
    write_varint(buf, data.len() as u64);
    append_bytes(buf, data);
    assert(final(buf)@ =~= old(buf)@ + length_prefixed(data@));
}

impl ProtocolSerializer {
    /// Encodes a command in the binary format; it never fails.
    pub fn serialize_command_binary(command: &Command) -> (res: Result<Vec<u8>, ProtocolError>)
        ensures
            res matches Ok(bytes) && bytes@ == command_binary_bytes(command@),
    {
        let mut buf: Vec<u8> = Vec::new();
        match command {
            Command::Ping => {
                buf.push(CMD_PING);
            },
            Command::Put { key, value, ttl } => {
                buf.push(CMD_PUT);
                write_length_prefixed(&mut buf, key.as_slice());
                write_length_prefixed(&mut buf, value.as_slice());
                match ttl {
                    Some(ttl_val) => {
                        buf.push(1u8);
                        let le = u64_to_le_bytes(*ttl_val);
                        append_bytes(&mut buf, le.as_slice());
                    },
                    None => {
                        buf.push(0u8);
                    },
                }
            },
            Command::Get { key } => {
                buf.push(CMD_GET);
                write_length_prefixed(&mut buf, key.as_slice());
            },
            Command::Del { key } => {
                buf.push(CMD_DEL);
                write_length_prefixed(&mut buf, key.as_slice());
            },
            Command::Expire { key, ttl } => {
                buf.push(CMD_EXPIRE);
                write_length_prefixed(&mut buf, key.as_slice());
                let le = u64_to_le_bytes(*ttl);
                append_bytes(&mut buf, le.as_slice());
            },
            Command::Stats => {
                buf.push(CMD_STATS);
            },
            Command::Metrics => {
                buf.push(CMD_METRICS);
            },
        }
        assert(buf@ =~= command_binary_bytes(command@));
        Ok(buf)
    }

    /// Encodes a response in the binary format; it never fails.
    pub fn serialize_response_binary(response: &Response) -> (res: Result<Vec<u8>, ProtocolError>)
        ensures
            res matches Ok(bytes) && bytes@ == response_binary_bytes(response@),
    {
        let mut buf: Vec<u8> = Vec::new();
        match response {
            Response::Okay => {
                buf.push(RESP_OK);
            },
            Response::Pong => {
                buf.push(RESP_PONG);
            },
            Response::Null => {
                buf.push(RESP_NULL);
            },
            Response::Error(msg) => {
                buf.push(RESP_ERROR);
                write_length_prefixed(&mut buf, msg.as_str().as_bytes());
            },
            Response::Value(value) => {
                buf.push(RESP_VALUE);
                write_length_prefixed(&mut buf, value.as_slice());
            },
            Response::Stats(stats) => {
                buf.push(RESP_STATS);
                write_length_prefixed(&mut buf, stats.as_str().as_bytes());
            },
        }
        assert(buf@ =~= response_binary_bytes(response@));
        Ok(buf)
    }
}

} // verus!
