//! Decoding of commands and responses: the compact binary format first, the
//! text format as a fallback.

use vstd::prelude::*;
use vstd::bytes::{spec_u64_from_le_bytes, spec_u64_to_le_bytes, u64_from_le_bytes};
use vstd::utf8::{decode_utf8, encode_utf8};
use crate::protocol::commands::{Command, CommandView, Response, ResponseView};
use crate::protocol::error::ProtocolError;
use crate::protocol::serializer::{
    command_binary_bytes, length_prefixed, response_binary_bytes, CMD_DEL, CMD_EXPIRE, CMD_GET,
    CMD_METRICS, CMD_PING, CMD_PUT, CMD_STATS, RESP_ERROR, RESP_NULL, RESP_OK, RESP_PONG,
    RESP_STATS, RESP_VALUE,
};
use crate::protocol::text::{lossy_text, string_from_utf8_lossy};
use crate::protocol::varint::{
    lemma_varint_bytes_len, lemma_varint_read_len_le, lemma_varint_roundtrip, read_varint,
    varint_bytes, varint_read,
};
use crate::protocol::wire::copy_range;

verus! {

/// Decoder for commands and responses.
pub struct ProtocolParser;

/// Reading a varint length at position `c` of `b`: the length and the
/// position after it.
pub open spec fn read_len_at(b: Seq<u8>, c: int) -> Result<(u64, int), ProtocolError> {
    match varint_read(b.skip(c)) {
        Ok((v, n)) => Ok((v, c + n)),
        Err(e) => Err(ProtocolError::Varint(e)),
    }
}

/// The command that the binary format gives for `b`, or why there is none.
pub open spec fn parse_command_binary_spec(b: Seq<u8>) -> Result<CommandView, ProtocolError> {
    if b.len() == 0 {
        Err(ProtocolError::EmptyCommand)
    } else {
        let t = b[0];
        if t == CMD_PING {
            Ok(CommandView::Ping)
        } else if t == CMD_PUT {
            match read_len_at(b, 1) {
                Err(e) => Err(e),
                Ok((klen, c1)) => if c1 + klen > b.len() {
                    Err(ProtocolError::InvalidKeyLength(CMD_PUT))
                } else {
                    let key = b.subrange(c1, c1 + klen);
                    match read_len_at(b, c1 + klen) {
                        Err(e) => Err(e),
                        Ok((vlen, c2)) => if c2 + vlen > b.len() {
                            Err(ProtocolError::InvalidValueLength(CMD_PUT))
                        } else {
                            let value = b.subrange(c2, c2 + vlen);
                            let c3 = c2 + vlen;
                            if c3 >= b.len() {
                                Err(ProtocolError::MissingTtlFlag)
                            } else if b[c3] == 1 {
                                if c3 + 1 + 8 > b.len() {
                                    Err(ProtocolError::InvalidTtl)
                                } else {
                                    Ok(
                                        CommandView::Put {
                                            key,
                                            value,
                                            ttl: Some(
                                                spec_u64_from_le_bytes(b.subrange(c3 + 1, c3 + 9)),
                                            ),
                                        },
                                    )
                                }
                            } else {
                                Ok(CommandView::Put { key, value, ttl: None })
                            }
                        },
                    }
                },
            }
        } else if t == CMD_GET || t == CMD_DEL {
            match read_len_at(b, 1) {
                Err(e) => Err(e),
                Ok((klen, c1)) => if c1 + klen > b.len() {
                    Err(ProtocolError::InvalidKeyLength(t))
                } else {
                    let key = b.subrange(c1, c1 + klen);
                    if t == CMD_GET {
                        Ok(CommandView::Get { key })
                    } else {
                        Ok(CommandView::Del { key })
                    }
                },
            }
        } else if t == CMD_EXPIRE {
            match read_len_at(b, 1) {
                Err(e) => Err(e),
                Ok((klen, c1)) => if c1 + klen + 8 > b.len() {
                    Err(ProtocolError::InvalidExpireFormat)
                } else {
                    Ok(
                        CommandView::Expire {
                            key: b.subrange(c1, c1 + klen),
                            ttl: spec_u64_from_le_bytes(b.subrange(c1 + klen, c1 + klen + 8)),
                        },
                    )
                },
            }
        } else if t == CMD_STATS {
            Ok(CommandView::Stats)
        } else if t == CMD_METRICS {
            Ok(CommandView::Metrics)
        } else {
            Err(ProtocolError::UnknownCommandType(t))
        }
    }
}

/// The response that the binary format gives for `b`, or why there is none.
/// Text payloads are decoded as `String::from_utf8_lossy` does.
pub open spec fn parse_response_binary_spec(b: Seq<u8>) -> Result<ResponseView, ProtocolError> {
    if b.len() == 0 {
        Err(ProtocolError::EmptyResponse)
    } else {
        let t = b[0];
        if t == RESP_OK {
            Ok(ResponseView::Okay)
        } else if t == RESP_PONG {
            Ok(ResponseView::Pong)
        } else if t == RESP_NULL {
            Ok(ResponseView::Null)
        } else if t == RESP_ERROR || t == RESP_VALUE || t == RESP_STATS {
            match read_len_at(b, 1) {
                Err(e) => Err(e),
                Ok((len, c1)) => if c1 + len > b.len() {
                    Err(ProtocolError::InvalidValueLength(t))
                } else {
                    let payload = b.subrange(c1, c1 + len);
                    if t == RESP_ERROR {
                        Ok(ResponseView::Error(lossy_text(payload)))
                    } else if t == RESP_VALUE {
                        Ok(ResponseView::Value(payload))
                    } else {
                        Ok(ResponseView::Stats(lossy_text(payload)))
                    }
                },
            }
        } else {
            Err(ProtocolError::UnknownResponseType(t))
        }
    }
}

/// Reads a varint length at `cursor`: the length and the position after it.
fn read_len(bytes: &[u8], cursor: usize) -> (res: Result<(u64, usize), ProtocolError>)
    requires
        cursor <= bytes@.len(),
    ensures
        match (res, read_len_at(bytes@, cursor as int)) {
            (Ok((v, c)), Ok((sv, sc))) => v == sv && c == sc && c <= bytes@.len(),
            (Err(e), Err(se)) => e == se,
            _ => false,
        },
{
    let rest = vstd::slice::slice_subrange(bytes, cursor, bytes.len());
    assert(rest@ =~= bytes@.skip(cursor as int));
    match read_varint(rest) {
        Ok((v, n)) => {
            proof { lemma_varint_read_len_le(rest@); }
            Ok((v, cursor + n))
        },
        Err(e) => Err(ProtocolError::Varint(e)),
    }
}

impl ProtocolParser {
    /// Decodes a command in the binary format.
    pub fn parse_command_binary(bytes: &[u8]) -> (res: Result<Command, ProtocolError>)
        ensures
            match (res, parse_command_binary_spec(bytes@)) {
                (Ok(c), Ok(sc)) => c@ == sc,
                (Err(e), Err(se)) => e == se,
                _ => false,
            },
    {
        if bytes.len() == 0 {
            return Err(ProtocolError::EmptyCommand);
        }
        let cmd_type = bytes[0];
        if cmd_type == CMD_PING {
            Ok(Command::Ping)
        } else if cmd_type == CMD_PUT {
            let (key_len, c1) = read_len(bytes, 1)?;
            if key_len > (bytes.len() - c1) as u64 {
                return Err(ProtocolError::InvalidKeyLength(CMD_PUT));
            }
            let kend = c1 + key_len as usize;
            let key = copy_range(bytes, c1, kend);
            let (value_len, c2) = read_len(bytes, kend)?;
            if value_len > (bytes.len() - c2) as u64 {
                return Err(ProtocolError::InvalidValueLength(CMD_PUT));
            }
            let c3 = c2 + value_len as usize;
            let value = copy_range(bytes, c2, c3);
            if c3 >= bytes.len() {
                return Err(ProtocolError::MissingTtlFlag);
            }
            if bytes[c3] == 1 {
                if bytes.len() - (c3 + 1) < 8 {
                    return Err(ProtocolError::InvalidTtl);
                }
                let ttl_bytes = vstd::slice::slice_subrange(bytes, c3 + 1, c3 + 9);
                let ttl = u64_from_le_bytes(ttl_bytes);
                Ok(Command::Put { key, value, ttl: Some(ttl) })
            } else {
                Ok(Command::Put { key, value, ttl: None })
            }
        } else if cmd_type == CMD_GET || cmd_type == CMD_DEL {
            let (key_len, c1) = read_len(bytes, 1)?;
            if key_len > (bytes.len() - c1) as u64 {
                return Err(ProtocolError::InvalidKeyLength(cmd_type));
            }
            let key = copy_range(bytes, c1, c1 + key_len as usize);
            if cmd_type == CMD_GET {
                Ok(Command::Get { key })
            } else {
                Ok(Command::Del { key })
            }
        } else if cmd_type == CMD_EXPIRE {
            let (key_len, c1) = read_len(bytes, 1)?;
            if key_len > (bytes.len() - c1) as u64 || (bytes.len() - c1) as u64 - key_len < 8 {
                return Err(ProtocolError::InvalidExpireFormat);
            }
            let kend = c1 + key_len as usize;
            let key = copy_range(bytes, c1, kend);
            let ttl_bytes = vstd::slice::slice_subrange(bytes, kend, kend + 8);
            let ttl = u64_from_le_bytes(ttl_bytes);
            Ok(Command::Expire { key, ttl })
        } else if cmd_type == CMD_STATS {
            Ok(Command::Stats)
        } else if cmd_type == CMD_METRICS {
            Ok(Command::Metrics)
        } else {
            Err(ProtocolError::UnknownCommandType(cmd_type))
        }
    }

    /// Decodes a response in the binary format.
    pub fn parse_response_binary(bytes: &[u8]) -> (res: Result<Response, ProtocolError>)
        ensures
            match (res, parse_response_binary_spec(bytes@)) {
                (Ok(r), Ok(sr)) => r@ == sr,
                (Err(e), Err(se)) => e == se,
                _ => false,
            },
    {
        if bytes.len() == 0 {
            return Err(ProtocolError::EmptyResponse);
        }
        let resp_type = bytes[0];
        if resp_type == RESP_OK {
            Ok(Response::Okay)
        } else if resp_type == RESP_PONG {
            Ok(Response::Pong)
        } else if resp_type == RESP_NULL {
            Ok(Response::Null)
        } else if resp_type == RESP_ERROR || resp_type == RESP_VALUE || resp_type == RESP_STATS {
            let (len, c1) = read_len(bytes, 1)?;
            if len > (bytes.len() - c1) as u64 {
                return Err(ProtocolError::InvalidValueLength(resp_type));
            }
            let end = c1 + len as usize;
            let payload = vstd::slice::slice_subrange(bytes, c1, end);
            if resp_type == RESP_ERROR {
                Ok(Response::Error(string_from_utf8_lossy(payload)))
            } else if resp_type == RESP_VALUE {
                Ok(Response::Value(copy_range(bytes, c1, end)))
            } else {
                Ok(Response::Stats(string_from_utf8_lossy(payload)))
            }
        } else {
            Err(ProtocolError::UnknownResponseType(resp_type))
        }
    }
}

proof fn lemma_read_len_of_prefixed(b: Seq<u8>, c: int, data: Seq<u8>, rest: Seq<u8>)
    requires
        0 <= c <= b.len(),
        b.skip(c) == crate::protocol::serializer::length_prefixed(data) + rest,
    ensures
        read_len_at(b, c) == Ok::<(u64, int), ProtocolError>(
            (data.len() as u64, c + varint_bytes(data.len() as u64).len()),
        ),
        b.subrange(c + varint_bytes(data.len() as u64).len(), c + varint_bytes(data.len() as u64).len() + data.len()) == data,
        b.skip(c + varint_bytes(data.len() as u64).len() + data.len()) == rest,
{
    let n = varint_bytes(data.len() as u64);
    assert(crate::protocol::serializer::length_prefixed(data) + rest =~= n + (data + rest));
    lemma_varint_roundtrip(data.len() as u64, data + rest);
    lemma_varint_bytes_len(data.len() as u64);
    assert(b.subrange(c + n.len(), c + n.len() + data.len()) =~= data) by {
        assert forall|i: int| 0 <= i < data.len() implies b.subrange(
            c + n.len(),
            c + n.len() + data.len(),
        )[i] == data[i] by {
            assert(b.skip(c)[n.len() + i] == b[c + n.len() + i]);
        }
    }
    assert(b.skip(c + n.len() + data.len()) =~= rest) by {
        assert forall|i: int| 0 <= i < rest.len() implies b.skip(c + n.len() + data.len())[i]
            == rest[i] by {
            assert(b.skip(c)[n.len() + data.len() + i] == b[c + n.len() + data.len() + i]);
        }
    }
}

/// Decoding the binary encoding of a command gives the command back.
pub proof fn lemma_command_binary_roundtrip(c: CommandView)
    requires
        c matches CommandView::Put { key, value, .. } ==> key.len() <= u64::MAX && value.len() <= u64::MAX,
        c matches CommandView::Get { key } ==> key.len() <= u64::MAX,
        c matches CommandView::Del { key } ==> key.len() <= u64::MAX,
        c matches CommandView::Expire { key, .. } ==> key.len() <= u64::MAX,
    ensures
        parse_command_binary_spec(command_binary_bytes(c)) == Ok::<CommandView, ProtocolError>(c),
{
    vstd::bytes::lemma_auto_spec_u64_to_from_le_bytes();
    let b = command_binary_bytes(c);
    match c {
        CommandView::Put { key, value, ttl } => {
            let tail = match ttl {
                Some(t) => seq![1u8] + spec_u64_to_le_bytes(t),
                None => seq![0u8],
            };
            assert(b.skip(1) =~= length_prefixed(key) + (length_prefixed(value) + tail));
            lemma_read_len_of_prefixed(b, 1, key, length_prefixed(value) + tail);
            let c1: int = (1 + varint_bytes(key.len() as u64).len() + key.len()) as int;
            lemma_read_len_of_prefixed(b, c1, value, tail);
            let c3: int = c1 + varint_bytes(value.len() as u64).len() + value.len() as int;
            assert(b.skip(c3)[0] == b[c3]);
            match ttl {
                Some(t) => {
                    assert(b.subrange(c3 + 1, c3 + 9) =~= spec_u64_to_le_bytes(t)) by {
                        assert forall|i: int| 0 <= i < 8 implies b.subrange(c3 + 1, c3 + 9)[i]
                            == spec_u64_to_le_bytes(t)[i] by {
                            assert(b.skip(c3)[1 + i] == b[c3 + 1 + i]);
                        }
                    }
                },
                None => {},
            }
        },
        CommandView::Get { key } => {
            assert(b.skip(1) =~= length_prefixed(key) + Seq::<u8>::empty());
            lemma_read_len_of_prefixed(b, 1, key, Seq::empty());
        },
        CommandView::Del { key } => {
            assert(b.skip(1) =~= length_prefixed(key) + Seq::<u8>::empty());
            lemma_read_len_of_prefixed(b, 1, key, Seq::empty());
        },
        CommandView::Expire { key, ttl } => {
            assert(b.skip(1) =~= length_prefixed(key) + spec_u64_to_le_bytes(ttl));
            lemma_read_len_of_prefixed(b, 1, key, spec_u64_to_le_bytes(ttl));
            let c1: int = (1 + varint_bytes(key.len() as u64).len() + key.len()) as int;
            assert(b.subrange(c1, c1 + 8) =~= spec_u64_to_le_bytes(ttl)) by {
                assert forall|i: int| 0 <= i < 8 implies b.subrange(c1, c1 + 8)[i]
                    == spec_u64_to_le_bytes(ttl)[i] by {
                    assert(b.skip(c1)[i] == b[c1 + i]);
                }
            }
        },
        _ => {},
    }
}

/// Decoding the binary encoding of a response gives the response back.
pub proof fn lemma_response_binary_roundtrip(r: ResponseView)
    requires
        r matches ResponseView::Value(v) ==> v.len() <= u64::MAX,
        r matches ResponseView::Error(m) ==> encode_utf8(m).len() <= u64::MAX,
        r matches ResponseView::Stats(m) ==> encode_utf8(m).len() <= u64::MAX,
    ensures
        parse_response_binary_spec(response_binary_bytes(r)) == Ok::<ResponseView, ProtocolError>(r),
{
    let b = response_binary_bytes(r);
    match r {
        ResponseView::Error(m) => {
            let p = encode_utf8(m);
            assert(b.skip(1) =~= length_prefixed(p) + Seq::<u8>::empty());
            lemma_read_len_of_prefixed(b, 1, p, Seq::empty());
            vstd::utf8::encode_utf8_valid_utf8(m);
            vstd::utf8::encode_utf8_decode_utf8(m);
        },
        ResponseView::Value(v) => {
            assert(b.skip(1) =~= length_prefixed(v) + Seq::<u8>::empty());
            lemma_read_len_of_prefixed(b, 1, v, Seq::empty());
        },
        ResponseView::Stats(m) => {
            let p = encode_utf8(m);
            assert(b.skip(1) =~= length_prefixed(p) + Seq::<u8>::empty());
            lemma_read_len_of_prefixed(b, 1, p, Seq::empty());
            vstd::utf8::encode_utf8_valid_utf8(m);
            vstd::utf8::encode_utf8_decode_utf8(m);
        },
        _ => {},
    }
}

} // verus!
