//! The fixed-width binary protocol: lengths are four bytes, little-endian.

use vstd::prelude::*;
use vstd::bytes::{
    spec_u32_from_le_bytes, spec_u32_to_le_bytes, spec_u64_from_le_bytes, spec_u64_to_le_bytes,
    u32_from_le_bytes, u32_to_le_bytes, u64_from_le_bytes, u64_to_le_bytes,
};
use vstd::utf8::encode_utf8;
use crate::protocol::commands::{Command, CommandView, Response, ResponseView};
use crate::protocol::error::ProtocolError;
use crate::protocol::parser::{lemma_response_binary_roundtrip, parse_response_binary_spec};
use crate::protocol::serializer::{length_prefixed, response_binary_bytes};
use crate::protocol::serializer::{
    CMD_DEL, CMD_EXPIRE, CMD_GET, CMD_PING, CMD_PUT, CMD_STATS, RESP_ERROR, RESP_NULL, RESP_OK,
    RESP_PONG, RESP_STATS, RESP_VALUE,
};
use crate::protocol::wire::{append_bytes, copy_range};

verus! {

/// Encoder and decoder of the fixed-width binary protocol.
pub struct BinaryProtocol;

/// A byte string preceded by its length as four little-endian bytes (the
/// length taken modulo 2^32).
pub open spec fn u32_prefixed(data: Seq<u8>) -> Seq<u8> {
    spec_u32_to_le_bytes(data.len() as u32) + data
}

/// The encoding of a response: one type byte, then for an error, a value or
/// statistics the four-byte length and the payload (text as UTF-8).
pub open spec fn binary_response_bytes(r: ResponseView) -> Seq<u8> {
    match r {
        ResponseView::Okay => seq![RESP_OK],
        ResponseView::Pong => seq![RESP_PONG],
        ResponseView::Null => seq![RESP_NULL],
        ResponseView::Error(m) => seq![RESP_ERROR] + u32_prefixed(encode_utf8(m)),
        ResponseView::Value(v) => seq![RESP_VALUE] + u32_prefixed(v),
        ResponseView::Stats(s) => seq![RESP_STATS] + u32_prefixed(encode_utf8(s)),
    }
}

/// The encoding of a command: one type byte, then each key and value with a
/// four-byte length, for PUT a TTL flag (and TTL), for EXPIRE the TTL.
/// METRICS is sent as STATS.
pub open spec fn binary_command_bytes(c: CommandView) -> Seq<u8> {
    match c {
        CommandView::Ping => seq![CMD_PING],
        CommandView::Put { key, value, ttl } => seq![CMD_PUT] + u32_prefixed(key) + u32_prefixed(
            value,
        ) + match ttl {
            Some(t) => seq![1u8] + spec_u64_to_le_bytes(t),
            None => seq![0u8],
        },
        CommandView::Get { key } => seq![CMD_GET] + u32_prefixed(key),
        CommandView::Del { key } => seq![CMD_DEL] + u32_prefixed(key),
        CommandView::Expire { key, ttl } => seq![CMD_EXPIRE] + u32_prefixed(key)
            + spec_u64_to_le_bytes(ttl),
        CommandView::Stats => seq![CMD_STATS],
        CommandView::Metrics => seq![CMD_STATS],
    }
}

/// The four-byte little-endian length at position `c`.
pub open spec fn u32_at(d: Seq<u8>, c: int) -> int {
    spec_u32_from_le_bytes(d.subrange(c, c + 4)) as int
}

/// The inputs on which the reader's fixed-width reads stay inside the data:
/// the four-byte key length of PUT, GET, DEL and EXPIRE, and the value length
/// of a PUT whose key is complete, must be there.
pub open spec fn binary_command_readable(d: Seq<u8>) -> bool {
    d.len() == 0 || {
        let t = d[0];
        (t == CMD_PUT || t == CMD_GET || t == CMD_DEL || t == CMD_EXPIRE) ==> {
            &&& d.len() >= 5
            &&& (t == CMD_PUT && d.len() - 5 >= u32_at(d, 1)) ==> d.len() - 5 - u32_at(d, 1) >= 4
        }
    }
}

/// The command that the fixed-width format gives for `d`, or why there is
/// none.
pub open spec fn binary_command_parse(d: Seq<u8>) -> Result<CommandView, ProtocolError> {
    if d.len() == 0 {
        Err(ProtocolError::EmptyCommand)
    } else {
        let t = d[0];
        if t == CMD_PING {
            Ok(CommandView::Ping)
        } else if t == CMD_PUT {
            let kl = u32_at(d, 1);
            if d.len() - 5 < kl {
                Err(ProtocolError::InvalidKeyLength(CMD_PUT))
            } else {
                let key = d.subrange(5, 5 + kl);
                let vl = u32_at(d, 5 + kl);
                let c = 9 + kl;
                if d.len() - c < vl {
                    Err(ProtocolError::InvalidValueLength(CMD_PUT))
                } else {
                    let value = d.subrange(c, c + vl);
                    let e = c + vl;
                    let ttl = if d.len() - e >= 1 && d[e] == 1 && d.len() - e - 1 >= 8 {
                        Some(spec_u64_from_le_bytes(d.subrange(e + 1, e + 9)))
                    } else {
                        None
                    };
                    Ok(CommandView::Put { key, value, ttl })
                }
            }
        } else if t == CMD_GET || t == CMD_DEL {
            let kl = u32_at(d, 1);
            if d.len() - 5 < kl {
                Err(ProtocolError::InvalidKeyLength(t))
            } else if t == CMD_GET {
                Ok(CommandView::Get { key: d.subrange(5, 5 + kl) })
            } else {
                Ok(CommandView::Del { key: d.subrange(5, 5 + kl) })
            }
        } else if t == CMD_EXPIRE {
            let kl = u32_at(d, 1);
            if d.len() - 5 < kl + 8 {
                Err(ProtocolError::InvalidExpireFormat)
            } else {
                Ok(
                    CommandView::Expire {
                        key: d.subrange(5, 5 + kl),
                        ttl: spec_u64_from_le_bytes(d.subrange(5 + kl, 13 + kl)),
                    },
                )
            }
        } else if t == CMD_STATS {
            Ok(CommandView::Stats)
        } else {
            Err(ProtocolError::UnknownCommandType(t))
        }
    }
}

fn write_u32_prefixed(buf: &mut Vec<u8>, data: &[u8])
    ensures
        final(buf)@ == old(buf)@ + u32_prefixed(data@),
{
    let len = u32_to_le_bytes(data.len() as u32);
    append_bytes(buf, len.as_slice());
    append_bytes(buf, data);
    assert(final(buf)@ =~= old(buf)@ + u32_prefixed(data@));
}

pub(crate) fn read_u32_at(data: &[u8], c: usize) -> (v: u32)
    requires
        c + 4 <= data@.len(),
    ensures
        v as int == u32_at(data@, c as int),
{
    let _n = data.len();
    u32_from_le_bytes(vstd::slice::slice_subrange(data, c, c + 4))
}

impl BinaryProtocol {
    /// Encodes a response.
    pub fn serialize_response(response: &Response) -> (bytes: Vec<u8>)
        ensures
            bytes@ == binary_response_bytes(response@),
    {
        let mut buf: Vec<u8> = Vec::new();
        match response {
            Response::Okay => buf.push(RESP_OK),
            Response::Pong => buf.push(RESP_PONG),
            Response::Null => buf.push(RESP_NULL),
            Response::Error(msg) => {
                buf.push(RESP_ERROR);
                write_u32_prefixed(&mut buf, msg.as_str().as_bytes());
            },
            Response::Value(value) => {
                buf.push(RESP_VALUE);
                write_u32_prefixed(&mut buf, value.as_slice());
            },
            Response::Stats(stats) => {
                buf.push(RESP_STATS);
                write_u32_prefixed(&mut buf, stats.as_str().as_bytes());
            },
        }
        assert(buf@ =~= binary_response_bytes(response@));
        buf
    }

    /// Decodes a command.
    pub fn parse_command(data: &[u8]) -> (res: Result<Command, ProtocolError>)
        requires
            binary_command_readable(data@),
        ensures
            match (res, binary_command_parse(data@)) {
                (Ok(c), Ok(sc)) => c@ == sc,
                (Err(e), Err(se)) => e == se,
                _ => false,
            },
    {
        if data.len() == 0 {
            return Err(ProtocolError::EmptyCommand);
        }
        Self::parse_command_scalar(data)
    }

    /// Decodes a command as `parse_command` does, for callers that look
    /// keys up through vector compares; no key hash is kept with the
    /// command, so none is computed here.
    pub fn parse_command_with_simd_keys(data: &[u8]) -> (res: Result<Command, ProtocolError>)
        requires
            binary_command_readable(data@),
        ensures
            match (res, binary_command_parse(data@)) {
                (Ok(c), Ok(sc)) => c@ == sc,
                (Err(e), Err(se)) => e == se,
                _ => false,
            },
    {
        Self::parse_command(data)
    }

    /// Decodes a command, reading the fields one after the other.
    pub fn parse_command_scalar(data: &[u8]) -> (res: Result<Command, ProtocolError>)
        requires
            binary_command_readable(data@),
        ensures
            match (res, binary_command_parse(data@)) {
                (Ok(c), Ok(sc)) => c@ == sc,
                (Err(e), Err(se)) => e == se,
                _ => false,
            },
    {
        if data.len() == 0 {
            return Err(ProtocolError::EmptyCommand);
        }
        let cmd_type = data[0];
        if cmd_type == CMD_PING {
            Ok(Command::Ping)
        } else if cmd_type == CMD_PUT {
            let key_len = read_u32_at(data, 1) as usize;
            if data.len() - 5 < key_len {
                return Err(ProtocolError::InvalidKeyLength(CMD_PUT));
            }
            let key = copy_range(data, 5, 5 + key_len);
            let value_len = read_u32_at(data, 5 + key_len) as usize;
            let c = 9 + key_len;
            if data.len() - c < value_len {
                return Err(ProtocolError::InvalidValueLength(CMD_PUT));
            }
            let value = copy_range(data, c, c + value_len);
            let e = c + value_len;
            let ttl = if data.len() - e >= 1 {
                let has_ttl = data[e];
                if has_ttl == 1 && data.len() - e - 1 >= 8 {
                    Some(u64_from_le_bytes(vstd::slice::slice_subrange(data, e + 1, e + 9)))
                } else {
                    None
                }
            } else {
                None
            };
            Ok(Command::Put { key, value, ttl })
        } else if cmd_type == CMD_GET || cmd_type == CMD_DEL {
            let key_len = read_u32_at(data, 1) as usize;
            if data.len() - 5 < key_len {
                return Err(ProtocolError::InvalidKeyLength(cmd_type));
            }
            let key = copy_range(data, 5, 5 + key_len);
            if cmd_type == CMD_GET {
                Ok(Command::Get { key })
            } else {
                Ok(Command::Del { key })
            }
        } else if cmd_type == CMD_EXPIRE {
            let key_len = read_u32_at(data, 1) as usize;
            if data.len() - 5 < key_len || data.len() - 5 - key_len < 8 {
                return Err(ProtocolError::InvalidExpireFormat);
            }
            let key = copy_range(data, 5, 5 + key_len);
            let ttl = u64_from_le_bytes(vstd::slice::slice_subrange(data, 5 + key_len, 13 + key_len));
            Ok(Command::Expire { key, ttl })
        } else if cmd_type == CMD_STATS {
            Ok(Command::Stats)
        } else {
            Err(ProtocolError::UnknownCommandType(cmd_type))
        }
    }

    /// Encodes a command.
    pub fn serialize_command(command: &Command) -> (bytes: Vec<u8>)
        ensures
            bytes@ == binary_command_bytes(command@),
    {
        let mut buf: Vec<u8> = Vec::new();
        match command {
            Command::Ping => buf.push(CMD_PING),
            Command::Put { key, value, ttl } => {
                buf.push(CMD_PUT);
                write_u32_prefixed(&mut buf, key.as_slice());
                write_u32_prefixed(&mut buf, value.as_slice());
                match ttl {
                    Some(t) => {
                        buf.push(1u8);
                        let le = u64_to_le_bytes(*t);
                        append_bytes(&mut buf, le.as_slice());
                    },
                    None => buf.push(0u8),
                }
            },
            Command::Get { key } => {
                buf.push(CMD_GET);
                write_u32_prefixed(&mut buf, key.as_slice());
            },
            Command::Del { key } => {
                buf.push(CMD_DEL);
                write_u32_prefixed(&mut buf, key.as_slice());
            },
            Command::Expire { key, ttl } => {
                buf.push(CMD_EXPIRE);
                write_u32_prefixed(&mut buf, key.as_slice());
                let le = u64_to_le_bytes(*ttl);
                append_bytes(&mut buf, le.as_slice());
            },
            Command::Stats => buf.push(CMD_STATS),
            Command::Metrics => buf.push(CMD_STATS),
        }
        assert(buf@ =~= binary_command_bytes(command@));
        buf
    }
}


/// METRICS travels as STATS; every other command as itself.
pub open spec fn binary_command_normal(c: CommandView) -> CommandView {
    match c {
        CommandView::Metrics => CommandView::Stats,
        _ => c,
    }
}

proof fn lemma_u32_prefixed_at(b: Seq<u8>, c: int, data: Seq<u8>, rest: Seq<u8>)
    requires
        0 <= c <= b.len(),
        data.len() <= u32::MAX,
        b.skip(c) == u32_prefixed(data) + rest,
    ensures
        b.len() == c + 4 + data.len() + rest.len(),
        u32_at(b, c) == data.len(),
        b.subrange(c + 4, c + 4 + data.len()) == data,
        b.skip(c + 4 + data.len()) == rest,
{
    vstd::bytes::lemma_auto_spec_u32_to_from_le_bytes();
    let len_bytes = spec_u32_to_le_bytes(data.len() as u32);
    assert(len_bytes.len() == 4);
    assert(b.skip(c).len() == b.len() - c);
    assert((u32_prefixed(data) + rest).len() == 4 + data.len() + rest.len());
    assert(b.subrange(c, c + 4) =~= len_bytes) by {
        assert forall|i: int| 0 <= i < 4 implies b.subrange(c, c + 4)[i] == len_bytes[i] by {
            assert(b.skip(c)[i] == b[c + i]);
        }
    }
    assert(b.subrange(c + 4, c + 4 + data.len()) =~= data) by {
        assert forall|i: int| 0 <= i < data.len() implies b.subrange(c + 4, c + 4 + data.len())[i]
            == data[i] by {
            assert(b.skip(c)[4 + i] == b[c + 4 + i]);
        }
    }
    assert(b.skip(c + 4 + data.len()) =~= rest) by {
        assert forall|i: int| 0 <= i < rest.len() implies b.skip(c + 4 + data.len())[i]
            == rest[i] by {
            assert(b.skip(c)[4 + data.len() + i] == b[c + 4 + data.len() + i]);
        }
    }
}

/// Decoding the fixed-width encoding of a command whose key and value fit a
/// four-byte length gives the command back (METRICS comes back as STATS); the
/// encoding is always within what the reader can take.
pub proof fn lemma_binary_command_roundtrip(c: CommandView)
    requires
        c matches CommandView::Put { key, value, .. } ==> key.len() <= u32::MAX && value.len()
            <= u32::MAX,
        c matches CommandView::Get { key } ==> key.len() <= u32::MAX,
        c matches CommandView::Del { key } ==> key.len() <= u32::MAX,
        c matches CommandView::Expire { key, .. } ==> key.len() <= u32::MAX,
    ensures
        binary_command_readable(binary_command_bytes(c)),
        binary_command_parse(binary_command_bytes(c)) == Ok::<CommandView, ProtocolError>(
            binary_command_normal(c),
        ),
{
    vstd::bytes::lemma_auto_spec_u64_to_from_le_bytes();
    let b = binary_command_bytes(c);
    match c {
        CommandView::Put { key, value, ttl } => {
            let tail = match ttl {
                Some(t) => seq![1u8] + spec_u64_to_le_bytes(t),
                None => seq![0u8],
            };
            assert(b.skip(1) =~= u32_prefixed(key) + (u32_prefixed(value) + tail));
            lemma_u32_prefixed_at(b, 1, key, u32_prefixed(value) + tail);
            let c1: int = 5 + key.len() as int;
            lemma_u32_prefixed_at(b, c1, value, tail);
            let e: int = c1 + 4 + value.len();
            assert(b[e] == tail[0]) by {
                assert(b.skip(e)[0] == b[e]);
            }
            match ttl {
                Some(t) => {
                    assert(b.subrange(e + 1, e + 9) =~= spec_u64_to_le_bytes(t)) by {
                        assert forall|i: int| 0 <= i < 8 implies b.subrange(e + 1, e + 9)[i]
                            == spec_u64_to_le_bytes(t)[i] by {
                            assert(b.skip(e)[1 + i] == b[e + 1 + i]);
                        }
                    }
                },
                None => {},
            }
        },
        CommandView::Get { key } => {
            assert(b.skip(1) =~= u32_prefixed(key) + Seq::<u8>::empty());
            lemma_u32_prefixed_at(b, 1, key, Seq::empty());
        },
        CommandView::Del { key } => {
            assert(b.skip(1) =~= u32_prefixed(key) + Seq::<u8>::empty());
            lemma_u32_prefixed_at(b, 1, key, Seq::empty());
        },
        CommandView::Expire { key, ttl } => {
            assert(b.skip(1) =~= u32_prefixed(key) + spec_u64_to_le_bytes(ttl));
            lemma_u32_prefixed_at(b, 1, key, spec_u64_to_le_bytes(ttl));
            let c1: int = 5 + key.len() as int;
            assert(b.subrange(c1, c1 + 8) =~= spec_u64_to_le_bytes(ttl)) by {
                assert forall|i: int| 0 <= i < 8 implies b.subrange(c1, c1 + 8)[i]
                    == spec_u64_to_le_bytes(ttl)[i] by {
                    assert(b.skip(c1)[i] == b[c1 + i]);
                }
            }
        },
        _ => {},
    }
}

/// The payload after the type byte and the four length bytes: the UTF-8
/// text of an error or of statistics, a value's bytes; nothing otherwise.
pub open spec fn binary_response_payload(r: ResponseView) -> Seq<u8> {
    match r {
        ResponseView::Error(m) => encode_utf8(m),
        ResponseView::Value(v) => v,
        ResponseView::Stats(s) => encode_utf8(s),
        _ => Seq::empty(),
    }
}

/// Two different responses never have the same fixed-width encoding: the
/// type byte tells the variant and the payload its content.
pub proof fn lemma_binary_response_distinct(r1: ResponseView, r2: ResponseView)
    requires
        binary_response_bytes(r1) == binary_response_bytes(r2),
    ensures
        r1 == r2,
{
    let b1 = binary_response_bytes(r1);
    let b2 = binary_response_bytes(r2);
    assert(b1[0] == b2[0]);
    vstd::bytes::lemma_auto_spec_u32_to_from_le_bytes();
    let p1 = binary_response_payload(r1);
    let p2 = binary_response_payload(r2);
    if b1.len() > 1 {
        assert(b1.skip(5) =~= p1) by {
            assert(spec_u32_to_le_bytes(p1.len() as u32).len() == 4);
        }
        assert(b2.skip(5) =~= p2) by {
            assert(spec_u32_to_le_bytes(p2.len() as u32).len() == 4);
        }
        match r1 {
            ResponseView::Error(m) => {
                vstd::utf8::encode_utf8_decode_utf8(m);
            },
            ResponseView::Stats(m) => {
                vstd::utf8::encode_utf8_decode_utf8(m);
            },
            _ => {},
        }
        match r2 {
            ResponseView::Error(m) => {
                vstd::utf8::encode_utf8_decode_utf8(m);
            },
            ResponseView::Stats(m) => {
                vstd::utf8::encode_utf8_decode_utf8(m);
            },
            _ => {},
        }
    }
}

/// The fixed-width encoding of a response carries what the varint-framed
/// encoding of `ProtocolSerializer` carries: its type byte, then its
/// payload after the four length bytes. Reframing the payload with a varint
/// length and reading it with the binary response reader gives the
/// response back.
pub proof fn lemma_binary_response_reads_back(r: ResponseView)
    requires
        binary_response_payload(r).len() <= u32::MAX,
    ensures
        ({
            let b = binary_response_bytes(r);
            let reframed = if b.len() == 1 {
                b
            } else {
                seq![b[0]] + length_prefixed(b.skip(5))
            };
            &&& reframed == response_binary_bytes(r)
            &&& parse_response_binary_spec(reframed) == Ok::<ResponseView, ProtocolError>(r)
        }),
{
    vstd::bytes::lemma_auto_spec_u32_to_from_le_bytes();
    let b = binary_response_bytes(r);
    let p = binary_response_payload(r);
    if b.len() > 1 {
        assert(spec_u32_to_le_bytes(p.len() as u32).len() == 4);
        assert(b.skip(5) =~= p);
        assert(seq![b[0]] + length_prefixed(b.skip(5)) =~= response_binary_bytes(r));
    }
    lemma_response_binary_roundtrip(r);
}

} // verus!
