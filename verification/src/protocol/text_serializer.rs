//! The text form of commands and responses, as older clients read it: one
//! line per message, ended by CR LF.

use vstd::prelude::*;
use vstd::utf8::encode_utf8;
use crate::protocol::commands::{Command, CommandView, Response, ResponseView};
use crate::protocol::error::ProtocolError;
use crate::protocol::serializer::ProtocolSerializer;
use crate::protocol::text::{lossy_text, string_from_utf8_lossy};
use crate::protocol::wire::append_bytes;

verus! {

/// The decimal digits of `n`, as ASCII bytes, with no leading zero.
pub open spec fn decimal_bytes(n: nat) -> Seq<u8>
    decreases n,
{
    if n < 10 {
        seq![(48 + n) as u8]
    } else {
        decimal_bytes(n / 10).push((48 + n % 10) as u8)
    }
}

/// Appends the decimal digits of `n`.
pub fn write_decimal(buf: &mut Vec<u8>, n: u64)
    ensures
        final(buf)@ == old(buf)@ + decimal_bytes(n as nat),
    decreases n,
{
    if n >= 10 {
        write_decimal(buf, n / 10);
    }
    buf.push((48 + n % 10) as u8);
    assert(final(buf)@ =~= old(buf)@ + decimal_bytes(n as nat));
}

/// The bytes of an ASCII word.
pub open spec fn word(s: Seq<char>) -> Seq<u8> {
    encode_utf8(s)
}

/// Carriage return and line feed.
pub open spec fn crlf() -> Seq<u8> {
    seq![13u8, 10u8]
}

/// Text of bytes as `String::from_utf8_lossy` gives it, in UTF-8.
pub open spec fn lossy_bytes(b: Seq<u8>) -> Seq<u8> {
    encode_utf8(lossy_text(b))
}

/// The text encoding of a command: `PUT key value [ttl]`, `GET key`,
/// `DEL key`, `EXPIRE key ttl`, or the bare word, then CR LF. Keys and values
/// are written as UTF-8 text, invalid sequences replaced.
pub open spec fn command_text_bytes(c: CommandView) -> Seq<u8> {
    match c {
        CommandView::Ping => word(seq!['P', 'I', 'N', 'G']) + crlf(),
        CommandView::Put { key, value, ttl } => word(seq!['P', 'U', 'T', ' ']) + lossy_bytes(key)
            + seq![32u8] + lossy_bytes(value) + match ttl {
            Some(t) => seq![32u8] + decimal_bytes(t as nat),
            None => Seq::empty(),
        } + crlf(),
        CommandView::Get { key } => word(seq!['G', 'E', 'T', ' ']) + lossy_bytes(key) + crlf(),
        CommandView::Del { key } => word(seq!['D', 'E', 'L', ' ']) + lossy_bytes(key) + crlf(),
        CommandView::Expire { key, ttl } => word(seq!['E', 'X', 'P', 'I', 'R', 'E', ' '])
            + lossy_bytes(key) + seq![32u8] + decimal_bytes(ttl as nat) + crlf(),
        CommandView::Stats => word(seq!['S', 'T', 'A', 'T', 'S']) + crlf(),
        CommandView::Metrics => word(seq!['M', 'E', 'T', 'R', 'I', 'C', 'S']) + crlf(),
    }
}

/// The text encoding of a response: `OK`, `PONG`, `NULL`, `ERROR: message`,
/// `STATS: text` or the value itself, then CR LF.
pub open spec fn response_text_bytes(r: ResponseView) -> Seq<u8> {
    match r {
        ResponseView::Okay => word(seq!['O', 'K']) + crlf(),
        ResponseView::Pong => word(seq!['P', 'O', 'N', 'G']) + crlf(),
        ResponseView::Null => word(seq!['N', 'U', 'L', 'L']) + crlf(),
        ResponseView::Error(m) => word(seq!['E', 'R', 'R', 'O', 'R', ':', ' ']) + encode_utf8(m)
            + crlf(),
        ResponseView::Value(v) => lossy_bytes(v) + crlf(),
        ResponseView::Stats(s) => word(seq!['S', 'T', 'A', 'T', 'S', ':', ' ']) + encode_utf8(s)
            + crlf(),
    }
}

fn append_str(buf: &mut Vec<u8>, s: &str)
    ensures
        final(buf)@ == old(buf)@ + encode_utf8(s@),
{
    append_bytes(buf, s.as_bytes());
}

fn append_lossy(buf: &mut Vec<u8>, b: &[u8])
    ensures
        final(buf)@ == old(buf)@ + lossy_bytes(b@),
{
    let t = string_from_utf8_lossy(b);
    append_str(buf, t.as_str());
}

fn append_crlf(buf: &mut Vec<u8>)
    ensures
        final(buf)@ == old(buf)@ + crlf(),
{
    buf.push(13u8);
    buf.push(10u8);
    assert(final(buf)@ =~= old(buf)@ + crlf());
}

impl ProtocolSerializer {
    /// Encodes a command in the text format; it never fails.
    pub fn serialize_command_text(command: &Command) -> (res: Result<Vec<u8>, ProtocolError>)
        ensures
            res matches Ok(bytes) && bytes@ == command_text_bytes(command@),
    {
        proof {
            reveal_strlit("PING");
            reveal_strlit("PUT ");
            reveal_strlit("GET ");
            reveal_strlit("DEL ");
            reveal_strlit("EXPIRE ");
            reveal_strlit("STATS");
            reveal_strlit("METRICS");
            assert("PING"@ =~= seq!['P', 'I', 'N', 'G']);
            assert("PUT "@ =~= seq!['P', 'U', 'T', ' ']);
            assert("GET "@ =~= seq!['G', 'E', 'T', ' ']);
            assert("DEL "@ =~= seq!['D', 'E', 'L', ' ']);
            assert("EXPIRE "@ =~= seq!['E', 'X', 'P', 'I', 'R', 'E', ' ']);
            assert("STATS"@ =~= seq!['S', 'T', 'A', 'T', 'S']);
            assert("METRICS"@ =~= seq!['M', 'E', 'T', 'R', 'I', 'C', 'S']);
        }
        let mut buf: Vec<u8> = Vec::new();
        match command {
            Command::Ping => {
                append_str(&mut buf, "PING");
            },
            Command::Put { key, value, ttl } => {
                append_str(&mut buf, "PUT ");
                append_lossy(&mut buf, key.as_slice());
                buf.push(32u8);
                append_lossy(&mut buf, value.as_slice());
                match ttl {
                    Some(t) => {
                        buf.push(32u8);
                        write_decimal(&mut buf, *t);
                    },
                    None => {},
                }
            },
            Command::Get { key } => {
                append_str(&mut buf, "GET ");
                append_lossy(&mut buf, key.as_slice());
            },
            Command::Del { key } => {
                append_str(&mut buf, "DEL ");
                append_lossy(&mut buf, key.as_slice());
            },
            Command::Expire { key, ttl } => {
                append_str(&mut buf, "EXPIRE ");
                append_lossy(&mut buf, key.as_slice());
                buf.push(32u8);
                write_decimal(&mut buf, *ttl);
            },
            Command::Stats => {
                append_str(&mut buf, "STATS");
            },
            Command::Metrics => {
                append_str(&mut buf, "METRICS");
            },
        }
        append_crlf(&mut buf);
        assert(buf@ =~= command_text_bytes(command@));
        Ok(buf)
    }

    /// Encodes a response in the text format; it never fails.
    pub fn serialize_response_text(response: &Response) -> (res: Result<Vec<u8>, ProtocolError>)
        ensures
            res matches Ok(bytes) && bytes@ == response_text_bytes(response@),
    {
        proof {
            reveal_strlit("OK");
            reveal_strlit("PONG");
            reveal_strlit("NULL");
            reveal_strlit("ERROR: ");
            reveal_strlit("STATS: ");
            assert("OK"@ =~= seq!['O', 'K']);
            assert("PONG"@ =~= seq!['P', 'O', 'N', 'G']);
            assert("NULL"@ =~= seq!['N', 'U', 'L', 'L']);
            assert("ERROR: "@ =~= seq!['E', 'R', 'R', 'O', 'R', ':', ' ']);
            assert("STATS: "@ =~= seq!['S', 'T', 'A', 'T', 'S', ':', ' ']);
        }
        let mut buf: Vec<u8> = Vec::new();
        match response {
            Response::Okay => {
                append_str(&mut buf, "OK");
            },
            Response::Pong => {
                append_str(&mut buf, "PONG");
            },
            Response::Null => {
                append_str(&mut buf, "NULL");
            },
            Response::Error(msg) => {
                append_str(&mut buf, "ERROR: ");
                append_str(&mut buf, msg.as_str());
            },
            Response::Value(v) => {
                append_lossy(&mut buf, v.as_slice());
            },
            Response::Stats(s) => {
                append_str(&mut buf, "STATS: ");
                append_str(&mut buf, s.as_str());
            },
        }
        append_crlf(&mut buf);
        assert(buf@ =~= response_text_bytes(response@));
        Ok(buf)
    }

    /// Encodes a command; the text format is used, which all clients read.
    pub fn serialize_command(command: &Command) -> (res: Result<Vec<u8>, ProtocolError>)
        ensures
            res matches Ok(bytes) && bytes@ == command_text_bytes(command@),
    {
        Self::serialize_command_text(command)
    }

    /// Encodes a response; the text format is used, which all clients read.
    pub fn serialize_response(response: &Response) -> (res: Result<Vec<u8>, ProtocolError>)
        ensures
            res matches Ok(bytes) && bytes@ == response_text_bytes(response@),
    {
        Self::serialize_response_text(response)
    }
}

} // verus!
