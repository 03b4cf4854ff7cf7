//! The text form of commands and responses, read the way older clients
//! write it: `PUT key value [ttl]`, `GET key`, `OK`, `ERROR: message`.

use vstd::prelude::*;
use vstd::slice::slice_to_vec;
use vstd::string::StrSliceExecFns;
use vstd::utf8::{decode_utf8, encode_utf8, is_ascii_chars, valid_utf8};
use crate::protocol::commands::{Command, CommandView, Response, ResponseView};
use crate::protocol::error::{ProtocolError, ProtocolErrorView};
use crate::protocol::parser::{parse_command_binary_spec, parse_response_binary_spec, ProtocolParser};
use crate::protocol::serializer::{CMD_DEL, CMD_EXPIRE, CMD_GET, CMD_PUT};
use crate::protocol::text_serializer::{command_text_bytes, crlf, decimal_bytes, lossy_bytes, response_text_bytes, word};
use crate::protocol::text::{
    char_range_bytes, chars_of, find_char, find_char_in, parse_u64_chars, parse_u64_in,
    str_eq, str_to_uppercase, string_from_utf8, trim_bounds, text_upper, trim_chars, is_white_space,
    skip_ws, back_ws, all_digits, digits_value, ascii_upper, lossy_text,
};

verus! {

/// The command that an (upper-cased) command word and the text after it
/// name, or why they name none.
pub open spec fn text_command_from(word: Seq<char>, args: Seq<char>) -> Result<CommandView, ProtocolErrorView> {
    if word == seq!['P', 'I', 'N', 'G'] {
        Ok(CommandView::Ping)
    } else if word == seq!['P', 'U', 'T'] {
        let sp = find_char(args, ' ', 0);
        let rest = args.subrange(sp + 1, args.len() as int);
        if args.len() == 0 || sp == args.len() || rest.len() == 0 {
            Err(ProtocolErrorView::MissingArguments(CMD_PUT))
        } else {
            let sp2 = find_char(rest, ' ', 0);
            let ttl = if sp2 < rest.len() {
                parse_u64_chars(trim_chars(rest.subrange(sp2 + 1, rest.len() as int)))
            } else {
                None
            };
            Ok(
                CommandView::Put {
                    key: encode_utf8(args.subrange(0, sp)),
                    value: encode_utf8(rest.subrange(0, sp2)),
                    ttl,
                },
            )
        }
    } else if word == seq!['G', 'E', 'T'] {
        if args.len() == 0 {
            Err(ProtocolErrorView::MissingArguments(CMD_GET))
        } else {
            Ok(CommandView::Get { key: encode_utf8(trim_chars(args)) })
        }
    } else if word == seq!['D', 'E', 'L'] {
        if args.len() == 0 {
            Err(ProtocolErrorView::MissingArguments(CMD_DEL))
        } else {
            Ok(CommandView::Del { key: encode_utf8(trim_chars(args)) })
        }
    } else if word == seq!['E', 'X', 'P', 'I', 'R', 'E'] {
        let sp = find_char(args, ' ', 0);
        if args.len() == 0 || sp == args.len() {
            Err(ProtocolErrorView::MissingArguments(CMD_EXPIRE))
        } else {
            match parse_u64_chars(trim_chars(args.subrange(sp + 1, args.len() as int))) {
                Some(ttl) => Ok(CommandView::Expire { key: encode_utf8(args.subrange(0, sp)), ttl }),
                None => Err(ProtocolErrorView::InvalidNumber),
            }
        }
    } else if word == seq!['S', 'T', 'A', 'T', 'S'] {
        Ok(CommandView::Stats)
    } else if word == seq!['M', 'E', 'T', 'R', 'I', 'C', 'S'] {
        Ok(CommandView::Metrics)
    } else {
        Err(ProtocolErrorView::UnknownCommand(word))
    }
}

/// The command that the text format gives for `b`: the text is trimmed, its
/// first word (up to a space) is upper-cased and names the command, and the
/// rest are its arguments.
pub open spec fn parse_command_text_spec(b: Seq<u8>) -> Result<CommandView, ProtocolErrorView> {
    if !valid_utf8(b) {
        Err(ProtocolErrorView::InvalidUtf8)
    } else {
        let input = trim_chars(decode_utf8(b));
        if input.len() == 0 {
            Err(ProtocolErrorView::EmptyCommand)
        } else {
            let sp = find_char(input, ' ', 0);
            let args = if sp < input.len() {
                input.subrange(sp + 1, input.len() as int)
            } else {
                Seq::empty()
            };
            text_command_from(text_upper(input.subrange(0, sp)), args)
        }
    }
}

/// The command that `parse_command` gives: the binary format where it reads
/// one, else the text format.
pub open spec fn parse_command_spec(b: Seq<u8>) -> Result<CommandView, ProtocolErrorView> {
    if b.len() == 0 {
        Err(ProtocolErrorView::EmptyCommand)
    } else {
        match parse_command_binary_spec(b) {
            Ok(c) => Ok(c),
            Err(_) => parse_command_text_spec(b),
        }
    }
}

/// Whether `s` starts with the characters `p`.
pub open spec fn starts_with_chars(s: Seq<char>, p: Seq<char>) -> bool {
    s.len() >= p.len() && s.subrange(0, p.len() as int) == p
}

/// The response that the text format gives for `b`.
pub open spec fn parse_response_text_spec(b: Seq<u8>) -> Result<ResponseView, ProtocolErrorView> {
    if !valid_utf8(b) {
        Err(ProtocolErrorView::InvalidUtf8)
    } else {
        let input = trim_chars(decode_utf8(b));
        if starts_with_chars(input, seq!['O', 'K']) {
            Ok(ResponseView::Okay)
        } else if starts_with_chars(input, seq!['P', 'O', 'N', 'G']) {
            Ok(ResponseView::Pong)
        } else if starts_with_chars(input, seq!['N', 'U', 'L', 'L']) {
            Ok(ResponseView::Null)
        } else if starts_with_chars(input, seq!['E', 'R', 'R', 'O', 'R', ':']) {
            Ok(ResponseView::Error(trim_chars(input.subrange(6, input.len() as int))))
        } else if starts_with_chars(input, seq!['S', 'T', 'A', 'T', 'S', ':']) {
            Ok(ResponseView::Stats(trim_chars(input.subrange(6, input.len() as int))))
        } else {
            Ok(ResponseView::Value(encode_utf8(input)))
        }
    }
}

/// The response that `parse_response` gives: the binary format where it
/// reads one, else the text format.
pub open spec fn parse_response_spec(b: Seq<u8>) -> Result<ResponseView, ProtocolErrorView> {
    if b.len() == 0 {
        Err(ProtocolErrorView::EmptyResponse)
    } else {
        match parse_response_binary_spec(b) {
            Ok(r) => Ok(r),
            Err(_) => parse_response_text_spec(b),
        }
    }
}

/// Whether an outcome of decoding a command is the one the spec names.
pub open spec fn command_outcome_is(
    res: Result<Command, ProtocolError>,
    spec: Result<CommandView, ProtocolErrorView>,
) -> bool {
    match (res, spec) {
        (Ok(c), Ok(sc)) => c@ == sc,
        (Err(e), Err(se)) => e@ == se,
        _ => false,
    }
}

/// Whether an outcome of decoding a response is the one the spec names.
pub open spec fn response_outcome_is(
    res: Result<Response, ProtocolError>,
    spec: Result<ResponseView, ProtocolErrorView>,
) -> bool {
    match (res, spec) {
        (Ok(r), Ok(sr)) => r@ == sr,
        (Err(e), Err(se)) => e@ == se,
        _ => false,
    }
}

impl ProtocolParser {
    /// Builds the command that an upper-cased command word and its argument
    /// text name.
    pub fn parse_text_words(word: &str, args: &str) -> (res: Result<Command, ProtocolError>)
        ensures
            command_outcome_is(res, text_command_from(word@, args@)),
    {
        proof {
            reveal_strlit("PING");
            reveal_strlit("PUT");
            reveal_strlit("GET");
            reveal_strlit("DEL");
            reveal_strlit("EXPIRE");
            reveal_strlit("STATS");
            reveal_strlit("METRICS");
            assert("PING"@ =~= seq!['P', 'I', 'N', 'G']);
            assert("PUT"@ =~= seq!['P', 'U', 'T']);
            assert("GET"@ =~= seq!['G', 'E', 'T']);
            assert("DEL"@ =~= seq!['D', 'E', 'L']);
            assert("EXPIRE"@ =~= seq!['E', 'X', 'P', 'I', 'R', 'E']);
            assert("STATS"@ =~= seq!['S', 'T', 'A', 'T', 'S']);
            assert("METRICS"@ =~= seq!['M', 'E', 'T', 'R', 'I', 'C', 'S']);
        }
        let cs = chars_of(args);
        let n = cs.len();
        assert(cs@.subrange(0, n as int) =~= args@);
        if str_eq(word, "PING") {
            assert(word@ =~= seq!['P', 'I', 'N', 'G']);
            Ok(Command::Ping)
        } else if str_eq(word, "PUT") {
            assert(word@ =~= seq!['P', 'U', 'T']);
            if n == 0 {
                return Err(ProtocolError::MissingArguments(CMD_PUT));
            }
            let sp = find_char_in(&cs, ' ', 0, n);
            if sp == n || sp + 1 == n {
                return Err(ProtocolError::MissingArguments(CMD_PUT));
            }
            let ghost rest = args@.subrange(sp + 1, args@.len() as int);
            assert(cs@.subrange(sp + 1, n as int) =~= rest);
            let sp2 = find_char_in(&cs, ' ', sp + 1, n);
            let key = char_range_bytes(args, 0, sp);
            let value = char_range_bytes(args, sp + 1, sp2);
            assert(rest.subrange(0, sp2 - sp - 1) =~= args@.subrange(sp + 1, sp2 as int));
            let ttl = if sp2 < n {
                let (i, j) = trim_bounds(&cs, sp2 + 1, n);
                assert(rest.subrange(sp2 - sp, rest.len() as int) =~= cs@.subrange(
                    sp2 + 1,
                    n as int,
                ));
                parse_u64_in(&cs, i, j)
            } else {
                None
            };
            Ok(Command::Put { key, value, ttl })
        } else if str_eq(word, "GET") || str_eq(word, "DEL") {
            let is_get = str_eq(word, "GET");
            if n == 0 {
                if is_get {
                    assert(word@ =~= seq!['G', 'E', 'T']);
                    return Err(ProtocolError::MissingArguments(CMD_GET));
                } else {
                    assert(word@ =~= seq!['D', 'E', 'L']);
                    return Err(ProtocolError::MissingArguments(CMD_DEL));
                }
            }
            let (i, j) = trim_bounds(&cs, 0, n);
            let key = char_range_bytes(args, i, j);
            if is_get {
                assert(word@ =~= seq!['G', 'E', 'T']);
                Ok(Command::Get { key })
            } else {
                assert(word@ =~= seq!['D', 'E', 'L']);
                Ok(Command::Del { key })
            }
        } else if str_eq(word, "EXPIRE") {
            assert(word@ =~= seq!['E', 'X', 'P', 'I', 'R', 'E']);
            if n == 0 {
                return Err(ProtocolError::MissingArguments(CMD_EXPIRE));
            }
            let sp = find_char_in(&cs, ' ', 0, n);
            if sp == n {
                return Err(ProtocolError::MissingArguments(CMD_EXPIRE));
            }
            assert(cs@.subrange(sp + 1, n as int) =~= args@.subrange(sp + 1, args@.len() as int));
            let (i, j) = trim_bounds(&cs, sp + 1, n);
            match parse_u64_in(&cs, i, j) {
                Some(ttl) => {
                    let key = char_range_bytes(args, 0, sp);
                    Ok(Command::Expire { key, ttl })
                },
                None => Err(ProtocolError::InvalidNumber),
            }
        } else if str_eq(word, "STATS") {
            assert(word@ =~= seq!['S', 'T', 'A', 'T', 'S']);
            Ok(Command::Stats)
        } else if str_eq(word, "METRICS") {
            assert(word@ =~= seq!['M', 'E', 'T', 'R', 'I', 'C', 'S']);
            Ok(Command::Metrics)
        } else {
            Err(ProtocolError::UnknownCommand(word.to_owned()))
        }
    }

    /// Decodes a command in the text format.
    pub fn parse_command_text(bytes: &[u8]) -> (res: Result<Command, ProtocolError>)
        ensures
            command_outcome_is(res, parse_command_text_spec(bytes@)),
    {
        let text = match string_from_utf8(slice_to_vec(bytes)) {
            Some(t) => t,
            None => return Err(ProtocolError::InvalidUtf8),
        };
        let s = text.as_str();
        let cs = chars_of(s);
        let n = cs.len();
        assert(cs@.subrange(0, n as int) =~= cs@);
        let (a, b) = trim_bounds(&cs, 0, n);
        if a == b {
            return Err(ProtocolError::EmptyCommand);
        }
        let ghost input = cs@.subrange(a as int, b as int);
        let sp = find_char_in(&cs, ' ', a, b);
        let word = s.substring_char(a, sp);
        assert(input.subrange(0, sp - a) =~= word@);
        let upper = str_to_uppercase(word);
        let args = if sp < b {
            assert(input.subrange(sp - a + 1, input.len() as int) =~= cs@.subrange(
                sp + 1,
                b as int,
            ));
            s.substring_char(sp + 1, b)
        } else {
            assert(s@.subrange(b as int, b as int) =~= Seq::<char>::empty());
            s.substring_char(b, b)
        };
        Self::parse_text_words(upper.as_str(), args)
    }

    /// Decodes a command: the binary format where the bytes hold one, else
    /// the text format.
    pub fn parse_command(bytes: &[u8]) -> (res: Result<Command, ProtocolError>)
        ensures
            command_outcome_is(res, parse_command_spec(bytes@)),
    {
        if bytes.len() == 0 {
            return Err(ProtocolError::EmptyCommand);
        }
        match Self::parse_command_binary(bytes) {
            Ok(c) => Ok(c),
            Err(_) => Self::parse_command_text(bytes),
        }
    }

    /// Decodes a response in the text format.
    #[verifier::spinoff_prover]
    #[verifier::rlimit(40)]
    pub fn parse_response_text(bytes: &[u8]) -> (res: Result<Response, ProtocolError>)
        ensures
            response_outcome_is(res, parse_response_text_spec(bytes@)),
    {
        let text = match string_from_utf8(slice_to_vec(bytes)) {
            Some(t) => t,
            None => return Err(ProtocolError::InvalidUtf8),
        };
        let s = text.as_str();
        let cs = chars_of(s);
        let n = cs.len();
        assert(cs@.subrange(0, n as int) =~= cs@);
        let (a, b) = trim_bounds(&cs, 0, n);
        let ghost input = cs@.subrange(a as int, b as int);
        let len = b - a;
        if len >= 2 && cs[a] == 'O' && cs[a + 1] == 'K' {
            assert(input.subrange(0, 2) =~= seq!['O', 'K']);
            return Ok(Response::Okay);
        }
        assert(starts_with_chars(input, seq!['O', 'K']) ==> input[0] == 'O' && input[1] == 'K');
        if len >= 4 && cs[a] == 'P' && cs[a + 1] == 'O' && cs[a + 2] == 'N' && cs[a + 3] == 'G' {
            assert(input.subrange(0, 4) =~= seq!['P', 'O', 'N', 'G']);
            return Ok(Response::Pong);
        }
        assert(starts_with_chars(input, seq!['P', 'O', 'N', 'G']) ==> input[0] == 'P'
            && input[1] == 'O' && input[2] == 'N' && input[3] == 'G');
        if len >= 4 && cs[a] == 'N' && cs[a + 1] == 'U' && cs[a + 2] == 'L' && cs[a + 3] == 'L' {
            assert(input.subrange(0, 4) =~= seq!['N', 'U', 'L', 'L']);
            return Ok(Response::Null);
        }
        assert(starts_with_chars(input, seq!['N', 'U', 'L', 'L']) ==> input[0] == 'N'
            && input[1] == 'U' && input[2] == 'L' && input[3] == 'L');
        let is_error = len >= 6 && cs[a] == 'E' && cs[a + 1] == 'R' && cs[a + 2] == 'R' && cs[a
            + 3] == 'O' && cs[a + 4] == 'R' && cs[a + 5] == ':';
        let is_stats = len >= 6 && cs[a] == 'S' && cs[a + 1] == 'T' && cs[a + 2] == 'A' && cs[a
            + 3] == 'T' && cs[a + 4] == 'S' && cs[a + 5] == ':';
        assert(is_error <==> starts_with_chars(input, seq!['E', 'R', 'R', 'O', 'R', ':'])) by {
            if is_error {
                assert(input.subrange(0, 6) =~= seq!['E', 'R', 'R', 'O', 'R', ':']);
            }
            if starts_with_chars(input, seq!['E', 'R', 'R', 'O', 'R', ':']) {
                assert(input.subrange(0, 6)[5] == ':');
            }
        }
        assert(is_stats <==> starts_with_chars(input, seq!['S', 'T', 'A', 'T', 'S', ':'])) by {
            if is_stats {
                assert(input.subrange(0, 6) =~= seq!['S', 'T', 'A', 'T', 'S', ':']);
            }
            if starts_with_chars(input, seq!['S', 'T', 'A', 'T', 'S', ':']) {
                assert(input.subrange(0, 6)[5] == ':');
            }
        }
        if is_error || is_stats {
            let (i, j) = trim_bounds(&cs, a + 6, b);
            assert(input.subrange(6, input.len() as int) =~= cs@.subrange(a + 6, b as int));
            let msg = s.substring_char(i, j).to_owned();
            if is_error {
                Ok(Response::Error(msg))
            } else {
                Ok(Response::Stats(msg))
            }
        } else {
            Ok(Response::Value(char_range_bytes(s, a, b)))
        }
    }

    /// Decodes a response: the binary format where the bytes hold one, else
    /// the text format.
    pub fn parse_response(bytes: &[u8]) -> (res: Result<Response, ProtocolError>)
        ensures
            response_outcome_is(res, parse_response_spec(bytes@)),
    {
        if bytes.len() == 0 {
            return Err(ProtocolError::EmptyResponse);
        }
        match Self::parse_response_binary(bytes) {
            Ok(r) => Ok(r),
            Err(_) => Self::parse_response_text(bytes),
        }
    }
}

proof fn lemma_encode_utf8_concat(a: Seq<char>, b: Seq<char>)
    ensures
        encode_utf8(a + b) == encode_utf8(a) + encode_utf8(b),
    decreases a.len(),
{
    if a.len() == 0 {
        assert(a + b =~= b);
        assert(encode_utf8(a) + encode_utf8(b) =~= encode_utf8(b));
    } else {
        lemma_encode_utf8_concat(a.drop_first(), b);
        assert((a + b).drop_first() =~= a.drop_first() + b);
        assert((a + b)[0] == a[0]);
        assert(encode_utf8(a + b) =~= encode_utf8(a) + encode_utf8(b));
    }
}

/// Whether a text reply could be read as one of the fixed replies: it
/// starts with `OK`, `PONG`, `NULL`, `ERROR:` or `STATS:`.
pub open spec fn reads_as_keyword(t: Seq<char>) -> bool {
    ||| starts_with_chars(t, seq!['O', 'K'])
    ||| starts_with_chars(t, seq!['P', 'O', 'N', 'G'])
    ||| starts_with_chars(t, seq!['N', 'U', 'L', 'L'])
    ||| starts_with_chars(t, seq!['E', 'R', 'R', 'O', 'R', ':'])
    ||| starts_with_chars(t, seq!['S', 'T', 'A', 'T', 'S', ':'])
}

/// A value written as text and read back as text comes back whole, spaces
/// inside it included, where it is text that neither starts nor ends with
/// white space and does not start like a fixed reply.
pub proof fn lemma_text_value_reply_roundtrip(t: Seq<char>)
    requires
        t.len() > 0,
        !is_white_space(t[0]),
        !is_white_space(t[t.len() - 1]),
        !reads_as_keyword(t),
    ensures
        parse_response_text_spec(response_text_bytes(ResponseView::Value(encode_utf8(t))))
            == Ok::<ResponseView, ProtocolErrorView>(ResponseView::Value(encode_utf8(t))),
{
    let v = encode_utf8(t);
    vstd::utf8::encode_utf8_valid_utf8(t);
    vstd::utf8::encode_utf8_decode_utf8(t);
    let nl = seq!['\r', '\n'];
    let u = t + nl;
    assert(encode_utf8(nl) == seq![13u8, 10u8]) by {
        reveal_with_fuel(encode_utf8, 3);
        assert(nl.drop_first() =~= seq!['\n']);
        assert(nl.drop_first().drop_first() =~= Seq::<char>::empty());
        vstd::utf8::is_ascii_chars_encode_utf8(nl);
    }
    lemma_encode_utf8_concat(t, nl);
    let bytes = response_text_bytes(ResponseView::Value(v));
    assert(bytes == encode_utf8(u));
    vstd::utf8::encode_utf8_valid_utf8(u);
    vstd::utf8::encode_utf8_decode_utf8(u);
    let n = u.len() as int;
    assert(skip_ws(u, 0) == 0);
    assert(is_white_space(u[n - 1]));
    assert(is_white_space(u[n - 2]));
    assert(u[n - 3] == t[t.len() - 1]);
    assert(back_ws(u, 0, n - 2) == n - 2);
    assert(back_ws(u, 0, n - 1) == n - 2);
    assert(back_ws(u, 0, n) == n - 2);
    assert(u.subrange(0, n - 2) =~= t);
    assert(trim_chars(u) == t);
}

/// The same, read the way `parse_response` reads any reply (the binary
/// form first), for text that starts with a visible ASCII character, which
/// no binary reply starts with.
pub proof fn lemma_value_reply_roundtrip(t: Seq<char>)
    requires
        t.len() > 0,
        '!' <= t[0] <= '~',
        !is_white_space(t[t.len() - 1]),
        !reads_as_keyword(t),
    ensures
        parse_response_spec(response_text_bytes(ResponseView::Value(encode_utf8(t))))
            == Ok::<ResponseView, ProtocolErrorView>(ResponseView::Value(encode_utf8(t))),
{
    lemma_text_value_reply_roundtrip(t);
    let v = encode_utf8(t);
    vstd::utf8::encode_utf8_valid_utf8(t);
    vstd::utf8::encode_utf8_decode_utf8(t);
    let bytes = response_text_bytes(ResponseView::Value(v));
    assert(bytes == encode_utf8(t) + seq![13u8, 10u8]);
    let x = t[0] as u32;
    assert(0x21 <= x <= 0x7E);
    assert((x & 0x7F) as u8 == x as u8 && 0x21 <= x as u8 <= 0x7E) by (bit_vector)
        requires
            0x21 <= x <= 0x7E,
    ;
    assert(encode_utf8(t)[0] == x as u8);
    assert(bytes[0] == x as u8);
}

/// Whether text neither starts nor ends with white space (empty text
/// included).
pub open spec fn no_edge_white_space(m: Seq<char>) -> bool {
    m.len() == 0 || (!is_white_space(m[0]) && !is_white_space(m[m.len() - 1]))
}

/// A line `x` then CR LF, where `x` starts and ends with no white space,
/// trims to `x`.
proof fn lemma_trim_line(x: Seq<char>)
    requires
        x.len() > 0,
        !is_white_space(x[0]),
        !is_white_space(x[x.len() - 1]),
    ensures
        trim_chars(x + seq!['\r', '\n']) == x,
        trim_chars(x + seq!['\r']) == x,
{
    let u = x + seq!['\r', '\n'];
    let n = u.len() as int;
    assert(skip_ws(u, 0) == 0);
    assert(is_white_space(u[n - 1]));
    assert(is_white_space(u[n - 2]));
    assert(u[n - 3] == x[x.len() - 1]);
    assert(back_ws(u, 0, n - 2) == n - 2);
    assert(back_ws(u, 0, n - 1) == n - 2);
    assert(back_ws(u, 0, n) == n - 2);
    assert(u.subrange(0, n - 2) =~= x);
    let r = x + seq!['\r'];
    let m = r.len() as int;
    assert(skip_ws(r, 0) == 0);
    assert(is_white_space(r[m - 1]));
    assert(r[m - 2] == x[x.len() - 1]);
    assert(back_ws(r, 0, m - 1) == m - 1);
    assert(back_ws(r, 0, m) == m - 1);
    assert(r.subrange(0, m - 1) =~= x);
}

/// The bytes of a line `x` then CR LF, or then CR alone.
proof fn lemma_line_bytes(x: Seq<char>)
    ensures
        encode_utf8(x) + seq![13u8, 10u8] == encode_utf8(x + seq!['\r', '\n']),
        valid_utf8(encode_utf8(x + seq!['\r', '\n'])),
        decode_utf8(encode_utf8(x + seq!['\r', '\n'])) == x + seq!['\r', '\n'],
        encode_utf8(x) + seq![13u8] == encode_utf8(x + seq!['\r']),
        valid_utf8(encode_utf8(x + seq!['\r'])),
        decode_utf8(encode_utf8(x + seq!['\r'])) == x + seq!['\r'],
{
    let nl = seq!['\r', '\n'];
    assert(encode_utf8(nl) == seq![13u8, 10u8]) by {
        reveal_with_fuel(encode_utf8, 3);
        assert(nl.drop_first() =~= seq!['\n']);
        assert(nl.drop_first().drop_first() =~= Seq::<char>::empty());
        vstd::utf8::is_ascii_chars_encode_utf8(nl);
    }
    lemma_encode_utf8_concat(x, nl);
    vstd::utf8::encode_utf8_valid_utf8(x + nl);
    vstd::utf8::encode_utf8_decode_utf8(x + nl);
    let cr = seq!['\r'];
    lemma_encode_ascii_char('\r');
    lemma_encode_utf8_concat(x, cr);
    vstd::utf8::encode_utf8_valid_utf8(x + cr);
    vstd::utf8::encode_utf8_decode_utf8(x + cr);
}

/// An error or statistics line, `word` then `m`, trims to the word and its
/// text; the text after the word's six characters trims to `m`.
proof fn lemma_labelled_line(w: Seq<char>, m: Seq<char>)
    requires
        w.len() == 7,
        w[6] == ' ',
        !is_white_space(w[0]),
        !is_white_space(w[5]),
        no_edge_white_space(m),
    ensures
        ({
            let input = trim_chars(w + m + seq!['\r', '\n']);
            &&& input.len() >= 6
            &&& input.subrange(0, 6) == w.subrange(0, 6)
            &&& trim_chars(input.subrange(6, input.len() as int)) == m
        }),
{
    let u = w + m + seq!['\r', '\n'];
    if m.len() > 0 {
        assert(w + m + seq!['\r', '\n'] =~= (w + m) + seq!['\r', '\n']);
        lemma_trim_line(w + m);
        let input = w + m;
        let r = input.subrange(6, input.len() as int);
        assert(r =~= seq![' '] + m);
        assert(is_white_space(r[0]));
        assert(skip_ws(r, 1) == 1);
        assert(skip_ws(r, 0) == 1);
        assert(r[r.len() - 1] == m[m.len() - 1]);
        assert(back_ws(r, 1, r.len() as int) == r.len());
        assert(r.subrange(1, r.len() as int) =~= m);
        assert(input.subrange(0, 6) =~= w.subrange(0, 6));
    } else {
        let x = w.subrange(0, 6);
        assert(u =~= x + seq![' ', '\r', '\n']);
        let n = u.len() as int;
        assert(n == 9);
        assert(skip_ws(u, 0) == 0);
        assert(is_white_space(u[8]) && is_white_space(u[7]) && is_white_space(u[6]));
        assert(u[5] == w[5]);
        assert(back_ws(u, 0, 6) == 6);
        assert(back_ws(u, 0, 7) == 6);
        assert(back_ws(u, 0, 8) == 6);
        assert(back_ws(u, 0, 9) == 6);
        let input = u.subrange(0, 6);
        assert(input =~= x);
        assert(input.subrange(6, 6) =~= Seq::<char>::empty());
        assert(trim_chars(Seq::<char>::empty()) =~= Seq::<char>::empty());
        assert(m =~= Seq::<char>::empty());
    }
}

/// Every reply written as text and read back as text is the reply again,
/// where its text survives the trimming that reading does: error and
/// statistics texts with no white space at either end, and value bytes
/// that are UTF-8 text with none either, not starting like a fixed reply.
pub proof fn lemma_text_reply_roundtrip(r: ResponseView)
    requires
        r matches ResponseView::Error(m) ==> no_edge_white_space(m),
        r matches ResponseView::Stats(m) ==> no_edge_white_space(m),
        r matches ResponseView::Value(v) ==> valid_utf8(v) && decode_utf8(v).len() > 0
            && no_edge_white_space(decode_utf8(v)) && !reads_as_keyword(decode_utf8(v)),
    ensures
        parse_response_text_spec(response_text_bytes(r)) == Ok::<ResponseView, ProtocolErrorView>(r),
{
    match r {
        ResponseView::Value(v) => {
            vstd::utf8::decode_utf8_encode_utf8(v);
            lemma_text_value_reply_roundtrip(decode_utf8(v));
        },
        ResponseView::Okay => {
            let x = seq!['O', 'K'];
            lemma_line_bytes(x);
            lemma_trim_line(x);
            assert(trim_chars(x + seq!['\r', '\n']).subrange(0, 2) =~= x);
        },
        ResponseView::Pong => {
            let x = seq!['P', 'O', 'N', 'G'];
            lemma_line_bytes(x);
            lemma_trim_line(x);
            assert(x.subrange(0, 2) != seq!['O', 'K']) by { assert(x.subrange(0, 2)[0] != 'O'); }
            assert(x.subrange(0, 4) =~= x);
        },
        ResponseView::Null => {
            let x = seq!['N', 'U', 'L', 'L'];
            lemma_line_bytes(x);
            lemma_trim_line(x);
            assert(x.subrange(0, 2) != seq!['O', 'K']) by { assert(x.subrange(0, 2)[0] != 'O'); }
            assert(x.subrange(0, 4) != seq!['P', 'O', 'N', 'G']) by { assert(x.subrange(0, 4)[0] != 'P'); }
            assert(x.subrange(0, 4) =~= x);
        },
        ResponseView::Error(m) => {
            let w = seq!['E', 'R', 'R', 'O', 'R', ':', ' '];
            lemma_encode_utf8_concat(w, m);
            lemma_line_bytes(w + m);
            lemma_labelled_line(w, m);
            let input = trim_chars(w + m + seq!['\r', '\n']);
            assert(input.subrange(0, 2) != seq!['O', 'K']) by { assert(input.subrange(0, 2)[0] == input.subrange(0, 6)[0]); }
            assert(input.subrange(0, 4) != seq!['P', 'O', 'N', 'G']) by { assert(input.subrange(0, 4)[0] == input.subrange(0, 6)[0]); }
            assert(input.subrange(0, 4) != seq!['N', 'U', 'L', 'L']) by { assert(input.subrange(0, 4)[0] == input.subrange(0, 6)[0]); }
            assert(w.subrange(0, 6) =~= seq!['E', 'R', 'R', 'O', 'R', ':']);
        },
        ResponseView::Stats(m) => {
            let w = seq!['S', 'T', 'A', 'T', 'S', ':', ' '];
            lemma_encode_utf8_concat(w, m);
            lemma_line_bytes(w + m);
            lemma_labelled_line(w, m);
            let input = trim_chars(w + m + seq!['\r', '\n']);
            assert(input.subrange(0, 2) != seq!['O', 'K']) by { assert(input.subrange(0, 2)[0] == input.subrange(0, 6)[0]); }
            assert(input.subrange(0, 4) != seq!['P', 'O', 'N', 'G']) by { assert(input.subrange(0, 4)[0] == input.subrange(0, 6)[0]); }
            assert(input.subrange(0, 4) != seq!['N', 'U', 'L', 'L']) by { assert(input.subrange(0, 4)[0] == input.subrange(0, 6)[0]); }
            assert(input.subrange(0, 6) != seq!['E', 'R', 'R', 'O', 'R', ':']) by { assert(input.subrange(0, 6)[0] == 'S'); }
            assert(w.subrange(0, 6) =~= seq!['S', 'T', 'A', 'T', 'S', ':']);
        },
    }
}

/// The first position at or after 0 that holds `c` is `k`, where `s[k]`
/// is `c` (or `k` is the end) and no earlier position holds it.
proof fn lemma_find_char_at(s: Seq<char>, c: char, k: int)
    requires
        0 <= k <= s.len(),
        k < s.len() ==> s[k] == c,
        forall|j: int| 0 <= j < k ==> s[j] != c,
    ensures
        find_char(s, c, 0) == k,
{
    lemma_find_char_from(s, c, 0, k);
}

proof fn lemma_find_char_from(s: Seq<char>, c: char, i: int, k: int)
    requires
        0 <= i <= k <= s.len(),
        k < s.len() ==> s[k] == c,
        forall|j: int| i <= j < k ==> s[j] != c,
    ensures
        find_char(s, c, i) == k,
    decreases k - i,
{
    if i < k {
        lemma_find_char_from(s, c, i + 1, k);
    }
}

/// Whether text holds no white space at all.
pub open spec fn no_white_space(s: Seq<char>) -> bool {
    forall|i: int| 0 <= i < s.len() ==> !is_white_space(#[trigger] s[i])
}

/// The decimal digits of `n` as characters, with no leading zero.
pub open spec fn decimal_chars(n: nat) -> Seq<char>
    decreases n,
{
    if n < 10 {
        seq![(48 + n) as char]
    } else {
        decimal_chars(n / 10).push((48 + n % 10) as char)
    }
}

proof fn lemma_encode_ascii_char(c: char)
    requires
        (c as u32) < 128,
    ensures
        encode_utf8(seq![c]) == seq![(c as u32) as u8],
{
    let x = c as u32;
    assert((x & 0x7F) as u8 == x as u8) by (bit_vector)
        requires
            x < 128,
    ;
    assert(seq![c].drop_first() =~= Seq::<char>::empty());
    assert(seq![c][0] == c);
    assert(encode_utf8(Seq::<char>::empty()) =~= Seq::<u8>::empty());
    assert(vstd::utf8::has_width_1_encoding(x));
    assert(vstd::utf8::encode_scalar(x) == seq![vstd::utf8::leading_byte_width_1(x)]);
    assert(encode_utf8(seq![c]) == vstd::utf8::encode_scalar(x) + encode_utf8(seq![c].drop_first()));
    assert(encode_utf8(seq![c]) =~= seq![(c as u32) as u8]);
}

/// The digits of `n` are decimal digits, read as `n`, written as the bytes
/// the serializer writes.
proof fn lemma_decimal_chars(n: nat)
    ensures
        decimal_chars(n).len() > 0,
        all_digits(decimal_chars(n)),
        no_white_space(decimal_chars(n)),
        digits_value(decimal_chars(n)) == n,
        encode_utf8(decimal_chars(n)) == decimal_bytes(n),
    decreases n,
{
    let d = decimal_chars(n);
    if n < 10 {
        let c = (48 + n) as char;
        assert(c as int == 48 + n);
        lemma_encode_ascii_char(c);
        assert(d.drop_last() =~= Seq::<char>::empty());
        assert(d.last() == c);
        assert(digits_value(d) == digits_value(d.drop_last()) * 10 + (c as int - 48));
    } else {
        lemma_decimal_chars(n / 10);
        let last = (48 + n % 10) as char;
        assert(last as int == 48 + n % 10);
        lemma_encode_ascii_char(last);
        assert(d.last() == last);
        assert(digits_value(d) == digits_value(d.drop_last()) * 10 + (last as int - 48));
        lemma_encode_utf8_concat(decimal_chars(n / 10), seq![last]);
        assert(decimal_chars(n / 10) + seq![last] =~= d);
        assert(d.drop_last() =~= decimal_chars(n / 10));
        assert(decimal_bytes(n) == decimal_bytes(n / 10).push((48 + n % 10) as u8));
        assert(decimal_bytes(n / 10).push((48 + n % 10) as u8) =~= decimal_bytes(n / 10) + seq![(48 + n % 10) as u8]);
        assert forall|i: int| 0 <= i < d.len() implies '0' <= #[trigger] d[i] <= '9' by {
            if i < d.len() - 1 {
                assert(d[i] == decimal_chars(n / 10)[i]);
            }
        }
        assert forall|i: int| 0 <= i < d.len() implies !is_white_space(#[trigger] d[i]) by {
            assert('0' <= d[i] <= '9');
        }
    }
}

/// A number written in decimal by the serializer is read back by the
/// parser of numbers.
proof fn lemma_decimal_parse(t: u64)
    ensures
        parse_u64_chars(decimal_chars(t as nat)) == Some(t),
        trim_chars(decimal_chars(t as nat)) == decimal_chars(t as nat),
{
    lemma_decimal_chars(t as nat);
    let d = decimal_chars(t as nat);
    assert('0' <= d[0] <= '9');
    assert(skip_ws(d, 0) == 0);
    assert(back_ws(d, 0, d.len() as int) == d.len());
    assert(d.subrange(0, d.len() as int) =~= d);
}

/// Text that starts with an upper-case letter starts with that letter's
/// byte, which no binary command starts with.
proof fn lemma_first_byte_letter(x: Seq<char>)
    requires
        x.len() > 0,
        'A' <= x[0] <= 'Z',
    ensures
        65 <= encode_utf8(x)[0] <= 90,
        encode_utf8(x).len() > 0,
{
    let c = x[0];
    lemma_encode_ascii_char(c);
    assert(x =~= seq![c] + x.drop_first());
    lemma_encode_utf8_concat(seq![c], x.drop_first());
    let v = c as u32;
    assert(65 <= v <= 90);
    assert(65 <= (v as u8) <= 90) by (bit_vector)
        requires
            65 <= v <= 90,
    ;
}

/// A command line: an upper-case command word, a space and its arguments,
/// then CR LF, is read as the command that the word and arguments name.
proof fn lemma_command_line(w: Seq<char>, args: Seq<char>)
    requires
        w.len() > 0,
        forall|i: int| 0 <= i < w.len() ==> 'A' <= #[trigger] w[i] <= 'Z',
        args.len() > 0,
        !is_white_space(args[0]),
        !is_white_space(args[args.len() - 1]),
    ensures
        parse_command_text_spec(encode_utf8(w + seq![' '] + args) + seq![13u8, 10u8])
            == text_command_from(w, args),
        parse_command_spec(encode_utf8(w + seq![' '] + args) + seq![13u8, 10u8])
            == text_command_from(w, args),
        parse_command_spec(encode_utf8(w + seq![' '] + args) + seq![13u8])
            == text_command_from(w, args),
        valid_utf8(encode_utf8(w + seq![' '] + args) + seq![13u8]),
{
    let x = w + seq![' '] + args;
    lemma_line_bytes(x);
    lemma_first_byte_letter(x);
    assert('A' <= w[0] <= 'Z');
    assert(x[0] == w[0]);
    assert(x[x.len() - 1] == args[args.len() - 1]);
    lemma_trim_line(x);
    assert forall|j: int| 0 <= j < w.len() implies x[j] != ' ' by {
        assert(x[j] == w[j]);
        assert('A' <= w[j] <= 'Z');
    }
    lemma_find_char_at(x, ' ', w.len() as int);
    assert(x.subrange(0, w.len() as int) =~= w);
    assert(x.subrange(w.len() as int + 1, x.len() as int) =~= args);
    assert(is_ascii_chars(w)) by {
        assert forall|i: int| 0 <= i < w.len() implies '\0' <= #[trigger] w[i] <= '\u{7f}' by {
            assert('A' <= w[i] <= 'Z');
        }
    }
    assert(ascii_upper(w) =~= w) by {
        assert forall|i: int| 0 <= i < w.len() implies ascii_upper(w)[i] == w[i] by {
            assert('A' <= w[i] <= 'Z');
        }
    }
}

/// A line holding only an upper-case command word, then CR LF, is read as
/// the command that the word alone names.
proof fn lemma_bare_command_line(w: Seq<char>)
    requires
        w.len() > 0,
        forall|i: int| 0 <= i < w.len() ==> 'A' <= #[trigger] w[i] <= 'Z',
    ensures
        parse_command_text_spec(encode_utf8(w) + seq![13u8, 10u8]) == text_command_from(w, Seq::empty()),
        parse_command_spec(encode_utf8(w) + seq![13u8, 10u8]) == text_command_from(w, Seq::empty()),
        parse_command_spec(encode_utf8(w) + seq![13u8]) == text_command_from(w, Seq::empty()),
        valid_utf8(encode_utf8(w) + seq![13u8]),
{
    lemma_line_bytes(w);
    lemma_first_byte_letter(w);
    assert('A' <= w[0] <= 'Z');
    assert('A' <= w[w.len() - 1] <= 'Z');
    lemma_trim_line(w);
    assert forall|j: int| 0 <= j < w.len() implies w[j] != ' ' by {
        assert('A' <= w[j] <= 'Z');
    }
    lemma_find_char_at(w, ' ', w.len() as int);
    assert(w.subrange(0, w.len() as int) =~= w);
    assert(is_ascii_chars(w)) by {
        assert forall|i: int| 0 <= i < w.len() implies '\0' <= #[trigger] w[i] <= '\u{7f}' by {
            assert('A' <= w[i] <= 'Z');
        }
    }
    assert(ascii_upper(w) =~= w) by {
        assert forall|i: int| 0 <= i < w.len() implies ascii_upper(w)[i] == w[i] by {
            assert('A' <= w[i] <= 'Z');
        }
    }
}

/// Whether bytes are UTF-8 text of at least one character and no white
/// space: what a key or a value must be to travel as one word of text.
pub open spec fn text_word(b: Seq<u8>) -> bool {
    valid_utf8(b) && decode_utf8(b).len() > 0 && no_white_space(decode_utf8(b))
}

proof fn lemma_text_word(b: Seq<u8>)
    requires
        text_word(b),
    ensures
        lossy_bytes(b) == b,
        encode_utf8(decode_utf8(b)) == b,
        trim_chars(decode_utf8(b)) == decode_utf8(b),
        !is_white_space(decode_utf8(b)[0]),
        !is_white_space(decode_utf8(b)[decode_utf8(b).len() - 1]),
        forall|i: int| 0 <= i < decode_utf8(b).len() ==> #[trigger] decode_utf8(b)[i] != ' ',
{
    vstd::utf8::decode_utf8_encode_utf8(b);
    let t = decode_utf8(b);
    assert(!is_white_space(t[0]));
    assert(!is_white_space(t[t.len() - 1]));
    assert(skip_ws(t, 0) == 0);
    assert(back_ws(t, 0, t.len() as int) == t.len());
    assert(t.subrange(0, t.len() as int) =~= t);
    assert forall|i: int| 0 <= i < t.len() implies #[trigger] t[i] != ' ' by {
        assert(!is_white_space(t[i]));
    }
}

#[verifier::rlimit(60)]
proof fn lemma_text_put_roundtrip(key: Seq<u8>, value: Seq<u8>, ttl: Option<u64>)
    requires
        text_word(key),
        text_word(value),
    ensures
        ({
            let c = CommandView::Put { key, value, ttl };
            &&& parse_command_text_spec(command_text_bytes(c)) == Ok::<CommandView, ProtocolErrorView>(c)
            &&& parse_command_spec(command_text_bytes(c)) == Ok::<CommandView, ProtocolErrorView>(c)
            &&& parse_command_spec(command_text_bytes(c).drop_last()) == Ok::<CommandView, ProtocolErrorView>(c)
            &&& valid_utf8(command_text_bytes(c).drop_last())
        }),
{
    let c = CommandView::Put { key, value, ttl };
    let sp1 = seq![' '];
    lemma_encode_ascii_char(' ');
    let w = seq!['P', 'U', 'T'];
    lemma_text_word(key);
    lemma_text_word(value);
    let k = decode_utf8(key);
    let v = decode_utf8(value);
    let tail: Seq<char> = match ttl {
        Some(t) => sp1 + decimal_chars(t as nat),
        None => Seq::empty(),
    };
    let args = k + sp1 + v + tail;
    lemma_encode_utf8_concat(w, sp1);
    lemma_encode_utf8_concat(w + sp1, k);
    lemma_encode_utf8_concat(w + sp1 + k, sp1);
    lemma_encode_utf8_concat(w + sp1 + k + sp1, v);
    lemma_encode_utf8_concat(w + sp1 + k + sp1 + v, tail);
    assert(w + sp1 =~= seq!['P', 'U', 'T', ' ']);
    assert(w + sp1 + args =~= w + sp1 + k + sp1 + v + tail);
    match ttl {
        Some(t) => {
            lemma_decimal_chars(t as nat);
            lemma_decimal_parse(t);
            lemma_encode_utf8_concat(sp1, decimal_chars(t as nat));
            assert(encode_utf8(tail) == seq![32u8] + decimal_bytes(t as nat));
            assert(args[args.len() - 1] == tail[tail.len() - 1]);
        },
        None => {
            assert(encode_utf8(tail) =~= Seq::<u8>::empty());
            assert(args =~= k + sp1 + v);
            assert(args[args.len() - 1] == v[v.len() - 1]);
        },
    }
    assert(command_text_bytes(c) =~= encode_utf8(w + sp1 + args) + seq![13u8, 10u8]);
    assert(command_text_bytes(c).drop_last() =~= encode_utf8(w + sp1 + args) + seq![13u8]);
    assert(args[0] == k[0]);
    lemma_command_line(w, args);
    assert(args[k.len() as int] == ' ');
    assert forall|j: int| 0 <= j < k.len() implies args[j] != ' ' by {
        assert(args[j] == k[j]);
    }
    lemma_find_char_at(args, ' ', k.len() as int);
    assert(args.subrange(0, k.len() as int) =~= k);
    let rest = args.subrange(k.len() as int + 1, args.len() as int);
    assert(rest =~= v + tail);
    assert forall|j: int| 0 <= j < v.len() implies rest[j] != ' ' by {
        assert(rest[j] == v[j]);
    }
    match ttl {
        Some(t) => {
            assert(rest[v.len() as int] == ' ');
            lemma_find_char_at(rest, ' ', v.len() as int);
            assert(rest.subrange(v.len() as int + 1, rest.len() as int) =~= decimal_chars(t as nat));
        },
        None => {
            lemma_find_char_at(rest, ' ', v.len() as int);
        },
    }
    assert(rest.subrange(0, v.len() as int) =~= v);
    assert(!(seq!['P', 'U', 'T'] =~= seq!['P', 'I', 'N', 'G']));
}

#[verifier::rlimit(60)]
proof fn lemma_text_expire_roundtrip(key: Seq<u8>, ttl: u64)
    requires
        text_word(key),
    ensures
        ({
            let c = CommandView::Expire { key, ttl };
            &&& parse_command_text_spec(command_text_bytes(c)) == Ok::<CommandView, ProtocolErrorView>(c)
            &&& parse_command_spec(command_text_bytes(c)) == Ok::<CommandView, ProtocolErrorView>(c)
            &&& parse_command_spec(command_text_bytes(c).drop_last()) == Ok::<CommandView, ProtocolErrorView>(c)
            &&& valid_utf8(command_text_bytes(c).drop_last())
        }),
{
    let c = CommandView::Expire { key, ttl };
    let sp1 = seq![' '];
    lemma_encode_ascii_char(' ');
    let w = seq!['E', 'X', 'P', 'I', 'R', 'E'];
    lemma_text_word(key);
    let k = decode_utf8(key);
    lemma_decimal_chars(ttl as nat);
    lemma_decimal_parse(ttl);
    let dc = decimal_chars(ttl as nat);
    let args = k + sp1 + dc;
    lemma_encode_utf8_concat(w, sp1);
    lemma_encode_utf8_concat(w + sp1, k);
    lemma_encode_utf8_concat(w + sp1 + k, sp1);
    lemma_encode_utf8_concat(w + sp1 + k + sp1, dc);
    assert(w + sp1 =~= seq!['E', 'X', 'P', 'I', 'R', 'E', ' ']);
    assert(w + sp1 + args =~= w + sp1 + k + sp1 + dc);
    assert(command_text_bytes(c) =~= encode_utf8(w + sp1 + args) + seq![13u8, 10u8]);
    assert(command_text_bytes(c).drop_last() =~= encode_utf8(w + sp1 + args) + seq![13u8]);
    assert(args[0] == k[0]);
    assert(args[args.len() - 1] == dc[dc.len() - 1]);
    lemma_command_line(w, args);
    assert(args[k.len() as int] == ' ');
    assert forall|j: int| 0 <= j < k.len() implies args[j] != ' ' by {
        assert(args[j] == k[j]);
    }
    lemma_find_char_at(args, ' ', k.len() as int);
    assert(args.subrange(0, k.len() as int) =~= k);
    assert(args.subrange(k.len() as int + 1, args.len() as int) =~= dc);
    assert(!(seq!['E', 'X', 'P', 'I', 'R', 'E'] =~= seq!['P', 'I', 'N', 'G']));
    assert(w != seq!['P', 'U', 'T']);
    assert(w != seq!['G', 'E', 'T']);
    assert(w != seq!['D', 'E', 'L']);
}

#[verifier::rlimit(40)]
proof fn lemma_text_get_roundtrip(key: Seq<u8>)
    requires
        text_word(key),
    ensures
        parse_command_text_spec(command_text_bytes(CommandView::Get { key }))
            == Ok::<CommandView, ProtocolErrorView>(CommandView::Get { key }),
        parse_command_spec(command_text_bytes(CommandView::Get { key }))
            == Ok::<CommandView, ProtocolErrorView>(CommandView::Get { key }),
        parse_command_spec(command_text_bytes(CommandView::Get { key }).drop_last())
            == Ok::<CommandView, ProtocolErrorView>(CommandView::Get { key }),
        valid_utf8(command_text_bytes(CommandView::Get { key }).drop_last()),
{
    let c = CommandView::Get { key };
    let sp1 = seq![' '];
    lemma_encode_ascii_char(' ');
    let w = seq!['G', 'E', 'T'];
    lemma_text_word(key);
    let k = decode_utf8(key);
    lemma_encode_utf8_concat(w, sp1);
    lemma_encode_utf8_concat(w + sp1, k);
    assert(w + sp1 =~= seq!['G', 'E', 'T', ' ']);
    assert(text_command_from(w, k) == Ok::<CommandView, ProtocolErrorView>(c)) by {
        assert(encode_utf8(trim_chars(k)) == key);
    }
    lemma_command_line(w, k);
    assert(command_text_bytes(c) =~= encode_utf8(w + sp1 + k) + seq![13u8, 10u8]);
    assert(command_text_bytes(c).drop_last() =~= encode_utf8(w + sp1 + k) + seq![13u8]);
}

#[verifier::rlimit(40)]
proof fn lemma_text_del_roundtrip(key: Seq<u8>)
    requires
        text_word(key),
    ensures
        parse_command_text_spec(command_text_bytes(CommandView::Del { key }))
            == Ok::<CommandView, ProtocolErrorView>(CommandView::Del { key }),
        parse_command_spec(command_text_bytes(CommandView::Del { key }))
            == Ok::<CommandView, ProtocolErrorView>(CommandView::Del { key }),
        parse_command_spec(command_text_bytes(CommandView::Del { key }).drop_last())
            == Ok::<CommandView, ProtocolErrorView>(CommandView::Del { key }),
        valid_utf8(command_text_bytes(CommandView::Del { key }).drop_last()),
{
    let c = CommandView::Del { key };
    let sp1 = seq![' '];
    lemma_encode_ascii_char(' ');
    let w = seq!['D', 'E', 'L'];
    lemma_text_word(key);
    let k = decode_utf8(key);
    lemma_encode_utf8_concat(w, sp1);
    lemma_encode_utf8_concat(w + sp1, k);
    assert(w + sp1 =~= seq!['D', 'E', 'L', ' ']);
    assert(text_command_from(w, k) == Ok::<CommandView, ProtocolErrorView>(c)) by {
        assert(encode_utf8(trim_chars(k)) == key);
    }
    lemma_command_line(w, k);
    assert(command_text_bytes(c) =~= encode_utf8(w + sp1 + k) + seq![13u8, 10u8]);
    assert(command_text_bytes(c).drop_last() =~= encode_utf8(w + sp1 + k) + seq![13u8]);
}

/// A command written as text and read back as text is the command again,
/// where each key and value is one word of text; METRICS and every other
/// command come back as themselves, a PUT's TTL included.
pub proof fn lemma_text_command_roundtrip(c: CommandView)
    requires
        c matches CommandView::Put { key, value, .. } ==> text_word(key) && text_word(value),
        c matches CommandView::Get { key } ==> text_word(key),
        c matches CommandView::Del { key } ==> text_word(key),
        c matches CommandView::Expire { key, .. } ==> text_word(key),
    ensures
        parse_command_text_spec(command_text_bytes(c)) == Ok::<CommandView, ProtocolErrorView>(c),
        parse_command_spec(command_text_bytes(c)) == Ok::<CommandView, ProtocolErrorView>(c),
        parse_command_spec(command_text_bytes(c).drop_last()) == Ok::<CommandView, ProtocolErrorView>(c),
        valid_utf8(command_text_bytes(c).drop_last()),
{
    match c {
        CommandView::Ping => {
            let w = seq!['P', 'I', 'N', 'G'];
            lemma_bare_command_line(w);
            assert(command_text_bytes(c).drop_last() =~= encode_utf8(w) + seq![13u8]);
        },
        CommandView::Stats => {
            let w = seq!['S', 'T', 'A', 'T', 'S'];
            lemma_bare_command_line(w);
            assert(command_text_bytes(c).drop_last() =~= encode_utf8(w) + seq![13u8]);
        },
        CommandView::Metrics => {
            let w = seq!['M', 'E', 'T', 'R', 'I', 'C', 'S'];
            lemma_bare_command_line(w);
            assert(command_text_bytes(c).drop_last() =~= encode_utf8(w) + seq![13u8]);
        },
        CommandView::Get { key } => lemma_text_get_roundtrip(key),
        CommandView::Del { key } => lemma_text_del_roundtrip(key),
        CommandView::Expire { key, ttl } => lemma_text_expire_roundtrip(key, ttl),
        CommandView::Put { key, value, ttl } => lemma_text_put_roundtrip(key, value, ttl),
    }
}

} // verus!
