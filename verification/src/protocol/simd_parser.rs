//! A batch parser for newline-separated text commands, with the fast paths
//! that a vectorised scan takes when the CPU offers one. The scans are
//! written here as plain loops with the same outcome.

use vstd::prelude::*;
use vstd::slice::slice_to_vec;
use vstd::string::StrSliceExecFns;
use vstd::utf8::{decode_utf8, encode_utf8, valid_utf8};
use crate::protocol::commands::{Command, CommandView};
use crate::protocol::serializer::{CMD_DEL, CMD_GET};
use crate::protocol::text::{
    char_range_bytes, chars_of, skip_non_ws, skip_non_ws_in, skip_ws, skip_ws_in, str_eq,
    str_to_uppercase, string_from_utf8, text_upper, ascii_upper, is_white_space,
};
use crate::protocol::text_parser::no_white_space;
use crate::protocol::wire::{copy_range, find_byte, find_byte_from, lemma_find_byte};

verus! {

/// Why a line is not a command.
#[derive(Debug, Clone, PartialEq, Eq)]
pub enum SimdParseError {
    /// The line is empty or blank.
    EmptyCommand,
    /// The line is not valid UTF-8.
    InvalidUtf8,
    /// GET or DEL (the byte is the command type) without a key.
    MissingKey(u8),
    /// PUT without a space after the key.
    MissingValue,
    /// PUT with an empty key or nothing after the space.
    InvalidPutFormat,
    /// The first word names no command; the word as written.
    UnknownCommand(String),
}

/// A parse error as plain values.
pub enum SimdParseErrorView {
    EmptyCommand,
    InvalidUtf8,
    MissingKey(u8),
    MissingValue,
    InvalidPutFormat,
    UnknownCommand(Seq<char>),
}

impl View for SimdParseError {
    type V = SimdParseErrorView;

    open spec fn view(&self) -> SimdParseErrorView {
        match self {
            SimdParseError::EmptyCommand => SimdParseErrorView::EmptyCommand,
            SimdParseError::InvalidUtf8 => SimdParseErrorView::InvalidUtf8,
            SimdParseError::MissingKey(t) => SimdParseErrorView::MissingKey(*t),
            SimdParseError::MissingValue => SimdParseErrorView::MissingValue,
            SimdParseError::InvalidPutFormat => SimdParseErrorView::InvalidPutFormat,
            SimdParseError::UnknownCommand(w) => SimdParseErrorView::UnknownCommand(w@),
        }
    }
}

/// Whether an outcome is the one the spec names.
pub open spec fn simd_outcome_is(
    res: Result<Command, SimdParseError>,
    spec: Result<CommandView, SimdParseErrorView>,
) -> bool {
    match (res, spec) {
        (Ok(c), Ok(sc)) => c@ == sc,
        (Err(e), Err(se)) => e@ == se,
        _ => false,
    }
}

/// The command that a line gives when read word by word: the words are the
/// runs of non-white-space characters; the first, upper-cased, names the
/// command and the next ones are its key and value.
pub open spec fn scalar_command_spec(b: Seq<u8>) -> Result<CommandView, SimdParseErrorView> {
    if !valid_utf8(b) {
        Err(SimdParseErrorView::InvalidUtf8)
    } else {
        let s = decode_utf8(b);
        let a0 = skip_ws(s, 0);
        let e0 = skip_non_ws(s, a0);
        let a1 = skip_ws(s, e0);
        let e1 = skip_non_ws(s, a1);
        let a2 = skip_ws(s, e1);
        let e2 = skip_non_ws(s, a2);
        let w0 = s.subrange(a0, e0);
        let up = text_upper(w0);
        if a0 == s.len() {
            Err(SimdParseErrorView::EmptyCommand)
        } else if up == seq!['P', 'I', 'N', 'G'] {
            Ok(CommandView::Ping)
        } else if up == seq!['G', 'E', 'T'] && a1 < s.len() {
            Ok(CommandView::Get { key: encode_utf8(s.subrange(a1, e1)) })
        } else if up == seq!['P', 'U', 'T'] && a2 < s.len() {
            Ok(
                CommandView::Put {
                    key: encode_utf8(s.subrange(a1, e1)),
                    value: encode_utf8(s.subrange(a2, e2)),
                    ttl: None,
                },
            )
        } else if up == seq!['D', 'E', 'L'] && a1 < s.len() {
            Ok(CommandView::Del { key: encode_utf8(s.subrange(a1, e1)) })
        } else if up == seq!['S', 'T', 'A', 'T', 'S'] {
            Ok(CommandView::Stats)
        } else if up == seq!['M', 'E', 'T', 'R', 'I', 'C', 'S'] {
            Ok(CommandView::Metrics)
        } else {
            Err(SimdParseErrorView::UnknownCommand(w0))
        }
    }
}

/// GET or DEL arguments: the key runs up to the first space.
pub open spec fn key_command_spec(t: u8, args: Seq<u8>) -> Result<CommandView, SimdParseErrorView> {
    let k = find_byte(args, 32u8, 0);
    if k == 0 {
        Err(SimdParseErrorView::MissingKey(t))
    } else if t == CMD_GET {
        Ok(CommandView::Get { key: args.subrange(0, k) })
    } else {
        Ok(CommandView::Del { key: args.subrange(0, k) })
    }
}

/// PUT arguments: the key runs up to the first space and the value is all
/// that follows it.
pub open spec fn put_command_spec(args: Seq<u8>) -> Result<CommandView, SimdParseErrorView> {
    let k = find_byte(args, 32u8, 0);
    if k == args.len() {
        Err(SimdParseErrorView::MissingValue)
    } else if k == 0 || k + 1 >= args.len() {
        Err(SimdParseErrorView::InvalidPutFormat)
    } else {
        Ok(
            CommandView::Put {
                key: args.subrange(0, k),
                value: args.subrange(k + 1, args.len() as int),
                ttl: None,
            },
        )
    }
}

/// Whether `b` starts with the four bytes of `w`.
pub open spec fn has_word(b: Seq<u8>, w: Seq<u8>) -> bool {
    b.len() >= 4 && b.subrange(0, 4) == w
}

/// The fast path of a line of at least four bytes: the vector compare that
/// stands for PING, then the "GET ", "PUT " and "DEL " prefixes, then the
/// word-by-word reading. The vector compare matches the bytes 12 to 15 of
/// the line against zero, so it can only succeed on a line of 16 bytes or
/// more.
pub open spec fn fast_path_spec(b: Seq<u8>) -> Result<CommandView, SimdParseErrorView> {
    if b.len() >= 16 && b[12] == 0 && b[13] == 0 && b[14] == 0 && b[15] == 0 {
        Ok(CommandView::Ping)
    } else if has_word(b, seq![71u8, 69u8, 84u8, 32u8]) {
        key_command_spec(CMD_GET, b.subrange(4, b.len() as int))
    } else if has_word(b, seq![80u8, 85u8, 84u8, 32u8]) {
        put_command_spec(b.subrange(4, b.len() as int))
    } else if has_word(b, seq![68u8, 69u8, 76u8, 32u8]) {
        key_command_spec(CMD_DEL, b.subrange(4, b.len() as int))
    } else {
        scalar_command_spec(b)
    }
}

/// The command of a line on the vectorised path.
pub open spec fn simd_command_spec(simd: bool, b: Seq<u8>) -> Result<CommandView, SimdParseErrorView> {
    if b.len() == 0 {
        Err(SimdParseErrorView::EmptyCommand)
    } else if simd && b.len() >= 4 {
        fast_path_spec(b)
    } else {
        scalar_command_spec(b)
    }
}

/// The commands of the lines from `o` on, each ended by a newline, read word
/// by word; lines that are no command are left out, and so is a last line
/// without a newline.
pub open spec fn scalar_batch_spec(data: Seq<u8>, o: int) -> Seq<CommandView>
    decreases data.len() - o,
{
    if o < 0 || o >= data.len() {
        Seq::empty()
    } else {
        let n = find_byte(data, 10u8, o);
        proof {
            lemma_find_byte(data, 10u8, o);
        }
        if n >= data.len() {
            Seq::empty()
        } else {
            let rest = scalar_batch_spec(data, n + 1);
            match scalar_command_spec(data.subrange(o, n)) {
                Ok(c) => seq![c] + rest,
                Err(_) => rest,
            }
        }
    }
}

/// A parser for batches of text commands, one per line.
pub struct SIMDParser {
    simd_available: bool,
    aligned_buffer: Vec<u8>,
}

impl SIMDParser {
    /// Whether the vectorised path is taken.
    pub closed spec fn simd(&self) -> bool {
        self.simd_available
    }

    /// A parser without the vectorised path. Which CPU features are there is
    /// for the caller to find out; see `with_simd`.
    pub fn new() -> (p: Self)
        ensures
            !p.simd(),
    {
        Self::with_simd(false)
    }

    /// A parser that takes the vectorised path where `simd_available`.
    pub fn with_simd(simd_available: bool) -> (p: Self)
        ensures
            p.simd() == simd_available,
    {
        SIMDParser { simd_available, aligned_buffer: Vec::new() }
    }

    /// Whether the vectorised path is taken.
    pub fn is_simd_available(&self) -> (b: bool)
        ensures
            b == self.simd(),
    {
        self.simd_available
    }

    /// Reads a line word by word.
    pub fn parse_single_command_scalar(&self, data: &[u8]) -> (res: Result<Command, SimdParseError>)
        ensures
            simd_outcome_is(res, scalar_command_spec(data@)),
    {
        proof {
            reveal_strlit("PING");
            reveal_strlit("GET");
            reveal_strlit("PUT");
            reveal_strlit("DEL");
            reveal_strlit("STATS");
            reveal_strlit("METRICS");
            assert("PING"@ =~= seq!['P', 'I', 'N', 'G']);
            assert("GET"@ =~= seq!['G', 'E', 'T']);
            assert("PUT"@ =~= seq!['P', 'U', 'T']);
            assert("DEL"@ =~= seq!['D', 'E', 'L']);
            assert("STATS"@ =~= seq!['S', 'T', 'A', 'T', 'S']);
            assert("METRICS"@ =~= seq!['M', 'E', 'T', 'R', 'I', 'C', 'S']);
        }
        let text = match string_from_utf8(slice_to_vec(data)) {
            Some(t) => t,
            None => return Err(SimdParseError::InvalidUtf8),
        };
        let s = text.as_str();
        let cs = chars_of(s);
        let n = cs.len();
        let a0 = skip_ws_in(&cs, 0);
        if a0 == n {
            return Err(SimdParseError::EmptyCommand);
        }
        let e0 = skip_non_ws_in(&cs, a0);
        let a1 = skip_ws_in(&cs, e0);
        let e1 = skip_non_ws_in(&cs, a1);
        let a2 = skip_ws_in(&cs, e1);
        let e2 = skip_non_ws_in(&cs, a2);
        let w0 = s.substring_char(a0, e0);
        let upper = str_to_uppercase(w0);
        let up = upper.as_str();
        if str_eq(up, "PING") {
            Ok(Command::Ping)
        } else if str_eq(up, "GET") && a1 < n {
            Ok(Command::Get { key: char_range_bytes(s, a1, e1) })
        } else if str_eq(up, "PUT") && a2 < n {
            Ok(
                Command::Put {
                    key: char_range_bytes(s, a1, e1),
                    value: char_range_bytes(s, a2, e2),
                    ttl: None,
                },
            )
        } else if str_eq(up, "DEL") && a1 < n {
            Ok(Command::Del { key: char_range_bytes(s, a1, e1) })
        } else if str_eq(up, "STATS") {
            Ok(Command::Stats)
        } else if str_eq(up, "METRICS") {
            Ok(Command::Metrics)
        } else {
            Err(SimdParseError::UnknownCommand(w0.to_owned()))
        }
    }

    /// Reads the key of GET (`t` is `CMD_GET`) or DEL arguments.
    fn parse_key_command_simd(&self, t: u8, args: &[u8]) -> (res: Result<Command, SimdParseError>)
        requires
            t == CMD_GET || t == CMD_DEL,
        ensures
            simd_outcome_is(res, key_command_spec(t, args@)),
    {
        let key_end = find_byte_from(args, 32u8, 0);
        if key_end == 0 {
            return Err(SimdParseError::MissingKey(t));
        }
        let key = copy_range(args, 0, key_end);
        if t == CMD_GET {
            Ok(Command::Get { key })
        } else {
            Ok(Command::Del { key })
        }
    }

    /// Reads GET arguments: the key runs up to the first space.
    pub fn parse_get_command_simd(&self, args: &[u8]) -> (res: Result<Command, SimdParseError>)
        ensures
            simd_outcome_is(res, key_command_spec(CMD_GET, args@)),
    {
        self.parse_key_command_simd(CMD_GET, args)
    }

    /// Reads DEL arguments: the key runs up to the first space.
    pub fn parse_del_command_simd(&self, args: &[u8]) -> (res: Result<Command, SimdParseError>)
        ensures
            simd_outcome_is(res, key_command_spec(CMD_DEL, args@)),
    {
        self.parse_key_command_simd(CMD_DEL, args)
    }

    /// Reads PUT arguments: the key runs up to the first space, and the
    /// value is all that follows it.
    pub fn parse_put_command_simd(&self, args: &[u8]) -> (res: Result<Command, SimdParseError>)
        ensures
            simd_outcome_is(res, put_command_spec(args@)),
    {
        let k = find_byte_from(args, 32u8, 0);
        if k == args.len() {
            return Err(SimdParseError::MissingValue);
        }
        if k == 0 || k + 1 >= args.len() {
            return Err(SimdParseError::InvalidPutFormat);
        }
        let key = copy_range(args, 0, k);
        let value = copy_range(args, k + 1, args.len());
        Ok(Command::Put { key, value, ttl: None })
    }

    /// The fast path of a line of at least four bytes.
    pub fn parse_command_fast_path(&self, data: &[u8]) -> (res: Result<Command, SimdParseError>)
        requires
            data@.len() >= 4,
        ensures
            simd_outcome_is(res, fast_path_spec(data@)),
    {
        if data.len() >= 16 && data[12] == 0 && data[13] == 0 && data[14] == 0 && data[15] == 0 {
            return Ok(Command::Ping);
        }
        let ghost b = data@;
        assert(b.subrange(0, 4) =~= seq![b[0], b[1], b[2], b[3]]);
        if data[0] == 71 && data[1] == 69 && data[2] == 84 && data[3] == 32 {
            return self.parse_get_command_simd(vstd::slice::slice_subrange(data, 4, data.len()));
        }
        assert(!has_word(b, seq![71u8, 69u8, 84u8, 32u8]));
        if data[0] == 80 && data[1] == 85 && data[2] == 84 && data[3] == 32 {
            return self.parse_put_command_simd(vstd::slice::slice_subrange(data, 4, data.len()));
        }
        assert(!has_word(b, seq![80u8, 85u8, 84u8, 32u8]));
        if data[0] == 68 && data[1] == 69 && data[2] == 76 && data[3] == 32 {
            return self.parse_del_command_simd(vstd::slice::slice_subrange(data, 4, data.len()));
        }
        assert(!has_word(b, seq![68u8, 69u8, 76u8, 32u8]));
        self.parse_single_command_scalar(data)
    }

    /// Reads a line on the vectorised path.
    pub fn parse_single_command_simd(&self, data: &[u8]) -> (res: Result<Command, SimdParseError>)
        ensures
            simd_outcome_is(res, simd_command_spec(self.simd(), data@)),
    {
        if data.len() == 0 {
            return Err(SimdParseError::EmptyCommand);
        }
        if self.simd_available && data.len() >= 4 {
            return self.parse_command_fast_path(data);
        }
        self.parse_single_command_scalar(data)
    }

    /// Reads every newline-ended line word by word; lines that are no
    /// command are left out. It never fails.
    pub fn parse_batch_scalar(&self, data: &[u8]) -> (res: Result<Vec<Command>, SimdParseError>)
        ensures
            res matches Ok(v) && v@.map_values(|c: Command| c@) == scalar_batch_spec(data@, 0),
    {
        let mut commands: Vec<Command> = Vec::new();
        let mut offset: usize = 0;
        while offset < data.len()
            invariant
                offset <= data@.len(),
                commands@.map_values(|c: Command| c@) + scalar_batch_spec(data@, offset as int)
                    == scalar_batch_spec(data@, 0),
            ensures
                scalar_batch_spec(data@, offset as int) == Seq::<CommandView>::empty(),
            decreases data@.len() - offset,
        {
            let n = find_byte_from(data, 10u8, offset);
            if n >= data.len() {
                break;
            }
            let line = vstd::slice::slice_subrange(data, offset, n);
            let ghost before = commands@.map_values(|c: Command| c@);
            match self.parse_single_command_scalar(line) {
                Ok(c) => {
                    commands.push(c);
                    assert(commands@.map_values(|c: Command| c@) =~= before.push(c@));
                },
                Err(_) => {},
            }
            offset = n + 1;
        }
        assert(commands@.map_values(|c: Command| c@) + scalar_batch_spec(data@, offset as int)
            =~= commands@.map_values(|c: Command| c@));
        Ok(commands)
    }

    /// The vectorised batch reading: the vector scan only finds the
    /// newlines sooner, so the commands are those `parse_batch_scalar`
    /// gives. It never fails.
    pub fn parse_batch_avx2(&self, data: &[u8]) -> (res: Result<Vec<Command>, SimdParseError>)
        ensures
            res matches Ok(v) && v@.map_values(|c: Command| c@) == scalar_batch_spec(data@, 0),
    {
        self.parse_batch_scalar(data)
    }

    /// Reads a batch of newline-ended lines: on the vectorised path where
    /// it is available and there are at least 32 bytes, else word by word;
    /// either way every line is read word by word, lines that are no
    /// command are left out. It never fails.
    pub fn parse_batch_simd(&mut self, data: &[u8]) -> (res: Result<Vec<Command>, SimdParseError>)
        ensures
            res matches Ok(v) && v@.map_values(|c: Command| c@) == scalar_batch_spec(data@, 0),
            final(self).simd() == old(self).simd(),
    {
        if !self.simd_available || data.len() < 32 {
            return self.parse_batch_scalar(data);
        }
        self.parse_batch_avx2(data)
    }
}

impl Default for SIMDParser {
    fn default() -> (p: Self)
        ensures
            !p.simd(),
    {
        Self::new()
    }
}

proof fn lemma_find_space_at(s: Seq<u8>, k: int)
    requires
        0 <= k <= s.len(),
        k < s.len() ==> s[k] == 32u8,
        forall|j: int| 0 <= j < k ==> s[j] != 32u8,
    ensures
        find_byte(s, 32u8, 0) == k,
{
    lemma_find_byte(s, 32u8, 0);
    let f = find_byte(s, 32u8, 0);
    if f < k {
        assert(s[f] == 32u8);
    } else if f > k {
        assert(s[k] != 32u8);
    }
}

/// On the fast path, the arguments `key value` of a PUT, with a key of at
/// least one byte and no space and a value of at least one byte, give a
/// PUT of that key and of everything after the space that ends the key.
pub proof fn lemma_fast_put_arguments(k: Seq<u8>, v: Seq<u8>)
    requires
        k.len() > 0,
        v.len() > 0,
        forall|i: int| 0 <= i < k.len() ==> k[i] != 32u8,
    ensures
        put_command_spec(k + seq![32u8] + v)
            == Ok::<CommandView, SimdParseErrorView>(CommandView::Put { key: k, value: v, ttl: None }),
{
    let a = k + seq![32u8] + v;
    assert(a[k.len() as int] == 32u8);
    assert forall|j: int| 0 <= j < k.len() implies a[j] != 32u8 by {
        assert(a[j] == k[j]);
    }
    lemma_find_space_at(a, k.len() as int);
    assert(a.subrange(0, k.len() as int) =~= k);
    assert(a.subrange(k.len() as int + 1, a.len() as int) =~= v);
}

/// On the fast path, the argument of a GET or a DEL up to the first space
/// is the key.
pub proof fn lemma_fast_key_arguments(k: Seq<u8>, rest: Seq<u8>)
    requires
        k.len() > 0,
        forall|i: int| 0 <= i < k.len() ==> k[i] != 32u8,
    ensures
        key_command_spec(CMD_GET, k + seq![32u8] + rest)
            == Ok::<CommandView, SimdParseErrorView>(CommandView::Get { key: k }),
        key_command_spec(CMD_DEL, k)
            == Ok::<CommandView, SimdParseErrorView>(CommandView::Del { key: k }),
{
    let a = k + seq![32u8] + rest;
    assert(a[k.len() as int] == 32u8);
    assert forall|j: int| 0 <= j < k.len() implies a[j] != 32u8 by {
        assert(a[j] == k[j]);
    }
    lemma_find_space_at(a, k.len() as int);
    assert(a.subrange(0, k.len() as int) =~= k);
    lemma_find_space_at(k, k.len() as int);
    assert(k.subrange(0, k.len() as int) =~= k);
}

proof fn lemma_skip_non_ws_to(s: Seq<char>, i: int, j: int)
    requires
        0 <= i <= j <= s.len(),
        forall|k: int| i <= k < j ==> !is_white_space(#[trigger] s[k]),
        j < s.len() ==> is_white_space(s[j]),
    ensures
        skip_non_ws(s, i) == j,
    decreases j - i,
{
    if i < j {
        lemma_skip_non_ws_to(s, i + 1, j);
    }
}

proof fn lemma_skip_ws_to(s: Seq<char>, i: int, j: int)
    requires
        0 <= i <= j <= s.len(),
        forall|k: int| i <= k < j ==> is_white_space(#[trigger] s[k]),
        j < s.len() ==> !is_white_space(s[j]),
    ensures
        skip_ws(s, i) == j,
    decreases j - i,
{
    if i < j {
        lemma_skip_ws_to(s, i + 1, j);
    }
}

/// Read word by word, a line of an upper-case command word, a space, a
/// word `k`, a space and a word `v` has `k` and `v` as its key and value.
proof fn lemma_words_line(w: Seq<char>, k: Seq<char>, v: Seq<char>)
    requires
        w.len() > 0,
        forall|i: int| 0 <= i < w.len() ==> 'A' <= #[trigger] w[i] <= 'Z',
        k.len() > 0,
        no_white_space(k),
        no_white_space(v),
    ensures
        ({
            let s = w + seq![' '] + k + seq![' '] + v;
            let a0 = skip_ws(s, 0);
            let e0 = skip_non_ws(s, a0);
            let a1 = skip_ws(s, e0);
            let e1 = skip_non_ws(s, a1);
            let a2 = skip_ws(s, e1);
            let e2 = skip_non_ws(s, a2);
            &&& a0 == 0 && a0 < s.len()
            &&& text_upper(s.subrange(a0, e0)) == w && s.subrange(a0, e0) == w
            &&& a1 < s.len() && s.subrange(a1, e1) == k
            &&& (v.len() > 0 ==> a2 < s.len()) && s.subrange(a2, e2) == v
        }),
{
    let s = w + seq![' '] + k + seq![' '] + v;
    let wl = w.len() as int;
    let kl = k.len() as int;
    assert(!is_white_space(s[0])) by { assert('A' <= w[0] <= 'Z'); }
    lemma_skip_ws_to(s, 0, 0);
    assert forall|x: int| 0 <= x < wl implies !is_white_space(#[trigger] s[x]) by {
        assert(s[x] == w[x]);
        assert('A' <= w[x] <= 'Z');
    }
    assert(is_white_space(s[wl]));
    lemma_skip_non_ws_to(s, 0, wl);
    assert(!is_white_space(s[wl + 1])) by { assert(s[wl + 1] == k[0]); }
    lemma_skip_ws_to(s, wl, wl + 1);
    assert forall|x: int| wl + 1 <= x < wl + 1 + kl implies !is_white_space(#[trigger] s[x]) by {
        assert(s[x] == k[x - wl - 1]);
    }
    assert(is_white_space(s[wl + 1 + kl]));
    lemma_skip_non_ws_to(s, wl + 1, wl + 1 + kl);
    if v.len() > 0 {
        assert(!is_white_space(s[wl + 2 + kl])) by { assert(s[wl + 2 + kl] == v[0]); }
    }
    lemma_skip_ws_to(s, wl + 1 + kl, wl + 2 + kl);
    assert forall|x: int| wl + 2 + kl <= x < s.len() implies !is_white_space(#[trigger] s[x]) by {
        assert(s[x] == v[x - wl - 2 - kl]);
    }
    lemma_skip_non_ws_to(s, wl + 2 + kl, s.len() as int);
    assert(s.subrange(0, wl) =~= w);
    assert(s.subrange(wl + 1, wl + 1 + kl) =~= k);
    assert(s.subrange(wl + 2 + kl, s.len() as int) =~= v);
    assert(vstd::utf8::is_ascii_chars(w)) by {
        assert forall|i: int| 0 <= i < w.len() implies '\0' <= #[trigger] w[i] <= '\u{7f}' by {
            assert('A' <= w[i] <= 'Z');
        }
    }
    assert(ascii_upper(w) =~= w) by {
        assert forall|i: int| 0 <= i < w.len() implies ascii_upper(w)[i] == w[i] by {
            assert('A' <= w[i] <= 'Z');
        }
    }
}

/// Read word by word, `PUT k v` is a PUT of `k` and `v`, and `GET k` and
/// `DEL k` a GET and a DEL of `k`, for words `k` and `v` of text.
pub proof fn lemma_scalar_command_words(k: Seq<char>, v: Seq<char>)
    requires
        k.len() > 0,
        v.len() > 0,
        no_white_space(k),
        no_white_space(v),
    ensures
        scalar_command_spec(encode_utf8(seq!['P', 'U', 'T', ' '] + k + seq![' '] + v))
            == Ok::<CommandView, SimdParseErrorView>(
            CommandView::Put { key: encode_utf8(k), value: encode_utf8(v), ttl: None },
        ),
        scalar_command_spec(encode_utf8(seq!['G', 'E', 'T', ' '] + k + seq![' '] + v))
            == Ok::<CommandView, SimdParseErrorView>(CommandView::Get { key: encode_utf8(k) }),
        scalar_command_spec(encode_utf8(seq!['D', 'E', 'L', ' '] + k + seq![' '] + v))
            == Ok::<CommandView, SimdParseErrorView>(CommandView::Del { key: encode_utf8(k) }),
{
    let sp = seq![' '];
    let wp = seq!['P', 'U', 'T'];
    let wg = seq!['G', 'E', 'T'];
    let wd = seq!['D', 'E', 'L'];
    assert(seq!['P', 'U', 'T', ' '] =~= wp + sp);
    assert(seq!['G', 'E', 'T', ' '] =~= wg + sp);
    assert(seq!['D', 'E', 'L', ' '] =~= wd + sp);
    let sp_ = wp + sp + k + sp + v;
    let sg = wg + sp + k + sp + v;
    let sd = wd + sp + k + sp + v;
    vstd::utf8::encode_utf8_valid_utf8(sp_);
    vstd::utf8::encode_utf8_decode_utf8(sp_);
    vstd::utf8::encode_utf8_valid_utf8(sg);
    vstd::utf8::encode_utf8_decode_utf8(sg);
    vstd::utf8::encode_utf8_valid_utf8(sd);
    vstd::utf8::encode_utf8_decode_utf8(sd);
    lemma_words_line(wp, k, v);
    lemma_words_line(wg, k, v);
    lemma_words_line(wd, k, v);
    assert(wp != seq!['P', 'I', 'N', 'G']);
    assert(wp != seq!['G', 'E', 'T']);
    assert(wg != seq!['P', 'I', 'N', 'G']);
    assert(wd != seq!['P', 'I', 'N', 'G']);
    assert(wd != seq!['G', 'E', 'T']);
    assert(wd != seq!['P', 'U', 'T']);
}

} // verus!
