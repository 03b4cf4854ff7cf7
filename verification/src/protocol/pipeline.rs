//! Batches of commands read from one buffer and batches of responses
//! written to one, in the binary or the text format.

use vstd::prelude::*;
use std::time::Instant;
use vstd::utf8::valid_utf8;
use crate::protocol::binary::{
    binary_command_parse, binary_command_readable, binary_response_bytes, u32_at, BinaryProtocol,
};
use crate::protocol::serializer::{CMD_DEL, CMD_EXPIRE, CMD_GET, CMD_PUT};
use crate::protocol::commands::{Command, CommandView, Response, ResponseView};
use crate::protocol::error::{ProtocolError, ProtocolErrorView};
use crate::protocol::parser::ProtocolParser;
use crate::protocol::serializer::ProtocolSerializer;
use crate::protocol::text::string_from_utf8;
use crate::protocol::text_parser::{
    command_outcome_is, lemma_text_command_roundtrip, no_white_space, parse_command_spec, text_word,
};
use crate::protocol::text_serializer::{command_text_bytes, decimal_bytes, word};
use crate::protocol::text_serializer::response_text_bytes;
use crate::clock::instant_now;
use crate::protocol::wire::{append_bytes, find_byte, find_byte_from, lemma_find_byte};

verus! {

/// Why a batch could not be read.
#[derive(Debug, Clone, PartialEq, Eq)]
pub enum PipelineError {
    /// There were no bytes.
    EmptyBatch,
    /// A text command has no newline after it.
    IncompleteCommand,
    /// A text command is not valid UTF-8.
    InvalidUtf8,
    /// A binary command could not be read.
    BinaryParse(ProtocolError),
    /// A text command could not be read.
    TextParse(ProtocolError),
    /// The batch held no command.
    NoValidCommands,
    /// The batch being built is full.
    BatchFull,
}

/// A batch error as plain values.
pub enum PipelineErrorView {
    EmptyBatch,
    IncompleteCommand,
    InvalidUtf8,
    BinaryParse(ProtocolErrorView),
    TextParse(ProtocolErrorView),
    NoValidCommands,
    BatchFull,
}

impl View for PipelineError {
    type V = PipelineErrorView;

    open spec fn view(&self) -> PipelineErrorView {
        match self {
            PipelineError::EmptyBatch => PipelineErrorView::EmptyBatch,
            PipelineError::IncompleteCommand => PipelineErrorView::IncompleteCommand,
            PipelineError::InvalidUtf8 => PipelineErrorView::InvalidUtf8,
            PipelineError::BinaryParse(e) => PipelineErrorView::BinaryParse(e@),
            PipelineError::TextParse(e) => PipelineErrorView::TextParse(e@),
            PipelineError::NoValidCommands => PipelineErrorView::NoValidCommands,
            PipelineError::BatchFull => PipelineErrorView::BatchFull,
        }
    }
}

/// The commands of a batch as plain values.
pub open spec fn commands_view(v: Seq<Command>) -> Seq<CommandView> {
    v.map_values(|c: Command| c@)
}

/// How many bytes a binary command is taken to use: its type byte, a four-
/// byte length before each key and value, and the eight bytes of an EXPIRE
/// TTL.
pub open spec fn binary_size_estimate(c: CommandView) -> int {
    match c {
        CommandView::Ping => 1,
        CommandView::Put { key, value, .. } => 9 + key.len() as int + value.len() as int,
        CommandView::Get { key } => 5 + key.len() as int,
        CommandView::Del { key } => 5 + key.len() as int,
        CommandView::Expire { key, .. } => 13 + key.len() as int,
        CommandView::Stats => 1,
        CommandView::Metrics => 1,
    }
}

/// One step of a batch: the command at the start of `rem` and how many bytes
/// it uses, or why there is none.
pub open spec fn batch_step(binary: bool, rem: Seq<u8>) -> Result<(CommandView, int), PipelineErrorView> {
    if binary {
        match binary_command_parse(rem) {
            Ok(c) => Ok((c, binary_size_estimate(c))),
            Err(e) => Err(PipelineErrorView::BinaryParse(e@)),
        }
    } else {
        let n = find_byte(rem, 10u8, 0);
        if n >= rem.len() {
            Err(PipelineErrorView::IncompleteCommand)
        } else if !valid_utf8(rem.subrange(0, n)) {
            Err(PipelineErrorView::InvalidUtf8)
        } else {
            match parse_command_spec(rem.subrange(0, n)) {
                Ok(c) => Ok((c, n + 1)),
                Err(e) => Err(PipelineErrorView::TextParse(e)),
            }
        }
    }
}

/// The commands of a batch from offset `o`, at most `room` more of them,
/// or the first error.
pub open spec fn batch_walk(binary: bool, data: Seq<u8>, o: int, room: int) -> Result<Seq<CommandView>, PipelineErrorView>
    decreases data.len() - o,
{
    if o < 0 || o >= data.len() || room <= 0 {
        Ok(Seq::empty())
    } else {
        match batch_step(binary, data.skip(o)) {
            Err(e) => Err(e),
            Ok((c, k)) => if k <= 0 {
                Ok(seq![c])
            } else {
                match batch_walk(binary, data, o + k, room - 1) {
                    Ok(rest) => Ok(seq![c] + rest),
                    Err(e) => Err(e),
                }
            },
        }
    }
}

/// The inputs on which every binary step of a batch reads inside the data
/// (see `binary_command_readable`).
pub open spec fn batch_readable(data: Seq<u8>, o: int, room: int) -> bool
    decreases data.len() - o,
{
    if o < 0 || o >= data.len() || room <= 0 {
        true
    } else {
        binary_command_readable(data.skip(o)) && match binary_command_parse(data.skip(o)) {
            Ok(c) => binary_size_estimate(c) <= 0 || batch_readable(
                data,
                o + binary_size_estimate(c),
                room - 1,
            ),
            Err(_) => true,
        }
    }
}

/// Whether a batch starting with this byte is in the binary format.
pub open spec fn is_binary_batch(data: Seq<u8>) -> bool {
    data.len() > 0 && 1 <= data[0] <= 6
}

/// Figures about the batches read.
#[derive(Debug, Clone, Copy, PartialEq, Eq)]
pub struct PipelineCounts {
    pub total_batches: u64,
    pub total_commands: u64,
    pub max_batch_size: usize,
    pub parse_errors: u64,
    pub processing_errors: u64,
}

/// A batch of commands read from one buffer.
#[derive(Debug)]
pub struct PipelineBatch {
    pub commands: Vec<Command>,
    pub batch_id: u64,
    pub timestamp: Instant,
    pub use_binary_protocol: bool,
}

/// A batch of responses to write to one buffer.
#[derive(Debug, Clone)]
pub struct PipelineResponseBatch {
    pub responses: Vec<Response>,
    pub batch_id: u64,
    pub use_binary_protocol: bool,
}

/// The bytes of responses one after the other, in the binary or the text
/// format.
pub open spec fn responses_bytes(binary: bool, rs: Seq<ResponseView>) -> Seq<u8>
    decreases rs.len(),
{
    if rs.len() == 0 {
        Seq::empty()
    } else {
        responses_bytes(binary, rs.drop_last()) + if binary {
            binary_response_bytes(rs.last())
        } else {
            response_text_bytes(rs.last())
        }
    }
}

/// The responses of a batch as plain values.
pub open spec fn responses_view(v: Seq<Response>) -> Seq<ResponseView> {
    v.map_values(|r: Response| r@)
}

/// Writes responses one after the other.
pub fn serialize_responses(binary: bool, responses: &[Response]) -> (b: Vec<u8>)
    ensures
        b@ == responses_bytes(binary, responses_view(responses@)),
{
    let mut buffer: Vec<u8> = Vec::new();
    let mut i: usize = 0;
    while i < responses.len()
        invariant
            i <= responses@.len(),
            buffer@ == responses_bytes(binary, responses_view(responses@.subrange(0, i as int))),
        decreases responses@.len() - i,
    {
        let ghost before = buffer@;
        if binary {
            let bytes = BinaryProtocol::serialize_response(&responses[i]);
            append_bytes(&mut buffer, bytes.as_slice());
        } else {
            let bytes = ProtocolSerializer::serialize_response(&responses[i]);
            match bytes {
                Ok(b) => append_bytes(&mut buffer, b.as_slice()),
                Err(_) => {},
            }
        }
        proof {
            let s = responses_view(responses@.subrange(0, i as int + 1));
            assert(s.drop_last() =~= responses_view(responses@.subrange(0, i as int)));
            assert(s.last() == responses@[i as int]@);
        }
        i = i + 1;
    }
    assert(responses@.subrange(0, i as int) =~= responses@);
    buffer
}

/// Reads batches of commands and writes batches of responses.
pub struct PipelineProcessor {
    max_batch_size: usize,
    counts: PipelineCounts,
}

impl PipelineProcessor {
    /// The most commands a batch holds.
    pub closed spec fn batch_limit(&self) -> usize {
        self.max_batch_size
    }

    /// The figures so far.
    pub closed spec fn stats(&self) -> PipelineCounts {
        self.counts
    }

    /// The processor's invariant: the batch limit is between 1 and 1000.
    pub closed spec fn wf(&self) -> bool {
        1 <= self.max_batch_size <= 1000
    }

    /// A processor that reads at most `max_batch_size` commands a batch,
    /// the limit kept between 1 and 1000.
    pub fn new(max_batch_size: usize) -> (p: Self)
        ensures
            p.wf(),
            p.batch_limit() == if max_batch_size < 1 {
                1
            } else if max_batch_size > 1000 {
                1000
            } else {
                max_batch_size
            },
            p.stats() == (PipelineCounts {
                total_batches: 0,
                total_commands: 0,
                max_batch_size: 0,
                parse_errors: 0,
                processing_errors: 0,
            }),
    {
        let m = if max_batch_size < 1 {
            1
        } else if max_batch_size > 1000 {
            1000
        } else {
            max_batch_size
        };
        PipelineProcessor {
            max_batch_size: m,
            counts: PipelineCounts {
                total_batches: 0,
                total_commands: 0,
                max_batch_size: 0,
                parse_errors: 0,
                processing_errors: 0,
            },
        }
    }

    /// The most commands a batch holds.
    pub fn max_batch_size(&self) -> (n: usize)
        ensures
            n == self.batch_limit(),
    {
        self.max_batch_size
    }

    /// Reads one binary command and the bytes it is taken to use.
    fn parse_binary_command(&self, data: &[u8]) -> (res: Result<(Command, usize), PipelineError>)
        requires
            binary_command_readable(data@),
            data@.len() > 0,
            data@.len() <= usize::MAX - 64,
        ensures
            match (res, batch_step(true, data@)) {
                (Ok((c, k)), Ok((sc, sk))) => c@ == sc && k == sk,
                (Err(e), Err(se)) => e@ == se,
                _ => false,
            },
    {
        match BinaryProtocol::parse_command(data) {
            Ok(command) => {
                let n = Self::estimate_binary_command_size(&command, data.len());
                Ok((command, n))
            },
            Err(e) => Err(PipelineError::BinaryParse(e)),
        }
    }

    /// Reads one newline-ended text command and the bytes it uses.
    fn parse_text_command(&self, data: &[u8]) -> (res: Result<(Command, usize), PipelineError>)
        ensures
            match (res, batch_step(false, data@)) {
                (Ok((c, k)), Ok((sc, sk))) => c@ == sc && k == sk,
                (Err(e), Err(se)) => e@ == se,
                _ => false,
            },
    {
        let n = find_byte_from(data, 10u8, 0);
        if n >= data.len() {
            return Err(PipelineError::IncompleteCommand);
        }
        let line = vstd::slice::slice_subrange(data, 0, n);
        if string_from_utf8(vstd::slice::slice_to_vec(line)).is_none() {
            return Err(PipelineError::InvalidUtf8);
        }
        let r = ProtocolParser::parse_command(line);
        assert(command_outcome_is(r, parse_command_spec(line@)));
        match r {
            Ok(command) => Ok((command, n + 1)),
            Err(e) => Err(PipelineError::TextParse(e)),
        }
    }

    /// How many bytes a binary command read from `data_len` bytes is taken to
    /// use.
    fn estimate_binary_command_size(command: &Command, data_len: usize) -> (n: usize)
        requires
            data_len <= usize::MAX - 64,
            match command@ {
                CommandView::Put { key, value, .. } => key.len() + value.len() <= data_len,
                CommandView::Get { key } => key.len() <= data_len,
                CommandView::Del { key } => key.len() <= data_len,
                CommandView::Expire { key, .. } => key.len() <= data_len,
                _ => true,
            },
        ensures
            n == binary_size_estimate(command@),
    {
        match command {
            Command::Ping => 1,
            Command::Put { key, value, .. } => 1 + 4 + key.len() + 4 + value.len(),
            Command::Get { key } => 1 + 4 + key.len(),
            Command::Del { key } => 1 + 4 + key.len(),
            Command::Expire { key, .. } => 1 + 4 + key.len() + 8,
            Command::Stats => 1,
            Command::Metrics => 1,
        }
    }

    /// Reads up to the batch limit of commands from a buffer: binary when
    /// the first byte is a binary command type (1 to 6), else newline-ended
    /// text. Any command that cannot be read fails the whole batch. A batch
    /// that was read counts in the figures.
    pub fn parse_batch(&mut self, data: &[u8]) -> (res: Result<PipelineBatch, PipelineError>)
        requires
            old(self).wf(),
            is_binary_batch(data@) ==> batch_readable(data@, 0, old(self).batch_limit() as int),
            data@.len() <= usize::MAX - 64,
        ensures
            data@.len() == 0 ==> res matches Err(PipelineError::EmptyBatch),
            data@.len() > 0 ==> match (res, batch_walk(is_binary_batch(data@), data@, 0, old(self).batch_limit() as int)) {
                (Ok(b), Ok(cs)) => commands_view(b.commands@) == cs && b.batch_id == old(self).stats().total_batches
                    && b.use_binary_protocol == is_binary_batch(data@),
                (Err(e), Err(se)) => e@ == se,
                _ => false,
            },
            final(self).batch_limit() == old(self).batch_limit(),
            final(self).wf(),
            res is Ok ==> final(self).stats() == (PipelineCounts {
                total_batches: old(self).stats().total_batches.wrapping_add(1),
                total_commands: old(self).stats().total_commands.wrapping_add(res->Ok_0.commands@.len() as u64),
                max_batch_size: if old(self).stats().max_batch_size >= res->Ok_0.commands@.len() {
                    old(self).stats().max_batch_size
                } else {
                    res->Ok_0.commands@.len() as usize
                },
                ..old(self).stats()
            }),
            res is Err ==> final(self).stats() == old(self).stats(),
    {
        if data.len() == 0 {
            return Err(PipelineError::EmptyBatch);
        }
        let use_binary_protocol = data[0] >= 0x01 && data[0] <= 0x06;
        let batch_id = self.counts.total_batches;
        let limit = self.max_batch_size;
        let mut commands: Vec<Command> = Vec::new();
        let mut offset: usize = 0;
        let ghost b = use_binary_protocol;
        while offset < data.len() && commands.len() < limit
            invariant
                b == use_binary_protocol,
                b == is_binary_batch(data@),
                b ==> batch_readable(data@, offset as int, limit - commands@.len()),
                1 <= limit <= 1000,
                commands@.len() <= limit,
                commands@.len() == 0 ==> offset == 0,
                data@.len() <= usize::MAX - 64,
                limit == self.max_batch_size,
                offset <= data@.len(),
                match batch_walk(b, data@, 0, limit as int) {
                    Ok(all) => match batch_walk(b, data@, offset as int, limit - commands@.len()) {
                        Ok(rest) => all == commands_view(commands@) + rest,
                        Err(_) => false,
                    },
                    Err(e) => batch_walk(b, data@, offset as int, limit - commands@.len())
                        == Err::<Seq<CommandView>, PipelineErrorView>(e),
                },
            decreases data@.len() - offset,
        {
            let remaining = vstd::slice::slice_subrange(data, offset, data.len());
            assert(remaining@ =~= data@.skip(offset as int));
            proof {
                lemma_find_byte(remaining@, 10u8, 0);
            }
            let step = if use_binary_protocol {
                self.parse_binary_command(remaining)
            } else {
                self.parse_text_command(remaining)
            };
            let (command, consumed) = match step {
                Ok(s) => s,
                Err(e) => {
                    return Err(e);
                },
            };
            assert(consumed >= 1);
            let ghost room = limit - commands@.len();
            let ghost o = offset as int;
            let ghost before = commands_view(commands@);
            commands.push(command);
            assert(commands_view(commands@) =~= before.push(command@));
            if consumed > data.len() - offset {
                offset = data.len();
                assert(batch_walk(b, data@, o + consumed, room - 1)
                    == Ok::<Seq<CommandView>, PipelineErrorView>(Seq::empty()));
            } else {
                offset = offset + consumed;
            }
            proof {
                match batch_walk(b, data@, 0, limit as int) {
                    Ok(all) => {
                        match batch_walk(b, data@, offset as int, room - 1) {
                            Ok(rest2) => {
                                assert(all == before + (seq![command@] + rest2));
                                assert(before + (seq![command@] + rest2) =~= commands_view(
                                    commands@,
                                ) + rest2);
                            },
                            Err(_) => {},
                        }
                    },
                    Err(e) => {},
                }
            }
        }
        assert(batch_walk(b, data@, offset as int, limit - commands@.len())
            == Ok::<Seq<CommandView>, PipelineErrorView>(Seq::empty()));
        assert(commands_view(commands@) + Seq::<CommandView>::empty() =~= commands_view(commands@));
        if commands.len() == 0 {
            self.counts.parse_errors = self.counts.parse_errors.wrapping_add(1);
            return Err(PipelineError::NoValidCommands);
        }
        self.counts.total_batches = self.counts.total_batches.wrapping_add(1);
        self.counts.total_commands = self.counts.total_commands.wrapping_add(commands.len() as u64);
        if self.counts.max_batch_size < commands.len() {
            self.counts.max_batch_size = commands.len();
        }
        Ok(PipelineBatch { commands, batch_id, timestamp: instant_now(), use_binary_protocol })
    }

    /// Writes a batch of responses one after the other, binary or text as
    /// the batch says; it never fails.
    pub fn serialize_response_batch(&self, batch: &PipelineResponseBatch) -> (res: Result<Vec<u8>, PipelineError>)
        ensures
            res matches Ok(b) && b@ == responses_bytes(batch.use_binary_protocol, responses_view(batch.responses@)),
    {
        Ok(serialize_responses(batch.use_binary_protocol, batch.responses.as_slice()))
    }

    /// The figures so far.
    pub fn get_stats(&self) -> (c: PipelineCounts)
        ensures
            c == self.stats(),
    {
        self.counts
    }

    /// Sets the figures back to zero.
    pub fn reset_stats(&mut self)
        ensures
            final(self).stats() == (PipelineCounts {
                total_batches: 0,
                total_commands: 0,
                max_batch_size: 0,
                parse_errors: 0,
                processing_errors: 0,
            }),
            final(self).batch_limit() == old(self).batch_limit(),
            final(self).wf() == old(self).wf(),
    {
        self.counts = PipelineCounts {
            total_batches: 0,
            total_commands: 0,
            max_batch_size: 0,
            parse_errors: 0,
            processing_errors: 0,
        };
    }
}

/// Collects commands into a batch of bounded size.
pub struct PipelineBuilder {
    commands: Vec<Command>,
    max_size: usize,
    use_binary: bool,
}

impl PipelineBuilder {
    /// The commands added so far.
    pub closed spec fn added(&self) -> Seq<CommandView> {
        commands_view(self.commands@)
    }

    /// The most commands the batch takes.
    pub closed spec fn limit(&self) -> usize {
        self.max_size
    }

    /// Whether the batch is to be written in the binary format.
    pub closed spec fn binary(&self) -> bool {
        self.use_binary
    }

    /// An empty builder for at most `max_size` commands.
    pub fn new(max_size: usize, use_binary: bool) -> (b: Self)
        ensures
            b.added() == Seq::<CommandView>::empty(),
            b.limit() == max_size,
            b.binary() == use_binary,
    {
        let b = PipelineBuilder { commands: Vec::new(), max_size, use_binary };
        assert(b.added() =~= Seq::<CommandView>::empty());
        b
    }

    /// Adds a command, unless the batch is full.
    pub fn add_command(&mut self, command: Command) -> (res: Result<(), PipelineError>)
        ensures
            old(self).added().len() >= old(self).limit() ==> (res matches Err(PipelineError::BatchFull) && final(self).added()
                == old(self).added()),
            old(self).added().len() < old(self).limit() ==> (res is Ok && final(self).added()
                == old(self).added().push(command@)),
            final(self).limit() == old(self).limit(),
            final(self).binary() == old(self).binary(),
    {
        if self.commands.len() >= self.max_size {
            return Err(PipelineError::BatchFull);
        }
        let ghost before = self.added();
        self.commands.push(command);
        assert(self.added() =~= before.push(command@));
        Ok(())
    }

    /// The batch of the commands added, numbered 0 and stamped now.
    pub fn build(self) -> (b: PipelineBatch)
        ensures
            commands_view(b.commands@) == self.added(),
            b.batch_id == 0,
            b.use_binary_protocol == self.binary(),
    {
        PipelineBatch {
            commands: self.commands,
            batch_id: 0,
            timestamp: instant_now(),
            use_binary_protocol: self.use_binary,
        }
    }

    /// Whether the batch is full.
    pub fn is_full(&self) -> (b: bool)
        ensures
            b == (self.added().len() >= self.limit()),
    {
        self.commands.len() >= self.max_size
    }

    /// How many commands were added.
    pub fn len(&self) -> (n: usize)
        ensures
            n == self.added().len(),
    {
        self.commands.len()
    }

    /// Whether no command was added.
    pub fn is_empty(&self) -> (b: bool)
        ensures
            b == (self.added().len() == 0),
    {
        self.commands.len() == 0
    }
}

/// A way of reading batches of commands and writing batches of responses.
pub trait PipelineProtocol {
    /// The inputs `parse_batch` accepts.
    spec fn accepts(&self, data: Seq<u8>) -> bool;

    /// Reads the commands of a buffer.
    fn parse_batch(&self, data: &[u8]) -> Result<Vec<Command>, PipelineError>
        requires
            self.accepts(data@),
    ;

    /// Writes responses one after the other.
    fn serialize_batch(&self, responses: &[Response]) -> Result<Vec<u8>, PipelineError>;

    /// The protocol's name.
    fn protocol_name(&self) -> &'static str;
}

/// The bytes a binary command read from the start of `d` occupies: the type
/// byte and its fields; for PUT, the TTL flag byte where there is one, and
/// the TTL after a flag of 1 where all eight bytes are there.
pub open spec fn binary_command_len(d: Seq<u8>) -> int {
    let t = d[0];
    if t == CMD_PUT {
        let kl = u32_at(d, 1);
        let e = 9 + kl + u32_at(d, 5 + kl);
        if d.len() - e >= 1 && d[e] == 1 && d.len() - e - 1 >= 8 {
            e + 9
        } else if d.len() - e >= 1 {
            e + 1
        } else {
            e
        }
    } else if t == CMD_GET || t == CMD_DEL {
        5 + u32_at(d, 1)
    } else if t == CMD_EXPIRE {
        13 + u32_at(d, 1)
    } else {
        1
    }
}

/// The commands read one after the other from `data` at `o`, each read
/// after the bytes of the one before, up to the first that is no command.
pub open spec fn binary_command_walk(data: Seq<u8>, o: int) -> Seq<CommandView>
    decreases data.len() - o,
{
    if o < 0 || o >= data.len() {
        Seq::empty()
    } else {
        match binary_command_parse(data.skip(o)) {
            Ok(c) => if 1 <= binary_command_len(data.skip(o)) <= data.len() - o {
                seq![c] + binary_command_walk(data, o + binary_command_len(data.skip(o)))
            } else {
                seq![c]
            },
            Err(_) => Seq::empty(),
        }
    }
}

/// The inputs on which those binary reads stay inside the data.
pub open spec fn binary_walk_readable(data: Seq<u8>, o: int) -> bool
    decreases data.len() - o,
{
    if o < 0 || o >= data.len() {
        true
    } else {
        binary_command_readable(data.skip(o)) && (binary_command_parse(data.skip(o)) is Ok
            && 1 <= binary_command_len(data.skip(o)) <= data.len() - o
            ==> binary_walk_readable(data, o + binary_command_len(data.skip(o))))
    }
}

/// The commands of the newline-ended lines of `data` from `o` on, up to the
/// first line that is no command or a last line without a newline.
pub open spec fn text_line_walk(data: Seq<u8>, o: int) -> Seq<CommandView>
    decreases data.len() - o,
{
    if o < 0 || o >= data.len() {
        Seq::empty()
    } else {
        let n = find_byte(data, 10u8, o);
        proof {
            lemma_find_byte(data, 10u8, o);
        }
        if n >= data.len() {
            Seq::empty()
        } else {
            match parse_command_spec(data.subrange(o, n)) {
                Ok(c) => seq![c] + text_line_walk(data, n + 1),
                Err(_) => Seq::empty(),
            }
        }
    }
}

/// Batches in the binary format.
pub struct BinaryPipelineProtocol;

impl BinaryPipelineProtocol {
    /// Reads commands one after the other, each after the bytes of the one
    /// before, up to the first that is no command.
    pub fn parse_commands(data: &[u8]) -> (v: Vec<Command>)
        requires
            binary_walk_readable(data@, 0),
        ensures
            commands_view(v@) == binary_command_walk(data@, 0),
    {
        let mut commands: Vec<Command> = Vec::new();
        let mut offset: usize = 0;
        while offset < data.len()
            invariant
                offset <= data@.len(),
                binary_walk_readable(data@, offset as int),
                commands_view(commands@) + binary_command_walk(data@, offset as int)
                    == binary_command_walk(data@, 0),
            ensures
                binary_command_walk(data@, offset as int) == Seq::<CommandView>::empty(),
            decreases data@.len() - offset,
        {
            let rest = vstd::slice::slice_subrange(data, offset, data.len());
            assert(rest@ =~= data@.skip(offset as int));
            match BinaryProtocol::parse_command(rest) {
                Ok(c) => {
                    let used = binary_used(rest, &c);
                    let ghost before = commands_view(commands@);
                    commands.push(c);
                    assert(commands_view(commands@) =~= before.push(c@));
                    assert(before + binary_command_walk(data@, offset as int) =~= commands_view(
                        commands@,
                    ) + binary_command_walk(data@, offset + used));
                    offset = offset + used;
                },
                Err(_) => {
                    break;
                },
            }
        }
        assert(commands_view(commands@) + binary_command_walk(data@, offset as int)
            =~= commands_view(commands@));
        commands
    }
}

/// The bytes that `c`, read from the start of `d`, occupies (see
/// `binary_command_len`).
fn binary_used(d: &[u8], c: &Command) -> (n: usize)
    requires
        binary_command_parse(d@) == Ok::<CommandView, ProtocolError>(c@),
    ensures
        n == binary_command_len(d@),
        1 <= n <= d@.len(),
{
    let dl = d.len();
    assert(d@.len() > 0);
    match c {
        Command::Put { key, value, ttl } => {
            proof {
                assert(d@[0] == CMD_PUT);
                let kl = u32_at(d@, 1);
                assert(key@ == d@.subrange(5, 5 + kl));
                assert(value@ == d@.subrange(9 + kl, 9 + kl + u32_at(d@, 5 + kl)));
                assert(key@.len() + value@.len() + 9 <= dl);
            }
            let e = 9 + key.len() + value.len();
            match ttl {
                Some(_) => e + 9,
                None => if d.len() > e {
                    e + 1
                } else {
                    e
                },
            }
        },
        Command::Get { key } => {
            proof {
                assert(d@[0] == CMD_GET);
                assert(key@ == d@.subrange(5, 5 + u32_at(d@, 1)));
                assert(key@.len() + 5 <= dl);
            }
            5 + key.len()
        },
        Command::Del { key } => {
            proof {
                assert(d@[0] == CMD_DEL);
                assert(key@ == d@.subrange(5, 5 + u32_at(d@, 1)));
                assert(key@.len() + 5 <= dl);
            }
            5 + key.len()
        },
        Command::Expire { key, .. } => {
            proof {
                assert(d@[0] == CMD_EXPIRE);
                assert(key@ == d@.subrange(5, 5 + u32_at(d@, 1)));
            }
            13 + key.len()
        },
        _ => 1,
    }
}

impl PipelineProtocol for BinaryPipelineProtocol {
    open spec fn accepts(&self, data: Seq<u8>) -> bool {
        binary_walk_readable(data, 0)
    }

    /// Reads commands one after the other (see `parse_commands`); it never
    /// fails.
    fn parse_batch(&self, data: &[u8]) -> (res: Result<Vec<Command>, PipelineError>)
        ensures
            res matches Ok(v) && commands_view(v@) == binary_command_walk(data@, 0),
    {
        Ok(Self::parse_commands(data))
    }

    /// Writes responses in the binary format; it never fails.
    fn serialize_batch(&self, responses: &[Response]) -> (res: Result<Vec<u8>, PipelineError>)
        ensures
            res matches Ok(b) && b@ == responses_bytes(true, responses_view(responses@)),
    {
        Ok(serialize_responses(true, responses))
    }

    /// "binary".
    fn protocol_name(&self) -> (s: &'static str)
        ensures
            s@ == "binary"@,
    {
        "binary"
    }
}

/// Batches in the text format.
pub struct TextPipelineProtocol;

impl TextPipelineProtocol {
    /// Reads newline-ended lines up to the first that is no command.
    pub fn parse_lines(data: &[u8]) -> (v: Vec<Command>)
        ensures
            commands_view(v@) == text_line_walk(data@, 0),
    {
        let mut commands: Vec<Command> = Vec::new();
        let mut offset: usize = 0;
        while offset < data.len()
            invariant
                offset <= data@.len(),
                commands_view(commands@) + text_line_walk(data@, offset as int) == text_line_walk(
                    data@,
                    0,
                ),
            ensures
                text_line_walk(data@, offset as int) == Seq::<CommandView>::empty(),
            decreases data@.len() - offset,
        {
            let n = find_byte_from(data, 10u8, offset);
            if n >= data.len() {
                break;
            }
            let line = vstd::slice::slice_subrange(data, offset, n);
            let r = ProtocolParser::parse_command(line);
            assert(command_outcome_is(r, parse_command_spec(line@)));
            match r {
                Ok(c) => {
                    let ghost before = commands_view(commands@);
                    commands.push(c);
                    assert(commands_view(commands@) =~= before.push(c@));
                    assert(before + text_line_walk(data@, offset as int) =~= commands_view(
                        commands@,
                    ) + text_line_walk(data@, n + 1));
                    offset = n + 1;
                },
                Err(_) => {
                    break;
                },
            }
        }
        assert(commands_view(commands@) + text_line_walk(data@, offset as int) =~= commands_view(
            commands@,
        ));
        commands
    }
}

impl PipelineProtocol for TextPipelineProtocol {
    open spec fn accepts(&self, data: Seq<u8>) -> bool {
        true
    }

    /// Reads newline-ended lines up to the first that is no command; it
    /// never fails.
    fn parse_batch(&self, data: &[u8]) -> (res: Result<Vec<Command>, PipelineError>)
        ensures
            res matches Ok(v) && commands_view(v@) == text_line_walk(data@, 0),
    {
        Ok(Self::parse_lines(data))
    }

    /// Writes responses in the text format; it never fails.
    fn serialize_batch(&self, responses: &[Response]) -> (res: Result<Vec<u8>, PipelineError>)
        ensures
            res matches Ok(b) && b@ == responses_bytes(false, responses_view(responses@)),
    {
        Ok(serialize_responses(false, responses))
    }

    /// "text".
    fn protocol_name(&self) -> (s: &'static str)
        ensures
            s@ == "text"@,
    {
        "text"
    }
}

/// Whether bytes are one word of visible ASCII characters.
pub open spec fn ascii_word(b: Seq<u8>) -> bool {
    b.len() > 0 && forall|i: int| 0 <= i < b.len() ==> 0x21 <= #[trigger] b[i] <= 0x7E
}

/// Whether every key and value of a command is one word of visible ASCII.
pub open spec fn ascii_command(c: CommandView) -> bool {
    match c {
        CommandView::Put { key, value, .. } => ascii_word(key) && ascii_word(value),
        CommandView::Get { key } => ascii_word(key),
        CommandView::Del { key } => ascii_word(key),
        CommandView::Expire { key, .. } => ascii_word(key),
        _ => true,
    }
}

/// The text lines of commands one after the other.
pub open spec fn commands_text(cs: Seq<CommandView>) -> Seq<u8>
    decreases cs.len(),
{
    if cs.len() == 0 {
        Seq::empty()
    } else {
        command_text_bytes(cs[0]) + commands_text(cs.drop_first())
    }
}

proof fn lemma_ascii_word_text(b: Seq<u8>)
    requires
        ascii_word(b),
    ensures
        text_word(b),
        crate::protocol::text_serializer::lossy_bytes(b) == b,
{
    let x = Seq::new(b.len(), |i: int| b[i] as char);
    assert(vstd::utf8::is_ascii_chars(x)) by {
        assert forall|i: int| 0 <= i < x.len() implies '\0' <= #[trigger] x[i] <= '\u{7f}' by {
            let y = b[i];
            assert(0x21 <= y <= 0x7E);
        }
    }
    vstd::utf8::is_ascii_chars_encode_utf8(x);
    assert forall|i: int| 0 <= i < b.len() implies vstd::utf8::encode_utf8(x)[i] == b[i] by {
        let y = b[i];
        assert(x[i] == y as char);
        assert(((y as char) as u8) == y);
    }
    assert(vstd::utf8::encode_utf8(x) =~= b);
    vstd::utf8::encode_utf8_valid_utf8(x);
    vstd::utf8::encode_utf8_decode_utf8(x);
    assert forall|i: int| 0 <= i < x.len() implies !crate::protocol::text::is_white_space(#[trigger] x[i]) by {
        let y = b[i];
        assert(0x21 <= y <= 0x7E);
        assert(x[i] as u32 == y as u32);
    }
}

/// Visible ASCII words and the words of the serializer hold no newline.
proof fn lemma_ascii_chars_no_newline(x: Seq<char>)
    requires
        forall|i: int| 0 <= i < x.len() ==> ' ' <= #[trigger] x[i] <= '~',
    ensures
        forall|i: int| 0 <= i < word(x).len() ==> #[trigger] word(x)[i] != 10u8,
{
    assert(vstd::utf8::is_ascii_chars(x)) by {
        assert forall|i: int| 0 <= i < x.len() implies '\0' <= #[trigger] x[i] <= '\u{7f}' by {
            assert(' ' <= x[i] <= '~');
        }
    }
    vstd::utf8::is_ascii_chars_encode_utf8(x);
    assert forall|i: int| 0 <= i < word(x).len() implies #[trigger] word(x)[i] != 10u8 by {
        let v = x[i] as u32;
        assert(32 <= v <= 126);
        assert((v as u8) != 10u8) by (bit_vector)
            requires
                32 <= v <= 126,
        ;
        assert(word(x)[i] == x[i] as u8);
    }
}

proof fn lemma_decimal_no_newline(n: nat)
    ensures
        forall|i: int| 0 <= i < decimal_bytes(n).len() ==> 48 <= #[trigger] decimal_bytes(n)[i] <= 57,
    decreases n,
{
    if n >= 10 {
        lemma_decimal_no_newline(n / 10);
        assert forall|i: int| 0 <= i < decimal_bytes(n).len() implies 48 <= #[trigger] decimal_bytes(n)[i] <= 57 by {
            if i < decimal_bytes(n / 10).len() {
                assert(decimal_bytes(n)[i] == decimal_bytes(n / 10)[i]);
            }
        }
    }
}

/// The text line of a command with visible ASCII keys and values holds its
/// only newline at its end.
proof fn lemma_command_line_newline(c: CommandView)
    requires
        ascii_command(c),
    ensures
        command_text_bytes(c).len() >= 2,
        command_text_bytes(c).last() == 10u8,
        forall|i: int| 0 <= i < command_text_bytes(c).len() - 1 ==> #[trigger] command_text_bytes(c)[i] != 10u8,
{
    let b = command_text_bytes(c);
    match c {
        CommandView::Ping => lemma_ascii_chars_no_newline(seq!['P', 'I', 'N', 'G']),
        CommandView::Stats => lemma_ascii_chars_no_newline(seq!['S', 'T', 'A', 'T', 'S']),
        CommandView::Metrics => lemma_ascii_chars_no_newline(seq!['M', 'E', 'T', 'R', 'I', 'C', 'S']),
        CommandView::Get { key } => {
            lemma_ascii_chars_no_newline(seq!['G', 'E', 'T', ' ']);
            lemma_ascii_word_text(key);
        },
        CommandView::Del { key } => {
            lemma_ascii_chars_no_newline(seq!['D', 'E', 'L', ' ']);
            lemma_ascii_word_text(key);
        },
        CommandView::Expire { key, ttl } => {
            lemma_ascii_chars_no_newline(seq!['E', 'X', 'P', 'I', 'R', 'E', ' ']);
            lemma_ascii_word_text(key);
            lemma_decimal_no_newline(ttl as nat);
        },
        CommandView::Put { key, value, ttl } => {
            lemma_ascii_chars_no_newline(seq!['P', 'U', 'T', ' ']);
            lemma_ascii_word_text(key);
            lemma_ascii_word_text(value);
            match ttl {
                Some(t) => lemma_decimal_no_newline(t as nat),
                None => {},
            }
        },
    }
    assert(b.len() >= 2);
    assert forall|i: int| 0 <= i < b.len() - 1 implies #[trigger] b[i] != 10u8 by {
        if i == b.len() - 2 {
            assert(b[i] == 13u8);
        }
    }
}

/// Text commands one after the other, each with keys and values of visible
/// ASCII, read as a text batch with room for all of them, give the
/// commands back in order.
pub proof fn lemma_text_batch_roundtrip(cs: Seq<CommandView>, room: int)
    requires
        forall|i: int| 0 <= i < cs.len() ==> ascii_command(#[trigger] cs[i]),
        room >= cs.len(),
    ensures
        batch_walk(false, commands_text(cs), 0, room) == Ok::<Seq<CommandView>, PipelineErrorView>(cs),
{
    lemma_text_batch_from(Seq::empty(), cs, room);
    assert(Seq::<u8>::empty() + commands_text(cs) =~= commands_text(cs));
}

/// One step of a text batch reads a command's line and moves past it.
proof fn lemma_text_batch_step(c: CommandView, rest: Seq<u8>)
    requires
        ascii_command(c),
    ensures
        batch_step(false, command_text_bytes(c) + rest)
            == Ok::<(CommandView, int), PipelineErrorView>((c, command_text_bytes(c).len() as int)),
{
    let b = command_text_bytes(c);
    lemma_command_line_newline(c);
    match c {
        CommandView::Put { key, value, .. } => {
            lemma_ascii_word_text(key);
            lemma_ascii_word_text(value);
        },
        CommandView::Get { key } => lemma_ascii_word_text(key),
        CommandView::Del { key } => lemma_ascii_word_text(key),
        CommandView::Expire { key, .. } => lemma_ascii_word_text(key),
        _ => {},
    }
    lemma_text_command_roundtrip(c);
    let r = b + rest;
    let n = b.len() - 1;
    assert(r[n] == 10u8);
    assert forall|j: int| 0 <= j < n implies r[j] != 10u8 by {
        assert(r[j] == b[j]);
    }
    lemma_find_newline_at(r, n);
    assert(r.subrange(0, n) =~= b.drop_last());
}

proof fn lemma_walk_cons(data: Seq<u8>, o: int, room: int, c: CommandView, l: int, rest: Seq<CommandView>)
    requires
        0 <= o < data.len(),
        room > 0,
        l > 0,
        batch_step(false, data.skip(o)) == Ok::<(CommandView, int), PipelineErrorView>((c, l)),
        batch_walk(false, data, o + l, room - 1) == Ok::<Seq<CommandView>, PipelineErrorView>(rest),
    ensures
        batch_walk(false, data, o, room) == Ok::<Seq<CommandView>, PipelineErrorView>(seq![c] + rest),
{
}

#[verifier::spinoff_prover]
proof fn lemma_text_batch_from(pre: Seq<u8>, cs: Seq<CommandView>, room: int)
    requires
        forall|i: int| 0 <= i < cs.len() ==> ascii_command(#[trigger] cs[i]),
        room >= cs.len(),
    ensures
        batch_walk(false, pre + commands_text(cs), pre.len() as int, room)
            == Ok::<Seq<CommandView>, PipelineErrorView>(cs),
    decreases cs.len(),
{
    let data = pre + commands_text(cs);
    if cs.len() == 0 {
        assert(commands_text(cs) =~= Seq::<u8>::empty());
        assert(data =~= pre);
        assert(cs =~= Seq::<CommandView>::empty());
    } else {
        let c = cs[0];
        let b = command_text_bytes(c);
        assert(commands_text(cs) == b + commands_text(cs.drop_first()));
        let rest = commands_text(cs.drop_first());
        assert(ascii_command(c));
        lemma_text_batch_step(c, rest);
        lemma_command_line_newline(c);
        assert(data.skip(pre.len() as int) =~= b + rest);
        let o = pre.len() as int;
        let l = b.len() as int;
        assert(data =~= (pre + b) + rest);
        assert forall|i: int| 0 <= i < cs.drop_first().len() implies ascii_command(#[trigger] cs.drop_first()[i]) by {
            assert(cs.drop_first()[i] == cs[i + 1]);
        }
        lemma_text_batch_from(pre + b, cs.drop_first(), room - 1);
        assert((pre + b).len() == o + l);
        lemma_walk_cons(data, o, room, c, l, cs.drop_first());
        assert(seq![c] + cs.drop_first() =~= cs);
    }
}

proof fn lemma_find_newline_at(s: Seq<u8>, k: int)
    requires
        0 <= k < s.len(),
        s[k] == 10u8,
        forall|j: int| 0 <= j < k ==> s[j] != 10u8,
    ensures
        find_byte(s, 10u8, 0) == k,
{
    lemma_find_byte(s, 10u8, 0);
    let f = find_byte(s, 10u8, 0);
    if f < k {
        assert(s[f] == 10u8);
    } else if f > k {
        assert(s[k] != 10u8);
    }
}

} // verus!
