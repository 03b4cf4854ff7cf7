//! Batch processing that picks a parser by configuration: the vectorised
//! batch parser, the chunked parser, the zero-copy parser or a plain one;
//! then groups the commands and answers each.

use vstd::prelude::*;
use crate::protocol::commands::{Command, CommandView, Response, ResponseView};
use crate::protocol::pipeline::{commands_view, responses_view, PipelineError, PipelineResponseBatch};
use crate::protocol::simd_parser::{scalar_batch_spec, scalar_command_spec, SIMDParser};
use crate::protocol::wire::{find_byte, find_byte_from, lemma_find_byte};
use crate::protocol::zero_copy_buffer::{
    zero_copy_batch_spec, ZeroCopyBufferPool, ZeroCopyConfig, ZeroCopySerializer,
};

verus! {

/// Settings of batch processing.
#[derive(Debug, Clone, Copy, PartialEq, Eq)]
pub struct AdvancedPipelineConfig {
    pub max_batch_size: usize,
    pub enable_parallel_parsing: bool,
    pub enable_adaptive_sizing: bool,
    pub enable_simd: bool,
    pub enable_zero_copy: bool,
    pub parser_threads: usize,
    pub metrics_interval_ms: u64,
}

impl AdvancedPipelineConfig {
    /// The default settings for a machine with `cpus` processors: batches of
    /// 64, every optimisation on, at most 8 parser threads, figures each
    /// second.
    pub fn with_parser_threads(cpus: usize) -> (c: Self)
        ensures
            c == (AdvancedPipelineConfig {
                max_batch_size: 64,
                enable_parallel_parsing: true,
                enable_adaptive_sizing: true,
                enable_simd: true,
                enable_zero_copy: true,
                parser_threads: if cpus < 8 { cpus } else { 8 },
                metrics_interval_ms: 1000,
            }),
    {
        AdvancedPipelineConfig {
            max_batch_size: 64,
            enable_parallel_parsing: true,
            enable_adaptive_sizing: true,
            enable_simd: true,
            enable_zero_copy: true,
            parser_threads: if cpus < 8 {
                cpus
            } else {
                8
            },
            metrics_interval_ms: 1000,
        }
    }
}

/// How a group of commands is processed.
#[derive(Debug, Clone, Copy, PartialEq, Eq)]
pub enum ProcessingStrategy {
    Sequential,
    Parallel,
    Batch,
}

/// How the batch size adapts.
#[derive(Debug, Clone, Copy, PartialEq, Eq)]
pub enum AdaptationStrategy {
    Conservative,
    Aggressive,
    LoadBased,
}

/// Commands processed together.
#[derive(Debug)]
pub struct CommandGroup {
    pub commands: Vec<Command>,
    pub shard_id: Option<u32>,
    pub strategy: ProcessingStrategy,
}

impl CommandGroup {
    /// One group of all the commands, for no shard in particular, processed
    /// in order.
    pub fn single(commands: Vec<Command>) -> (g: Self)
        ensures
            g.commands@ == commands@,
            g.shard_id is None,
            g.strategy == ProcessingStrategy::Sequential,
    {
        CommandGroup { commands, shard_id: None, strategy: ProcessingStrategy::Sequential }
    }
}

/// Groups commands that belong together.
pub struct CommandAffinityAnalyzer {
    shard_cache: Vec<(u64, u32)>,
    pattern_stats: Vec<(String, u64)>,
}

impl CommandAffinityAnalyzer {
    /// An analyzer that knows no shard and no pattern yet.
    pub fn new() -> (a: Self)
        ensures
            a.shards().len() == 0,
            a.patterns() == 0,
    {
        CommandAffinityAnalyzer { shard_cache: Vec::new(), pattern_stats: Vec::new() }
    }

    /// The shards known.
    pub closed spec fn shards(&self) -> Seq<(u64, u32)> {
        self.shard_cache@
    }

    /// How many patterns are known.
    pub closed spec fn patterns(&self) -> nat {
        self.pattern_stats@.len()
    }

    /// The groups of a list of commands: none for no commands, else one
    /// group of all of them.
    pub fn group_commands_by_affinity(&self, commands: Vec<Command>) -> (groups: Vec<CommandGroup>)
        ensures
            commands@.len() == 0 ==> groups@.len() == 0,
            commands@.len() > 0 ==> groups@.len() == 1 && groups@[0].commands@ == commands@,
    {
        let mut groups: Vec<CommandGroup> = Vec::new();
        if commands.len() == 0 {
            return groups;
        }
        groups.push(CommandGroup::single(commands));
        groups
    }
}

/// The command a line gives when read word by word, where only PING, GET,
/// PUT and DEL are known.
pub open spec fn basic_command_spec(b: Seq<u8>) -> Option<CommandView> {
    match scalar_command_spec(b) {
        Ok(CommandView::Stats) => None,
        Ok(CommandView::Metrics) => None,
        Ok(c) => Some(c),
        Err(_) => None,
    }
}

/// The commands of the newline-ended lines from `o` on, at most `room`
/// more of them, read with `basic_command_spec`; lines that are no command
/// are left out, a last line without a newline too.
pub open spec fn basic_lines(data: Seq<u8>, o: int, room: int) -> Seq<CommandView>
    decreases data.len() - o,
{
    if o < 0 || o >= data.len() || room <= 0 {
        Seq::empty()
    } else {
        let n = find_byte(data, 10u8, o);
        proof {
            lemma_find_byte(data, 10u8, o);
        }
        if n >= data.len() {
            Seq::empty()
        } else {
            match basic_command_spec(data.subrange(o, n)) {
                Some(c) => seq![c] + basic_lines(data, n + 1, room - 1),
                None => basic_lines(data, n + 1, room),
            }
        }
    }
}

fn parse_basic_command(parser: &SIMDParser, data: &[u8]) -> (r: Option<Command>)
    ensures
        match (r, basic_command_spec(data@)) {
            (Some(c), Some(sc)) => c@ == sc,
            (None, None) => true,
            _ => false,
        },
{
    match parser.parse_single_command_scalar(data) {
        Ok(Command::Stats) => None,
        Ok(Command::Metrics) => None,
        Ok(c) => Some(c),
        Err(_) => None,
    }
}

/// Reads newline-ended lines, at most `limit` commands.
fn parse_lines(data: &[u8], limit: usize) -> (v: Vec<Command>)
    ensures
        commands_view(v@) == basic_lines(data@, 0, limit as int),
{
    let words = SIMDParser::new();
    let mut commands: Vec<Command> = Vec::new();
    let mut offset: usize = 0;
    while offset < data.len() && commands.len() < limit
        invariant
            offset <= data@.len(),
            commands@.len() <= limit,
            commands_view(commands@) + basic_lines(data@, offset as int, limit - commands@.len())
                == basic_lines(data@, 0, limit as int),
        ensures
            basic_lines(data@, offset as int, limit - commands@.len()) == Seq::<CommandView>::empty(),
        decreases data@.len() - offset,
    {
        let n = find_byte_from(data, 10u8, offset);
        if n >= data.len() {
            break;
        }
        let line = vstd::slice::slice_subrange(data, offset, n);
        let ghost before = commands_view(commands@);
        let ghost room = limit - commands@.len();
        match parse_basic_command(&words, line) {
            Some(c) => {
                commands.push(c);
                assert(commands_view(commands@) =~= before.push(c@));
                assert(before + basic_lines(data@, offset as int, room) =~= commands_view(commands@)
                    + basic_lines(data@, n + 1, room - 1));
            },
            None => {},
        }
        offset = n + 1;
    }
    assert(commands_view(commands@) + basic_lines(data@, offset as int, limit - commands@.len())
        =~= commands_view(commands@));
    commands
}

/// A parser that would split large batches across threads; it reads them
/// in one pass.
pub struct ParallelBatchParser {
    thread_count: usize,
}

impl ParallelBatchParser {
    /// A parser for `thread_count` threads.
    pub fn new(thread_count: usize) -> (p: Self)
        ensures
            p.threads() == thread_count,
    {
        ParallelBatchParser { thread_count }
    }

    /// The number of threads.
    pub closed spec fn threads(&self) -> usize {
        self.thread_count
    }

    /// Reads the newline-ended lines of a batch; lines that are no command
    /// are left out. It never fails.
    pub fn parse_batch_parallel(&self, data: &[u8]) -> (res: Result<Vec<Command>, PipelineError>)
        ensures
            res matches Ok(v) && commands_view(v@) == basic_lines(data@, 0, data@.len() as int + 1),
    {
        self.parse_batch_sequential(data)
    }

    /// Reads the newline-ended lines of a batch in one pass.
    pub fn parse_batch_sequential(&self, data: &[u8]) -> (res: Result<Vec<Command>, PipelineError>)
        ensures
            res matches Ok(v) && commands_view(v@) == basic_lines(data@, 0, data@.len() as int + 1),
    {
        let limit = if data.len() < usize::MAX {
            data.len() + 1
        } else {
            data.len()
        };
        let v = parse_lines(data, limit);
        proof {
            if data@.len() == usize::MAX {
                lemma_basic_lines_room(data@, 0, data@.len() as int, data@.len() as int + 1);
            }
        }
        Ok(v)
    }
}

proof fn lemma_basic_lines_room(data: Seq<u8>, o: int, r1: int, r2: int)
    requires
        0 <= o,
        data.len() - o <= r1 <= r2,
    ensures
        basic_lines(data, o, r1) == basic_lines(data, o, r2),
    decreases data.len() - o,
{
    if o < data.len() {
        let n = find_byte(data, 10u8, o);
        lemma_find_byte(data, 10u8, o);
        if n < data.len() {
            match basic_command_spec(data.subrange(o, n)) {
                Some(c) => lemma_basic_lines_room(data, n + 1, r1 - 1, r2 - 1),
                None => lemma_basic_lines_room(data, n + 1, r1, r2),
            }
        }
    }
}

/// The commands a processor reads from a batch with the given settings.
pub open spec fn advanced_commands(c: AdvancedPipelineConfig, data: Seq<u8>) -> Seq<CommandView> {
    if c.enable_simd {
        scalar_batch_spec(data, 0)
    } else if c.enable_parallel_parsing && data.len() > 1024 {
        basic_lines(data, 0, data.len() as int + 1)
    } else if c.enable_zero_copy {
        zero_copy_batch_spec(data, 0)
    } else {
        basic_lines(data, 0, c.max_batch_size as int)
    }
}

/// `n` OK responses.
pub open spec fn oks(n: nat) -> Seq<ResponseView> {
    Seq::new(n, |i: int| ResponseView::Okay)
}

/// Reads batches with the parser the settings pick and answers each
/// command.
pub struct AdvancedPipelineProcessor {
    config: AdvancedPipelineConfig,
    batch_parser: ParallelBatchParser,
    affinity_analyzer: CommandAffinityAnalyzer,
    simd_parser: SIMDParser,
    zero_copy_serializer: ZeroCopySerializer,
    total_batches: u64,
    total_commands: u64,
}

impl AdvancedPipelineProcessor {
    /// The settings.
    pub closed spec fn settings(&self) -> AdvancedPipelineConfig {
        self.config
    }

    /// Whether the vectorised parser path is taken.
    pub closed spec fn simd(&self) -> bool {
        self.simd_parser.simd()
    }

    /// How many batches and commands were processed (modulo 2^64).
    pub closed spec fn counts(&self) -> (u64, u64) {
        (self.total_batches, self.total_commands)
    }

    /// A processor with the given settings, without the vectorised path.
    pub fn new(config: AdvancedPipelineConfig) -> (p: Self)
        ensures
            p.settings() == config,
            !p.simd(),
            p.counts() == (0u64, 0u64),
    {
        Self::with_simd(config, false)
    }

    /// A processor with the given settings that takes the vectorised path
    /// where `simd_available`.
    pub fn with_simd(config: AdvancedPipelineConfig, simd_available: bool) -> (p: Self)
        ensures
            p.settings() == config,
            p.simd() == simd_available,
            p.counts() == (0u64, 0u64),
    {
        AdvancedPipelineProcessor {
            config,
            batch_parser: ParallelBatchParser::new(config.parser_threads),
            affinity_analyzer: CommandAffinityAnalyzer::new(),
            simd_parser: SIMDParser::with_simd(simd_available),
            zero_copy_serializer: ZeroCopySerializer::new(
                ZeroCopyBufferPool::new(ZeroCopyConfig::default()),
            ),
            total_batches: 0,
            total_commands: 0,
        }
    }

    /// Reads a batch with the parser the settings pick: the vectorised
    /// batch parser, the chunked parser for batches over 1024 bytes, the
    /// zero-copy parser, or a plain one that stops at the batch size; then
    /// answers each command read with OK. It never fails.
    pub fn process_batch_advanced(&mut self, data: &[u8]) -> (res: Result<PipelineResponseBatch, PipelineError>)
        ensures
            res matches Ok(b) && responses_view(b.responses@) == oks(
                advanced_commands(old(self).settings(), data@).len(),
            ) && b.batch_id == 0 && !b.use_binary_protocol,
            final(self).settings() == old(self).settings(),
            final(self).simd() == old(self).simd(),
            final(self).counts() == (
                old(self).counts().0.wrapping_add(1),
                old(self).counts().1.wrapping_add(
                    advanced_commands(old(self).settings(), data@).len() as u64,
                ),
            ),
    {
        let commands: Vec<Command> = if self.config.enable_simd {
            match self.simd_parser.parse_batch_simd(data) {
                Ok(v) => v,
                Err(_) => Vec::new(),
            }
        } else if self.config.enable_parallel_parsing && data.len() > 1024 {
            match self.batch_parser.parse_batch_parallel(data) {
                Ok(v) => v,
                Err(_) => Vec::new(),
            }
        } else if self.config.enable_zero_copy {
            match self.zero_copy_serializer.parse_command_batch_zero_copy(data) {
                Ok(v) => v,
                Err(_) => Vec::new(),
            }
        } else {
            parse_lines(data, self.config.max_batch_size)
        };
        let ghost n = commands@.len();
        assert(commands_view(commands@).len() == n);
        let count = commands.len();
        let groups = if self.config.enable_adaptive_sizing {
            self.affinity_analyzer.group_commands_by_affinity(commands)
        } else {
            let mut g: Vec<CommandGroup> = Vec::new();
            g.push(CommandGroup::single(commands));
            g
        };
        proof {
            if groups@.len() == 1 {
                assert(groups@.drop_last() =~= Seq::<CommandGroup>::empty());
                assert(group_sizes(groups@.drop_last()) == 0);
                assert(groups@.last().commands@.len() == n);
            }
        }
        assert(group_sizes(groups@) == count);
        let responses = Self::process_command_groups(&groups);
        self.total_batches = self.total_batches.wrapping_add(1);
        self.total_commands = self.total_commands.wrapping_add(count as u64);
        assert(responses_view(responses@) =~= oks(count as nat));
        Ok(PipelineResponseBatch { responses, batch_id: 0, use_binary_protocol: false })
    }

    /// An OK for each command of each group.
    fn process_command_groups(groups: &Vec<CommandGroup>) -> (r: Vec<Response>)
        ensures
            r@.len() == group_sizes(groups@),
            forall|i: int| 0 <= i < r@.len() ==> r@[i] == Response::Okay,
    {
        let mut all: Vec<Response> = Vec::new();
        let mut i: usize = 0;
        while i < groups.len()
            invariant
                i <= groups@.len(),
                all@.len() == group_sizes(groups@.subrange(0, i as int)),
                forall|k: int| 0 <= k < all@.len() ==> all@[k] == Response::Okay,
            decreases groups@.len() - i,
        {
            let mut j: usize = 0;
            let ghost base = all@.len();
            while j < groups[i].commands.len()
                invariant
                    i < groups@.len(),
                    j <= groups@[i as int].commands@.len(),
                    base == group_sizes(groups@.subrange(0, i as int)),
                    all@.len() == base + j,
                    forall|k: int| 0 <= k < all@.len() ==> all@[k] == Response::Okay,
                decreases groups@[i as int].commands@.len() - j,
            {
                all.push(Response::Okay);
                j = j + 1;
            }
            assert(groups@.subrange(0, i as int + 1).drop_last() =~= groups@.subrange(0, i as int));
            assert(groups@.subrange(0, i as int + 1).last() == groups@[i as int]);
            i = i + 1;
        }
        assert(groups@.subrange(0, i as int) =~= groups@);
        all
    }
}

/// How many commands the groups hold together.
pub open spec fn group_sizes(gs: Seq<CommandGroup>) -> nat
    decreases gs.len(),
{
    if gs.len() == 0 {
        0
    } else {
        group_sizes(gs.drop_last()) + gs.last().commands@.len()
    }
}

} // verus!
