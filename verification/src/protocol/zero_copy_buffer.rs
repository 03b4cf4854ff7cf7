//! Buffer reuse and the line-oriented command and response forms used on
//! the zero-copy path.

use vstd::prelude::*;
use vstd::utf8::encode_utf8;
use crate::protocol::commands::{Command, CommandView, Response, ResponseView};
use crate::protocol::serializer::{CMD_DEL, CMD_GET};
use crate::protocol::wire::{append_bytes, copy_range, find_byte, find_byte_from, lemma_find_byte, vec_capacity};

verus! {

/// Settings of buffer reuse.
#[derive(Debug, Clone, Copy, PartialEq, Eq)]
pub struct ZeroCopyConfig {
    pub default_buffer_size: usize,
    pub max_buffer_size: usize,
    pub max_pool_size: usize,
    pub enable_buffer_reuse: bool,
    pub enable_alignment: bool,
    pub alignment_size: usize,
}

impl ZeroCopyConfig {
    /// The settings `default` gives.
    pub open spec fn default_spec() -> ZeroCopyConfig {
        ZeroCopyConfig {
            default_buffer_size: 4096,
            max_buffer_size: 1048576,
            max_pool_size: 1000,
            enable_buffer_reuse: true,
            enable_alignment: true,
            alignment_size: 64,
        }
    }
}

impl Default for ZeroCopyConfig {
    fn default() -> (c: Self)
        ensures
            c == ZeroCopyConfig::default_spec(),
    {
        ZeroCopyConfig {
            default_buffer_size: 4096,
            max_buffer_size: 1048576,
            max_pool_size: 1000,
            enable_buffer_reuse: true,
            enable_alignment: true,
            alignment_size: 64,
        }
    }
}

/// Figures of buffer reuse.
#[derive(Debug, Clone, Copy, Default, PartialEq, Eq)]
pub struct ZeroCopyStats {
    pub total_allocations: u64,
    pub reuse_hits: u64,
    pub reuse_misses: u64,
    pub total_bytes_allocated: u64,
    pub total_bytes_saved: u64,
    pub current_pool_size: usize,
}

/// Figures of the zero-copy serializer.
#[derive(Debug, Clone, Copy, Default, PartialEq, Eq)]
pub struct ZeroCopySerializerStats {
    pub commands_serialized: u64,
    pub responses_serialized: u64,
    pub total_bytes_serialized: u64,
    pub zero_copy_operations: u64,
}

/// `size` rounded up as `(size + align - 1) & !(align - 1)` does.
pub open spec fn align_up_to(size: usize, align: usize) -> usize {
    ((size + align - 1) as usize) & !((align - 1) as usize)
}

/// The buffer size asked for `min_size`: at least the default, rounded to
/// the alignment where alignment is on.
pub open spec fn required_size(c: ZeroCopyConfig, min_size: usize) -> usize {
    let m: usize = if min_size >= c.default_buffer_size {
        min_size
    } else {
        c.default_buffer_size
    };
    if c.enable_alignment {
        align_up_to(m, c.alignment_size)
    } else {
        m
    }
}

/// A pool of buffers for reuse.
pub struct ZeroCopyBufferPool {
    buffer_pool: Vec<Vec<u8>>,
    stats: ZeroCopyStats,
    config: ZeroCopyConfig,
}

impl ZeroCopyBufferPool {
    /// The buffers kept, oldest first.
    pub closed spec fn buffers(&self) -> Seq<Vec<u8>> {
        self.buffer_pool@
    }

    /// The figures.
    pub closed spec fn figures(&self) -> ZeroCopyStats {
        self.stats
    }

    /// The settings.
    pub closed spec fn settings(&self) -> ZeroCopyConfig {
        self.config
    }

    /// The inputs on which the size arithmetic stays in range.
    pub open spec fn size_ok(&self, min_size: usize) -> bool {
        self.settings().alignment_size >= 1 && (if min_size >= self.settings().default_buffer_size {
            min_size
        } else {
            self.settings().default_buffer_size
        }) + self.settings().alignment_size - 1 <= usize::MAX
    }

    /// An empty pool with the given settings.
    pub fn new(config: ZeroCopyConfig) -> (p: Self)
        ensures
            p.buffers().len() == 0,
            p.figures() == ZeroCopyStats::default_spec(),
            p.settings() == config,
    {
        ZeroCopyBufferPool { buffer_pool: Vec::new(), stats: ZeroCopyStats::new_zero(), config }
    }

    /// An empty buffer of at least the required size: a kept buffer large
    /// enough where reuse is on (smaller kept buffers met on the way are
    /// dropped), else a new one asked of the allocator with the required
    /// capacity. Counters wrap around. Which case is taken depends on the
    /// capacities the allocator gave, which the contract does not name.
    pub fn get_buffer(&mut self, min_size: usize) -> (b: Vec<u8>)
        requires
            old(self).size_ok(min_size),
        ensures
            b@.len() == 0,
            final(self).settings() == old(self).settings(),
            final(self).buffers().len() <= old(self).buffers().len(),
            final(self).buffers() == old(self).buffers().skip(
                old(self).buffers().len() - final(self).buffers().len(),
            ),
            final(self).figures().current_pool_size == old(self).figures().current_pool_size,
            ({
                let req = required_size(old(self).settings(), min_size);
                let o = old(self).figures();
                let f = final(self).figures();
                ||| (f.reuse_hits == o.reuse_hits.wrapping_add(1) && f.reuse_misses == o.reuse_misses
                    && f.total_allocations == o.total_allocations && f.total_bytes_allocated
                    == o.total_bytes_allocated && old(self).settings().enable_buffer_reuse)
                ||| (f.reuse_misses == o.reuse_misses.wrapping_add(1) && f.total_allocations
                    == o.total_allocations.wrapping_add(1) && f.total_bytes_allocated
                    == o.total_bytes_allocated.wrapping_add(req as u64) && f.reuse_hits == o.reuse_hits
                    && f.total_bytes_saved == o.total_bytes_saved)
            }),
    {
        let m = if min_size >= self.config.default_buffer_size {
            min_size
        } else {
            self.config.default_buffer_size
        };
        let required = if self.config.enable_alignment {
            (m + (self.config.alignment_size - 1)) & !(self.config.alignment_size - 1)
        } else {
            m
        };
        let ghost start = self.buffer_pool@;
        if self.config.enable_buffer_reuse {
            let ghost mut k: int = 0;
            while self.buffer_pool.len() > 0
                invariant
                    0 <= k <= start.len(),
                    start == old(self).buffers(),
                    self.buffer_pool@ == start.skip(k),
                    self.stats == old(self).figures(),
                    self.config == old(self).settings(),
                    self.config.enable_buffer_reuse,
                decreases self.buffer_pool@.len(),
            {
                let mut buffer = self.buffer_pool.remove(0);
                proof {
                    assert(self.buffer_pool@ =~= start.skip(k + 1));
                    k = k + 1;
                }
                if vec_capacity(&buffer) >= required {
                    let cap = vec_capacity(&buffer);
                    buffer.clear();
                    self.stats.reuse_hits = self.stats.reuse_hits.wrapping_add(1);
                    self.stats.total_bytes_saved = self.stats.total_bytes_saved.wrapping_add(cap as u64);
                    assert(self.buffer_pool@ == start.skip(k));
                    return buffer;
                }
            }
        }
        self.stats.reuse_misses = self.stats.reuse_misses.wrapping_add(1);
        self.stats.total_allocations = self.stats.total_allocations.wrapping_add(1);
        self.stats.total_bytes_allocated = self.stats.total_bytes_allocated.wrapping_add(required as u64);
        assert(start.skip(0) =~= start);
        Vec::with_capacity(required)
    }

    /// What `return_buffer` does, from this pool to `fin`, with a buffer of
    /// the given capacity: it is kept where reuse is on, the pool is not
    /// full and the capacity is not above the maximum.
    pub open spec fn kept_as(&self, fin: Self, buffer: Vec<u8>, capacity: usize) -> bool {
        &&& fin.settings() == self.settings()
        &&& if self.settings().enable_buffer_reuse && self.buffers().len() < self.settings().max_pool_size
            && capacity <= self.settings().max_buffer_size {
            &&& fin.buffers() == self.buffers().push(buffer)
            &&& fin.figures() == (ZeroCopyStats { current_pool_size: fin.buffers().len() as usize, ..self.figures() })
        } else {
            &&& fin.buffers() == self.buffers()
            &&& fin.figures() == self.figures()
        }
    }

    /// Keeps a buffer for reuse where reuse is on, the pool is not full and
    /// the buffer's capacity is not above the maximum; which capacity the
    /// allocator gave is not named.
    pub fn return_buffer(&mut self, buffer: Vec<u8>)
        ensures
            exists|capacity: usize| capacity >= buffer@.len() && #[trigger] old(self).kept_as(*final(self), buffer, capacity),
            final(self).settings() == old(self).settings(),
            !old(self).settings().enable_buffer_reuse || old(self).buffers().len()
                >= old(self).settings().max_pool_size ==> final(self).buffers() == old(self).buffers()
                && final(self).figures() == old(self).figures(),
            final(self).buffers() == old(self).buffers() || (final(self).buffers() == old(
                self,
            ).buffers().push(buffer) && final(self).figures() == (ZeroCopyStats {
                current_pool_size: final(self).buffers().len() as usize,
                ..old(self).figures()
            })),
            final(self).figures().reuse_hits == old(self).figures().reuse_hits,
    {
        let ghost b = buffer;
        let capacity = vec_capacity(&buffer);
        if !self.config.enable_buffer_reuse {
            assert(old(self).kept_as(*self, b, capacity));
            return;
        }
        if self.buffer_pool.len() < self.config.max_pool_size && capacity <= self.config.max_buffer_size {
            self.buffer_pool.push(buffer);
            self.stats.current_pool_size = self.buffer_pool.len();
        }
        assert(old(self).kept_as(*self, b, capacity));
    }

    /// The figures.
    pub fn get_stats(&self) -> (s: ZeroCopyStats)
        ensures
            s == self.figures(),
    {
        self.stats
    }
}

impl ZeroCopyStats {
    /// All zero.
    pub open spec fn default_spec() -> ZeroCopyStats {
        ZeroCopyStats {
            total_allocations: 0,
            reuse_hits: 0,
            reuse_misses: 0,
            total_bytes_allocated: 0,
            total_bytes_saved: 0,
            current_pool_size: 0,
        }
    }

    /// All zero.
    pub fn new_zero() -> (s: Self)
        ensures
            s == ZeroCopyStats::default_spec(),
    {
        ZeroCopyStats {
            total_allocations: 0,
            reuse_hits: 0,
            reuse_misses: 0,
            total_bytes_allocated: 0,
            total_bytes_saved: 0,
            current_pool_size: 0,
        }
    }
}

/// Why a line is not a command on the zero-copy path.
#[derive(Debug, Clone, PartialEq, Eq)]
pub enum ZeroCopyParseError {
    /// The line is empty.
    EmptyCommand,
    /// GET or DEL (the byte is the command type) without a key, or PUT (its
    /// type) with an empty key.
    MissingKey(u8),
    /// PUT without a space after the key.
    MissingValue,
    /// The line starts with no command word; the line.
    UnknownCommand(Vec<u8>),
}

/// A parse error as plain values.
pub enum ZeroCopyParseErrorView {
    EmptyCommand,
    MissingKey(u8),
    MissingValue,
    UnknownCommand(Seq<u8>),
}

impl View for ZeroCopyParseError {
    type V = ZeroCopyParseErrorView;

    open spec fn view(&self) -> ZeroCopyParseErrorView {
        match self {
            ZeroCopyParseError::EmptyCommand => ZeroCopyParseErrorView::EmptyCommand,
            ZeroCopyParseError::MissingKey(t) => ZeroCopyParseErrorView::MissingKey(*t),
            ZeroCopyParseError::MissingValue => ZeroCopyParseErrorView::MissingValue,
            ZeroCopyParseError::UnknownCommand(l) => ZeroCopyParseErrorView::UnknownCommand(l@),
        }
    }
}

/// A byte with ASCII letters made lower case.
pub open spec fn ascii_lower_byte(b: u8) -> u8 {
    if 65 <= b <= 90 {
        (b + 32) as u8
    } else {
        b
    }
}

/// Whether `b` starts with the word `w`, ASCII case ignored.
pub open spec fn starts_ci(b: Seq<u8>, w: Seq<u8>) -> bool {
    b.len() >= w.len() && forall|i: int| 0 <= i < w.len() ==> #[trigger] ascii_lower_byte(b[i])
        == ascii_lower_byte(w[i])
}

fn lower_byte(b: u8) -> (r: u8)
    ensures
        r == ascii_lower_byte(b),
{
    if 65 <= b && b <= 90 {
        b + 32
    } else {
        b
    }
}

fn starts_with_ci(b: &[u8], w: &[u8]) -> (r: bool)
    ensures
        r == starts_ci(b@, w@),
{
    if b.len() < w.len() {
        return false;
    }
    let mut i: usize = 0;
    while i < w.len()
        invariant
            i <= w@.len() <= b@.len(),
            forall|j: int| 0 <= j < i ==> #[trigger] ascii_lower_byte(b@[j]) == ascii_lower_byte(w@[j]),
        decreases w@.len() - i,
    {
        if lower_byte(b[i]) != lower_byte(w[i]) {
            return false;
        }
        i = i + 1;
    }
    true
}

/// The command a line gives on the zero-copy path: PING, `PUT key value`,
/// `GET key`, `DEL key`, STATS or METRICS at its start, in any ASCII case.
pub open spec fn zero_copy_command_spec(b: Seq<u8>) -> Result<CommandView, ZeroCopyParseErrorView> {
    if b.len() == 0 {
        Err(ZeroCopyParseErrorView::EmptyCommand)
    } else if starts_ci(b, seq![80u8, 73, 78, 71]) {
        Ok(CommandView::Ping)
    } else if b.len() > 4 && starts_ci(b, seq![80u8, 85, 84, 32]) {
        let args = b.subrange(4, b.len() as int);
        let sp = find_byte(args, 32u8, 0);
        if sp == args.len() {
            Err(ZeroCopyParseErrorView::MissingValue)
        } else if sp == 0 {
            Err(ZeroCopyParseErrorView::MissingKey(0x02))
        } else {
            Ok(
                CommandView::Put {
                    key: args.subrange(0, sp),
                    value: args.subrange(sp + 1, args.len() as int),
                    ttl: None,
                },
            )
        }
    } else if starts_ci(b, seq![71u8, 69, 84, 32]) || starts_ci(b, seq![68u8, 69, 76, 32]) {
        let t = if starts_ci(b, seq![71u8, 69, 84, 32]) {
            CMD_GET
        } else {
            CMD_DEL
        };
        let args = b.subrange(4, b.len() as int);
        let k = find_byte(args, 32u8, 0);
        if k == 0 {
            Err(ZeroCopyParseErrorView::MissingKey(t))
        } else if t == CMD_GET {
            Ok(CommandView::Get { key: args.subrange(0, k) })
        } else {
            Ok(CommandView::Del { key: args.subrange(0, k) })
        }
    } else if starts_ci(b, seq![83u8, 84, 65, 84, 83]) {
        Ok(CommandView::Stats)
    } else if starts_ci(b, seq![77u8, 69, 84, 82, 73, 67, 83]) {
        Ok(CommandView::Metrics)
    } else {
        Err(ZeroCopyParseErrorView::UnknownCommand(b))
    }
}

/// The commands of the newline-ended lines from `o` on, lines that are no
/// command left out, a last line without a newline too.
pub open spec fn zero_copy_batch_spec(data: Seq<u8>, o: int) -> Seq<CommandView>
    decreases data.len() - o,
{
    if o < 0 || o >= data.len() {
        Seq::empty()
    } else {
        let n = find_byte(data, 10u8, o);
        proof {
            lemma_find_byte(data, 10u8, o);
        }
        if n >= data.len() {
            Seq::empty()
        } else {
            let rest = zero_copy_batch_spec(data, n + 1);
            match zero_copy_command_spec(data.subrange(o, n)) {
                Ok(c) => seq![c] + rest,
                Err(_) => rest,
            }
        }
    }
}

/// The line form of a response: `OK`, `PONG`, `NULL`, the value, `ERROR `
/// and the message, or the statistics text, then a newline.
pub open spec fn zero_copy_response_bytes(r: ResponseView) -> Seq<u8> {
    match r {
        ResponseView::Okay => seq![79u8, 75, 10],
        ResponseView::Pong => seq![80u8, 79, 78, 71, 10],
        ResponseView::Value(v) => v.push(10u8),
        ResponseView::Null => seq![78u8, 85, 76, 76, 10],
        ResponseView::Error(m) => seq![69u8, 82, 82, 79, 82, 32] + encode_utf8(m).push(10u8),
        ResponseView::Stats(s) => encode_utf8(s).push(10u8),
    }
}

/// The line forms of responses one after the other.
pub open spec fn zero_copy_responses_bytes(rs: Seq<ResponseView>) -> Seq<u8>
    decreases rs.len(),
{
    if rs.len() == 0 {
        Seq::empty()
    } else {
        zero_copy_responses_bytes(rs.drop_last()) + zero_copy_response_bytes(rs.last())
    }
}

/// The bytes a response is expected to take in line form.
pub open spec fn response_size_guess(r: ResponseView) -> int {
    match r {
        ResponseView::Okay => 3,
        ResponseView::Pong => 5,
        ResponseView::Value(v) => v.len() as int + 1,
        ResponseView::Null => 5,
        ResponseView::Error(m) => 7 + encode_utf8(m).len() as int,
        ResponseView::Stats(s) => encode_utf8(s).len() as int + 1,
    }
}

/// The bytes responses are expected to take in line form, without margin.
pub open spec fn responses_size_guess(rs: Seq<ResponseView>) -> int
    decreases rs.len(),
{
    if rs.len() == 0 {
        0
    } else {
        responses_size_guess(rs.drop_last()) + response_size_guess(rs.last())
    }
}

proof fn lemma_size_guess_monotone(rs: Seq<ResponseView>, i: int)
    requires
        0 <= i <= rs.len(),
    ensures
        0 <= responses_size_guess(rs.subrange(0, i)) <= responses_size_guess(rs),
    decreases rs.len() - i,
{
    if i < rs.len() {
        lemma_size_guess_monotone(rs, i + 1);
        assert(rs.subrange(0, i + 1).drop_last() =~= rs.subrange(0, i));
        lemma_size_guess_nonneg(rs.subrange(0, i));
        assert(response_size_guess(rs.subrange(0, i + 1).last()) >= 1);
    } else {
        assert(rs.subrange(0, i) =~= rs);
        lemma_size_guess_nonneg(rs);
    }
}

proof fn lemma_size_guess_nonneg(rs: Seq<ResponseView>)
    ensures
        responses_size_guess(rs) >= 0,
    decreases rs.len(),
{
    if rs.len() > 0 {
        lemma_size_guess_nonneg(rs.drop_last());
    }
}

/// The expected size of responses in line form, with a tenth more as
/// margin.
pub fn estimate_response_batch_size(responses: &[Response]) -> (n: usize)
    requires
        responses_size_guess(responses@.map_values(|r: Response| r@)) <= usize::MAX / 2,
    ensures
        n == responses_size_guess(responses@.map_values(|r: Response| r@)) + responses_size_guess(
            responses@.map_values(|r: Response| r@),
        ) / 10,
{
    let ghost all = responses@.map_values(|r: Response| r@);
    let mut total: usize = 0;
    let mut i: usize = 0;
    while i < responses.len()
        invariant
            i <= responses@.len(),
            all == responses@.map_values(|r: Response| r@),
            responses_size_guess(all) <= usize::MAX / 2,
            total == responses_size_guess(all.subrange(0, i as int)),
        decreases responses@.len() - i,
    {
        proof {
            lemma_size_guess_monotone(all, i as int + 1);
            assert(all.subrange(0, i as int + 1).drop_last() =~= all.subrange(0, i as int));
            assert(all.subrange(0, i as int + 1).last() == responses@[i as int]@);
        }
        let add = match &responses[i] {
            Response::Okay => 3,
            Response::Pong => 5,
            Response::Value(v) => v.len() + 1,
            Response::Null => 5,
            Response::Error(m) => 6 + m.as_str().as_bytes().len() + 1,
            Response::Stats(s) => s.as_str().as_bytes().len() + 1,
        };
        total = total + add;
        i = i + 1;
    }
    assert(all.subrange(0, i as int) =~= all);
    total + total / 10
}

/// Commands and responses in line form, with a buffer pool.
pub struct ZeroCopySerializer {
    buffer_pool: ZeroCopyBufferPool,
    stats: ZeroCopySerializerStats,
}

impl ZeroCopySerializer {
    /// The figures.
    pub closed spec fn figures(&self) -> ZeroCopySerializerStats {
        self.stats
    }

    /// The pool's settings.
    pub closed spec fn pool_settings(&self) -> ZeroCopyConfig {
        self.buffer_pool.settings()
    }

    /// A serializer over a pool.
    pub fn new(buffer_pool: ZeroCopyBufferPool) -> (s: Self)
        ensures
            s.figures() == (ZeroCopySerializerStats {
                commands_serialized: 0,
                responses_serialized: 0,
                total_bytes_serialized: 0,
                zero_copy_operations: 0,
            }),
            s.pool_settings() == buffer_pool.settings(),
    {
        ZeroCopySerializer {
            buffer_pool,
            stats: ZeroCopySerializerStats {
                commands_serialized: 0,
                responses_serialized: 0,
                total_bytes_serialized: 0,
                zero_copy_operations: 0,
            },
        }
    }

    /// Reads one line.
    pub fn parse_single_command_zero_copy(&self, data: &[u8]) -> (res: Result<Command, ZeroCopyParseError>)
        ensures
            match (res, zero_copy_command_spec(data@)) {
                (Ok(c), Ok(sc)) => c@ == sc,
                (Err(e), Err(se)) => e@ == se,
                _ => false,
            },
    {
        if data.len() == 0 {
            return Err(ZeroCopyParseError::EmptyCommand);
        }
        let ping: [u8; 4] = [80u8, 73, 78, 71];
        let put: [u8; 4] = [80u8, 85, 84, 32];
        let get: [u8; 4] = [71u8, 69, 84, 32];
        let del: [u8; 4] = [68u8, 69, 76, 32];
        let stats: [u8; 5] = [83u8, 84, 65, 84, 83];
        let metrics: [u8; 7] = [77u8, 69, 84, 82, 73, 67, 83];
        assert(ping@ =~= seq![80u8, 73, 78, 71]);
        assert(put@ =~= seq![80u8, 85, 84, 32]);
        assert(get@ =~= seq![71u8, 69, 84, 32]);
        assert(del@ =~= seq![68u8, 69, 76, 32]);
        assert(stats@ =~= seq![83u8, 84, 65, 84, 83]);
        assert(metrics@ =~= seq![77u8, 69, 84, 82, 73, 67, 83]);
        if starts_with_ci(data, ping.as_slice()) {
            return Ok(Command::Ping);
        }
        if data.len() > 4 && starts_with_ci(data, put.as_slice()) {
            let args = vstd::slice::slice_subrange(data, 4, data.len());
            let sp = find_byte_from(args, 32u8, 0);
            if sp == args.len() {
                return Err(ZeroCopyParseError::MissingValue);
            }
            if sp == 0 {
                return Err(ZeroCopyParseError::MissingKey(0x02));
            }
            let key = copy_range(args, 0, sp);
            let value = copy_range(args, sp + 1, args.len());
            return Ok(Command::Put { key, value, ttl: None });
        }
        let is_get = starts_with_ci(data, get.as_slice());
        if is_get || starts_with_ci(data, del.as_slice()) {
            let args = vstd::slice::slice_subrange(data, 4, data.len());
            let k = find_byte_from(args, 32u8, 0);
            let t = if is_get {
                CMD_GET
            } else {
                CMD_DEL
            };
            if k == 0 {
                return Err(ZeroCopyParseError::MissingKey(t));
            }
            let key = copy_range(args, 0, k);
            if is_get {
                return Ok(Command::Get { key });
            } else {
                return Ok(Command::Del { key });
            }
        }
        if starts_with_ci(data, stats.as_slice()) {
            return Ok(Command::Stats);
        }
        if starts_with_ci(data, metrics.as_slice()) {
            return Ok(Command::Metrics);
        }
        Err(ZeroCopyParseError::UnknownCommand(vstd::slice::slice_to_vec(data)))
    }

    /// Reads every newline-ended line; lines that are no command are left
    /// out. It never fails; the commands read are counted (modulo 2^64).
    pub fn parse_command_batch_zero_copy(&mut self, data: &[u8]) -> (res: Result<Vec<Command>, ZeroCopyParseError>)
        ensures
            res matches Ok(v) && v@.map_values(|c: Command| c@) == zero_copy_batch_spec(data@, 0)
                && final(self).figures() == (ZeroCopySerializerStats {
                commands_serialized: old(self).figures().commands_serialized.wrapping_add(
                    v@.len() as u64,
                ),
                ..old(self).figures()
            }),
            final(self).pool_settings() == old(self).pool_settings(),
    {
        let mut commands: Vec<Command> = Vec::new();
        let mut offset: usize = 0;
        while offset < data.len()
            invariant
                offset <= data@.len(),
                commands@.map_values(|c: Command| c@) + zero_copy_batch_spec(data@, offset as int)
                    == zero_copy_batch_spec(data@, 0),
            ensures
                zero_copy_batch_spec(data@, offset as int) == Seq::<CommandView>::empty(),
            decreases data@.len() - offset,
        {
            let n = find_byte_from(data, 10u8, offset);
            if n >= data.len() {
                break;
            }
            let line = vstd::slice::slice_subrange(data, offset, n);
            let ghost before = commands@.map_values(|c: Command| c@);
            match self.parse_single_command_zero_copy(line) {
                Ok(c) => {
                    commands.push(c);
                    assert(commands@.map_values(|c: Command| c@) =~= before.push(c@));
                },
                Err(_) => {},
            }
            offset = n + 1;
        }
        assert(commands@.map_values(|c: Command| c@) + zero_copy_batch_spec(data@, offset as int)
            =~= commands@.map_values(|c: Command| c@));
        self.stats.commands_serialized = self.stats.commands_serialized.wrapping_add(
            commands.len() as u64,
        );
        Ok(commands)
    }

    /// Writes responses in line form one after the other; it never fails.
    /// A buffer comes from the pool; the responses, bytes and operation are
    /// counted (modulo 2^64).
    pub fn serialize_response_batch_zero_copy(&mut self, responses: &[Response]) -> (res: Result<Vec<u8>, ZeroCopyParseError>)
        requires
            old(self).pool_settings().alignment_size >= 1,
            old(self).pool_settings().default_buffer_size + old(self).pool_settings().alignment_size
                <= usize::MAX / 4,
            responses_size_guess(responses@.map_values(|r: Response| r@)) <= usize::MAX / 4,
        ensures
            res matches Ok(b) && b@ == zero_copy_responses_bytes(
                responses@.map_values(|r: Response| r@),
            ),
            final(self).pool_settings() == old(self).pool_settings(),
            responses@.len() == 0 ==> final(self).figures() == old(self).figures(),
            responses@.len() > 0 ==> (res matches Ok(b) && final(self).figures() == (ZeroCopySerializerStats {
                responses_serialized: old(self).figures().responses_serialized.wrapping_add(
                    responses@.len() as u64,
                ),
                total_bytes_serialized: old(self).figures().total_bytes_serialized.wrapping_add(
                    b@.len() as u64,
                ),
                zero_copy_operations: old(self).figures().zero_copy_operations.wrapping_add(1),
                ..old(self).figures()
            })),
    {
        if responses.len() == 0 {
            assert(responses@.map_values(|r: Response| r@) =~= Seq::<ResponseView>::empty());
            return Ok(Vec::new());
        }
        let estimate = estimate_response_batch_size(responses);
        let mut buffer = self.buffer_pool.get_buffer(estimate);
        let mut i: usize = 0;
        while i < responses.len()
            invariant
                i <= responses@.len(),
                buffer@ == zero_copy_responses_bytes(
                    responses@.subrange(0, i as int).map_values(|r: Response| r@),
                ),
            decreases responses@.len() - i,
        {
            let ghost before = buffer@;
            match &responses[i] {
                Response::Okay => {
                    buffer.push(79u8);
                    buffer.push(75u8);
                    buffer.push(10u8);
                },
                Response::Pong => {
                    buffer.push(80u8);
                    buffer.push(79u8);
                    buffer.push(78u8);
                    buffer.push(71u8);
                    buffer.push(10u8);
                },
                Response::Value(v) => {
                    append_bytes(&mut buffer, v.as_slice());
                    buffer.push(10u8);
                },
                Response::Null => {
                    buffer.push(78u8);
                    buffer.push(85u8);
                    buffer.push(76u8);
                    buffer.push(76u8);
                    buffer.push(10u8);
                },
                Response::Error(m) => {
                    buffer.push(69u8);
                    buffer.push(82u8);
                    buffer.push(82u8);
                    buffer.push(79u8);
                    buffer.push(82u8);
                    buffer.push(32u8);
                    append_bytes(&mut buffer, m.as_str().as_bytes());
                    buffer.push(10u8);
                },
                Response::Stats(s) => {
                    append_bytes(&mut buffer, s.as_str().as_bytes());
                    buffer.push(10u8);
                },
            }
            proof {
                let sub = responses@.subrange(0, i as int + 1).map_values(|r: Response| r@);
                assert(sub.drop_last() =~= responses@.subrange(0, i as int).map_values(
                    |r: Response| r@,
                ));
                assert(sub.last() == responses@[i as int]@);
                assert(buffer@ =~= before + zero_copy_response_bytes(responses@[i as int]@));
            }
            i = i + 1;
        }
        assert(responses@.subrange(0, i as int) =~= responses@);
        self.stats.responses_serialized = self.stats.responses_serialized.wrapping_add(
            responses.len() as u64,
        );
        self.stats.total_bytes_serialized = self.stats.total_bytes_serialized.wrapping_add(
            buffer.len() as u64,
        );
        self.stats.zero_copy_operations = self.stats.zero_copy_operations.wrapping_add(1);
        Ok(buffer)
    }

    /// The figures.
    pub fn get_stats(&self) -> (s: ZeroCopySerializerStats)
        ensures
            s == self.figures(),
    {
        self.stats
    }
}

proof fn lemma_find_byte_at(s: Seq<u8>, c: u8, k: int)
    requires
        0 <= k <= s.len(),
        k < s.len() ==> s[k] == c,
        forall|j: int| 0 <= j < k ==> s[j] != c,
    ensures
        find_byte(s, c, 0) == k,
{
    lemma_find_byte(s, c, 0);
    let f = find_byte(s, c, 0);
    if f < k {
        assert(s[f] == c);
    } else if f > k {
        assert(s[k] != c);
    }
}

/// A line `PUT key value`, with a key of at least one byte and no space,
/// is read as a PUT of that key and of everything after the space that ends
/// the key, with no TTL.
pub proof fn lemma_zero_copy_put_line(k: Seq<u8>, v: Seq<u8>)
    requires
        k.len() > 0,
        forall|i: int| 0 <= i < k.len() ==> k[i] != 32u8,
    ensures
        zero_copy_command_spec(seq![80u8, 85, 84, 32] + k + seq![32u8] + v)
            == Ok::<CommandView, ZeroCopyParseErrorView>(CommandView::Put { key: k, value: v, ttl: None }),
{
    let b = seq![80u8, 85, 84, 32] + k + seq![32u8] + v;
    assert(ascii_lower_byte(b[1]) != ascii_lower_byte(seq![80u8, 73, 78, 71][1]));
    assert(!starts_ci(b, seq![80u8, 73, 78, 71]));
    assert(starts_ci(b, seq![80u8, 85, 84, 32]));
    let args = b.subrange(4, b.len() as int);
    assert(args =~= k + seq![32u8] + v);
    assert(args[k.len() as int] == 32u8);
    assert forall|j: int| 0 <= j < k.len() implies args[j] != 32u8 by {
        assert(args[j] == k[j]);
    }
    lemma_find_byte_at(args, 32u8, k.len() as int);
    assert(args.subrange(0, k.len() as int) =~= k);
    assert(args.subrange(k.len() as int + 1, args.len() as int) =~= v);
}

/// A batch of one such line ended by a newline, with no newline in the key
/// or the value, gives that one PUT.
pub proof fn lemma_zero_copy_put_batch(k: Seq<u8>, v: Seq<u8>)
    requires
        k.len() > 0,
        forall|i: int| 0 <= i < k.len() ==> k[i] != 32u8 && k[i] != 10u8,
        forall|i: int| 0 <= i < v.len() ==> v[i] != 10u8,
    ensures
        zero_copy_batch_spec(seq![80u8, 85, 84, 32] + k + seq![32u8] + v + seq![10u8], 0)
            == seq![CommandView::Put { key: k, value: v, ttl: None }],
{
    let line = seq![80u8, 85, 84, 32] + k + seq![32u8] + v;
    let d = line + seq![10u8];
    assert forall|j: int| 0 <= j < line.len() implies d[j] != 10u8 by {
        if j >= 4 && j < 4 + k.len() {
            assert(d[j] == k[j - 4]);
        } else if j >= 5 + k.len() {
            assert(d[j] == v[j - 5 - k.len()]);
        }
    }
    lemma_find_byte_at(d, 10u8, line.len() as int);
    assert(d.subrange(0, line.len() as int) =~= line);
    lemma_zero_copy_put_line(k, v);
    assert(zero_copy_batch_spec(d, line.len() as int + 1) == Seq::<CommandView>::empty());
    assert(seq![CommandView::Put { key: k, value: v, ttl: None }] + Seq::<CommandView>::empty()
        =~= seq![CommandView::Put { key: k, value: v, ttl: None }]);
}

/// Lines `GET key` and `DEL key`, with a key of at least one byte and no
/// space, are read as a GET and a DEL of that key.
pub proof fn lemma_zero_copy_key_lines(k: Seq<u8>)
    requires
        k.len() > 0,
        forall|i: int| 0 <= i < k.len() ==> k[i] != 32u8,
    ensures
        zero_copy_command_spec(seq![71u8, 69, 84, 32] + k)
            == Ok::<CommandView, ZeroCopyParseErrorView>(CommandView::Get { key: k }),
        zero_copy_command_spec(seq![68u8, 69, 76, 32] + k)
            == Ok::<CommandView, ZeroCopyParseErrorView>(CommandView::Del { key: k }),
{
    let g = seq![71u8, 69, 84, 32] + k;
    let d = seq![68u8, 69, 76, 32] + k;
    assert(ascii_lower_byte(g[0]) != ascii_lower_byte(seq![80u8, 73, 78, 71][0]));
    assert(ascii_lower_byte(d[0]) != ascii_lower_byte(seq![80u8, 73, 78, 71][0]));
    assert(ascii_lower_byte(g[0]) != ascii_lower_byte(seq![80u8, 85, 84, 32][0]));
    assert(ascii_lower_byte(d[0]) != ascii_lower_byte(seq![80u8, 85, 84, 32][0]));
    assert(!starts_ci(g, seq![80u8, 73, 78, 71]));
    assert(!starts_ci(d, seq![80u8, 73, 78, 71]));
    assert(!starts_ci(g, seq![80u8, 85, 84, 32]));
    assert(!starts_ci(d, seq![80u8, 85, 84, 32]));
    assert(starts_ci(g, seq![71u8, 69, 84, 32]));
    assert(ascii_lower_byte(d[0]) != ascii_lower_byte(seq![71u8, 69, 84, 32][0]));
    assert(!starts_ci(d, seq![71u8, 69, 84, 32]));
    assert(starts_ci(d, seq![68u8, 69, 76, 32]));
    assert(g.subrange(4, g.len() as int) =~= k);
    assert(d.subrange(4, d.len() as int) =~= k);
    lemma_find_byte_at(k, 32u8, k.len() as int);
    assert(k.subrange(0, k.len() as int) =~= k);
}

} // verus!
