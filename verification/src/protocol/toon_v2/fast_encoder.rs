//! Encoding of TOON V2 commands and responses.

use vstd::prelude::*;
use vstd::bytes::{spec_u16_to_le_bytes, spec_u32_to_le_bytes, u16_to_le_bytes, u32_to_le_bytes};
use vstd::utf8::{decode_utf8, encode_utf8, valid_utf8};
use crate::protocol::text::string_from_utf8;
use crate::protocol::toon_v2::flags::{INTERNED_KEY, INTERNED_VALUE};
use crate::protocol::toon_v2::{
    command_byte, intern_spec, response_byte, wrap32, FastStringInterner, ToonV2Batch,
    ToonV2Command, ToonV2Metrics, ToonV2Response, ToonV2SingleCommand, TOON_V2_VERSION,
};
use crate::protocol::wire::{append_bytes, vec_capacity};

verus! {

/// How a key or value is sent, given the strings `st` already numbered: a
/// UTF-8 string of two bytes or more as the four little-endian bytes of its
/// number (with `flag` set), anything else as it is.
pub open spec fn prepare(b: Seq<u8>, flag: u8, st: Seq<Seq<char>>) -> (Seq<u8>, u8, Seq<Seq<char>>) {
    if valid_utf8(b) && b.len() >= 2 {
        let (id, st2) = intern_spec(st, decode_utf8(b));
        (spec_u32_to_le_bytes(id), flag, st2)
    } else {
        (b, 0u8, st)
    }
}

/// Whether `prepare` sent the bytes as a number.
pub open spec fn prepared_as_number(b: Seq<u8>) -> bool {
    valid_utf8(b) && b.len() >= 2
}

/// The header of a command packet with the given lengths and flags.
pub open spec fn v2_command_header(c: ToonV2Command, flags: u8, key_len: nat, value_len: nat) -> Seq<u8> {
    seq![0xF0u8, 0x0Du8, TOON_V2_VERSION, command_byte(c), flags] + spec_u16_to_le_bytes(key_len as u16)
        + spec_u32_to_le_bytes(value_len as u32)
}

/// Encoding a command given the numbered strings `st`: the packet bytes and
/// the strings numbered afterwards.
pub open spec fn v2_encode(c: ToonV2Command, key: Seq<u8>, value: Option<Seq<u8>>, st: Seq<Seq<char>>) -> (Seq<u8>, Seq<Seq<char>>) {
    let (kb, kf, st1) = prepare(key, INTERNED_KEY, st);
    let (vb, vf, st2) = match value {
        Some(v) => prepare(v, INTERNED_VALUE, st1),
        None => (Seq::<u8>::empty(), 0u8, st1),
    };
    (v2_command_header(c, kf | vf, kb.len(), vb.len()) + kb + vb, st2)
}

/// The counters after encoding a command into `len` bytes: a hit or a miss
/// for the key, one for a value if there is one, and the command.
pub open spec fn metrics_after_encode(m: ToonV2Metrics, key: Seq<u8>, value: Option<Seq<u8>>, len: nat) -> ToonV2Metrics {
    let hits = (if prepared_as_number(key) { 1u32 } else { 0u32 }) + match value {
        Some(v) => if prepared_as_number(v) { 1u32 } else { 0u32 },
        None => 0u32,
    };
    let misses = (if prepared_as_number(key) { 0u32 } else { 1u32 }) + match value {
        Some(v) => if prepared_as_number(v) { 0u32 } else { 1u32 },
        None => 0u32,
    };
    ToonV2Metrics {
        string_intern_hits: wrap32_n(m.string_intern_hits, hits as nat),
        string_intern_misses: wrap32_n(m.string_intern_misses, misses as nat),
        commands_processed: wrap32(m.commands_processed, 1),
        bytes_processed: wrap32(m.bytes_processed, len as u32),
        ..m
    }
}

/// A 32-bit counter that wraps, increased by one `n` times.
pub open spec fn wrap32_n(a: u32, n: nat) -> u32
    decreases n,
{
    if n == 0 {
        a
    } else {
        wrap32(wrap32_n(a, (n - 1) as nat), 1)
    }
}

/// The plain values of a command: its key and value bytes.
pub open spec fn value_view(c: ToonV2SingleCommand) -> Option<Seq<u8>> {
    match c.value {
        Some(v) => Some(v@),
        None => None,
    }
}

/// Encoding commands one after the other: the bytes, the strings numbered
/// and the counters afterwards.
pub open spec fn v2_encode_all(cmds: Seq<ToonV2SingleCommand>, st: Seq<Seq<char>>, m: ToonV2Metrics) -> (Seq<u8>, Seq<Seq<char>>, ToonV2Metrics)
    decreases cmds.len(),
{
    if cmds.len() == 0 {
        (Seq::empty(), st, m)
    } else {
        let (b0, st0, m0) = v2_encode_all(cmds.drop_last(), st, m);
        let c = cmds.last();
        let (b1, st1) = v2_encode(c.command, c.key@, value_view(c), st0);
        (b0 + b1, st1, metrics_after_encode(m0, c.key@, value_view(c), b1.len()))
    }
}

proof fn lemma_encode_all_grows(cmds: Seq<ToonV2SingleCommand>, st: Seq<Seq<char>>, m: ToonV2Metrics)
    ensures
        v2_encode_all(cmds, st, m).1.len() <= st.len() + 2 * cmds.len(),
    decreases cmds.len(),
{
    if cmds.len() > 0 {
        lemma_encode_all_grows(cmds.drop_last(), st, m);
    }
}

/// The kept buffers after a buffer of the given capacity is handed back:
/// kept while fewer than a hundred are and it holds at least 1024 bytes.
pub open spec fn pool_after_return(pool: Seq<Vec<u8>>, buf: Vec<u8>, capacity: usize) -> Seq<Vec<u8>> {
    if pool.len() < 100 && capacity >= 1024 {
        pool.push(buf)
    } else {
        pool
    }
}

/// Encoder of TOON V2 packets; it numbers the strings it sends.
pub struct ToonV2FastEncoder {
    interner: FastStringInterner,
    metrics: ToonV2Metrics,
    buffer_pool: Vec<Vec<u8>>,
    simd_enabled: bool,
}

impl ToonV2FastEncoder {
    /// An encoder that has numbered no string, with SIMD off (the CPU
    /// feature test is not made here).
    pub fn new() -> (e: Self)
        ensures
            e.wf(),
            e.strings() == Seq::<Seq<char>>::empty(),
            e.metrics() == ToonV2Metrics::new_spec(),
            !e.simd_enabled(),
            e.pool().len() == 0,
    {
        ToonV2FastEncoder {
            interner: FastStringInterner::new(),
            metrics: ToonV2Metrics::new(),
            buffer_pool: Vec::new(),
            simd_enabled: false,
        }
    }

    pub closed spec fn wf(&self) -> bool {
        self.interner.wf()
    }

    /// The strings numbered so far.
    pub closed spec fn strings(&self) -> Seq<Seq<char>> {
        self.interner.strings()
    }

    pub closed spec fn metrics(&self) -> ToonV2Metrics {
        self.metrics
    }

    pub closed spec fn simd_enabled(&self) -> bool {
        self.simd_enabled
    }

    fn prepare_bytes(&mut self, b: &[u8], flag: u8) -> (r: (Vec<u8>, u8))
        requires
            old(self).wf(),
            old(self).strings().len() + 1 < u32::MAX,
        ensures
            final(self).wf(),
            final(self).simd_enabled() == old(self).simd_enabled(),
            (r.0@, r.1, final(self).strings()) == prepare(b@, flag, old(self).strings()),
            final(self).metrics() == if prepared_as_number(b@) {
                ToonV2Metrics { string_intern_hits: wrap32(old(self).metrics().string_intern_hits, 1), ..old(self).metrics() }
            } else {
                ToonV2Metrics { string_intern_misses: wrap32(old(self).metrics().string_intern_misses, 1), ..old(self).metrics() }
            },
    {
        let copy = vstd::slice::slice_to_vec(b);
        match string_from_utf8(copy) {
            Some(s) => {
                proof {
                    vstd::utf8::decode_utf8_encode_utf8(b@);
                }
                if FastStringInterner::should_intern(s.as_str()) {
                    let id = self.interner.intern_fast(s.as_str());
                    self.metrics.record_intern_hit();
                    return (u32_to_le_bytes(id), flag);
                }
            },
            None => {},
        }
        self.metrics.record_intern_miss();
        (vstd::slice::slice_to_vec(b), 0u8)
    }

    /// Prepares a key: a UTF-8 key of two bytes or more is sent as its
    /// number.
    pub fn prepare_key(&mut self, key: &[u8]) -> (r: (Vec<u8>, u8))
        requires
            old(self).wf(),
            old(self).strings().len() + 1 < u32::MAX,
        ensures
            final(self).wf(),
            final(self).simd_enabled() == old(self).simd_enabled(),
            (r.0@, r.1, final(self).strings()) == prepare(key@, INTERNED_KEY, old(self).strings()),
            final(self).metrics() == if prepared_as_number(key@) {
                ToonV2Metrics { string_intern_hits: wrap32(old(self).metrics().string_intern_hits, 1), ..old(self).metrics() }
            } else {
                ToonV2Metrics { string_intern_misses: wrap32(old(self).metrics().string_intern_misses, 1), ..old(self).metrics() }
            },
    {
        self.prepare_bytes(key, INTERNED_KEY)
    }

    /// Prepares a value: a UTF-8 value of two bytes or more is sent as its
    /// number.
    pub fn prepare_value(&mut self, value: &[u8]) -> (r: (Vec<u8>, u8))
        requires
            old(self).wf(),
            old(self).strings().len() + 1 < u32::MAX,
        ensures
            final(self).wf(),
            final(self).simd_enabled() == old(self).simd_enabled(),
            (r.0@, r.1, final(self).strings()) == prepare(value@, INTERNED_VALUE, old(self).strings()),
            final(self).metrics() == if prepared_as_number(value@) {
                ToonV2Metrics { string_intern_hits: wrap32(old(self).metrics().string_intern_hits, 1), ..old(self).metrics() }
            } else {
                ToonV2Metrics { string_intern_misses: wrap32(old(self).metrics().string_intern_misses, 1), ..old(self).metrics() }
            },
    {
        self.prepare_bytes(value, INTERNED_VALUE)
    }

    /// The buffers kept for reuse; the last one is handed out first.
    pub closed spec fn pool(&self) -> Seq<Vec<u8>> {
        self.buffer_pool@
    }

    /// An empty buffer: the last one kept, emptied, or a new one.
    fn get_buffer(&mut self, estimated_size: usize) -> (buf: Vec<u8>)
        ensures
            buf@.len() == 0,
            final(self).pool() == (if old(self).pool().len() > 0 {
                old(self).pool().drop_last()
            } else {
                old(self).pool()
            }),
            final(self).interner == old(self).interner,
            final(self).metrics == old(self).metrics,
            final(self).simd_enabled == old(self).simd_enabled,
    {
        match self.buffer_pool.pop() {
            Some(mut buf) => {
                buf.clear();
                buf
            },
            None => Vec::new(),
        }
    }

    /// Keeps a buffer for reuse while the pool holds fewer than a hundred
    /// and the buffer can hold at least 1024 bytes; which capacity the
    /// allocator gave is not named.
    pub fn return_buffer(&mut self, buf: Vec<u8>)
        ensures
            final(self).strings() == old(self).strings(),
            final(self).wf() == old(self).wf(),
            final(self).metrics() == old(self).metrics(),
            final(self).simd_enabled() == old(self).simd_enabled(),
            exists|capacity: usize| capacity >= buf@.len() && final(self).pool() == #[trigger] pool_after_return(old(self).pool(), buf, capacity),
    {
        let ghost b = buf;
        let capacity = vec_capacity(&buf);
        if self.buffer_pool.len() < 100 && capacity >= 1024 {
            self.buffer_pool.push(buf);
        }
        assert(self.pool() == pool_after_return(old(self).pool(), b, capacity));
    }

    /// Encodes a command: header, key, value, each key or value that is a
    /// UTF-8 string of two bytes or more sent as its number.
    pub fn encode_command(&mut self, command: &ToonV2SingleCommand) -> (res: Result<Vec<u8>, String>)
        requires
            old(self).wf(),
            old(self).strings().len() + 2 < u32::MAX,
        ensures
            final(self).wf(),
            final(self).simd_enabled() == old(self).simd_enabled(),
            res matches Ok(bytes) && ({
                let value = match &command.value { Some(v) => Some(v@), None => None };
                let (b, st) = v2_encode(command.command, command.key@, value, old(self).strings());
                &&& bytes@ == b
                &&& final(self).strings() == st
                &&& final(self).metrics() == metrics_after_encode(old(self).metrics(), command.key@, value, b.len())
            }),
    {
        let mut buf = self.get_buffer(0);
        let (key_bytes, key_flags) = self.prepare_key(command.key.as_slice());
        let ghost m1 = self.metrics();
        let (value_bytes, value_flags) = match &command.value {
            Some(v) => self.prepare_value(v.as_slice()),
            None => (Vec::new(), 0u8),
        };
        let flags = key_flags | value_flags;
        buf.push(0xF0u8);
        buf.push(0x0Du8);
        buf.push(TOON_V2_VERSION);
        buf.push(command.command.to_byte());
        buf.push(flags);
        let kl = u16_to_le_bytes(key_bytes.len() as u16);
        append_bytes(&mut buf, kl.as_slice());
        let vl = u32_to_le_bytes(value_bytes.len() as u32);
        append_bytes(&mut buf, vl.as_slice());
        append_bytes(&mut buf, key_bytes.as_slice());
        if value_bytes.len() != 0 {
            append_bytes(&mut buf, value_bytes.as_slice());
        }
        proof {
            let value = match &command.value { Some(v) => Some(v@), None => None };
            let (b, st) = v2_encode(command.command, command.key@, value, old(self).strings());
            assert(buf@ =~= b);
        }
        self.metrics.record_command(buf.len() as u32);
        proof {
            reveal_with_fuel(wrap32_n, 3);
            let value = match &command.value { Some(v) => Some(v@), None => None };
            let (b, st) = v2_encode(command.command, command.key@, value, old(self).strings());
            assert(buf@ == b);
            assert(self.strings() == st);
            assert(self.metrics() == metrics_after_encode(old(self).metrics(), command.key@, value, b.len()));
        }
        Ok(buf)
    }

    /// Encodes the commands of a batch one after the other; the batch is
    /// counted as well.
    pub fn encode_batch(&mut self, batch: &ToonV2Batch) -> (res: Result<Vec<u8>, String>)
        requires
            old(self).wf(),
            old(self).strings().len() + 2 * batch.commands@.len() + 2 < u32::MAX,
        ensures
            final(self).wf(),
            final(self).simd_enabled() == old(self).simd_enabled(),
            res matches Ok(bytes) && ({
                let (b, st, m) = v2_encode_all(batch.commands@, old(self).strings(), old(self).metrics());
                &&& bytes@ == b
                &&& final(self).strings() == st
                &&& final(self).metrics() == (ToonV2Metrics {
                    batch_operations: wrap32(m.batch_operations, 1),
                    commands_processed: wrap32(m.commands_processed, batch.commands@.len() as u32),
                    ..m
                })
            }),
    {
        let mut buf = self.get_buffer(0);
        let mut i: usize = 0;
        while i < batch.commands.len()
            invariant
                i <= batch.commands@.len(),
                self.wf(),
                self.simd_enabled() == old(self).simd_enabled(),
                old(self).strings().len() + 2 * batch.commands@.len() + 2 < u32::MAX,
                ({
                    let (b, st, m) = v2_encode_all(batch.commands@.subrange(0, i as int), old(self).strings(), old(self).metrics());
                    &&& buf@ == b
                    &&& self.strings() == st
                    &&& self.metrics() == m
                }),
            decreases batch.commands@.len() - i,
        {
            proof {
                lemma_encode_all_grows(batch.commands@.subrange(0, i as int), old(self).strings(), old(self).metrics());
                assert(batch.commands@.subrange(0, i + 1 as int).drop_last() =~= batch.commands@.subrange(0, i as int));
            }
            let bytes = self.encode_command(&batch.commands[i]).unwrap();
            append_bytes(&mut buf, bytes.as_slice());
            i += 1;
        }
        assert(batch.commands@.subrange(0, i as int) =~= batch.commands@);
        self.metrics.record_batch(batch.commands.len() as u32);
        Ok(buf)
    }

    /// Encodes a batch, counting a SIMD operation when SIMD is on and the
    /// batch holds four commands or more.
    pub fn encode_batch_simd(&mut self, batch: &ToonV2Batch) -> (res: Result<Vec<u8>, String>)
        requires
            old(self).wf(),
            old(self).strings().len() + 2 * batch.commands@.len() + 2 < u32::MAX,
        ensures
            final(self).wf(),
            res matches Ok(bytes) && ({
                let m0 = if old(self).simd_enabled() && batch.commands@.len() >= 4 {
                    ToonV2Metrics { simd_operations: wrap32(old(self).metrics().simd_operations, 1), ..old(self).metrics() }
                } else {
                    old(self).metrics()
                };
                let (b, st, m) = v2_encode_all(batch.commands@, old(self).strings(), m0);
                &&& bytes@ == b
                &&& final(self).strings() == st
                &&& final(self).metrics() == (ToonV2Metrics {
                    batch_operations: wrap32(m.batch_operations, 1),
                    commands_processed: wrap32(m.commands_processed, batch.commands@.len() as u32),
                    ..m
                })
            }),
    {
        if !self.simd_enabled || batch.commands.len() < 4 {
            return self.encode_batch(batch);
        }
        self.metrics.record_simd_op();
        self.encode_batch(batch)
    }

    /// Encodes a response: header, then the data if any.
    pub fn encode_response(&mut self, response_type: ToonV2Response, data: Option<&[u8]>) -> (res: Result<Vec<u8>, String>)
        ensures
            final(self).strings() == old(self).strings(),
            final(self).wf() == old(self).wf(),
            final(self).metrics() == old(self).metrics(),
            res matches Ok(bytes) && bytes@ == seq![0xF0u8, 0x0Du8, TOON_V2_VERSION, response_byte(response_type), 0u8]
                + spec_u32_to_le_bytes(match data { Some(d) => d@.len() as u32, None => 0u32 })
                + match data { Some(d) => d@, None => Seq::empty() },
    {
        let data_len: u32 = match data {
            Some(d) => d.len() as u32,
            None => 0,
        };
        let mut buf = self.get_buffer(9);
        buf.push(0xF0u8);
        buf.push(0x0Du8);
        buf.push(TOON_V2_VERSION);
        buf.push(response_type.to_byte());
        buf.push(0u8);
        let dl = u32_to_le_bytes(data_len);
        append_bytes(&mut buf, dl.as_slice());
        match data {
            Some(d) => append_bytes(&mut buf, d),
            None => {},
        }
        assert(buf@ =~= seq![0xF0u8, 0x0Du8, TOON_V2_VERSION, response_byte(response_type), 0u8]
            + spec_u32_to_le_bytes(data_len) + match data { Some(d) => d@, None => Seq::empty() });
        Ok(buf)
    }

    /// The counters of this encoder.
    pub fn get_metrics(&self) -> (m: &ToonV2Metrics)
        ensures
            *m == self.metrics(),
    {
        &self.metrics
    }

    /// Sets every counter to zero.
    pub fn reset_metrics(&mut self)
        ensures
            final(self).metrics() == ToonV2Metrics::new_spec(),
            final(self).strings() == old(self).strings(),
            final(self).wf() == old(self).wf(),
    {
        self.metrics = ToonV2Metrics::new();
    }
}


/// The bytes of a response: header, then the data if any.
pub open spec fn v2_response_bytes(r: ToonV2Response, data: Option<Seq<u8>>) -> Seq<u8> {
    seq![0xF0u8, 0x0Du8, TOON_V2_VERSION, response_byte(r), 0u8] + spec_u32_to_le_bytes(
        match data {
            Some(d) => d.len() as u32,
            None => 0u32,
        },
    ) + match data {
        Some(d) => d,
        None => Seq::empty(),
    }
}

/// The responses one after the other.
pub open spec fn v2_responses_bytes(rs: Seq<(ToonV2Response, Option<&[u8]>)>) -> Seq<u8>
    decreases rs.len(),
{
    if rs.len() == 0 {
        Seq::empty()
    } else {
        v2_responses_bytes(rs.drop_last()) + v2_response_bytes(
            rs.last().0,
            match rs.last().1 {
                Some(d) => Some(d@),
                None => None,
            },
        )
    }
}

/// Encodes several responses into one buffer.
pub struct ToonV2BatchResponseEncoder {
    encoder: ToonV2FastEncoder,
}

impl ToonV2BatchResponseEncoder {
    /// The figures of the encoder it writes with.
    pub closed spec fn metrics(&self) -> ToonV2Metrics {
        self.encoder.metrics()
    }

    /// The strings that encoder has numbered.
    pub closed spec fn strings(&self) -> Seq<Seq<char>> {
        self.encoder.strings()
    }

    /// A response encoder with fresh figures and no string numbered.
    pub fn new() -> (e: Self)
        ensures
            e.metrics() == ToonV2Metrics::new_spec(),
            e.strings() == Seq::<Seq<char>>::empty(),
    {
        ToonV2BatchResponseEncoder { encoder: ToonV2FastEncoder::new() }
    }

    /// The responses, each header and data, one after the other.
    pub fn encode_responses(&mut self, responses: &[(ToonV2Response, Option<&[u8]>)]) -> (res: Result<Vec<u8>, String>)
        ensures
            res matches Ok(bytes) && bytes@ == v2_responses_bytes(responses@),
            final(self).metrics() == old(self).metrics(),
            final(self).strings() == old(self).strings(),
    {
        let mut buf: Vec<u8> = Vec::new();
        let mut i: usize = 0;
        while i < responses.len()
            invariant
                i <= responses@.len(),
                self.metrics() == old(self).metrics(),
                self.strings() == old(self).strings(),
                buf@ == v2_responses_bytes(responses@.subrange(0, i as int)),
            decreases responses@.len() - i,
        {
            assert(responses@.subrange(0, i + 1 as int).drop_last() =~= responses@.subrange(0, i as int));
            let (response_type, data) = responses[i];
            let bytes = self.encoder.encode_response(response_type, data).unwrap();
            append_bytes(&mut buf, bytes.as_slice());
            i += 1;
        }
        assert(responses@.subrange(0, i as int) =~= responses@);
        Ok(buf)
    }
}

} // verus!
