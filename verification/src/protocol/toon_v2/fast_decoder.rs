//! Decoding of TOON V2 command packets.

use vstd::prelude::*;
use vstd::bytes::{spec_u16_from_le_bytes, spec_u32_from_le_bytes, u16_from_le_bytes, u32_from_le_bytes};
use crate::protocol::toon_v2::flags::{INTERNED_KEY, INTERNED_VALUE};
use crate::protocol::toon_v2::{
    command_of_byte, wrap32, FastStringInterner, ToonV2Batch, ToonV2Command, ToonV2Metrics,
    ToonV2Packet, ToonV2SingleCommand, TOON_V2_VERSION,
};
use crate::protocol::wire::copy_range;
use crate::protocol::toon_v2::fast_encoder::{prepare, v2_command_header, v2_encode};
use crate::protocol::toon_v2::lemma_command_byte_roundtrip;
use vstd::bytes::{spec_u16_to_le_bytes, spec_u32_to_le_bytes};
use vstd::utf8::{decode_utf8, valid_utf8};

verus! {

/// Why bytes are not a TOON V2 command.
#[derive(Debug, Clone, Copy, PartialEq, Eq, Structural)]
pub enum ToonV2Error {
    /// Fewer bytes than a header.
    PacketTooShort,
    /// The packet does not start with the TOON V2 magic.
    InvalidMagic,
    /// A version other than TOON V2's.
    UnsupportedVersion(u8),
    /// Fewer bytes than the header announces.
    IncompletePacket,
    /// An interned key that is not four bytes.
    InvalidInternedKeyLength,
    /// An interned key number that the decoder does not hold.
    InvalidInternedKeyId,
    /// An interned value that is not four bytes.
    InvalidInternedValueLength,
    /// An interned value number that the decoder does not hold.
    InvalidInternedValueId,
    /// A command byte that names no command.
    InvalidCommand(u8),
    /// A packet of a batch is cut short.
    IncompleteBatchPacket,
}

/// A decoded command as plain values: command, key, value.
pub type DecodedV2 = (ToonV2Command, Seq<u8>, Option<Seq<u8>>);

/// The header fields of `b`, when it holds a header of the current version.
pub open spec fn v2_header(b: Seq<u8>) -> Result<(u8, u8, int, int), ToonV2Error> {
    if b.len() < 11 {
        Err(ToonV2Error::PacketTooShort)
    } else if b[2] != TOON_V2_VERSION {
        Err(ToonV2Error::UnsupportedVersion(b[2]))
    } else {
        Ok((b[3], b[4], spec_u16_from_le_bytes(b.subrange(5, 7)) as int, spec_u32_from_le_bytes(b.subrange(7, 11)) as int))
    }
}

/// The command that `b` holds, given the strings `st` that the decoder
/// holds: an interned key or value is four bytes, the little-endian number
/// of a held string, which stands for that string's UTF-8 bytes; a value of
/// length zero is no value.
pub open spec fn v2_decode(b: Seq<u8>, st: Seq<Seq<char>>) -> Result<DecodedV2, ToonV2Error> {
    if !(b.len() >= 2 && b[0] == 0xF0 && b[1] == 0x0D) {
        Err(ToonV2Error::InvalidMagic)
    } else if b.len() < 11 {
        Err(ToonV2Error::PacketTooShort)
    } else {
        match v2_header(b) {
            Err(e) => Err(e),
            Ok((cmd, flags, kl, vl)) => {
                let key_end = 11 + kl;
                let value_end = key_end + vl;
                if b.len() < value_end {
                    Err(ToonV2Error::IncompletePacket)
                } else {
                    let key: Result<Seq<u8>, ToonV2Error> = if flags & INTERNED_KEY != 0 {
                        if kl != 4 {
                            Err(ToonV2Error::InvalidInternedKeyLength)
                        } else {
                            let id = spec_u32_from_le_bytes(b.subrange(11, 15));
                            if (id as int) < st.len() {
                                Ok(vstd::utf8::encode_utf8(st[id as int]))
                            } else {
                                Err(ToonV2Error::InvalidInternedKeyId)
                            }
                        }
                    } else {
                        Ok(b.subrange(11, key_end))
                    };
                    match key {
                        Err(e) => Err(e),
                        Ok(key) => {
                            let value: Result<Option<Seq<u8>>, ToonV2Error> = if vl > 0 {
                                if flags & INTERNED_VALUE != 0 {
                                    if vl != 4 {
                                        Err(ToonV2Error::InvalidInternedValueLength)
                                    } else {
                                        let id = spec_u32_from_le_bytes(b.subrange(key_end, key_end + 4));
                                        if (id as int) < st.len() {
                                            Ok(Some(vstd::utf8::encode_utf8(st[id as int])))
                                        } else {
                                            Err(ToonV2Error::InvalidInternedValueId)
                                        }
                                    }
                                } else {
                                    Ok(Some(b.subrange(key_end, value_end)))
                                }
                            } else {
                                Ok(None)
                            };
                            match value {
                                Err(e) => Err(e),
                                Ok(value) => match command_of_byte(cmd) {
                                    None => Err(ToonV2Error::InvalidCommand(cmd)),
                                    Some(c) => Ok((c, key, value)),
                                },
                            }
                        },
                    }
                }
            },
        }
    }
}

/// A decoded command and its plain values agree.
pub open spec fn decoded_is(c: ToonV2SingleCommand, d: DecodedV2) -> bool {
    &&& c.command == d.0
    &&& c.key@ == d.1
    &&& match (c.value, d.2) {
        (Some(v), Some(sv)) => v@ == sv,
        (None, None) => true,
        _ => false,
    }
    &&& c.ttl is None
}

/// Decoding the packets of a batch from position `off`: each decoded
/// command with the length of its packet, or the first failure together
/// with the lengths of the packets decoded before it. Decoding stops when
/// fewer bytes than a header remain.
pub open spec fn v2_batch(b: Seq<u8>, off: int, st: Seq<Seq<char>>) -> (Seq<(DecodedV2, int)>, Option<ToonV2Error>)
    decreases b.len() - off,
{
    if off < 0 || off >= b.len() || b.len() - off < 11 {
        (Seq::empty(), None)
    } else {
        match v2_header(b.skip(off)) {
            Err(e) => (Seq::empty(), Some(e)),
            Ok((cmd, flags, kl, vl)) => {
                let total = 11 + kl + vl;
                if off + total > b.len() {
                    (Seq::empty(), Some(ToonV2Error::IncompleteBatchPacket))
                } else {
                    match v2_decode(b.subrange(off, off + total), st) {
                        Err(e) => (Seq::empty(), Some(e)),
                        Ok(d) => {
                            let (rest, err) = v2_batch(b, off + total, st);
                            (seq![(d, total)] + rest, err)
                        },
                    }
                }
            },
        }
    }
}

/// Decoding each header-sized chunk of `b` from chunk `i` on as a whole
/// packet: the decoded commands with their lengths, or the first failure.
pub open spec fn v2_chunks(b: Seq<u8>, i: int, st: Seq<Seq<char>>) -> (Seq<(DecodedV2, int)>, Option<ToonV2Error>)
    decreases b.len() / 11 - i,
{
    if i < 0 || i >= b.len() / 11 {
        (Seq::empty(), None)
    } else {
        match v2_decode(b.subrange(11 * i, 11 * i + 11), st) {
            Err(e) => (Seq::empty(), Some(e)),
            Ok(d) => {
                let (rest, err) = v2_chunks(b, i + 1, st);
                (seq![(d, 11int)] + rest, err)
            },
        }
    }
}

/// The counters after decoding packets of the given lengths.
pub open spec fn metrics_after_packets(m: ToonV2Metrics, items: Seq<(DecodedV2, int)>) -> ToonV2Metrics
    decreases items.len(),
{
    if items.len() == 0 {
        m
    } else {
        metrics_after_packets(
            ToonV2Metrics {
                commands_processed: wrap32(m.commands_processed, 1),
                bytes_processed: wrap32(m.bytes_processed, items[0].1 as u32),
                ..m
            },
            items.drop_first(),
        )
    }
}

/// What decoding a batch gave: `res`, with the counters going from `m`
/// to `m2`.
pub open spec fn batch_outcome(res: Result<ToonV2Batch, ToonV2Error>, b: Seq<u8>, st: Seq<Seq<char>>, m: ToonV2Metrics, m2: ToonV2Metrics) -> bool {
    let (items, err) = v2_batch(b, 0, st);
    let after = metrics_after_packets(m, items);
    match (res, err) {
        (Ok(batch), None) => batch.commands@.len() == items.len()
            && (forall|i: int| 0 <= i < items.len() ==> decoded_is(#[trigger] batch.commands@[i], items[i].0))
            && m2 == (ToonV2Metrics {
                batch_operations: wrap32(after.batch_operations, 1),
                commands_processed: wrap32(after.commands_processed, items.len() as u32),
                ..after
            }),
        (Err(e), Some(se)) => e == se && m2 == after,
        _ => false,
    }
}

/// What decoding a batch chunk by chunk gave: `res`, with the counters
/// going from `m` to `m2`.
pub open spec fn chunks_outcome(res: Result<ToonV2Batch, ToonV2Error>, b: Seq<u8>, st: Seq<Seq<char>>, m: ToonV2Metrics, m2: ToonV2Metrics) -> bool {
    let (items, err) = v2_chunks(b, 0, st);
    &&& m2 == metrics_after_packets(m, items)
    &&& match (res, err) {
        (Ok(batch), None) => batch.commands@.len() == items.len()
            && (forall|i: int| 0 <= i < items.len() ==> decoded_is(#[trigger] batch.commands@[i], items[i].0)),
        (Err(e), Some(se)) => e == se,
        _ => false,
    }
}

/// Decoder of TOON V2 packets.
pub struct ToonV2FastDecoder {
    interner: FastStringInterner,
    metrics: ToonV2Metrics,
    simd_enabled: bool,
}

impl ToonV2FastDecoder {
    /// A decoder that holds no string, with SIMD batch decoding off (the
    /// CPU feature test is not made here).
    pub fn new() -> (d: Self)
        ensures
            d.wf(),
            d.strings() == Seq::<Seq<char>>::empty(),
            d.metrics() == ToonV2Metrics::new_spec(),
            !d.simd_enabled(),
    {
        ToonV2FastDecoder { interner: FastStringInterner::new(), metrics: ToonV2Metrics::new(), simd_enabled: false }
    }

    /// A decoder with SIMD batch decoding on or off.
    pub fn with_simd(simd_enabled: bool) -> (d: Self)
        ensures
            d.wf(),
            d.strings() == Seq::<Seq<char>>::empty(),
            d.metrics() == ToonV2Metrics::new_spec(),
            d.simd_enabled() == simd_enabled,
    {
        ToonV2FastDecoder { interner: FastStringInterner::new(), metrics: ToonV2Metrics::new(), simd_enabled }
    }

    /// The interner is sound and, as nothing numbers strings on the
    /// decoding side, empty: interned keys and values never decode.
    pub closed spec fn wf(&self) -> bool {
        self.interner.wf() && self.interner.strings().len() == 0
    }

    /// The strings that interned keys and values refer to.
    pub closed spec fn strings(&self) -> Seq<Seq<char>> {
        self.interner.strings()
    }

    pub closed spec fn metrics(&self) -> ToonV2Metrics {
        self.metrics
    }

    pub closed spec fn simd_enabled(&self) -> bool {
        self.simd_enabled
    }

    fn parse_header(&self, bytes: &[u8]) -> (res: Result<ToonV2Packet, ToonV2Error>)
        ensures
            match (res, v2_header(bytes@)) {
                (Ok(p), Ok((cmd, flags, kl, vl))) => p.command == cmd && p.flags == flags && p.key_len == kl
                    && p.value_len == vl && p.version == TOON_V2_VERSION && p.magic@ == bytes@.subrange(0, 2),
                (Err(e), Err(se)) => e == se,
                _ => false,
            },
    {
        if bytes.len() < 11 {
            return Err(ToonV2Error::PacketTooShort);
        }
        let version = bytes[2];
        if version != TOON_V2_VERSION {
            return Err(ToonV2Error::UnsupportedVersion(version));
        }
        let key_len = u16_from_le_bytes(vstd::slice::slice_subrange(bytes, 5, 7));
        let value_len = u32_from_le_bytes(vstd::slice::slice_subrange(bytes, 7, 11));
        let magic: [u8; 2] = [bytes[0], bytes[1]];
        assert(magic@ =~= bytes@.subrange(0, 2));
        Ok(ToonV2Packet { magic, version, command: bytes[3], flags: bytes[4], key_len, value_len })
    }

    fn interned_bytes(&self, bytes: &[u8], start: usize) -> (r: Option<Vec<u8>>)
        requires
            start + 4 <= bytes@.len(),
        ensures
            ({
                let id = spec_u32_from_le_bytes(bytes@.subrange(start as int, start + 4));
                match r {
                    Some(v) => (id as int) < self.strings().len() && v@ == vstd::utf8::encode_utf8(self.strings()[id as int]),
                    None => id as int >= self.strings().len(),
                }
            }),
    {
        let _n = bytes.len();
        let id = u32_from_le_bytes(vstd::slice::slice_subrange(bytes, start, start + 4));
        match self.interner.get_fast(id) {
            Some(s) => Some(vstd::slice::slice_to_vec(s.as_str().as_bytes())),
            None => None,
        }
    }

    /// Decodes one command packet; a decoded packet is counted in the
    /// metrics with its length.
    pub fn decode_command(&mut self, bytes: &[u8]) -> (res: Result<ToonV2SingleCommand, ToonV2Error>)
        requires
            old(self).wf(),
        ensures
            res matches Ok(c) ==> crate::protocol::toon_v2::single_command_size(c) <= bytes@.len(),
            final(self).strings() == old(self).strings(),
            final(self).wf() == old(self).wf(),
            final(self).simd_enabled() == old(self).simd_enabled(),
            match (res, v2_decode(bytes@, old(self).strings())) {
                (Ok(c), Ok(d)) => decoded_is(c, d) && final(self).metrics() == (ToonV2Metrics {
                    commands_processed: wrap32(old(self).metrics().commands_processed, 1),
                    bytes_processed: wrap32(old(self).metrics().bytes_processed, bytes@.len() as u32),
                    ..old(self).metrics()
                }),
                (Err(e), Err(se)) => e == se && final(self).metrics() == old(self).metrics(),
                _ => false,
            },
    {
        if !ToonV2Packet::is_valid_magic(bytes) {
            return Err(ToonV2Error::InvalidMagic);
        }
        if bytes.len() < 11 {
            return Err(ToonV2Error::PacketTooShort);
        }
        let packet = self.parse_header(bytes)?;
        let key_start: usize = 11;
        let key_end = key_start + packet.key_len as usize;
        if key_end > bytes.len() || bytes.len() - key_end < packet.value_len as usize {
            return Err(ToonV2Error::IncompletePacket);
        }
        let value_start = key_end;
        let value_end = value_start + packet.value_len as usize;
        let key = if packet.flags & INTERNED_KEY != 0 {
            if packet.key_len != 4 {
                return Err(ToonV2Error::InvalidInternedKeyLength);
            }
            match self.interned_bytes(bytes, key_start) {
                Some(k) => k,
                None => {
                    return Err(ToonV2Error::InvalidInternedKeyId);
                },
            }
        } else {
            copy_range(bytes, key_start, key_end)
        };
        let value = if packet.value_len > 0 {
            if packet.flags & INTERNED_VALUE != 0 {
                if packet.value_len != 4 {
                    return Err(ToonV2Error::InvalidInternedValueLength);
                }
                match self.interned_bytes(bytes, value_start) {
                    Some(v) => Some(v),
                    None => {
                        return Err(ToonV2Error::InvalidInternedValueId);
                    },
                }
            } else {
                Some(copy_range(bytes, value_start, value_end))
            }
        } else {
            None
        };
        let command = match packet.get_command() {
            Some(c) => c,
            None => {
                return Err(ToonV2Error::InvalidCommand(packet.command));
            },
        };
        self.metrics.record_command(bytes.len() as u32);
        Ok(ToonV2SingleCommand { command, key, value, ttl: None })
    }

    /// Decodes the packets of a batch one after the other; on success the
    /// batch is counted as well.
    pub fn decode_batch(&mut self, bytes: &[u8]) -> (res: Result<ToonV2Batch, ToonV2Error>)
        requires
            old(self).wf(),
        ensures
            final(self).strings() == old(self).strings(),
            final(self).wf() == old(self).wf(),
            final(self).simd_enabled() == old(self).simd_enabled(),
            batch_outcome(res, bytes@, old(self).strings(), old(self).metrics(), final(self).metrics()),
    {
        let mut batch = ToonV2Batch::new();
        let mut offset: usize = 0;
        let ghost st = self.strings();
        let ghost m0 = self.metrics();
        while offset < bytes.len()
            invariant_except_break
                offset <= bytes@.len(),
                st == old(self).strings(),
                m0 == old(self).metrics(),
                self.strings() == st,
                self.wf(),
                old(self).wf(),
                self.simd_enabled() == old(self).simd_enabled(),
                batch.total_size <= offset,
                ({
                    let (items, err) = v2_batch(bytes@, 0, st);
                    let (rest, err2) = v2_batch(bytes@, offset as int, st);
                    &&& err == err2
                    &&& items.len() == batch.commands@.len() + rest.len()
                    &&& forall|i: int| 0 <= i < batch.commands@.len() ==> decoded_is(#[trigger] batch.commands@[i], items[i].0)
                    &&& forall|i: int| 0 <= i < rest.len() ==> items[batch.commands@.len() + i] == #[trigger] rest[i]
                    &&& metrics_after_packets(m0, items) == metrics_after_packets(self.metrics(), rest)
                }),
            ensures
                offset <= bytes@.len(),
                st == old(self).strings(),
                m0 == old(self).metrics(),
                self.strings() == st,
                self.wf() == old(self).wf(),
                self.simd_enabled() == old(self).simd_enabled(),
                ({
                    let (items, err) = v2_batch(bytes@, 0, st);
                    &&& err is None
                    &&& items.len() == batch.commands@.len()
                    &&& forall|i: int| 0 <= i < batch.commands@.len() ==> decoded_is(#[trigger] batch.commands@[i], items[i].0)
                    &&& metrics_after_packets(m0, items) == self.metrics()
                }),
            decreases bytes@.len() - offset,
        {
            if bytes.len() - offset < 11 {
                break;
            }
            let rest = vstd::slice::slice_subrange(bytes, offset, bytes.len());
            assert(rest@ =~= bytes@.skip(offset as int));
            let packet = self.parse_header(rest)?;
            let total: u64 = 11 + packet.key_len as u64 + packet.value_len as u64;
            if total > (bytes.len() - offset) as u64 {
                return Err(ToonV2Error::IncompleteBatchPacket);
            }
            let end = offset + total as usize;
            let one = vstd::slice::slice_subrange(bytes, offset, end);
            let ghost m_before = self.metrics();
            let ghost commands_before = batch.commands@;
            let command = self.decode_command(one)?;
            proof {
                let d = v2_decode(one@, st)->Ok_0;
                let (rest_items, err2) = v2_batch(bytes@, end as int, st);
                let cur = v2_batch(bytes@, offset as int, st);
                assert(one@ == bytes@.subrange(offset as int, end as int));
                assert(cur.0 == seq![(d, total as int)] + rest_items);
                assert((seq![(d, total as int)] + rest_items).drop_first() =~= rest_items);
                assert((seq![(d, total as int)] + rest_items)[0] == (d, total as int));
                assert(one@.len() == total);
            }
            batch.add_command(command);
            offset = end;
            proof {
                let (items, err) = v2_batch(bytes@, 0, st);
                let (rest, err2) = v2_batch(bytes@, offset as int, st);
                assert forall|i: int| 0 <= i < batch.commands@.len() implies decoded_is(#[trigger] batch.commands@[i], items[i].0) by {
                    if i < commands_before.len() {
                        assert(batch.commands@[i] == commands_before[i]);
                    }
                }
            }
        }
        let n = batch.commands.len();
        self.metrics.record_batch(n as u32);
        Ok(batch)
    }

    /// Decodes a batch whose length is a multiple of the header size, each
    /// header-sized chunk as one packet.
    pub fn decode_batch_simd_optimized(&mut self, bytes: &[u8]) -> (res: Result<ToonV2Batch, ToonV2Error>)
        requires
            old(self).wf(),
        ensures
            final(self).strings() == old(self).strings(),
            final(self).wf(),
            final(self).simd_enabled() == old(self).simd_enabled(),
            chunks_outcome(res, bytes@, old(self).strings(), old(self).metrics(), final(self).metrics()),
    {
        let mut batch = ToonV2Batch::new();
        let num_packets = bytes.len() / 11;
        let ghost st = self.strings();
        let ghost m0 = self.metrics();
        let mut i: usize = 0;
        while i < num_packets
            invariant
                i <= num_packets == bytes@.len() / 11,
                st == old(self).strings(),
                m0 == old(self).metrics(),
                self.strings() == st,
                self.wf(),
                self.simd_enabled() == old(self).simd_enabled(),
                batch.total_size <= 11 * i,
                ({
                    let (items, err) = v2_chunks(bytes@, 0, st);
                    let (rest, err2) = v2_chunks(bytes@, i as int, st);
                    &&& err == err2
                    &&& items.len() == batch.commands@.len() + rest.len()
                    &&& forall|j: int| 0 <= j < batch.commands@.len() ==> decoded_is(#[trigger] batch.commands@[j], items[j].0)
                    &&& forall|j: int| 0 <= j < rest.len() ==> items[batch.commands@.len() + j] == #[trigger] rest[j]
                    &&& metrics_after_packets(m0, items) == metrics_after_packets(self.metrics(), rest)
                }),
            decreases num_packets - i,
        {
            let n = bytes.len();
            assert(i * 11 + 11 <= n) by (nonlinear_arith)
                requires
                    i < n / 11,
            ;
            let offset = i * 11;
            let one = vstd::slice::slice_subrange(bytes, offset, offset + 11);
            let ghost commands_before = batch.commands@;
            let command = self.decode_command(one)?;
            proof {
                let d = v2_decode(one@, st)->Ok_0;
                let (rest_items, err2) = v2_chunks(bytes@, i + 1, st);
                assert(v2_chunks(bytes@, i as int, st).0 == seq![(d, 11int)] + rest_items);
                assert((seq![(d, 11int)] + rest_items).drop_first() =~= rest_items);
                assert((seq![(d, 11int)] + rest_items)[0] == (d, 11int));
            }
            batch.add_command(command);
            i += 1;
            proof {
                let (items, err) = v2_chunks(bytes@, 0, st);
                assert forall|j: int| 0 <= j < batch.commands@.len() implies decoded_is(#[trigger] batch.commands@[j], items[j].0) by {
                    if j < commands_before.len() {
                        assert(batch.commands@[j] == commands_before[j]);
                    }
                }
            }
        }
        Ok(batch)
    }

    /// Decodes a batch, with the header-sized chunk decoding when SIMD is on
    /// and the batch is at least 64 bytes of whole headers (a SIMD
    /// operation is counted whenever SIMD is on).
    pub fn decode_simd_batch(&mut self, bytes: &[u8]) -> (res: Result<ToonV2Batch, ToonV2Error>)
        requires
            old(self).wf(),
        ensures
            final(self).strings() == old(self).strings(),
            final(self).wf(),
            final(self).simd_enabled() == old(self).simd_enabled(),
            !old(self).simd_enabled() ==> batch_outcome(res, bytes@, old(self).strings(), old(self).metrics(), final(self).metrics()),
            old(self).simd_enabled() ==> {
                let m = ToonV2Metrics { simd_operations: wrap32(old(self).metrics().simd_operations, 1), ..old(self).metrics() };
                if bytes@.len() >= 64 && bytes@.len() % 11 == 0 {
                    chunks_outcome(res, bytes@, old(self).strings(), m, final(self).metrics())
                } else {
                    batch_outcome(res, bytes@, old(self).strings(), m, final(self).metrics())
                }
            },
    {
        if !self.simd_enabled {
            return self.decode_batch(bytes);
        }
        self.metrics.record_simd_op();
        if bytes.len() >= 64 && bytes.len() % 11 == 0 {
            return self.decode_batch_simd_optimized(bytes);
        }
        self.decode_batch(bytes)
    }

    /// The counters of this decoder.
    pub fn get_metrics(&self) -> (m: &ToonV2Metrics)
        ensures
            *m == self.metrics(),
    {
        &self.metrics
    }

    /// Sets every counter to zero.
    pub fn reset_metrics(&mut self)
        ensures
            final(self).metrics() == ToonV2Metrics::new_spec(),
            final(self).strings() == old(self).strings(),
            final(self).wf() == old(self).wf(),
            final(self).simd_enabled() == old(self).simd_enabled(),
    {
        self.metrics = ToonV2Metrics::new();
    }
}

/// What `prepare` sends stands, for a decoder that holds the strings held
/// after it, for the bytes prepared: a number names a string whose UTF-8
/// bytes are those bytes.
proof fn lemma_prepare_stands_for(b: Seq<u8>, flag: u8, st: Seq<Seq<char>>, g: Seq<Seq<char>>)
    requires
        flag != 0,
        g.len() <= u32::MAX,
        prepare(b, flag, st).2.len() <= g.len(),
        g.subrange(0, prepare(b, flag, st).2.len() as int) == prepare(b, flag, st).2,
    ensures
        prepare(b, flag, st).1 == flag ==> prepare(b, flag, st).0.len() == 4 && ({
            let id = spec_u32_from_le_bytes(prepare(b, flag, st).0);
            (id as int) < g.len() && vstd::utf8::encode_utf8(g[id as int]) == b
        }),
        prepare(b, flag, st).1 != flag ==> prepare(b, flag, st).0 == b && prepare(b, flag, st).1 == 0,
{
    vstd::bytes::lemma_auto_spec_u32_to_from_le_bytes();
    if valid_utf8(b) && b.len() >= 2 {
        let s = decode_utf8(b);
        vstd::utf8::decode_utf8_encode_utf8(b);
        let st2 = prepare(b, flag, st).2;
        let j: int = if st.contains(s) { st.index_of(s) } else { st.len() as int };
        if st.contains(s) {
            assert(0 <= j < st.len() && st[j] == s);
        } else {
            assert(st2 == st.push(s));
            assert(st2[j] == s);
        }
        assert(g[j] == st2[j]);
        assert((j as u32) as int == j);
        assert(prepare(b, flag, st).0 == spec_u32_to_le_bytes(j as u32));
    }
}

/// A TOON V2 command packet, read by a decoder that holds the strings the
/// encoder holds after writing it (fewer than `u32::MAX`), gives back the
/// command, its key and its value (a value of no bytes travels as no value);
/// the key must fit a 16-bit length and the value a 32-bit one.
pub proof fn lemma_v2_command_roundtrip(c: ToonV2Command, key: Seq<u8>, value: Option<Seq<u8>>, st: Seq<Seq<char>>)
    requires
        key.len() <= u16::MAX,
        value matches Some(v) ==> v.len() <= u32::MAX,
        v2_encode(c, key, value, st).1.len() < u32::MAX,
    ensures
        v2_decode(v2_encode(c, key, value, st).0, v2_encode(c, key, value, st).1)
            == Ok::<DecodedV2, ToonV2Error>((c, key, match value {
                Some(v) => if v.len() > 0 { Some(v) } else { None },
                None => None,
            })),
{
    vstd::bytes::lemma_auto_spec_u16_to_from_le_bytes();
    vstd::bytes::lemma_auto_spec_u32_to_from_le_bytes();
    let g = v2_encode(c, key, value, st).1;
    let (kb, kf, st1) = prepare(key, INTERNED_KEY, st);
    let (vb, vf, st2) = match value {
        Some(v) => prepare(v, INTERNED_VALUE, st1),
        None => (Seq::<u8>::empty(), 0u8, st1),
    };
    assert(g == st2);
    assert(st1.subrange(0, st.len() as int) =~= st);
    assert(st2.len() >= st1.len());
    assert(st2.subrange(0, st1.len() as int) =~= st1) by {
        match value {
            Some(v) => {
                if valid_utf8(v) && v.len() >= 2 && !st1.contains(decode_utf8(v)) {
                    assert(st2 == st1.push(decode_utf8(v)));
                }
            },
            None => {},
        }
    }
    assert(g.subrange(0, st2.len() as int) =~= st2);
    lemma_prepare_stands_for(key, INTERNED_KEY, st, g);
    match value {
        Some(v) => lemma_prepare_stands_for(v, INTERNED_VALUE, st1, g),
        None => {},
    }
    let flags = kf | vf;
    assert(kf == 0u8 || kf == INTERNED_KEY);
    assert(vf == 0u8 || vf == INTERNED_VALUE);
    assert((kf == 0u8 || kf == 4u8) && (vf == 0u8 || vf == 8u8) ==> ((kf | vf) & 4u8 != 0) == (kf == 4u8) && ((kf | vf) & 8u8 != 0) == (vf == 8u8)) by (bit_vector);
    assert(kb.len() <= u16::MAX);
    assert(vb.len() <= u32::MAX);
    let b = v2_encode(c, key, value, st).0;
    let h = v2_command_header(c, flags, kb.len(), vb.len());
    assert(b == h + kb + vb);
    assert(h.len() == 11);
    assert(b.subrange(5, 7) =~= spec_u16_to_le_bytes(kb.len() as u16));
    assert(b.subrange(7, 11) =~= spec_u32_to_le_bytes(vb.len() as u32));
    let ke: int = 11 + kb.len() as int;
    assert(b.subrange(11, ke) =~= kb);
    assert(b.subrange(ke, ke + vb.len()) =~= vb);
    if kf == INTERNED_KEY {
        assert(b.subrange(11, 15) =~= kb);
    }
    if vf == INTERNED_VALUE {
        assert(b.subrange(ke, ke + 4) =~= vb);
    }
    lemma_command_byte_roundtrip(c, 0);
}

} // verus!
