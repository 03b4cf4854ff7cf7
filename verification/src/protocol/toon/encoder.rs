//! TOON encoding: a header, the length of the value, then the value, with
//! repeated long strings sent as references to their first occurrence.

use vstd::prelude::*;
use crate::protocol::commands::{Command, CommandView, Response, ResponseView};
use crate::protocol::toon::{
    flags_byte, lemma_view_fields, lemma_view_items, toon_magic, toon_view, toon_view_fields,
    toon_view_items, utf8_len, StringInterner, ToonPacket, ToonType, ToonValue,
};
use crate::protocol::varint::{encode_varint_bytes as varint_to_vec, varint_bytes, write_varint};
use crate::protocol::wire::append_bytes;

verus! {

/// Encoder of TOON packets; it remembers the long strings it has sent.
pub struct ToonEncoder {
    interner: StringInterner,
    zero_copy_enabled: bool,
    simd_enabled: bool,
}

/// The bytes of a string written in full: type byte, length, UTF-8 bytes.
pub open spec fn plain_string_bytes(s: Seq<char>) -> Seq<u8> {
    seq![0x0Cu8] + varint_bytes(utf8_len(s) as u64) + vstd::utf8::encode_utf8(s)
}

/// How a string is written, and the strings remembered afterwards. With
/// interning on, a string of more than four bytes that was seen before is
/// written as a reference (type byte 0x10 and its number); one not seen
/// before is written in full and remembered under the next number, so that
/// a decoder that reads the same packets in the same order gives it the
/// same number. Every other string is written in full. When the interner is
/// full (`u32::MAX` strings), nothing more is remembered.
pub open spec fn enc_string(s: Seq<char>, interning: bool, st: Seq<Seq<char>>) -> (Seq<u8>, Seq<Seq<char>>) {
    if interning && utf8_len(s) > 4 {
        if st.contains(s) {
            let id = st.index_of(s);
            (seq![0x10u8] + varint_bytes(id as u64), st)
        } else if st.len() < u32::MAX {
            (plain_string_bytes(s), st.push(s))
        } else {
            (plain_string_bytes(s), st)
        }
    } else {
        (plain_string_bytes(s), st)
    }
}

/// The encoding of a value after its type byte, and the strings remembered
/// afterwards. Integers of 32 and 64 bits are varints (signed ones
/// sign-extended to 64 bits); 16-bit ones and floats are little-endian.
pub open spec fn enc_value(v: ToonValue, interning: bool, st: Seq<Seq<char>>) -> (Seq<u8>, Seq<Seq<char>>)
    decreases v,
{
    match v {
        ToonValue::Null => (seq![0x00u8], st),
        ToonValue::Bool(b) => (seq![0x01u8, if b { 1u8 } else { 0u8 }], st),
        ToonValue::Int8(x) => (seq![0x02u8, x as u8], st),
        ToonValue::Int16(x) => (seq![0x03u8] + vstd::bytes::spec_u16_to_le_bytes(x as u16), st),
        ToonValue::Int32(x) => (seq![0x04u8] + varint_bytes(x as u64), st),
        ToonValue::Int64(x) => (seq![0x05u8] + varint_bytes(x as u64), st),
        ToonValue::UInt8(x) => (seq![0x06u8, x], st),
        ToonValue::UInt16(x) => (seq![0x07u8] + vstd::bytes::spec_u16_to_le_bytes(x), st),
        ToonValue::UInt32(x) => (seq![0x08u8] + varint_bytes(x as u64), st),
        ToonValue::UInt64(x) => (seq![0x09u8] + varint_bytes(x), st),
        ToonValue::Float32(bits) => (seq![0x0Au8] + vstd::bytes::spec_u32_to_le_bytes(bits), st),
        ToonValue::Float64(bits) => (seq![0x0Bu8] + vstd::bytes::spec_u64_to_le_bytes(bits), st),
        ToonValue::Str(s) => enc_string(s, interning, st),
        ToonValue::Bytes(b) => (seq![0x0Du8] + varint_bytes(b.len() as u64) + b, st),
        ToonValue::Array(items) => {
            let (body, st2) = enc_items(items, interning, st);
            (seq![0x0Eu8] + varint_bytes(items.len() as u64) + body, st2)
        },
        ToonValue::Object(fields) => {
            let (body, st2) = enc_fields(fields, interning, st);
            (seq![0x0Fu8] + varint_bytes(fields.len() as u64) + body, st2)
        },
        ToonValue::InternedString(id) => (seq![0x10u8] + varint_bytes(id as u64), st),
    }
}

/// The encodings of `items` one after the other, first to last.
pub open spec fn enc_items(items: Seq<ToonValue>, interning: bool, st: Seq<Seq<char>>) -> (Seq<u8>, Seq<Seq<char>>)
    decreases items,
{
    if items.len() == 0 {
        (Seq::empty(), st)
    } else {
        let (b1, st1) = enc_items(items.drop_last(), interning, st);
        let (b2, st2) = enc_value(items.last(), interning, st1);
        (b1 + b2, st2)
    }
}

/// The encodings of `fields`, first to last: each key written as a string,
/// then its value.
pub open spec fn enc_fields(fields: Seq<(Seq<char>, ToonValue)>, interning: bool, st: Seq<Seq<char>>) -> (Seq<u8>, Seq<Seq<char>>)
    decreases fields,
{
    if fields.len() == 0 {
        (Seq::empty(), st)
    } else {
        let (b1, st1) = enc_fields(fields.drop_last(), interning, st);
        let (bk, st2) = enc_string(fields.last().0, interning, st1);
        let (bv, st3) = enc_value(fields.last().1, interning, st2);
        (b1 + bk + bv, st3)
    }
}

/// The packet bytes: magic, version, flags byte, the length of the encoded
/// value as a varint, then the encoded value.
pub open spec fn packet_bytes(version: u8, flags: u8, body: Seq<u8>) -> Seq<u8> {
    toon_magic() + seq![version, flags] + varint_bytes(body.len() as u64) + body
}

impl ToonEncoder {
    /// An encoder that has seen no string.
    pub fn new() -> (e: Self)
        ensures
            e.interner_wf(),
            e.interned() == Seq::<Seq<char>>::empty(),
    {
        ToonEncoder { interner: StringInterner::new(), zero_copy_enabled: true, simd_enabled: false }
    }

    /// The strings this encoder remembers, by number.
    pub closed spec fn interned(&self) -> Seq<Seq<char>> {
        self.interner@
    }

    /// How many times each remembered string was interned.
    pub closed spec fn interned_uses(&self) -> Seq<usize> {
        self.interner.use_counts()
    }

    /// The remembered strings are distinct.
    pub closed spec fn interner_wf(&self) -> bool {
        self.interner.wf()
    }

    /// The interner of this encoder.
    pub fn interner(&self) -> (i: &StringInterner)
        ensures
            i@ == self.interned(),
            self.interner_wf() ==> i.wf(),
    {
        &self.interner
    }

    fn encode_string(&mut self, s: &str, buf: &mut Vec<u8>, use_interning: bool)
        requires
            old(self).interner_wf(),
        ensures
            final(self).interner_wf(),
            final(buf)@ == old(buf)@ + enc_string(s@, use_interning, old(self).interned()).0,
            final(self).interned() == enc_string(s@, use_interning, old(self).interned()).1,
            final(self).zero_copy_enabled == old(self).zero_copy_enabled,
            final(self).simd_enabled == old(self).simd_enabled,
    {
        let bytes = s.as_bytes();
        if use_interning && bytes.len() > 4 {
            match self.interner.lookup(s) {
                Some(id) => {
                    proof {
                        assert(self.interner@.contains(s@));
                        lemma_index_of_distinct(self.interner@, id as int, s@);
                    }
                    buf.push(0x10u8);
                    write_varint(buf, id as u64);
                    return;
                },
                None => {
                    assert(!self.interner@.contains(s@));
                    if self.interner.len() < 0xFFFF_FFFFusize {
                        self.interner.intern(s);
                    }
                },
            }
        }
        buf.push(0x0Cu8);
        write_varint(buf, bytes.len() as u64);
        append_bytes(buf, bytes);
        assert(final(buf)@ =~= old(buf)@ + plain_string_bytes(s@));
    }

    /// Appends the encoding of `value` (type byte included) to `buf`; it
    /// never fails.
    pub fn encode_value(&mut self, value: &ToonType, buf: &mut Vec<u8>, use_interning: bool) -> (res: Result<(), String>)
        requires
            old(self).interner_wf(),
        ensures
            res is Ok,
            final(self).interner_wf(),
            final(buf)@ == old(buf)@ + enc_value(toon_view(*value), use_interning, old(self).interned()).0,
            final(self).interned() == enc_value(toon_view(*value), use_interning, old(self).interned()).1,
        decreases value,
    {
        let ghost start = buf@;
        match value {
            ToonType::Null => {
                buf.push(0x00u8);
            },
            ToonType::Bool(b) => {
                buf.push(0x01u8);
                buf.push(if *b { 1u8 } else { 0u8 });
            },
            ToonType::Int8(v) => {
                buf.push(0x02u8);
                buf.push(*v as u8);
            },
            ToonType::Int16(v) => {
                buf.push(0x03u8);
                let le = vstd::bytes::u16_to_le_bytes(*v as u16);
                append_bytes(buf, le.as_slice());
            },
            ToonType::Int32(v) => {
                buf.push(0x04u8);
                write_varint(buf, *v as u64);
            },
            ToonType::Int64(v) => {
                buf.push(0x05u8);
                write_varint(buf, *v as u64);
            },
            ToonType::UInt8(v) => {
                buf.push(0x06u8);
                buf.push(*v);
            },
            ToonType::UInt16(v) => {
                buf.push(0x07u8);
                let le = vstd::bytes::u16_to_le_bytes(*v);
                append_bytes(buf, le.as_slice());
            },
            ToonType::UInt32(v) => {
                buf.push(0x08u8);
                write_varint(buf, *v as u64);
            },
            ToonType::UInt64(v) => {
                buf.push(0x09u8);
                write_varint(buf, *v);
            },
            ToonType::Float32(bits) => {
                buf.push(0x0Au8);
                let le = vstd::bytes::u32_to_le_bytes(*bits);
                append_bytes(buf, le.as_slice());
            },
            ToonType::Float64(bits) => {
                buf.push(0x0Bu8);
                let le = vstd::bytes::u64_to_le_bytes(*bits);
                append_bytes(buf, le.as_slice());
            },
            ToonType::String(s) => {
                self.encode_string(s.as_str(), buf, use_interning);
                return Ok(());
            },
            ToonType::Bytes(b) => {
                buf.push(0x0Du8);
                write_varint(buf, b.len() as u64);
                append_bytes(buf, b.as_slice());
            },
            ToonType::Array(items) => {
                proof { lemma_view_items(items@); }
                buf.push(0x0Eu8);
                write_varint(buf, items.len() as u64);
                let ghost head = buf@;
                let ghost st0 = self.interned();
                let mut i: usize = 0;
                while i < items.len()
                    invariant
                        i <= items@.len(),
                        *value == ToonType::Array(*items),
                        self.interner_wf(),
                        toon_view_items(items@).len() == items@.len(),
                        forall|j: int| 0 <= j < items@.len() ==> #[trigger] toon_view_items(items@)[j] == toon_view(items@[j]),
                        buf@ == head + enc_items(toon_view_items(items@).subrange(0, i as int), use_interning, st0).0,
                        self.interned() == enc_items(toon_view_items(items@).subrange(0, i as int), use_interning, st0).1,
                    decreases items@.len() - i,
                {
                    let ghost vs = toon_view_items(items@);
                    assert(vs.subrange(0, i + 1 as int).drop_last() =~= vs.subrange(0, i as int));
                    assert(decreases_to!(*value => (*value)->Array_0));
                    assert(decreases_to!(*items => items@));
                    assert(decreases_to!(items@ => items@[i as int]));
                    let _ = self.encode_value(&items[i], buf, use_interning);
                    i += 1;
                }
                assert(toon_view_items(items@).subrange(0, i as int) =~= toon_view_items(items@));
                assert(buf@ =~= start + enc_value(toon_view(*value), use_interning, old(self).interned()).0);
                return Ok(());
            },
            ToonType::Object(fields) => {
                proof { lemma_view_fields(fields@); }
                buf.push(0x0Fu8);
                write_varint(buf, fields.len() as u64);
                let ghost head = buf@;
                let ghost st0 = self.interned();
                let mut i: usize = 0;
                while i < fields.len()
                    invariant
                        i <= fields@.len(),
                        *value == ToonType::Object(*fields),
                        self.interner_wf(),
                        toon_view_fields(fields@).len() == fields@.len(),
                        forall|j: int| 0 <= j < fields@.len() ==> #[trigger] toon_view_fields(fields@)[j] == (fields@[j].0@, toon_view(fields@[j].1)),
                        buf@ == head + enc_fields(toon_view_fields(fields@).subrange(0, i as int), use_interning, st0).0,
                        self.interned() == enc_fields(toon_view_fields(fields@).subrange(0, i as int), use_interning, st0).1,
                    decreases fields@.len() - i,
                {
                    let ghost fs = toon_view_fields(fields@);
                    assert(fs.subrange(0, i + 1 as int).drop_last() =~= fs.subrange(0, i as int));
                    assert(decreases_to!(*value => (*value)->Object_0));
                    assert(decreases_to!(*fields => fields@));
                    assert(decreases_to!(fields@ => fields@[i as int]));
                    assert(decreases_to!(fields@[i as int] => fields@[i as int].1));
                    self.encode_string(fields[i].0.as_str(), buf, use_interning);
                    let _ = self.encode_value(&fields[i].1, buf, use_interning);
                    i += 1;
                }
                assert(toon_view_fields(fields@).subrange(0, i as int) =~= toon_view_fields(fields@));
                assert(buf@ =~= start + enc_value(toon_view(*value), use_interning, old(self).interned()).0);
                return Ok(());
            },
            ToonType::InternedString(id) => {
                buf.push(0x10u8);
                write_varint(buf, *id as u64);
            },
        }
        assert(buf@ =~= start + enc_value(toon_view(*value), use_interning, old(self).interned()).0);
        Ok(())
    }

    /// Encodes a packet: its magic, version and flags byte, the length of
    /// the encoded value as a varint, then the value; it never fails.
    pub fn encode(&mut self, packet: &ToonPacket) -> (res: Result<Vec<u8>, String>)
        requires
            old(self).interner_wf(),
        ensures
            final(self).interner_wf(),
            res is Ok <==> 7 + enc_value(toon_view(packet.data), packet.flags.string_interning, old(self).interned()).0.len() + 9 <= usize::MAX,
            res matches Ok(bytes) ==> bytes@ == packet.magic@ + seq![packet.version, flags_byte(packet.flags)]
                + varint_bytes(enc_value(toon_view(packet.data), packet.flags.string_interning, old(self).interned()).0.len() as u64)
                + enc_value(toon_view(packet.data), packet.flags.string_interning, old(self).interned()).0,
            final(self).interned() == enc_value(
                toon_view(packet.data),
                packet.flags.string_interning,
                old(self).interned(),
            ).1,
    {
        let mut buf: Vec<u8> = Vec::new();
        append_bytes(&mut buf, packet.magic.as_slice());
        buf.push(packet.version);
        buf.push(packet.flags.to_byte());
        let data_start = buf.len();
        buf.push(0u8);
        let length_pos = buf.len() - 1;
        let ghost header = buf@;
        let _ = self.encode_value(&packet.data, &mut buf, packet.flags.string_interning);
        let ghost body = enc_value(toon_view(packet.data), packet.flags.string_interning, old(self).interned()).0;
        assert(buf@ == header + body);
        let data_length = buf.len() - data_start - 1;
        if buf.len() > usize::MAX - 9 {
            return Err(String::new());
        }
        self.write_varint_at(&mut buf, length_pos, data_length as u64)?;
        assert(header.subrange(0, length_pos as int) + varint_bytes(data_length as u64)
            + (header + body).subrange(length_pos + 1, (header + body).len() as int)
            =~= packet.magic@ + seq![packet.version, flags_byte(packet.flags)] + varint_bytes(body.len() as u64) + body);
        Ok(buf)
    }

    /// Replaces the byte at `pos` by the LEB128 encoding of `value`, moving
    /// what follows to make room; it never fails.
    pub fn write_varint_at(&self, buf: &mut Vec<u8>, pos: usize, value: u64) -> (res: Result<(), String>)
        requires
            pos < old(buf)@.len(),
            old(buf)@.len() + 9 <= usize::MAX,
        ensures
            res is Ok,
            final(buf)@ == old(buf)@.subrange(0, pos as int) + varint_bytes(value) + old(buf)@.subrange(
                pos + 1,
                old(buf)@.len() as int,
            ),
    {
        let vb = varint_to_vec(value);
        proof { crate::protocol::varint::lemma_varint_bytes_len(value); }
        let ghost old_buf = buf@;
        if vb.len() == 1 {
            buf.set(pos, vb[0]);
            assert(buf@ =~= old_buf.subrange(0, pos as int) + varint_bytes(value) + old_buf.subrange(
                pos + 1,
                old_buf.len() as int,
            ));
            return Ok(());
        }
        let shift = vb.len() - 1;
        let old_len = buf.len();
        buf.resize(old_len + shift, 0u8);
        let mut i: usize = old_len;
        while i > pos + 1
            invariant
                pos + 1 <= i <= old_len,
                old_len == old_buf.len(),
                shift <= 9,
                old_len + 9 <= usize::MAX,
                buf@.len() == old_len + shift,
                forall|j: int| 0 <= j < i ==> buf@[j] == old_buf[j],
                forall|j: int| i <= j < old_len ==> buf@[j + shift] == old_buf[j],
            decreases i,
        {
            i -= 1;
            let b = buf[i];
            buf.set(i + shift, b);
        }
        let mut k: usize = 0;
        while k < vb.len()
            invariant
                k <= vb@.len() == shift + 1,
                vb@ == varint_bytes(value),
                old_len == old_buf.len(),
                pos < old_len,
                shift <= 9,
                old_len + 9 <= usize::MAX,
                buf@.len() == old_len + shift,
                forall|j: int| 0 <= j < pos ==> buf@[j] == old_buf[j],
                forall|j: int| pos + 1 <= j < old_len ==> buf@[j + shift] == old_buf[j],
                forall|j: int| 0 <= j < k ==> buf@[pos + j] == vb@[j],
            decreases vb@.len() - k,
        {
            buf.set(pos + k, vb[k]);
            k += 1;
        }
        assert(buf@ =~= old_buf.subrange(0, pos as int) + varint_bytes(value) + old_buf.subrange(
            pos + 1,
            old_buf.len() as int,
        ));
        Ok(())
    }

    /// The LEB128 encoding of `value`.
    pub fn encode_varint_bytes(&self, value: u64) -> (bytes: Vec<u8>)
        ensures
            bytes@ == varint_bytes(value),
    {
        varint_to_vec(value)
    }

    /// The number of strings remembered, and the bytes interning saved
    /// (see `StringInterner::memory_saved`).
    pub fn get_interning_stats(&self) -> (stats: (usize, usize))
        requires
            self.interner_wf(),
        ensures
            stats.0 == self.interned().len(),
            stats.1 as int == crate::protocol::toon::capped_saved(self.interned(), self.interned_uses()),
    {
        (self.interner.len(), self.interner.memory_saved())
    }

    /// Forgets every remembered string.
    pub fn reset_interner(&mut self)
        ensures
            final(self).interner_wf(),
            final(self).interned() == Seq::<Seq<char>>::empty(),
    {
        self.interner = StringInterner::new();
    }
}

/// In a list without repeats, the position of an element is the one found.
proof fn lemma_index_of_distinct(st: Seq<Seq<char>>, i: int, s: Seq<char>)
    requires
        0 <= i < st.len(),
        st[i] == s,
        crate::protocol::toon::all_distinct(st),
    ensures
        st.index_of(s) == i,
{
    assert(st.contains(s));
    let k = st.index_of(s);
    assert(st[k] == s);
}


/// The flags byte of a packet made with `ToonPacket::new`.
pub open spec fn default_flags_byte() -> u8 {
    flags_byte(crate::protocol::toon::ToonFlags {
        zero_copy: true,
        string_interning: true,
        compression: false,
        simd_optimized: true,
    })
}

/// The bytes of a packet with the default flags holding `v`, encoded by an
/// encoder that remembers `st` (interning is on).
pub open spec fn default_packet_bytes(v: ToonValue, st: Seq<Seq<char>>) -> Seq<u8> {
    toon_magic() + seq![1u8, default_flags_byte()] + varint_bytes(enc_value(v, true, st).0.len() as u64)
        + enc_value(v, true, st).0
}

/// The object that stands for a command: `cmd` names it, `key` and `value`
/// hold bytes, `ttl` the TTL.
pub open spec fn command_toon_value(c: CommandView) -> ToonValue {
    match c {
        CommandView::Ping => ToonValue::Object(seq![("cmd"@, ToonValue::Str("PING"@))]),
        CommandView::Put { key, value, ttl } => ToonValue::Object(
            seq![("cmd"@, ToonValue::Str("PUT"@)), ("key"@, ToonValue::Bytes(key)), ("value"@, ToonValue::Bytes(value))]
                + match ttl {
                Some(t) => seq![("ttl"@, ToonValue::UInt64(t))],
                None => Seq::empty(),
            },
        ),
        CommandView::Get { key } => ToonValue::Object(
            seq![("cmd"@, ToonValue::Str("GET"@)), ("key"@, ToonValue::Bytes(key))],
        ),
        CommandView::Del { key } => ToonValue::Object(
            seq![("cmd"@, ToonValue::Str("DEL"@)), ("key"@, ToonValue::Bytes(key))],
        ),
        CommandView::Expire { key, ttl } => ToonValue::Object(
            seq![("cmd"@, ToonValue::Str("EXPIRE"@)), ("key"@, ToonValue::Bytes(key)), ("ttl"@, ToonValue::UInt64(ttl))],
        ),
        CommandView::Stats => ToonValue::Object(seq![("cmd"@, ToonValue::Str("STATS"@))]),
        CommandView::Metrics => ToonValue::Object(seq![("cmd"@, ToonValue::Str("METRICS"@))]),
    }
}

/// The value that stands for a response: OK and PONG as text, NULL as
/// null, an error as an object with an `error` text, a value as bytes and
/// statistics as text.
pub open spec fn response_toon_value(r: ResponseView) -> ToonValue {
    match r {
        ResponseView::Okay => ToonValue::Str("OK"@),
        ResponseView::Pong => ToonValue::Str("PONG"@),
        ResponseView::Null => ToonValue::Null,
        ResponseView::Error(m) => ToonValue::Object(seq![("error"@, ToonValue::Str(m))]),
        ResponseView::Value(v) => ToonValue::Bytes(v),
        ResponseView::Stats(s) => ToonValue::Str(s),
    }
}

fn field(name: &str, value: ToonType) -> (f: (String, ToonType))
    ensures
        f.0@ == name@,
        toon_view(f.1) == toon_view(value),
{
    (name.to_string(), value)
}

fn object(fields: Vec<(String, ToonType)>) -> (t: ToonType)
    ensures
        toon_view(t) == ToonValue::Object(toon_view_fields(fields@)),
{
    ToonType::Object(fields)
}

impl ToonEncoder {
    fn encode_default(&mut self, value: ToonType) -> (res: Result<Vec<u8>, String>)
        requires
            old(self).interner_wf(),
        ensures
            final(self).interner_wf(),
            final(self).interned() == enc_value(toon_view(value), true, old(self).interned()).1,
            res is Ok <==> 16 + enc_value(toon_view(value), true, old(self).interned()).0.len() <= usize::MAX,
            res matches Ok(b) ==> b@ == default_packet_bytes(toon_view(value), old(self).interned()),
    {
        let packet = ToonPacket::new(value);
        self.encode(&packet)
    }

    /// Encodes a one-field object: `key` holding `value`.
    pub fn encode_kv(&mut self, key: &str, value: ToonType) -> (res: Result<Vec<u8>, String>)
        requires
            old(self).interner_wf(),
        ensures
            final(self).interner_wf(),
            res matches Ok(b) ==> b@ == default_packet_bytes(
                ToonValue::Object(seq![(key@, toon_view(value))]),
                old(self).interned(),
            ),
            res is Ok <==> 16 + enc_value(ToonValue::Object(seq![(key@, toon_view(value))]), true, old(self).interned()).0.len() <= usize::MAX,
    {
        let mut obj: Vec<(String, ToonType)> = Vec::new();
        obj.push(field(key, value));
        proof {
            lemma_view_fields(obj@);
            assert(toon_view_fields(obj@) =~= seq![(key@, toon_view(value))]);
        }
        let t = object(obj);
        self.encode_default(t)
    }

    /// Encodes a response as a packet with the default flags.
    pub fn encode_response(&mut self, response: &Response) -> (res: Result<Vec<u8>, String>)
        requires
            old(self).interner_wf(),
        ensures
            final(self).interner_wf(),
            res matches Ok(b) ==> b@ == default_packet_bytes(response_toon_value(response@), old(self).interned()),
            res is Ok <==> 16 + enc_value(response_toon_value(response@), true, old(self).interned()).0.len() <= usize::MAX,
    {
        let value = match response {
            Response::Okay => ToonType::String("OK".to_string()),
            Response::Pong => ToonType::String("PONG".to_string()),
            Response::Null => ToonType::Null,
            Response::Error(msg) => {
                let mut obj: Vec<(String, ToonType)> = Vec::new();
                obj.push(field("error", ToonType::String(msg.clone())));
                proof {
                    lemma_view_fields(obj@);
                    assert(toon_view_fields(obj@) =~= seq![("error"@, ToonValue::Str(msg@))]);
                }
                let t = object(obj);
                t
            },
            Response::Value(bytes) => {
                let c = bytes.clone();
                assert(c@ =~= bytes@);
                ToonType::Bytes(c)
            },
            Response::Stats(stats) => ToonType::String(stats.clone()),
        };
        assert(toon_view(value) == response_toon_value(response@));
        self.encode_default(value)
    }

    /// Encodes a command as a packet with the default flags.
    pub fn encode_command(&mut self, command: &Command) -> (res: Result<Vec<u8>, String>)
        requires
            old(self).interner_wf(),
        ensures
            final(self).interner_wf(),
            final(self).interned() == enc_value(command_toon_value(command@), true, old(self).interned()).1,
            res matches Ok(b) ==> b@ == default_packet_bytes(command_toon_value(command@), old(self).interned()),
            res is Ok <==> 16 + enc_value(command_toon_value(command@), true, old(self).interned()).0.len() <= usize::MAX,
    {
        let mut obj: Vec<(String, ToonType)> = Vec::new();
        match command {
            Command::Ping => {
                obj.push(field("cmd", ToonType::String("PING".to_string())));
            },
            Command::Put { key, value, ttl } => {
                obj.push(field("cmd", ToonType::String("PUT".to_string())));
                let k = key.clone();
                assert(k@ =~= key@);
                obj.push(field("key", ToonType::Bytes(k)));
                let v = value.clone();
                assert(v@ =~= value@);
                obj.push(field("value", ToonType::Bytes(v)));
                match ttl {
                    Some(t) => {
                        obj.push(field("ttl", ToonType::UInt64(*t)));
                    },
                    None => {},
                }
            },
            Command::Get { key } => {
                obj.push(field("cmd", ToonType::String("GET".to_string())));
                let k = key.clone();
                assert(k@ =~= key@);
                obj.push(field("key", ToonType::Bytes(k)));
            },
            Command::Del { key } => {
                obj.push(field("cmd", ToonType::String("DEL".to_string())));
                let k = key.clone();
                assert(k@ =~= key@);
                obj.push(field("key", ToonType::Bytes(k)));
            },
            Command::Expire { key, ttl } => {
                obj.push(field("cmd", ToonType::String("EXPIRE".to_string())));
                let k = key.clone();
                assert(k@ =~= key@);
                obj.push(field("key", ToonType::Bytes(k)));
                obj.push(field("ttl", ToonType::UInt64(*ttl)));
            },
            Command::Stats => {
                obj.push(field("cmd", ToonType::String("STATS".to_string())));
            },
            Command::Metrics => {
                obj.push(field("cmd", ToonType::String("METRICS".to_string())));
            },
        }
        proof {
            lemma_view_fields(obj@);
            let expected = match command_toon_value(command@) {
                ToonValue::Object(f) => f,
                _ => Seq::empty(),
            };
            assert(toon_view_fields(obj@) =~= expected);
        }
        let t = object(obj);
        self.encode_default(t)
    }
}

} // verus!
