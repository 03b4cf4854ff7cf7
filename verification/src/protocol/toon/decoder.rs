//! TOON decoding: the header, then the value, interning long strings as
//! they arrive.

use vstd::prelude::*;
use vstd::bytes::{spec_u16_from_le_bytes, spec_u32_from_le_bytes, spec_u64_from_le_bytes};
use vstd::utf8::{decode_utf8, valid_utf8};
use crate::protocol::toon::{
    flags_of_byte, has_toon_magic, is_toon_magic, lemma_view_fields, lemma_view_items, toon_magic,
    toon_view, toon_view_fields, toon_view_items, StringInterner, ToonFlags, ToonPacket, ToonType,
    ToonValue, TOON_MAGIC, TOON_VERSION,
};
use crate::protocol::commands::{Command, CommandView};
use crate::protocol::text::{str_eq, string_from_utf8};
use crate::protocol::varint::{lemma_varint_at_bounds, read_varint_at, varint_at, VarintError};
use crate::protocol::wire::copy_range;

verus! {

/// Why bytes could not be decoded as TOON.
#[derive(Debug, Clone, PartialEq, Eq)]
pub enum ToonDecodeError {
    /// A value was expected and the data had ended.
    UnexpectedEnd,
    /// A fixed-width payload (bool, int8, int16, uint8, uint16, float32,
    /// float64) is cut short; the byte is the type byte.
    MissingPayload(u8),
    /// A varint could not be read.
    Varint(VarintError),
    /// A string is longer than the data after its length.
    StringExceedsBuffer,
    /// A string is not valid UTF-8.
    InvalidUtf8,
    /// A byte string is longer than the data after its length.
    BytesExceedBuffer,
    /// An object key is neither a string nor a reference to one.
    KeyNotString,
    /// A reference to a string that the decoder does not hold.
    InvalidInternedId(u32),
    /// A type byte that no value has.
    UnknownType(u8),
    /// Fewer than seven bytes were given for a packet.
    PacketTooShort,
    /// The packet does not start with `TOON`.
    InvalidMagic,
    /// The packet's version is not the one this crate speaks.
    UnsupportedVersion(u8),
    /// The packet announces more data than it holds.
    InvalidDataLength,
}

/// Decoder of TOON packets; it numbers the long strings it receives.
pub struct ToonDecoder {
    interner: StringInterner,
    zero_copy_enabled: bool,
}

/// `fields` with `value` stored under `key`: in place if the key is there,
/// at the end otherwise.
pub open spec fn obj_insert(fields: Seq<(Seq<char>, ToonValue)>, key: Seq<char>, value: ToonValue) -> Seq<(Seq<char>, ToonValue)> {
    if exists|i: int| 0 <= i < fields.len() && fields[i].0 == key {
        let i = choose|i: int| 0 <= i < fields.len() && fields[i].0 == key;
        fields.update(i, (key, value))
    } else {
        fields.push((key, value))
    }
}

/// A string decoded with interning: a string of more than four bytes
/// becomes a reference to its number, which it is given if it has none and
/// the interner is not full; anything else stays a string.
pub open spec fn dec_intern(s: Seq<char>, byte_len: int, interning: bool, st: Seq<Seq<char>>) -> (ToonValue, Seq<Seq<char>>) {
    if interning && byte_len > 4 {
        if st.contains(s) {
            (ToonValue::InternedString(st.index_of(s) as u32), st)
        } else if st.len() < u32::MAX {
            (ToonValue::InternedString(st.len() as u32), st.push(s))
        } else {
            (ToonValue::Str(s), st)
        }
    } else {
        (ToonValue::Str(s), st)
    }
}

/// Decoding one value at position `c` of `b`: the value and the position
/// after it, or why it failed; and the strings held afterwards.
pub open spec fn dec_value(b: Seq<u8>, c: int, il: bool, st: Seq<Seq<char>>) -> (Result<(ToonValue, int), ToonDecodeError>, Seq<Seq<char>>)
    decreases b.len() - c, 0int,
{
    if c < 0 || c >= b.len() {
        (Err(ToonDecodeError::UnexpectedEnd), st)
    } else {
        let t = b[c];
        let c1 = c + 1;
        if t == 0x00 {
            (Ok((ToonValue::Null, c1)), st)
        } else if t == 0x01 || t == 0x02 || t == 0x06 {
            if c1 >= b.len() {
                (Err(ToonDecodeError::MissingPayload(t)), st)
            } else if t == 0x01 {
                (Ok((ToonValue::Bool(b[c1] != 0), c1 + 1)), st)
            } else if t == 0x02 {
                (Ok((ToonValue::Int8(b[c1] as i8), c1 + 1)), st)
            } else {
                (Ok((ToonValue::UInt8(b[c1]), c1 + 1)), st)
            }
        } else if t == 0x03 || t == 0x07 {
            if c1 + 2 > b.len() {
                (Err(ToonDecodeError::MissingPayload(t)), st)
            } else {
                let x = spec_u16_from_le_bytes(b.subrange(c1, c1 + 2));
                if t == 0x03 {
                    (Ok((ToonValue::Int16(x as i16), c1 + 2)), st)
                } else {
                    (Ok((ToonValue::UInt16(x), c1 + 2)), st)
                }
            }
        } else if t == 0x04 || t == 0x05 || t == 0x08 || t == 0x09 || t == 0x10 {
            match varint_at(b, c1) {
                Err(e) => (Err(ToonDecodeError::Varint(e)), st),
                Ok((v, c2)) => {
                    let value = if t == 0x04 {
                        ToonValue::Int32(v as i32)
                    } else if t == 0x05 {
                        ToonValue::Int64(v as i64)
                    } else if t == 0x08 {
                        ToonValue::UInt32(v as u32)
                    } else if t == 0x09 {
                        ToonValue::UInt64(v)
                    } else {
                        ToonValue::InternedString(v as u32)
                    };
                    (Ok((value, c2)), st)
                },
            }
        } else if t == 0x0A {
            if c1 + 4 > b.len() {
                (Err(ToonDecodeError::MissingPayload(t)), st)
            } else {
                (Ok((ToonValue::Float32(spec_u32_from_le_bytes(b.subrange(c1, c1 + 4))), c1 + 4)), st)
            }
        } else if t == 0x0B {
            if c1 + 8 > b.len() {
                (Err(ToonDecodeError::MissingPayload(t)), st)
            } else {
                (Ok((ToonValue::Float64(spec_u64_from_le_bytes(b.subrange(c1, c1 + 8))), c1 + 8)), st)
            }
        } else if t == 0x0C {
            match varint_at(b, c1) {
                Err(e) => (Err(ToonDecodeError::Varint(e)), st),
                Ok((len, c2)) => if c2 + len > b.len() {
                    (Err(ToonDecodeError::StringExceedsBuffer), st)
                } else {
                    let raw = b.subrange(c2, c2 + len);
                    if !valid_utf8(raw) {
                        (Err(ToonDecodeError::InvalidUtf8), st)
                    } else {
                        let (v, st2) = dec_intern(decode_utf8(raw), len as int, il, st);
                        (Ok((v, c2 + len)), st2)
                    }
                },
            }
        } else if t == 0x0D {
            match varint_at(b, c1) {
                Err(e) => (Err(ToonDecodeError::Varint(e)), st),
                Ok((len, c2)) => if c2 + len > b.len() {
                    (Err(ToonDecodeError::BytesExceedBuffer), st)
                } else {
                    (Ok((ToonValue::Bytes(b.subrange(c2, c2 + len)), c2 + len)), st)
                },
            }
        } else if t == 0x0E || t == 0x0F {
            match varint_at(b, c1) {
                Err(e) => (Err(ToonDecodeError::Varint(e)), st),
                Ok((n, c2)) => {
                    proof { lemma_varint_at_bounds(b, c1); }
                    if t == 0x0E {
                        let (r, st2) = dec_items(b, c2, n as nat, il, st, Seq::empty());
                        match r {
                            Ok((items, c3)) => (Ok((ToonValue::Array(items), c3)), st2),
                            Err(e) => (Err(e), st2),
                        }
                    } else {
                        let (r, st2) = dec_fields(b, c2, n as nat, il, st, Seq::empty());
                        match r {
                            Ok((fields, c3)) => (Ok((ToonValue::Object(fields), c3)), st2),
                            Err(e) => (Err(e), st2),
                        }
                    }
                },
            }
        } else {
            (Err(ToonDecodeError::UnknownType(t)), st)
        }
    }
}

/// Decoding `n` more values from position `c`, after those in `acc`.
pub open spec fn dec_items(b: Seq<u8>, c: int, n: nat, il: bool, st: Seq<Seq<char>>, acc: Seq<ToonValue>) -> (Result<(Seq<ToonValue>, int), ToonDecodeError>, Seq<Seq<char>>)
    decreases b.len() - c, 1int, n,
{
    if n == 0 {
        (Ok((acc, c)), st)
    } else {
        let (r, st1) = dec_value(b, c, il, st);
        match r {
            Err(e) => (Err(e), st1),
            Ok((v, c2)) => if c < c2 <= b.len() {
                dec_items(b, c2, (n - 1) as nat, il, st1, acc.push(v))
            } else {
                (Err(ToonDecodeError::UnexpectedEnd), st1)
            },
        }
    }
}

/// The key that a decoded key value names: a string, or the held string
/// that a reference numbers.
pub open spec fn key_of(v: ToonValue, st: Seq<Seq<char>>) -> Result<Seq<char>, ToonDecodeError> {
    match v {
        ToonValue::Str(s) => Ok(s),
        ToonValue::InternedString(id) => if (id as int) < st.len() {
            Ok(st[id as int])
        } else {
            Err(ToonDecodeError::InvalidInternedId(id))
        },
        _ => Err(ToonDecodeError::KeyNotString),
    }
}

/// Decoding `n` more key-value pairs from position `c` into `acc`.
pub open spec fn dec_fields(b: Seq<u8>, c: int, n: nat, il: bool, st: Seq<Seq<char>>, acc: Seq<(Seq<char>, ToonValue)>) -> (Result<(Seq<(Seq<char>, ToonValue)>, int), ToonDecodeError>, Seq<Seq<char>>)
    decreases b.len() - c, 1int, n,
{
    if n == 0 {
        (Ok((acc, c)), st)
    } else {
        let (rk, st1) = dec_value(b, c, il, st);
        match rk {
            Err(e) => (Err(e), st1),
            Ok((kv, c2)) => if !(c < c2 <= b.len()) {
                (Err(ToonDecodeError::UnexpectedEnd), st1)
            } else {
                match key_of(kv, st1) {
                    Err(e) => (Err(e), st1),
                    Ok(k) => {
                        let (rv, st2) = dec_value(b, c2, il, st1);
                        match rv {
                            Err(e) => (Err(e), st2),
                            Ok((v, c3)) => if c2 < c3 <= b.len() {
                                dec_fields(b, c3, (n - 1) as nat, il, st2, obj_insert(acc, k, v))
                            } else {
                                (Err(ToonDecodeError::UnexpectedEnd), st2)
                            },
                        }
                    },
                }
            },
        }
    }
}


/// No two fields share a key.
pub open spec fn keys_distinct(fields: Seq<(Seq<char>, ToonValue)>) -> bool {
    forall|i: int, j: int| 0 <= i < fields.len() && 0 <= j < fields.len() && i != j ==> fields[i].0 != fields[j].0
}

/// Stores `value` under `key` in `fields`: in place if the key is there,
/// at the end otherwise.
pub fn object_insert(fields: &mut Vec<(String, ToonType)>, key: String, value: ToonType)
    requires
        keys_distinct(toon_view_fields(old(fields)@)),
    ensures
        keys_distinct(toon_view_fields(final(fields)@)),
        toon_view_fields(final(fields)@) == obj_insert(toon_view_fields(old(fields)@), key@, toon_view(value)),
{
    proof { lemma_view_fields(fields@); }
    let ghost fs = toon_view_fields(fields@);
    let mut i: usize = 0;
    while i < fields.len()
        invariant
            i <= fields@.len(),
            fs == toon_view_fields(fields@),
            fs == toon_view_fields(old(fields)@),
            keys_distinct(fs),
            fs.len() == fields@.len(),
            forall|j: int| 0 <= j < fields@.len() ==> #[trigger] fs[j] == (fields@[j].0@, toon_view(fields@[j].1)),
            forall|j: int| 0 <= j < i ==> fs[j].0 != key@,
        decreases fields@.len() - i,
    {
        if fields[i].0 == key {
            let ghost before = fields@;
            fields.set(i, (key, value));
            proof {
                lemma_view_fields(fields@);
                assert(fs[i as int].0 == key@);
                let k = choose|k: int| 0 <= k < fs.len() && fs[k].0 == key@;
                assert(k == i);
                assert(toon_view_fields(fields@) =~= fs.update(i as int, (key@, toon_view(value))));
            }
            return;
        }
        i += 1;
    }
    let ghost before = fields@;
    fields.push((key, value));
    proof {
        lemma_view_fields(fields@);
        assert(toon_view_fields(fields@) =~= fs.push((key@, toon_view(value))));
    }
}

impl ToonDecoder {
    /// A decoder that holds no string.
    pub fn new() -> (d: Self)
        ensures
            d.interner_wf(),
            d.interned() == Seq::<Seq<char>>::empty(),
    {
        ToonDecoder { interner: StringInterner::new(), zero_copy_enabled: true }
    }

    /// The strings this decoder holds, by number.
    pub closed spec fn interned(&self) -> Seq<Seq<char>> {
        self.interner@
    }

    /// How many times each held string was interned.
    pub closed spec fn interned_uses(&self) -> Seq<usize> {
        self.interner.use_counts()
    }

    /// The held strings are distinct.
    pub closed spec fn interner_wf(&self) -> bool {
        self.interner.wf()
    }

    fn intern_decoded(&mut self, s: String, byte_len: usize, use_interning: bool) -> (v: ToonType)
        requires
            old(self).interner_wf(),
        ensures
            final(self).interner_wf(),
            toon_view(v) == dec_intern(s@, byte_len as int, use_interning, old(self).interned()).0,
            final(self).interned() == dec_intern(s@, byte_len as int, use_interning, old(self).interned()).1,
    {
        if use_interning && byte_len > 4 {
            match self.interner.lookup(s.as_str()) {
                Some(i) => {
                    proof {
                        assert(self.interner@.contains(s@));
                        let k = self.interner@.index_of(s@);
                        assert(self.interner@[k] == s@);
                    }
                    return ToonType::InternedString(i as u32);
                },
                None => {
                    assert(!self.interner@.contains(s@));
                    if self.interner.len() < 0xFFFF_FFFFusize {
                        let id = self.interner.intern(s.as_str());
                        return ToonType::InternedString(id);
                    }
                },
            }
        }
        ToonType::String(s)
    }

    /// Decodes one value at `*cursor`, moving the cursor past it.
    #[verifier::rlimit(40)]
    pub fn decode_value(&mut self, bytes: &[u8], cursor: &mut usize, use_interning: bool) -> (res: Result<ToonType, ToonDecodeError>)
        requires
            old(self).interner_wf(),
            *old(cursor) <= bytes@.len(),
        ensures
            final(self).interner_wf(),
            final(self).interned() == dec_value(bytes@, *old(cursor) as int, use_interning, old(self).interned()).1,
            match (res, dec_value(bytes@, *old(cursor) as int, use_interning, old(self).interned()).0) {
                (Ok(v), Ok((sv, sc))) => toon_view(v) == sv && *final(cursor) == sc && *old(cursor) < sc <= bytes@.len(),
                (Err(e), Err(se)) => e == se,
                _ => false,
            },
        decreases bytes@.len() - *old(cursor),
    {
        if *cursor >= bytes.len() {
            return Err(ToonDecodeError::UnexpectedEnd);
        }
        let type_id = bytes[*cursor];
        *cursor += 1;
        let c1 = *cursor;
        if type_id == 0x00 {
            Ok(ToonType::Null)
        } else if type_id == 0x01 || type_id == 0x02 || type_id == 0x06 {
            if c1 >= bytes.len() {
                return Err(ToonDecodeError::MissingPayload(type_id));
            }
            let b = bytes[c1];
            *cursor += 1;
            if type_id == 0x01 {
                Ok(ToonType::Bool(b != 0))
            } else if type_id == 0x02 {
                Ok(ToonType::Int8(b as i8))
            } else {
                Ok(ToonType::UInt8(b))
            }
        } else if type_id == 0x03 || type_id == 0x07 {
            if bytes.len() - c1 < 2 {
                return Err(ToonDecodeError::MissingPayload(type_id));
            }
            let x = vstd::bytes::u16_from_le_bytes(vstd::slice::slice_subrange(bytes, c1, c1 + 2));
            *cursor += 2;
            if type_id == 0x03 {
                Ok(ToonType::Int16(x as i16))
            } else {
                Ok(ToonType::UInt16(x))
            }
        } else if type_id == 0x04 || type_id == 0x05 || type_id == 0x08 || type_id == 0x09 || type_id == 0x10 {
            match read_varint_at(bytes, c1) {
                Err(e) => Err(ToonDecodeError::Varint(e)),
                Ok((v, c2)) => {
                    *cursor = c2;
                    if type_id == 0x04 {
                        Ok(ToonType::Int32(v as i32))
                    } else if type_id == 0x05 {
                        Ok(ToonType::Int64(v as i64))
                    } else if type_id == 0x08 {
                        Ok(ToonType::UInt32(v as u32))
                    } else if type_id == 0x09 {
                        Ok(ToonType::UInt64(v))
                    } else {
                        Ok(ToonType::InternedString(v as u32))
                    }
                },
            }
        } else if type_id == 0x0A {
            if bytes.len() - c1 < 4 {
                return Err(ToonDecodeError::MissingPayload(type_id));
            }
            let x = vstd::bytes::u32_from_le_bytes(vstd::slice::slice_subrange(bytes, c1, c1 + 4));
            *cursor += 4;
            Ok(ToonType::Float32(x))
        } else if type_id == 0x0B {
            if bytes.len() - c1 < 8 {
                return Err(ToonDecodeError::MissingPayload(type_id));
            }
            let x = vstd::bytes::u64_from_le_bytes(vstd::slice::slice_subrange(bytes, c1, c1 + 8));
            *cursor += 8;
            Ok(ToonType::Float64(x))
        } else if type_id == 0x0C {
            match read_varint_at(bytes, c1) {
                Err(e) => Err(ToonDecodeError::Varint(e)),
                Ok((length, c2)) => {
                    *cursor = c2;
                    if length > (bytes.len() - c2) as u64 {
                        return Err(ToonDecodeError::StringExceedsBuffer);
                    }
                    let end = c2 + length as usize;
                    let raw = copy_range(bytes, c2, end);
                    match string_from_utf8(raw) {
                        None => Err(ToonDecodeError::InvalidUtf8),
                        Some(value) => {
                            *cursor = end;
                            Ok(self.intern_decoded(value, length as usize, use_interning))
                        },
                    }
                },
            }
        } else if type_id == 0x0D {
            match read_varint_at(bytes, c1) {
                Err(e) => Err(ToonDecodeError::Varint(e)),
                Ok((length, c2)) => {
                    *cursor = c2;
                    if length > (bytes.len() - c2) as u64 {
                        return Err(ToonDecodeError::BytesExceedBuffer);
                    }
                    let end = c2 + length as usize;
                    let value = if self.zero_copy_enabled {
                        copy_range(bytes, c2, end)
                    } else {
                        vstd::slice::slice_to_vec(vstd::slice::slice_subrange(bytes, c2, end))
                    };
                    *cursor = end;
                    Ok(ToonType::Bytes(value))
                },
            }
        } else if type_id == 0x0E {
            match read_varint_at(bytes, c1) {
                Err(e) => Err(ToonDecodeError::Varint(e)),
                Ok((count, c2)) => {
                    *cursor = c2;
                    let ghost st0 = self.interned();
                    let mut array: Vec<ToonType> = Vec::new();
                    let mut k: u64 = 0;
                    proof { lemma_view_items(array@); }
                    while k < count
                        invariant
                            k <= count,
                            *old(cursor) < *cursor <= bytes@.len(),
                            *old(cursor) < bytes@.len(),
                            bytes@[*old(cursor) as int] == 0x0E,
                            varint_at(bytes@, *old(cursor) + 1) == Ok::<(u64, int), VarintError>((count, c2 as int)),
                            st0 == old(self).interned(),
                            self.interner_wf(),
                            dec_items(bytes@, c2 as int, count as nat, use_interning, st0, Seq::empty())
                                == dec_items(bytes@, *cursor as int, (count - k) as nat, use_interning, self.interned(), toon_view_items(array@)),
                        decreases count - k,
                    {
                        let ghost cur = *cursor;
                        let ghost before = array@;
                        let item = self.decode_value(bytes, cursor, use_interning)?;
                        array.push(item);
                        assert(array@.drop_last() =~= before);
                        k += 1;
                    }
                    Ok(ToonType::Array(array))
                },
            }
        } else if type_id == 0x0F {
            match read_varint_at(bytes, c1) {
                Err(e) => Err(ToonDecodeError::Varint(e)),
                Ok((count, c2)) => {
                    *cursor = c2;
                    let ghost st0 = self.interned();
                    let mut object: Vec<(String, ToonType)> = Vec::new();
                    let mut k: u64 = 0;
                    proof { lemma_view_fields(object@); }
                    while k < count
                        invariant
                            k <= count,
                            *old(cursor) < *cursor <= bytes@.len(),
                            *old(cursor) < bytes@.len(),
                            bytes@[*old(cursor) as int] == 0x0F,
                            varint_at(bytes@, *old(cursor) + 1) == Ok::<(u64, int), VarintError>((count, c2 as int)),
                            st0 == old(self).interned(),
                            self.interner_wf(),
                            keys_distinct(toon_view_fields(object@)),
                            dec_fields(bytes@, c2 as int, count as nat, use_interning, st0, Seq::empty())
                                == dec_fields(bytes@, *cursor as int, (count - k) as nat, use_interning, self.interned(), toon_view_fields(object@)),
                        decreases count - k,
                    {
                        let key_value = self.decode_value(bytes, cursor, use_interning)?;
                        let key = match key_value {
                            ToonType::String(s) => s,
                            ToonType::InternedString(id) => match self.interner.get(id) {
                                Some(s) => s.to_string(),
                                None => {
                                    return Err(ToonDecodeError::InvalidInternedId(id));
                                },
                            },
                            _ => {
                                return Err(ToonDecodeError::KeyNotString);
                            },
                        };
                        let value = self.decode_value(bytes, cursor, use_interning)?;
                        object_insert(&mut object, key, value);
                        k += 1;
                    }
                    Ok(ToonType::Object(object))
                },
            }
        } else {
            Err(ToonDecodeError::UnknownType(type_id))
        }
    }
}


/// Decoding a packet: the version, the flags and the value, or why it
/// failed; and the strings held afterwards. The value is read from the data
/// that the length announces; bytes after it there, or after the data, are
/// ignored.
pub open spec fn dec_packet(b: Seq<u8>, st: Seq<Seq<char>>) -> (Result<(u8, ToonFlags, ToonValue), ToonDecodeError>, Seq<Seq<char>>) {
    if b.len() < 7 {
        (Err(ToonDecodeError::PacketTooShort), st)
    } else if !has_toon_magic(b) {
        (Err(ToonDecodeError::InvalidMagic), st)
    } else if b[4] != TOON_VERSION {
        (Err(ToonDecodeError::UnsupportedVersion(b[4])), st)
    } else {
        let flags = flags_of_byte(b[5]);
        match varint_at(b, 6) {
            Err(e) => (Err(ToonDecodeError::Varint(e)), st),
            Ok((dl, c)) => if c + dl > b.len() {
                (Err(ToonDecodeError::InvalidDataLength), st)
            } else {
                let (r, st2) = dec_value(b.subrange(c, c + dl), 0, flags.string_interning, st);
                match r {
                    Ok((v, _)) => (Ok((b[4], flags, v)), st2),
                    Err(e) => (Err(e), st2),
                }
            },
        }
    }
}

impl ToonDecoder {
    /// Decodes a packet.
    pub fn decode(&mut self, bytes: &[u8]) -> (res: Result<ToonPacket, ToonDecodeError>)
        requires
            old(self).interner_wf(),
        ensures
            final(self).interner_wf(),
            final(self).interned() == dec_packet(bytes@, old(self).interned()).1,
            match (res, dec_packet(bytes@, old(self).interned()).0) {
                (Ok(p), Ok((version, flags, v))) => p.magic@ == toon_magic() && p.version == version
                    && p.flags == flags && toon_view(p.data) == v,
                (Err(e), Err(se)) => e == se,
                _ => false,
            },
    {
        if bytes.len() < 7 {
            return Err(ToonDecodeError::PacketTooShort);
        }
        if !is_toon_magic(bytes) {
            return Err(ToonDecodeError::InvalidMagic);
        }
        let version = bytes[4];
        if version != TOON_VERSION {
            return Err(ToonDecodeError::UnsupportedVersion(version));
        }
        let flags = ToonFlags::from_byte(bytes[5]);
        let (data_length, c) = match read_varint_at(bytes, 6) {
            Ok(r) => r,
            Err(e) => {
                return Err(ToonDecodeError::Varint(e));
            },
        };
        if data_length > (bytes.len() - c) as u64 {
            return Err(ToonDecodeError::InvalidDataLength);
        }
        let data_bytes = vstd::slice::slice_subrange(bytes, c, c + data_length as usize);
        let mut cursor: usize = 0;
        let data = self.decode_value(data_bytes, &mut cursor, flags.string_interning)?;
        let magic: [u8; 4] = TOON_MAGIC;
        assert(magic@ == toon_magic());
        Ok(ToonPacket { magic, version, flags, data })
    }

    /// Makes this decoder hold the strings of `encoder_interner`, numbered
    /// as there.
    pub fn sync_interner(&mut self, encoder_interner: &StringInterner)
        requires
            encoder_interner.wf(),
        ensures
            final(self).interner_wf(),
            final(self).interned() == encoder_interner@,
    {
        self.interner = StringInterner::new();
        let n = encoder_interner.len();
        let mut i: usize = 0;
        while i < n
            invariant
                i <= n == encoder_interner@.len(),
                encoder_interner.wf(),
                self.interner.wf(),
                self.interner@ == encoder_interner@.subrange(0, i as int),
            decreases n - i,
        {
            let s = encoder_interner.get(i as u32).unwrap();
            proof {
                assert(!self.interner@.contains(s@)) by {
                    if self.interner@.contains(s@) {
                        let j = choose|j: int| 0 <= j < self.interner@.len() && self.interner@[j] == s@;
                        assert(encoder_interner@[j] == encoder_interner@[i as int]);
                    }
                }
            }
            self.interner.intern(s);
            assert(self.interner@ =~= encoder_interner@.subrange(0, i + 1 as int));
            i += 1;
        }
        assert(self.interner@ =~= encoder_interner@);
    }

    /// The number of strings held, and the bytes interning saved
    /// (see `StringInterner::memory_saved`).
    pub fn get_interning_stats(&self) -> (stats: (usize, usize))
        requires
            self.interner_wf(),
        ensures
            stats.0 == self.interned().len(),
            stats.1 as int == crate::protocol::toon::capped_saved(self.interned(), self.interned_uses()),
    {
        (self.interner.len(), self.interner.memory_saved())
    }
}


/// The fields of a command object whose bytes are read.
#[derive(Debug, Clone, Copy, PartialEq, Eq, Structural)]
pub enum CommandField {
    Key,
    Value,
}

/// Why a TOON packet is not a command.
#[derive(Debug, Clone, PartialEq, Eq)]
pub enum ToonCommandError {
    /// The packet could not be decoded.
    Decode(ToonDecodeError),
    /// The value is not an object.
    NotObject,
    /// The object has no `cmd` field.
    MissingCmd,
    /// The `cmd` field is not a string.
    CmdNotString,
    /// A reference to a string that the decoder does not hold.
    InvalidInternedId(u32),
    /// A field that the command needs is missing or not bytes or text.
    MissingOrInvalidField(CommandField),
    /// EXPIRE without an unsigned 64-bit `ttl`.
    ExpireRequiresTtl,
    /// A `cmd` that names no command.
    UnknownCommand(String),
}

/// Why a TOON packet is not a command, as plain values.
pub enum ToonCommandErrorView {
    Decode(ToonDecodeError),
    NotObject,
    MissingCmd,
    CmdNotString,
    InvalidInternedId(u32),
    MissingOrInvalidField(CommandField),
    ExpireRequiresTtl,
    UnknownCommand(Seq<char>),
}

impl View for ToonCommandError {
    type V = ToonCommandErrorView;

    open spec fn view(&self) -> ToonCommandErrorView {
        match self {
            ToonCommandError::Decode(e) => ToonCommandErrorView::Decode(*e),
            ToonCommandError::NotObject => ToonCommandErrorView::NotObject,
            ToonCommandError::MissingCmd => ToonCommandErrorView::MissingCmd,
            ToonCommandError::CmdNotString => ToonCommandErrorView::CmdNotString,
            ToonCommandError::InvalidInternedId(id) => ToonCommandErrorView::InvalidInternedId(*id),
            ToonCommandError::MissingOrInvalidField(f) => ToonCommandErrorView::MissingOrInvalidField(*f),
            ToonCommandError::ExpireRequiresTtl => ToonCommandErrorView::ExpireRequiresTtl,
            ToonCommandError::UnknownCommand(s) => ToonCommandErrorView::UnknownCommand(s@),
        }
    }
}

/// The value of the first field named `key`.
pub open spec fn field_get(fields: Seq<(Seq<char>, ToonValue)>, key: Seq<char>) -> Option<ToonValue>
    decreases fields.len(),
{
    if fields.len() == 0 {
        None
    } else if fields[0].0 == key {
        Some(fields[0].1)
    } else {
        field_get(fields.drop_first(), key)
    }
}

/// The text a string value or a reference to a held string stands for.
pub open spec fn text_of(v: ToonValue, st: Seq<Seq<char>>, not_text: ToonCommandErrorView) -> Result<Seq<char>, ToonCommandErrorView> {
    match v {
        ToonValue::Str(s) => Ok(s),
        ToonValue::InternedString(id) => if (id as int) < st.len() {
            Ok(st[id as int])
        } else {
            Err(ToonCommandErrorView::InvalidInternedId(id))
        },
        _ => Err(not_text),
    }
}

/// The bytes of the field `key`: a byte string as it is, text as UTF-8.
pub open spec fn field_bytes(fields: Seq<(Seq<char>, ToonValue)>, key: Seq<char>, which: CommandField, st: Seq<Seq<char>>) -> Result<Seq<u8>, ToonCommandErrorView> {
    match field_get(fields, key) {
        Some(ToonValue::Bytes(b)) => Ok(b),
        Some(v) => match text_of(v, st, ToonCommandErrorView::MissingOrInvalidField(which)) {
            Ok(s) => Ok(vstd::utf8::encode_utf8(s)),
            Err(e) => Err(e),
        },
        None => Err(ToonCommandErrorView::MissingOrInvalidField(which)),
    }
}

/// The command that a decoded value names: an object whose `cmd` is PING,
/// PUT (or SET, with `key`, `value` and an optional unsigned 64-bit `ttl`),
/// GET or DEL (with `key`), EXPIRE (with `key` and `ttl`), STATS or METRICS.
pub open spec fn toon_to_command(v: ToonValue, st: Seq<Seq<char>>) -> Result<CommandView, ToonCommandErrorView> {
    match v {
        ToonValue::Object(fields) => match field_get(fields, "cmd"@) {
            None => Err(ToonCommandErrorView::MissingCmd),
            Some(cv) => match text_of(cv, st, ToonCommandErrorView::CmdNotString) {
                Err(e) => Err(e),
                Ok(name) => if name == "PING"@ {
                    Ok(CommandView::Ping)
                } else if name == "PUT"@ || name == "SET"@ {
                    match field_bytes(fields, "key"@, CommandField::Key, st) {
                        Err(e) => Err(e),
                        Ok(key) => match field_bytes(fields, "value"@, CommandField::Value, st) {
                            Err(e) => Err(e),
                            Ok(value) => Ok(
                                CommandView::Put {
                                    key,
                                    value,
                                    ttl: match field_get(fields, "ttl"@) {
                                        Some(ToonValue::UInt64(t)) => Some(t),
                                        _ => None,
                                    },
                                },
                            ),
                        },
                    }
                } else if name == "GET"@ || name == "DEL"@ || name == "EXPIRE"@ {
                    match field_bytes(fields, "key"@, CommandField::Key, st) {
                        Err(e) => Err(e),
                        Ok(key) => if name == "GET"@ {
                            Ok(CommandView::Get { key })
                        } else if name == "DEL"@ {
                            Ok(CommandView::Del { key })
                        } else {
                            match field_get(fields, "ttl"@) {
                                Some(ToonValue::UInt64(t)) => Ok(CommandView::Expire { key, ttl: t }),
                                _ => Err(ToonCommandErrorView::ExpireRequiresTtl),
                            }
                        },
                    }
                } else if name == "STATS"@ {
                    Ok(CommandView::Stats)
                } else if name == "METRICS"@ {
                    Ok(CommandView::Metrics)
                } else {
                    Err(ToonCommandErrorView::UnknownCommand(name))
                },
            },
        },
        _ => Err(ToonCommandErrorView::NotObject),
    }
}

/// The value of the first field named `key`.
pub fn find_field<'a>(fields: &'a Vec<(String, ToonType)>, key: &str) -> (r: Option<&'a ToonType>)
    ensures
        match (r, field_get(toon_view_fields(fields@), key@)) {
            (Some(v), Some(sv)) => toon_view(*v) == sv,
            (None, None) => true,
            _ => false,
        },
{
    proof { lemma_view_fields(fields@); }
    let ghost fs = toon_view_fields(fields@);
    let mut i: usize = 0;
    assert(fs.skip(0) =~= fs);
    while i < fields.len()
        invariant
            i <= fields@.len(),
            fs == toon_view_fields(fields@),
            fs.len() == fields@.len(),
            forall|j: int| 0 <= j < fields@.len() ==> #[trigger] fs[j] == (fields@[j].0@, toon_view(fields@[j].1)),
            field_get(fs, key@) == field_get(fs.skip(i as int), key@),
        decreases fields@.len() - i,
    {
        assert(fs.skip(i as int)[0] == fs[i as int]);
        assert(fs.skip(i as int).drop_first() =~= fs.skip(i + 1 as int));
        if str_eq(fields[i].0.as_str(), key) {
            return Some(&fields[i].1);
        }
        i += 1;
    }
    None
}

impl ToonDecoder {
    fn text_value(&self, v: &ToonType, not_text: ToonCommandError) -> (r: Result<String, ToonCommandError>)
        ensures
            match (r, text_of(toon_view(*v), self.interned(), not_text@)) {
                (Ok(s), Ok(ss)) => s@ == ss,
                (Err(e), Err(se)) => e@ == se,
                _ => false,
            },
    {
        match v {
            ToonType::String(s) => Ok(s.clone()),
            ToonType::InternedString(id) => match self.interner.get(*id) {
                Some(s) => Ok(s.to_string()),
                None => Err(ToonCommandError::InvalidInternedId(*id)),
            },
            _ => Err(not_text),
        }
    }

    /// The bytes of the field `key` of `obj`.
    pub fn extract_bytes(&self, obj: &Vec<(String, ToonType)>, key: &str, which: CommandField) -> (r: Result<Vec<u8>, ToonCommandError>)
        ensures
            match (r, field_bytes(toon_view_fields(obj@), key@, which, self.interned())) {
                (Ok(b), Ok(sb)) => b@ == sb,
                (Err(e), Err(se)) => e@ == se,
                _ => false,
            },
    {
        match find_field(obj, key) {
            Some(ToonType::Bytes(b)) => {
                let c = b.clone();
                assert(c@ =~= b@);
                Ok(c)
            },
            Some(v) => match self.text_value(v, ToonCommandError::MissingOrInvalidField(which)) {
                Ok(s) => Ok(vstd::slice::slice_to_vec(s.as_str().as_bytes())),
                Err(e) => Err(e),
            },
            None => Err(ToonCommandError::MissingOrInvalidField(which)),
        }
    }

    /// Decodes a packet and reads the command it holds.
    pub fn decode_to_command(&mut self, bytes: &[u8]) -> (res: Result<Command, ToonCommandError>)
        requires
            old(self).interner_wf(),
        ensures
            final(self).interner_wf(),
            final(self).interned() == dec_packet(bytes@, old(self).interned()).1,
            match dec_packet(bytes@, old(self).interned()).0 {
                Err(se) => res matches Err(e) && e@ == ToonCommandErrorView::Decode(se),
                Ok((_, _, v)) => match (res, toon_to_command(v, final(self).interned())) {
                    (Ok(c), Ok(sc)) => c@ == sc,
                    (Err(e), Err(se)) => e@ == se,
                    _ => false,
                },
            },
    {
        let packet = match self.decode(bytes) {
            Ok(p) => p,
            Err(e) => {
                return Err(ToonCommandError::Decode(e));
            },
        };
        match &packet.data {
            ToonType::Object(obj) => {
                let cmd = match find_field(obj, "cmd") {
                    Some(c) => c,
                    None => {
                        return Err(ToonCommandError::MissingCmd);
                    },
                };
                let cmd_str = self.text_value(cmd, ToonCommandError::CmdNotString)?;
                let name = cmd_str.as_str();
                if str_eq(name, "PING") {
                    Ok(Command::Ping)
                } else if str_eq(name, "PUT") || str_eq(name, "SET") {
                    let key = self.extract_bytes(obj, "key", CommandField::Key)?;
                    let value = self.extract_bytes(obj, "value", CommandField::Value)?;
                    let ttl = match find_field(obj, "ttl") {
                        Some(ToonType::UInt64(t)) => Some(*t),
                        _ => None,
                    };
                    Ok(Command::Put { key, value, ttl })
                } else if str_eq(name, "GET") {
                    let key = self.extract_bytes(obj, "key", CommandField::Key)?;
                    Ok(Command::Get { key })
                } else if str_eq(name, "DEL") {
                    let key = self.extract_bytes(obj, "key", CommandField::Key)?;
                    Ok(Command::Del { key })
                } else if str_eq(name, "EXPIRE") {
                    let key = self.extract_bytes(obj, "key", CommandField::Key)?;
                    let ttl = match find_field(obj, "ttl") {
                        Some(ToonType::UInt64(t)) => *t,
                        _ => {
                            return Err(ToonCommandError::ExpireRequiresTtl);
                        },
                    };
                    Ok(Command::Expire { key, ttl })
                } else if str_eq(name, "STATS") {
                    Ok(Command::Stats)
                } else if str_eq(name, "METRICS") {
                    Ok(Command::Metrics)
                } else {
                    Err(ToonCommandError::UnknownCommand(cmd_str))
                }
            },
            _ => Err(ToonCommandError::NotObject),
        }
    }
}

} // verus!
