//! What decoding gives back of encoding.

use vstd::prelude::*;
use vstd::bytes::{
    spec_u16_from_le_bytes, spec_u16_to_le_bytes, spec_u32_from_le_bytes, spec_u32_to_le_bytes,
    spec_u64_from_le_bytes, spec_u64_to_le_bytes,
};
use vstd::utf8::{decode_utf8, encode_utf8, valid_utf8};
use crate::protocol::toon::{
    all_distinct, flags_byte, flags_of_byte, has_toon_magic, lemma_flags_roundtrip, toon_magic, utf8_len,
    ToonFlags, ToonValue, TOON_VERSION,
};
use crate::protocol::toon::decoder::{
    dec_fields, dec_intern, dec_items, dec_packet, dec_value, key_of, keys_distinct, obj_insert,
};
use crate::protocol::toon::encoder::{
    default_flags_byte, default_packet_bytes, command_toon_value, enc_fields, enc_items, enc_string, enc_value, plain_string_bytes, response_toon_value,
};
use crate::protocol::commands::{CommandView, ResponseView};
use crate::protocol::toon::decoder::{field_get, text_of, toon_to_command};
use crate::protocol::varint::{lemma_varint_bytes_len, lemma_varint_roundtrip, varint_at, varint_bytes};

verus! {

/// A value that the format can carry: every length fits in 64 bits and no
/// object has two fields with one key.
pub open spec fn toon_wf(v: ToonValue) -> bool
    decreases v,
{
    match v {
        ToonValue::Str(s) => utf8_len(s) <= u64::MAX,
        ToonValue::Bytes(b) => b.len() <= u64::MAX,
        ToonValue::Array(items) => items.len() <= u64::MAX && items_wf(items),
        ToonValue::Object(fields) => fields.len() <= u64::MAX && keys_distinct(fields) && fields_wf(fields),
        _ => true,
    }
}

/// Every one of `items` can be carried.
pub open spec fn items_wf(items: Seq<ToonValue>) -> bool
    decreases items,
{
    if items.len() == 0 {
        true
    } else {
        items_wf(items.drop_last()) && toon_wf(items.last())
    }
}

/// Every key and value of `fields` can be carried.
pub open spec fn fields_wf(fields: Seq<(Seq<char>, ToonValue)>) -> bool
    decreases fields,
{
    if fields.len() == 0 {
        true
    } else {
        fields_wf(fields.drop_last()) && utf8_len(fields.last().0) <= u64::MAX && toon_wf(fields.last().1)
    }
}

proof fn lemma_items_wf_front(items: Seq<ToonValue>)
    requires
        items.len() > 0,
        items_wf(items),
    ensures
        toon_wf(items[0]),
        items_wf(items.drop_first()),
    decreases items.len(),
{
    if items.len() > 1 {
        lemma_items_wf_front(items.drop_last());
        assert(items.drop_last().drop_first() =~= items.drop_first().drop_last());
        assert(items.drop_first().last() == items.last());
    } else {
        assert(items.drop_first() =~= Seq::<ToonValue>::empty());
    }
}

proof fn lemma_fields_wf_front(fields: Seq<(Seq<char>, ToonValue)>)
    requires
        fields.len() > 0,
        fields_wf(fields),
    ensures
        utf8_len(fields[0].0) <= u64::MAX,
        toon_wf(fields[0].1),
        fields_wf(fields.drop_first()),
    decreases fields.len(),
{
    if fields.len() > 1 {
        lemma_fields_wf_front(fields.drop_last());
        assert(fields.drop_last().drop_first() =~= fields.drop_first().drop_last());
        assert(fields.drop_first().last() == fields.last());
    } else {
        assert(fields.drop_first() =~= Seq::<(Seq<char>, ToonValue)>::empty());
    }
}

/// Without interning, the encoding of a list is the encoding of its first
/// value followed by that of the rest, and nothing is remembered.
proof fn lemma_enc_items_front(items: Seq<ToonValue>, st: Seq<Seq<char>>)
    ensures
        enc_items(items, false, st).1 == st,
        items.len() > 0 ==> enc_items(items, false, st).0 == enc_value(items[0], false, st).0 + enc_items(
            items.drop_first(),
            false,
            st,
        ).0,
    decreases items.len(),
{
    if items.len() > 0 {
        lemma_enc_value_keeps(items.last(), st);
        lemma_enc_items_front(items.drop_last(), st);
        if items.len() > 1 {
            lemma_enc_items_front(items.drop_first(), st);
            lemma_enc_items_keeps(items.drop_first().drop_last(), st);
            assert(items.drop_last().drop_first() =~= items.drop_first().drop_last());
            assert(items.drop_first().last() == items.last());
            assert(items.drop_last()[0] == items[0]);
            let a = enc_value(items[0], false, st).0;
            let m = enc_items(items.drop_first().drop_last(), false, st).0;
            let z = enc_value(items.last(), false, st).0;
            assert(enc_items(items, false, st).0 == (a + m) + z);
            assert(enc_items(items.drop_first(), false, st).0 == m + z);
            assert((a + m) + z =~= a + (m + z));
        } else {
            assert(items.drop_first() =~= Seq::<ToonValue>::empty());
            assert(items.drop_last() =~= Seq::<ToonValue>::empty());
        }
    }
}

/// Without interning, the encoding of fields is the first key and value
/// followed by the rest, and nothing is remembered.
proof fn lemma_enc_fields_front(fields: Seq<(Seq<char>, ToonValue)>, st: Seq<Seq<char>>)
    ensures
        enc_fields(fields, false, st).1 == st,
        fields.len() > 0 ==> enc_fields(fields, false, st).0 == plain_string_bytes(fields[0].0)
            + enc_value(fields[0].1, false, st).0 + enc_fields(fields.drop_first(), false, st).0,
    decreases fields.len(),
{
    if fields.len() > 0 {
        lemma_enc_value_keeps(fields.last().1, st);
        lemma_enc_fields_front(fields.drop_last(), st);
        if fields.len() > 1 {
            lemma_enc_fields_front(fields.drop_first(), st);
            lemma_enc_fields_keeps(fields.drop_first().drop_last(), st);
            assert(fields.drop_last().drop_first() =~= fields.drop_first().drop_last());
            assert(fields.drop_first().last() == fields.last());
            assert(fields.drop_last()[0] == fields[0]);
            let a = plain_string_bytes(fields[0].0) + enc_value(fields[0].1, false, st).0;
            let m = enc_fields(fields.drop_first().drop_last(), false, st).0;
            let z = plain_string_bytes(fields.last().0) + enc_value(fields.last().1, false, st).0;
            assert(enc_fields(fields, false, st).0 =~= (a + m) + z);
            assert(enc_fields(fields.drop_first(), false, st).0 =~= m + z);
            assert((a + m) + z =~= a + (m + z));
        } else {
            assert(fields.drop_first() =~= Seq::<(Seq<char>, ToonValue)>::empty());
            assert(fields.drop_last() =~= Seq::<(Seq<char>, ToonValue)>::empty());
        }
    }
}

/// Without interning, encoding remembers nothing.
proof fn lemma_enc_value_keeps(v: ToonValue, st: Seq<Seq<char>>)
    ensures
        enc_value(v, false, st).1 == st,
    decreases v,
{
    match v {
        ToonValue::Array(items) => lemma_enc_items_keeps(items, st),
        ToonValue::Object(fields) => lemma_enc_fields_keeps(fields, st),
        _ => {},
    }
}

proof fn lemma_enc_items_keeps(items: Seq<ToonValue>, st: Seq<Seq<char>>)
    ensures
        enc_items(items, false, st).1 == st,
    decreases items,
{
    if items.len() > 0 {
        lemma_enc_items_keeps(items.drop_last(), st);
        lemma_enc_value_keeps(items.last(), st);
    }
}

proof fn lemma_enc_fields_keeps(fields: Seq<(Seq<char>, ToonValue)>, st: Seq<Seq<char>>)
    ensures
        enc_fields(fields, false, st).1 == st,
    decreases fields,
{
    if fields.len() > 0 {
        lemma_enc_fields_keeps(fields.drop_last(), st);
        lemma_enc_value_keeps(fields.last().1, st);
    }
}


/// Every encoded value starts with its type byte, so takes at least a byte.
proof fn lemma_enc_value_nonempty(v: ToonValue, il: bool, st: Seq<Seq<char>>)
    ensures
        enc_value(v, il, st).0.len() >= 1,
{
    match v {
        ToonValue::Array(items) => {
            let (body, st2) = enc_items(items, il, st);
            assert((seq![0x0Eu8] + varint_bytes(items.len() as u64) + body).len() >= 1);
        },
        ToonValue::Object(fields) => {
            let (body, st2) = enc_fields(fields, il, st);
            assert((seq![0x0Fu8] + varint_bytes(fields.len() as u64) + body).len() >= 1);
        },
        ToonValue::Str(s) => {
            if il && utf8_len(s) > 4 && st.contains(s) {
                assert((seq![0x10u8] + varint_bytes(st.index_of(s) as u64)).len() >= 1);
            } else {
                assert(plain_string_bytes(s).len() >= 1);
            }
        },
        _ => {},
    }
}

/// Where `b` is `pre`, then byte `t` and `payload`, then `rest`.
proof fn lemma_layout(b: Seq<u8>, pre: Seq<u8>, t: u8, payload: Seq<u8>, rest: Seq<u8>)
    requires
        b == pre + (seq![t] + payload) + rest,
    ensures
        b.len() == pre.len() + 1 + payload.len() + rest.len(),
        b[pre.len() as int] == t,
        b.skip(pre.len() as int + 1) == payload + rest,
        forall|k: int| 0 <= k <= payload.len() ==> #[trigger] b.subrange(pre.len() as int + 1, pre.len() as int + 1 + k) == payload.subrange(0, k),
{
    assert(b.skip(pre.len() as int + 1) =~= payload + rest);
    assert forall|k: int| 0 <= k <= payload.len() implies #[trigger] b.subrange(pre.len() as int + 1, pre.len() as int + 1 + k) == payload.subrange(0, k) by {
        assert(b.subrange(pre.len() as int + 1, pre.len() as int + 1 + k) =~= payload.subrange(0, k));
    }
}

/// A varint `x` then `tail` sits at `c`: reading it gives `x` and the
/// position after it.
proof fn lemma_varint_at_layout(b: Seq<u8>, c: int, x: u64, tail: Seq<u8>)
    requires
        0 <= c <= b.len(),
        b.skip(c) == varint_bytes(x) + tail,
    ensures
        varint_at(b, c) == Ok::<(u64, int), crate::protocol::varint::VarintError>((x, c + varint_bytes(x).len())),
{
    lemma_varint_roundtrip(x, tail);
    lemma_varint_bytes_len(x);
}



/// Decoding a string written in full gives it back, taken through the
/// decoder's interning (see `dec_intern`).
proof fn lemma_dec_plain_string(s: Seq<char>, il: bool, pre: Seq<u8>, rest: Seq<u8>, st: Seq<Seq<char>>)
    requires
        utf8_len(s) <= u64::MAX,
    ensures
        dec_value(pre + plain_string_bytes(s) + rest, pre.len() as int, il, st) == (
            Ok::<(ToonValue, int), crate::protocol::toon::decoder::ToonDecodeError>(
                (dec_intern(s, utf8_len(s) as int, il, st).0, pre.len() as int + plain_string_bytes(s).len()),
            ),
            dec_intern(s, utf8_len(s) as int, il, st).1,
        ),
{
    let e = plain_string_bytes(s);
    let b = pre + e + rest;
    let p = pre.len() as int;
    let n = utf8_len(s);
    let payload = varint_bytes(n as u64) + encode_utf8(s);
    assert(e =~= seq![0x0Cu8] + payload);
    lemma_layout(b, pre, 0x0C, payload, rest);
    assert(b.skip(p + 1) =~= varint_bytes(n as u64) + (encode_utf8(s) + rest));
    lemma_varint_at_layout(b, p + 1, n as u64, encode_utf8(s) + rest);
    let c2 = p + 1 + varint_bytes(n as u64).len();
    assert(b.subrange(c2, c2 + n) =~= encode_utf8(s)) by {
        assert(b.subrange(p + 1, p + 1 + payload.len()) == payload.subrange(0, payload.len() as int));
        assert(payload.subrange(0, payload.len() as int) =~= payload);
        assert forall|i: int| 0 <= i < n implies b.subrange(c2, c2 + n)[i] == encode_utf8(s)[i] by {
            assert(b.subrange(p + 1, p + 1 + payload.len())[varint_bytes(n as u64).len() + i] == payload[varint_bytes(n as u64).len() + i]);
        }
    }
    vstd::utf8::encode_utf8_valid_utf8(s);
    vstd::utf8::encode_utf8_decode_utf8(s);
}

/// Decoding, without interning, the encoding of a value that the format can
/// carry gives the value back, ends right after the encoding whatever
/// follows, and leaves the held strings as they were.
pub proof fn lemma_dec_enc_value(v: ToonValue, pre: Seq<u8>, rest: Seq<u8>, st: Seq<Seq<char>>)
    requires
        toon_wf(v),
    ensures
        dec_value(pre + enc_value(v, false, st).0 + rest, pre.len() as int, false, st) == (
            Ok::<(ToonValue, int), crate::protocol::toon::decoder::ToonDecodeError>(
                (v, pre.len() as int + enc_value(v, false, st).0.len()),
            ),
            st,
        ),
    decreases v, 0int,
{
    vstd::bytes::lemma_auto_spec_u16_to_from_le_bytes();
    vstd::bytes::lemma_auto_spec_u32_to_from_le_bytes();
    vstd::bytes::lemma_auto_spec_u64_to_from_le_bytes();
    let e = enc_value(v, false, st).0;
    let b = pre + e + rest;
    let p = pre.len() as int;
    match v {
        ToonValue::Null => {
            assert(e =~= seq![0x00u8] + Seq::<u8>::empty());
            lemma_layout(b, pre, 0x00, Seq::empty(), rest);
        },
        ToonValue::Bool(x) => {
            assert(e =~= seq![0x01u8] + seq![if x { 1u8 } else { 0u8 }]);
            lemma_layout(b, pre, 0x01, seq![if x { 1u8 } else { 0u8 }], rest);
            assert(b[p + 1] == (if x { 1u8 } else { 0u8 })) by { assert(b.skip(p + 1)[0] == b[p + 1]); }
        },
        ToonValue::Int8(x) => {
            assert(e =~= seq![0x02u8] + seq![x as u8]);
            lemma_layout(b, pre, 0x02, seq![x as u8], rest);
            assert(b[p + 1] == x as u8) by { assert(b.skip(p + 1)[0] == b[p + 1]); }
            assert((x as u8) as i8 == x) by (bit_vector);
        },
        ToonValue::UInt8(x) => {
            assert(e =~= seq![0x06u8] + seq![x]);
            lemma_layout(b, pre, 0x06, seq![x], rest);
            assert(b[p + 1] == x) by { assert(b.skip(p + 1)[0] == b[p + 1]); }
        },
        ToonValue::Int16(x) => {
            let payload = spec_u16_to_le_bytes(x as u16);
            lemma_layout(b, pre, 0x03, payload, rest);
            assert(payload.subrange(0, 2) =~= payload);
            assert((x as u16) as i16 == x) by (bit_vector);
        },
        ToonValue::UInt16(x) => {
            let payload = spec_u16_to_le_bytes(x);
            lemma_layout(b, pre, 0x07, payload, rest);
            assert(payload.subrange(0, 2) =~= payload);
        },
        ToonValue::Float32(x) => {
            let payload = spec_u32_to_le_bytes(x);
            lemma_layout(b, pre, 0x0A, payload, rest);
            assert(payload.subrange(0, 4) =~= payload);
        },
        ToonValue::Float64(x) => {
            let payload = spec_u64_to_le_bytes(x);
            lemma_layout(b, pre, 0x0B, payload, rest);
            assert(payload.subrange(0, 8) =~= payload);
        },
        ToonValue::Int32(x) => {
            lemma_layout(b, pre, 0x04, varint_bytes(x as u64), rest);
            lemma_varint_at_layout(b, p + 1, x as u64, rest);
            assert((x as u64) as i32 == x) by (bit_vector);
        },
        ToonValue::Int64(x) => {
            lemma_layout(b, pre, 0x05, varint_bytes(x as u64), rest);
            lemma_varint_at_layout(b, p + 1, x as u64, rest);
            assert((x as u64) as i64 == x) by (bit_vector);
        },
        ToonValue::UInt32(x) => {
            lemma_layout(b, pre, 0x08, varint_bytes(x as u64), rest);
            lemma_varint_at_layout(b, p + 1, x as u64, rest);
            assert((x as u64) as u32 == x) by (bit_vector);
        },
        ToonValue::UInt64(x) => {
            lemma_layout(b, pre, 0x09, varint_bytes(x), rest);
            lemma_varint_at_layout(b, p + 1, x, rest);
        },
        ToonValue::InternedString(x) => {
            lemma_layout(b, pre, 0x10, varint_bytes(x as u64), rest);
            lemma_varint_at_layout(b, p + 1, x as u64, rest);
            assert((x as u64) as u32 == x) by (bit_vector);
        },
        ToonValue::Str(s) => {
            lemma_dec_plain_string(s, false, pre, rest, st);
        },
        ToonValue::Bytes(x) => {
            let n = x.len();
            let payload = varint_bytes(n as u64) + x;
            assert(e =~= seq![0x0Du8] + payload);
            lemma_layout(b, pre, 0x0D, payload, rest);
            assert(b.skip(p + 1) =~= varint_bytes(n as u64) + (x + rest));
            lemma_varint_at_layout(b, p + 1, n as u64, x + rest);
            let c2 = p + 1 + varint_bytes(n as u64).len();
            assert(b.subrange(c2, c2 + n) =~= x) by {
                assert(b.subrange(p + 1, p + 1 + payload.len()) == payload.subrange(0, payload.len() as int));
                assert(payload.subrange(0, payload.len() as int) =~= payload);
                assert forall|i: int| 0 <= i < n implies b.subrange(c2, c2 + n)[i] == x[i] by {
                    assert(b.subrange(p + 1, p + 1 + payload.len())[varint_bytes(n as u64).len() + i] == payload[varint_bytes(n as u64).len() + i]);
                }
            }
        },
        ToonValue::Array(items) => {
            lemma_enc_items_keeps(items, st);
            let body = enc_items(items, false, st).0;
            let n = items.len();
            let payload = varint_bytes(n as u64) + body;
            assert(e =~= seq![0x0Eu8] + payload);
            lemma_layout(b, pre, 0x0E, payload, rest);
            assert(b.skip(p + 1) =~= varint_bytes(n as u64) + (body + rest));
            lemma_varint_at_layout(b, p + 1, n as u64, body + rest);
            let pre2 = pre + seq![0x0Eu8] + varint_bytes(n as u64);
            assert(b =~= pre2 + body + rest);
            lemma_dec_enc_items(items, pre2, rest, st, Seq::empty());
            assert(Seq::<ToonValue>::empty() + items =~= items);
        },
        ToonValue::Object(fields) => {
            lemma_enc_fields_keeps(fields, st);
            let body = enc_fields(fields, false, st).0;
            let n = fields.len();
            let payload = varint_bytes(n as u64) + body;
            assert(e =~= seq![0x0Fu8] + payload);
            lemma_layout(b, pre, 0x0F, payload, rest);
            assert(b.skip(p + 1) =~= varint_bytes(n as u64) + (body + rest));
            lemma_varint_at_layout(b, p + 1, n as u64, body + rest);
            let pre2 = pre + seq![0x0Fu8] + varint_bytes(n as u64);
            assert(b =~= pre2 + body + rest);
            assert(Seq::<(Seq<char>, ToonValue)>::empty() + fields =~= fields);
            lemma_dec_enc_fields(fields, pre2, rest, st, Seq::empty());
        },
    }
}

/// Decoding, without interning, the encodings of `items` one after the
/// other appends them to `acc`.
proof fn lemma_dec_enc_items(items: Seq<ToonValue>, pre: Seq<u8>, rest: Seq<u8>, st: Seq<Seq<char>>, acc: Seq<ToonValue>)
    requires
        items_wf(items),
    ensures
        dec_items(pre + enc_items(items, false, st).0 + rest, pre.len() as int, items.len(), false, st, acc) == (
            Ok::<(Seq<ToonValue>, int), crate::protocol::toon::decoder::ToonDecodeError>(
                (acc + items, pre.len() as int + enc_items(items, false, st).0.len()),
            ),
            st,
        ),
    decreases items, 1int,
{
    lemma_enc_items_front(items, st);
    let e = enc_items(items, false, st).0;
    let b = pre + e + rest;
    if items.len() == 0 {
        assert(acc + items =~= acc);
    } else {
        lemma_items_wf_front(items);
        let e0 = enc_value(items[0], false, st).0;
        let er = enc_items(items.drop_first(), false, st).0;
        assert(b =~= pre + e0 + (er + rest));
        lemma_dec_enc_value(items[0], pre, er + rest, st);
        lemma_enc_value_nonempty(items[0], false, st);
        assert(b =~= (pre + e0) + er + rest);
        lemma_dec_enc_items(items.drop_first(), pre + e0, rest, st, acc.push(items[0]));
        assert(acc.push(items[0]) + items.drop_first() =~= acc + items);
    }
}

/// Decoding, without interning, the encodings of `fields` one after the
/// other adds them to `acc`, whose keys are not theirs.
#[verifier::rlimit(50)]
#[verifier::spinoff_prover]
proof fn lemma_dec_enc_fields(fields: Seq<(Seq<char>, ToonValue)>, pre: Seq<u8>, rest: Seq<u8>, st: Seq<Seq<char>>, acc: Seq<(Seq<char>, ToonValue)>)
    requires
        fields_wf(fields),
        keys_distinct(acc + fields),
    ensures
        dec_fields(pre + enc_fields(fields, false, st).0 + rest, pre.len() as int, fields.len(), false, st, acc) == (
            Ok::<(Seq<(Seq<char>, ToonValue)>, int), crate::protocol::toon::decoder::ToonDecodeError>(
                (acc + fields, pre.len() as int + enc_fields(fields, false, st).0.len()),
            ),
            st,
        ),
    decreases fields, 1int,
{
    lemma_enc_fields_front(fields, st);
    let e = enc_fields(fields, false, st).0;
    let b = pre + e + rest;
    if fields.len() == 0 {
        assert(acc + fields =~= acc);
    } else {
        lemma_fields_wf_front(fields);
        let k0 = fields[0].0;
        let v0 = fields[0].1;
        let ek = plain_string_bytes(k0);
        let ev = enc_value(v0, false, st).0;
        let er = enc_fields(fields.drop_first(), false, st).0;
        assert(b =~= pre + ek + (ev + er + rest));
        lemma_dec_plain_string(k0, false, pre, ev + er + rest, st);
        assert(b =~= (pre + ek) + ev + (er + rest));
        lemma_dec_enc_value(v0, pre + ek, er + rest, st);
        lemma_enc_value_nonempty(v0, false, st);
        assert(ek.len() >= 1);
        assert(!(exists|i: int| 0 <= i < acc.len() && acc[i].0 == k0)) by {
            if exists|i: int| 0 <= i < acc.len() && acc[i].0 == k0 {
                let i = choose|i: int| 0 <= i < acc.len() && acc[i].0 == k0;
                assert((acc + fields)[i].0 == (acc + fields)[acc.len() as int].0);
            }
        }
        assert(obj_insert(acc, k0, v0) == acc.push((k0, v0)));
        assert(acc.push((k0, v0)) + fields.drop_first() =~= acc + fields);
        assert(b =~= (pre + ek + ev) + er + rest);
        lemma_dec_enc_fields(fields.drop_first(), pre + ek + ev, rest, st, acc.push((k0, v0)));
    }
}


/// A packet of the current version, encoded with interning off, decodes to
/// the same version, flags and value, and the decoder's held strings stay
/// as they were.
pub proof fn lemma_toon_packet_roundtrip(flags: ToonFlags, v: ToonValue, st: Seq<Seq<char>>)
    requires
        !flags.string_interning,
        toon_wf(v),
        enc_value(v, false, st).0.len() <= u64::MAX,
    ensures
        dec_packet(
            toon_magic() + seq![TOON_VERSION, flags_byte(flags)] + varint_bytes(
                enc_value(v, false, st).0.len() as u64,
            ) + enc_value(v, false, st).0,
            st,
        ) == (
            Ok::<(u8, ToonFlags, ToonValue), crate::protocol::toon::decoder::ToonDecodeError>(
                (TOON_VERSION, flags, v),
            ),
            st,
        ),
{
    let e = enc_value(v, false, st).0;
    let head = toon_magic() + seq![TOON_VERSION, flags_byte(flags)];
    let b = head + varint_bytes(e.len() as u64) + e;
    lemma_flags_roundtrip(flags);
    lemma_varint_bytes_len(e.len() as u64);
    lemma_enc_value_nonempty(v, false, st);
    lemma_enc_value_keeps(v, st);
    assert(b.subrange(0, 4) =~= toon_magic());
    assert(has_toon_magic(b));
    assert(b[4] == TOON_VERSION);
    assert(b[5] == flags_byte(flags));
    assert(b.skip(6) =~= varint_bytes(e.len() as u64) + e);
    lemma_varint_at_layout(b, 6, e.len() as u64, e);
    let c: int = 6 + varint_bytes(e.len() as u64).len() as int;
    assert(b.subrange(c, c + e.len() as int) =~= e);
    lemma_dec_enc_value(v, Seq::empty(), Seq::empty(), st);
    assert(Seq::<u8>::empty() + e + Seq::<u8>::empty() =~= e);
}


/// `a` is the start of `b`.
pub open spec fn is_prefix(a: Seq<Seq<char>>, b: Seq<Seq<char>>) -> bool {
    a.len() <= b.len() && b.subrange(0, a.len() as int) == a
}

/// What a decoder gives back of `v` encoded with interning on, where `g`
/// holds the encoder's strings afterwards: each string value of more than
/// four bytes becomes its number in `g`; keys and all else stay.
pub open spec fn interned_as(v: ToonValue, g: Seq<Seq<char>>) -> ToonValue
    decreases v,
{
    match v {
        ToonValue::Str(s) => if utf8_len(s) > 4 {
            ToonValue::InternedString(g.index_of(s) as u32)
        } else {
            v
        },
        ToonValue::Array(items) => ToonValue::Array(interned_items(items, g)),
        ToonValue::Object(fields) => ToonValue::Object(interned_fields(fields, g)),
        _ => v,
    }
}

/// `interned_as` of each element.
pub open spec fn interned_items(items: Seq<ToonValue>, g: Seq<Seq<char>>) -> Seq<ToonValue>
    decreases items,
{
    if items.len() == 0 {
        Seq::empty()
    } else {
        interned_items(items.drop_last(), g).push(interned_as(items.last(), g))
    }
}

/// `interned_as` of each field's value, keys unchanged.
pub open spec fn interned_fields(fields: Seq<(Seq<char>, ToonValue)>, g: Seq<Seq<char>>) -> Seq<(Seq<char>, ToonValue)>
    decreases fields,
{
    if fields.len() == 0 {
        Seq::empty()
    } else {
        interned_fields(fields.drop_last(), g).push((fields.last().0, interned_as(fields.last().1, g)))
    }
}

proof fn lemma_interned_items_index(items: Seq<ToonValue>, g: Seq<Seq<char>>)
    ensures
        interned_items(items, g).len() == items.len(),
        forall|i: int| 0 <= i < items.len() ==> #[trigger] interned_items(items, g)[i] == interned_as(items[i], g),
    decreases items.len(),
{
    if items.len() > 0 {
        lemma_interned_items_index(items.drop_last(), g);
    }
}

proof fn lemma_interned_fields_index(fields: Seq<(Seq<char>, ToonValue)>, g: Seq<Seq<char>>)
    ensures
        interned_fields(fields, g).len() == fields.len(),
        forall|i: int| 0 <= i < fields.len() ==> #[trigger] interned_fields(fields, g)[i] == (fields[i].0, interned_as(fields[i].1, g)),
    decreases fields.len(),
{
    if fields.len() > 0 {
        lemma_interned_fields_index(fields.drop_last(), g);
    }
}

proof fn lemma_prefix_trans(a: Seq<Seq<char>>, b: Seq<Seq<char>>, c: Seq<Seq<char>>)
    requires
        is_prefix(a, b),
        is_prefix(b, c),
    ensures
        is_prefix(a, c),
{
    assert(c.subrange(0, a.len() as int) =~= b.subrange(0, a.len() as int));
}

/// With interning on, encoding only adds strings after those held.
proof fn lemma_enc_value_grows(v: ToonValue, st: Seq<Seq<char>>)
    ensures
        is_prefix(st, enc_value(v, true, st).1),
    decreases v,
{
    assert(st.subrange(0, st.len() as int) =~= st);
    match v {
        ToonValue::Str(s) => {
            if utf8_len(s) > 4 && !st.contains(s) && st.len() < u32::MAX {
                assert(st.push(s).subrange(0, st.len() as int) =~= st);
            }
        },
        ToonValue::Array(items) => lemma_enc_items_grows(items, st),
        ToonValue::Object(fields) => lemma_enc_fields_grows(fields, st),
        _ => {},
    }
}

proof fn lemma_enc_items_grows(items: Seq<ToonValue>, st: Seq<Seq<char>>)
    ensures
        is_prefix(st, enc_items(items, true, st).1),
    decreases items,
{
    if items.len() == 0 {
        assert(st.subrange(0, st.len() as int) =~= st);
    } else {
        lemma_enc_items_grows(items.drop_last(), st);
        let st1 = enc_items(items.drop_last(), true, st).1;
        lemma_enc_value_grows(items.last(), st1);
        lemma_prefix_trans(st, st1, enc_value(items.last(), true, st1).1);
    }
}

proof fn lemma_enc_string_grows(k: Seq<char>, st: Seq<Seq<char>>)
    ensures
        is_prefix(st, enc_string(k, true, st).1),
{
    assert(st.subrange(0, st.len() as int) =~= st);
    assert(st.push(k).subrange(0, st.len() as int) =~= st);
}

proof fn lemma_enc_fields_grows(fields: Seq<(Seq<char>, ToonValue)>, st: Seq<Seq<char>>)
    ensures
        is_prefix(st, enc_fields(fields, true, st).1),
    decreases fields,
{
    if fields.len() == 0 {
        assert(st.subrange(0, st.len() as int) =~= st);
    } else {
        lemma_enc_fields_grows(fields.drop_last(), st);
        let st1 = enc_fields(fields.drop_last(), true, st).1;
        lemma_enc_string_grows(fields.last().0, st1);
        let st2 = enc_string(fields.last().0, true, st1).1;
        lemma_enc_value_grows(fields.last().1, st2);
        lemma_prefix_trans(st, st1, st2);
        lemma_prefix_trans(st, st2, enc_value(fields.last().1, true, st2).1);
    }
}

/// With interning on, the encoding of a list is that of its first value
/// followed by that of the rest, from the strings held after the first.
proof fn lemma_enc_items_front_il(items: Seq<ToonValue>, st: Seq<Seq<char>>)
    requires
        items.len() > 0,
    ensures
        ({
            let (e0, s1) = enc_value(items[0], true, st);
            enc_items(items, true, st) == (e0 + enc_items(items.drop_first(), true, s1).0, enc_items(items.drop_first(), true, s1).1)
        }),
    decreases items.len(),
{
    let (e0, s1) = enc_value(items[0], true, st);
    let dl0 = enc_items(items.drop_last(), true, st);
    assert(enc_items(items, true, st) == (dl0.0 + enc_value(items.last(), true, dl0.1).0, enc_value(items.last(), true, dl0.1).1));
    if items.len() == 1 {
        assert(items.drop_last() =~= Seq::<ToonValue>::empty());
        assert(items.drop_first() =~= Seq::<ToonValue>::empty());
        assert(items.last() == items[0]);
        assert(dl0 == (Seq::<u8>::empty(), st));
        assert(enc_items(items.drop_first(), true, s1) == (Seq::<u8>::empty(), s1));
        assert(Seq::<u8>::empty() + e0 =~= e0 + Seq::<u8>::empty());
    } else {
        let dl = items.drop_last();
        let df = items.drop_first();
        lemma_enc_items_front_il(dl, st);
        assert(dl[0] == items[0]);
        assert(dl.drop_first() =~= df.drop_last());
        assert(df.last() == items.last());
        let m = enc_items(df.drop_last(), true, s1);
        let z = enc_value(items.last(), true, m.1);
        assert(enc_items(df, true, s1) == (m.0 + z.0, z.1));
        assert(enc_items(items, true, st) == ((e0 + m.0) + z.0, z.1));
        assert((e0 + m.0) + z.0 =~= e0 + (m.0 + z.0));
    }
}

/// With interning on, the encoding of fields is the first key and value
/// followed by the rest, from the strings held after the first.
proof fn lemma_enc_fields_front_il(fields: Seq<(Seq<char>, ToonValue)>, st: Seq<Seq<char>>)
    requires
        fields.len() > 0,
    ensures
        ({
            let (ek, s1) = enc_string(fields[0].0, true, st);
            let (ev, s2) = enc_value(fields[0].1, true, s1);
            enc_fields(fields, true, st) == (ek + ev + enc_fields(fields.drop_first(), true, s2).0, enc_fields(fields.drop_first(), true, s2).1)
        }),
    decreases fields.len(),
{
    let (ek, s1) = enc_string(fields[0].0, true, st);
    let (ev, s2) = enc_value(fields[0].1, true, s1);
    let dl0 = enc_fields(fields.drop_last(), true, st);
    let lk = enc_string(fields.last().0, true, dl0.1);
    let lv = enc_value(fields.last().1, true, lk.1);
    assert(enc_fields(fields, true, st) == (dl0.0 + lk.0 + lv.0, lv.1));
    if fields.len() == 1 {
        assert(fields.drop_last() =~= Seq::<(Seq<char>, ToonValue)>::empty());
        assert(fields.drop_first() =~= Seq::<(Seq<char>, ToonValue)>::empty());
        assert(fields.last() == fields[0]);
        assert(dl0 == (Seq::<u8>::empty(), st));
        assert(enc_fields(fields.drop_first(), true, s2) == (Seq::<u8>::empty(), s2));
        assert(Seq::<u8>::empty() + ek + ev =~= ek + ev + Seq::<u8>::empty());
    } else {
        let dl = fields.drop_last();
        let df = fields.drop_first();
        lemma_enc_fields_front_il(dl, st);
        assert(dl[0] == fields[0]);
        assert(dl.drop_first() =~= df.drop_last());
        assert(df.last() == fields.last());
        let m = enc_fields(df.drop_last(), true, s2);
        let zk = enc_string(fields.last().0, true, m.1);
        let zv = enc_value(fields.last().1, true, zk.1);
        assert(enc_fields(df, true, s2) == (m.0 + zk.0 + zv.0, zv.1));
        assert(enc_fields(fields, true, st) == ((ek + ev + m.0) + zk.0 + zv.0, zv.1));
        assert((ek + ev + m.0) + zk.0 + zv.0 =~= ek + ev + (m.0 + zk.0 + zv.0));
    }
}

/// In a list of distinct strings that starts with `a`, a string of `a` has
/// the number it has in `a`.
proof fn lemma_index_in_prefix(a: Seq<Seq<char>>, g: Seq<Seq<char>>, s: Seq<char>, i: int)
    requires
        is_prefix(a, g),
        all_distinct(g),
        0 <= i < a.len(),
        a[i] == s,
    ensures
        g.index_of(s) == i,
        g.contains(s),
{
    assert(g.subrange(0, a.len() as int)[i] == g[i]);
    assert(g[i] == s);
    let j = g.index_of(s);
    assert(0 <= j < g.len() && g[j] == s);
}

/// A key encoded with interning on and decoded by a decoder in step with
/// the encoder names itself.
proof fn lemma_key_of_enc(k: Seq<char>, st: Seq<Seq<char>>, g: Seq<Seq<char>>)
    requires
        all_distinct(g),
        g.len() < u32::MAX,
        is_prefix(enc_string(k, true, st).1, g),
    ensures
        key_of(interned_as(ToonValue::Str(k), g), enc_string(k, true, st).1)
            == Ok::<Seq<char>, crate::protocol::toon::decoder::ToonDecodeError>(k),
{
    let s1 = enc_string(k, true, st).1;
    if utf8_len(k) > 4 {
        let i: int = if st.contains(k) { st.index_of(k) } else { st.len() as int };
        if st.contains(k) {
            assert(0 <= i < st.len() && st[i] == k);
        } else {
            assert(st.len() < u32::MAX);
            assert(st.push(k)[st.len() as int] == k);
        }
        lemma_index_in_prefix(s1, g, k, i);
        assert(((i as u32) as int) == i);
    }
}

/// Decoding, with interning on, a string encoded with interning on by a
/// decoder in step with the encoder gives what `interned_as` says, and
/// leaves the decoder in step.
proof fn lemma_dec_enc_string_il(s: Seq<char>, pre: Seq<u8>, rest: Seq<u8>, st: Seq<Seq<char>>, g: Seq<Seq<char>>)
    requires
        utf8_len(s) <= u64::MAX,
        all_distinct(g),
        g.len() < u32::MAX,
        is_prefix(enc_string(s, true, st).1, g),
    ensures
        dec_value(pre + enc_string(s, true, st).0 + rest, pre.len() as int, true, st).0
            == Ok::<(ToonValue, int), crate::protocol::toon::decoder::ToonDecodeError>(
            (interned_as(ToonValue::Str(s), g), pre.len() as int + enc_string(s, true, st).0.len()),
        ),
        dec_value(pre + enc_string(s, true, st).0 + rest, pre.len() as int, true, st).1 == enc_string(s, true, st).1,
        enc_string(s, true, st).0.len() >= 1,
{
    let e = enc_string(s, true, st).0;
    let b = pre + e + rest;
    let p = pre.len() as int;
    if utf8_len(s) > 4 && st.contains(s) {
        let id = st.index_of(s);
        assert(0 <= id < st.len() && st[id] == s);
        lemma_index_in_prefix(st, g, s, id);
        assert(e == seq![0x10u8] + varint_bytes(id as u64));
        lemma_layout(b, pre, 0x10, varint_bytes(id as u64), rest);
        lemma_varint_at_layout(b, p + 1, id as u64, rest);
        assert(((id as u64) as u32) as int == id);
    } else {
        if utf8_len(s) > 4 {
            assert(st.len() < u32::MAX);
            assert(st.push(s)[st.len() as int] == s);
            lemma_index_in_prefix(st.push(s), g, s, st.len() as int);
        }
        assert(e == plain_string_bytes(s));
        lemma_dec_plain_string(s, true, pre, rest, st);
    }
}

/// Decoding, with interning on, the encoding with interning on of a value
/// that the format can carry, by a decoder that holds the strings the
/// encoder held, gives it back with each string value of more than four
/// bytes replaced by its number among `g`, the encoder's strings afterwards
/// (or any list that starts with them); it ends right after the encoding,
/// and the decoder then holds what the encoder holds.
#[verifier::rlimit(80)]
#[verifier::spinoff_prover]
pub proof fn lemma_dec_enc_value_il(v: ToonValue, pre: Seq<u8>, rest: Seq<u8>, st: Seq<Seq<char>>, g: Seq<Seq<char>>)
    requires
        toon_wf(v),
        all_distinct(g),
        g.len() < u32::MAX,
        is_prefix(enc_value(v, true, st).1, g),
    ensures
        dec_value(pre + enc_value(v, true, st).0 + rest, pre.len() as int, true, st).0
            == Ok::<(ToonValue, int), crate::protocol::toon::decoder::ToonDecodeError>(
            (interned_as(v, g), pre.len() as int + enc_value(v, true, st).0.len()),
        ),
        dec_value(pre + enc_value(v, true, st).0 + rest, pre.len() as int, true, st).1 == enc_value(v, true, st).1,
    decreases v, 0int,
{
    vstd::bytes::lemma_auto_spec_u16_to_from_le_bytes();
    vstd::bytes::lemma_auto_spec_u32_to_from_le_bytes();
    vstd::bytes::lemma_auto_spec_u64_to_from_le_bytes();
    let e = enc_value(v, true, st).0;
    let b = pre + e + rest;
    let p = pre.len() as int;
    match v {
        ToonValue::Null => {
            assert(e =~= seq![0x00u8] + Seq::<u8>::empty());
            lemma_layout(b, pre, 0x00, Seq::empty(), rest);
        },
        ToonValue::Bool(x) => {
            assert(e =~= seq![0x01u8] + seq![if x { 1u8 } else { 0u8 }]);
            lemma_layout(b, pre, 0x01, seq![if x { 1u8 } else { 0u8 }], rest);
            assert(b[p + 1] == (if x { 1u8 } else { 0u8 })) by { assert(b.skip(p + 1)[0] == b[p + 1]); }
        },
        ToonValue::Int8(x) => {
            assert(e =~= seq![0x02u8] + seq![x as u8]);
            lemma_layout(b, pre, 0x02, seq![x as u8], rest);
            assert(b[p + 1] == x as u8) by { assert(b.skip(p + 1)[0] == b[p + 1]); }
            assert((x as u8) as i8 == x) by (bit_vector);
        },
        ToonValue::UInt8(x) => {
            assert(e =~= seq![0x06u8] + seq![x]);
            lemma_layout(b, pre, 0x06, seq![x], rest);
            assert(b[p + 1] == x) by { assert(b.skip(p + 1)[0] == b[p + 1]); }
        },
        ToonValue::Int16(x) => {
            let payload = spec_u16_to_le_bytes(x as u16);
            lemma_layout(b, pre, 0x03, payload, rest);
            assert(payload.subrange(0, 2) =~= payload);
            assert((x as u16) as i16 == x) by (bit_vector);
        },
        ToonValue::UInt16(x) => {
            let payload = spec_u16_to_le_bytes(x);
            lemma_layout(b, pre, 0x07, payload, rest);
            assert(payload.subrange(0, 2) =~= payload);
        },
        ToonValue::Float32(x) => {
            let payload = spec_u32_to_le_bytes(x);
            lemma_layout(b, pre, 0x0A, payload, rest);
            assert(payload.subrange(0, 4) =~= payload);
        },
        ToonValue::Float64(x) => {
            let payload = spec_u64_to_le_bytes(x);
            lemma_layout(b, pre, 0x0B, payload, rest);
            assert(payload.subrange(0, 8) =~= payload);
        },
        ToonValue::Int32(x) => {
            lemma_layout(b, pre, 0x04, varint_bytes(x as u64), rest);
            lemma_varint_at_layout(b, p + 1, x as u64, rest);
            assert((x as u64) as i32 == x) by (bit_vector);
        },
        ToonValue::Int64(x) => {
            lemma_layout(b, pre, 0x05, varint_bytes(x as u64), rest);
            lemma_varint_at_layout(b, p + 1, x as u64, rest);
            assert((x as u64) as i64 == x) by (bit_vector);
        },
        ToonValue::UInt32(x) => {
            lemma_layout(b, pre, 0x08, varint_bytes(x as u64), rest);
            lemma_varint_at_layout(b, p + 1, x as u64, rest);
            assert((x as u64) as u32 == x) by (bit_vector);
        },
        ToonValue::UInt64(x) => {
            lemma_layout(b, pre, 0x09, varint_bytes(x), rest);
            lemma_varint_at_layout(b, p + 1, x, rest);
        },
        ToonValue::InternedString(x) => {
            lemma_layout(b, pre, 0x10, varint_bytes(x as u64), rest);
            lemma_varint_at_layout(b, p + 1, x as u64, rest);
            assert((x as u64) as u32 == x) by (bit_vector);
        },
        ToonValue::Str(s) => {
            lemma_dec_enc_string_il(s, pre, rest, st, g);
        },
        ToonValue::Bytes(x) => {
            let n = x.len();
            let payload = varint_bytes(n as u64) + x;
            assert(e =~= seq![0x0Du8] + payload);
            lemma_layout(b, pre, 0x0D, payload, rest);
            assert(b.skip(p + 1) =~= varint_bytes(n as u64) + (x + rest));
            lemma_varint_at_layout(b, p + 1, n as u64, x + rest);
            let c2 = p + 1 + varint_bytes(n as u64).len();
            assert(b.subrange(c2, c2 + n) =~= x) by {
                assert(b.subrange(p + 1, p + 1 + payload.len()) == payload.subrange(0, payload.len() as int));
                assert(payload.subrange(0, payload.len() as int) =~= payload);
                assert forall|i: int| 0 <= i < n implies b.subrange(c2, c2 + n)[i] == x[i] by {
                    assert(b.subrange(p + 1, p + 1 + payload.len())[varint_bytes(n as u64).len() + i] == payload[varint_bytes(n as u64).len() + i]);
                }
            }
        },
        ToonValue::Array(items) => {
            let body = enc_items(items, true, st).0;
            let n = items.len();
            let payload = varint_bytes(n as u64) + body;
            assert(e =~= seq![0x0Eu8] + payload);
            lemma_layout(b, pre, 0x0E, payload, rest);
            assert(b.skip(p + 1) =~= varint_bytes(n as u64) + (body + rest));
            lemma_varint_at_layout(b, p + 1, n as u64, body + rest);
            let pre2 = pre + seq![0x0Eu8] + varint_bytes(n as u64);
            assert(b =~= pre2 + body + rest);
            lemma_dec_enc_items_il(items, pre2, rest, st, g, Seq::empty());
            assert(Seq::<ToonValue>::empty() + interned_items(items, g) =~= interned_items(items, g));
        },
        ToonValue::Object(fields) => {
            let body = enc_fields(fields, true, st).0;
            let n = fields.len();
            let payload = varint_bytes(n as u64) + body;
            assert(e =~= seq![0x0Fu8] + payload);
            lemma_layout(b, pre, 0x0F, payload, rest);
            assert(b.skip(p + 1) =~= varint_bytes(n as u64) + (body + rest));
            lemma_varint_at_layout(b, p + 1, n as u64, body + rest);
            let pre2 = pre + seq![0x0Fu8] + varint_bytes(n as u64);
            assert(b =~= pre2 + body + rest);
            assert(Seq::<(Seq<char>, ToonValue)>::empty() + fields =~= fields);
            lemma_dec_enc_fields_il(fields, pre2, rest, st, g, Seq::empty());
            assert(Seq::<(Seq<char>, ToonValue)>::empty() + interned_fields(fields, g) =~= interned_fields(fields, g));
        },
    }
}

/// Decoding, with interning on, the encodings of `items` one after the
/// other appends what `interned_as` gives of them to `acc`.
proof fn lemma_dec_enc_items_il(items: Seq<ToonValue>, pre: Seq<u8>, rest: Seq<u8>, st: Seq<Seq<char>>, g: Seq<Seq<char>>, acc: Seq<ToonValue>)
    requires
        items_wf(items),
        all_distinct(g),
        g.len() < u32::MAX,
        is_prefix(enc_items(items, true, st).1, g),
    ensures
        dec_items(pre + enc_items(items, true, st).0 + rest, pre.len() as int, items.len(), true, st, acc).0
            == Ok::<(Seq<ToonValue>, int), crate::protocol::toon::decoder::ToonDecodeError>(
            (acc + interned_items(items, g), pre.len() as int + enc_items(items, true, st).0.len()),
        ),
        dec_items(pre + enc_items(items, true, st).0 + rest, pre.len() as int, items.len(), true, st, acc).1 == enc_items(items, true, st).1,
    decreases items, 1int,
{
    let e = enc_items(items, true, st).0;
    let b = pre + e + rest;
    lemma_interned_items_index(items, g);
    if items.len() == 0 {
        assert(acc + interned_items(items, g) =~= acc);
    } else {
        lemma_enc_items_front_il(items, st);
        lemma_items_wf_front(items);
        let (e0, s1) = enc_value(items[0], true, st);
        let df = items.drop_first();
        let er = enc_items(df, true, s1).0;
        lemma_enc_items_grows(df, s1);
        lemma_prefix_trans(s1, enc_items(df, true, s1).1, g);
        assert(b =~= pre + e0 + (er + rest));
        lemma_dec_enc_value_il(items[0], pre, er + rest, st, g);
        lemma_enc_value_nonempty(items[0], true, st);
        assert(b =~= (pre + e0) + er + rest);
        lemma_dec_enc_items_il(df, pre + e0, rest, s1, g, acc.push(interned_as(items[0], g)));
        lemma_interned_items_index(df, g);
        assert(acc.push(interned_as(items[0], g)) + interned_items(df, g) =~= acc + interned_items(items, g));
    }
}

/// Decoding, with interning on, the encodings of `fields` one after the
/// other adds the keys and what `interned_as` gives of the values to `acc`,
/// whose keys are not theirs.
#[verifier::rlimit(50)]
#[verifier::spinoff_prover]
proof fn lemma_dec_enc_fields_il(fields: Seq<(Seq<char>, ToonValue)>, pre: Seq<u8>, rest: Seq<u8>, st: Seq<Seq<char>>, g: Seq<Seq<char>>, acc: Seq<(Seq<char>, ToonValue)>)
    requires
        fields_wf(fields),
        keys_distinct(acc + fields),
        all_distinct(g),
        g.len() < u32::MAX,
        is_prefix(enc_fields(fields, true, st).1, g),
    ensures
        dec_fields(pre + enc_fields(fields, true, st).0 + rest, pre.len() as int, fields.len(), true, st, acc).0
            == Ok::<(Seq<(Seq<char>, ToonValue)>, int), crate::protocol::toon::decoder::ToonDecodeError>(
            (acc + interned_fields(fields, g), pre.len() as int + enc_fields(fields, true, st).0.len()),
        ),
        dec_fields(pre + enc_fields(fields, true, st).0 + rest, pre.len() as int, fields.len(), true, st, acc).1 == enc_fields(fields, true, st).1,
    decreases fields, 1int,
{
    let e = enc_fields(fields, true, st).0;
    let b = pre + e + rest;
    lemma_interned_fields_index(fields, g);
    if fields.len() == 0 {
        assert(acc + interned_fields(fields, g) =~= acc);
    } else {
        lemma_enc_fields_front_il(fields, st);
        lemma_fields_wf_front(fields);
        let k0 = fields[0].0;
        let v0 = fields[0].1;
        let (ek, s1) = enc_string(k0, true, st);
        let (ev, s2) = enc_value(v0, true, s1);
        let df = fields.drop_first();
        let er = enc_fields(df, true, s2).0;
        lemma_enc_fields_grows(df, s2);
        lemma_prefix_trans(s2, enc_fields(df, true, s2).1, g);
        lemma_enc_value_grows(v0, s1);
        lemma_prefix_trans(s1, s2, g);
        assert(b =~= pre + ek + (ev + er + rest));
        lemma_dec_enc_string_il(k0, pre, ev + er + rest, st, g);
        lemma_key_of_enc(k0, st, g);
        assert(b =~= (pre + ek) + ev + (er + rest));
        lemma_dec_enc_value_il(v0, pre + ek, er + rest, s1, g);
        lemma_enc_value_nonempty(v0, true, s1);
        assert(ek.len() >= 1);
        let iv = interned_as(v0, g);
        assert(!(exists|i: int| 0 <= i < acc.len() && acc[i].0 == k0)) by {
            if exists|i: int| 0 <= i < acc.len() && acc[i].0 == k0 {
                let i = choose|i: int| 0 <= i < acc.len() && acc[i].0 == k0;
                assert((acc + fields)[i].0 == (acc + fields)[acc.len() as int].0);
            }
        }
        assert(obj_insert(acc, k0, iv) == acc.push((k0, iv)));
        let acc2 = acc.push((k0, iv));
        assert(keys_distinct(acc2 + df)) by {
            assert forall|i: int| 0 <= i < (acc2 + df).len() implies #[trigger] (acc2 + df)[i].0 == (acc + fields)[i].0 by {
                if i > acc.len() {
                    assert((acc2 + df)[i] == df[i - acc.len() - 1]);
                    assert(df[i - acc.len() - 1] == fields[i - acc.len()]);
                }
            }
            assert((acc2 + df).len() == (acc + fields).len());
        }
        assert(b =~= (pre + ek + ev) + er + rest);
        lemma_dec_enc_fields_il(df, pre + ek + ev, rest, s2, g, acc2);
        lemma_interned_fields_index(df, g);
        assert(acc2 + interned_fields(df, g) =~= acc + interned_fields(fields, g));
    }
}

/// A packet of the current version with interning on, decoded by a decoder
/// that holds the strings the encoder held before writing it (two fresh
/// ones, or two that have handled the same packets), gives its version,
/// its flags and its value with each string value of more than four bytes
/// replaced by its number among the encoder's strings; the decoder then
/// holds what the encoder holds. This needs the encoder's strings to be
/// distinct and fewer than `u32::MAX`.
pub proof fn lemma_toon_packet_roundtrip_interned(flags: ToonFlags, v: ToonValue, st: Seq<Seq<char>>)
    requires
        flags.string_interning,
        toon_wf(v),
        all_distinct(enc_value(v, true, st).1),
        enc_value(v, true, st).1.len() < u32::MAX,
        enc_value(v, true, st).0.len() <= u64::MAX,
    ensures
        dec_packet(
            toon_magic() + seq![TOON_VERSION, flags_byte(flags)] + varint_bytes(
                enc_value(v, true, st).0.len() as u64,
            ) + enc_value(v, true, st).0,
            st,
        ) == (
            Ok::<(u8, ToonFlags, ToonValue), crate::protocol::toon::decoder::ToonDecodeError>(
                (TOON_VERSION, flags, interned_as(v, enc_value(v, true, st).1)),
            ),
            enc_value(v, true, st).1,
        ),
{
    let e = enc_value(v, true, st).0;
    let g = enc_value(v, true, st).1;
    let head = toon_magic() + seq![TOON_VERSION, flags_byte(flags)];
    let b = head + varint_bytes(e.len() as u64) + e;
    lemma_flags_roundtrip(flags);
    lemma_varint_bytes_len(e.len() as u64);
    lemma_enc_value_nonempty(v, true, st);
    assert(g.subrange(0, g.len() as int) =~= g);
    assert(b.subrange(0, 4) =~= toon_magic());
    assert(has_toon_magic(b));
    assert(b[4] == TOON_VERSION);
    assert(b[5] == flags_byte(flags));
    assert(b.skip(6) =~= varint_bytes(e.len() as u64) + e);
    lemma_varint_at_layout(b, 6, e.len() as u64, e);
    let c: int = 6 + varint_bytes(e.len() as u64).len() as int;
    assert(b.subrange(c, c + e.len() as int) =~= e);
    lemma_dec_enc_value_il(v, Seq::empty(), Seq::empty(), st, g);
    assert(Seq::<u8>::empty() + e + Seq::<u8>::empty() =~= e);
}

/// A decoder that holds the strings `st` (as `sync_interner` leaves it)
/// reads an object whose one key is a reference to number `i` among them,
/// with a null value, as that string mapped to null, and holds the same
/// strings afterwards.
pub proof fn lemma_dec_reference_key(st: Seq<Seq<char>>, i: u32, il: bool)
    requires
        (i as int) < st.len(),
    ensures
        ({
            let b = seq![0x0Fu8, 0x01u8, 0x10u8] + varint_bytes(i as u64) + seq![0x00u8];
            dec_value(b, 0, il, st) == (
                Ok::<(ToonValue, int), crate::protocol::toon::decoder::ToonDecodeError>(
                    (ToonValue::Object(seq![(st[i as int], ToonValue::Null)]), b.len() as int),
                ),
                st,
            )
        }),
{
    let vi = varint_bytes(i as u64);
    let b = seq![0x0Fu8, 0x01u8, 0x10u8] + vi + seq![0x00u8];
    lemma_varint_bytes_len(i as u64);
    assert(varint_bytes(1) == seq![1u8]);
    let empty = Seq::<u8>::empty();
    assert(b =~= empty + (seq![0x0Fu8] + (seq![0x01u8, 0x10u8] + vi + seq![0x00u8])) + empty);
    lemma_layout(b, empty, 0x0F, seq![0x01u8, 0x10u8] + vi + seq![0x00u8], empty);
    assert(b.skip(1) =~= varint_bytes(1) + (seq![0x10u8] + vi + seq![0x00u8]));
    lemma_varint_at_layout(b, 1, 1, seq![0x10u8] + vi + seq![0x00u8]);
    assert(b[2] == 0x10u8);
    assert(b.skip(3) =~= vi + seq![0x00u8]);
    lemma_varint_at_layout(b, 3, i as u64, seq![0x00u8]);
    let c3: int = 3 + vi.len() as int;
    assert(b[c3] == 0x00u8);
    assert(((i as u64) as u32) == i);
    let (rk, st1) = dec_value(b, 2, il, st);
    assert(rk == Ok::<(ToonValue, int), crate::protocol::toon::decoder::ToonDecodeError>((ToonValue::InternedString(i), c3)));
    assert(st1 == st);
    assert(key_of(ToonValue::InternedString(i), st) == Ok::<Seq<char>, crate::protocol::toon::decoder::ToonDecodeError>(st[i as int]));
    assert(dec_value(b, c3, il, st).0 == Ok::<(ToonValue, int), crate::protocol::toon::decoder::ToonDecodeError>((ToonValue::Null, c3 + 1)));
    assert(obj_insert(Seq::empty(), st[i as int], ToonValue::Null) =~= seq![(st[i as int], ToonValue::Null)]);
    assert(dec_fields(b, c3 + 1, 0, il, st, seq![(st[i as int], ToonValue::Null)]) == (
        Ok::<(Seq<(Seq<char>, ToonValue)>, int), crate::protocol::toon::decoder::ToonDecodeError>((seq![(st[i as int], ToonValue::Null)], c3 + 1)),
        st,
    ));
    assert(dec_fields(b, 2, 1, il, st, Seq::empty()).0 == Ok::<(Seq<(Seq<char>, ToonValue)>, int), crate::protocol::toon::decoder::ToonDecodeError>((seq![(st[i as int], ToonValue::Null)], c3 + 1)));
}

proof fn lemma_names_differ()
    ensures
        "cmd"@ != "key"@,
        "cmd"@ != "value"@,
        "cmd"@ != "ttl"@,
        "key"@ != "value"@,
        "key"@ != "ttl"@,
        "value"@ != "ttl"@,
        "PING"@ != "PUT"@ && "PING"@ != "SET"@ && "PING"@ != "GET"@ && "PING"@ != "DEL"@,
        "PING"@ != "EXPIRE"@ && "PING"@ != "STATS"@ && "PING"@ != "METRICS"@,
        "PUT"@ != "GET"@ && "PUT"@ != "DEL"@ && "PUT"@ != "EXPIRE"@ && "PUT"@ != "STATS"@ && "PUT"@ != "METRICS"@,
        "GET"@ != "DEL"@ && "GET"@ != "EXPIRE"@ && "GET"@ != "STATS"@ && "GET"@ != "METRICS"@ && "GET"@ != "SET"@,
        "DEL"@ != "EXPIRE"@ && "DEL"@ != "STATS"@ && "DEL"@ != "METRICS"@ && "DEL"@ != "SET"@,
        "EXPIRE"@ != "STATS"@ && "EXPIRE"@ != "METRICS"@ && "EXPIRE"@ != "SET"@,
        "STATS"@ != "METRICS"@ && "STATS"@ != "SET"@ && "METRICS"@ != "SET"@,
        "error"@ != "cmd"@,
{
    reveal_strlit("cmd");
    reveal_strlit("key");
    reveal_strlit("value");
    reveal_strlit("ttl");
    reveal_strlit("error");
    reveal_strlit("PING");
    reveal_strlit("PUT");
    reveal_strlit("SET");
    reveal_strlit("GET");
    reveal_strlit("DEL");
    reveal_strlit("EXPIRE");
    reveal_strlit("STATS");
    reveal_strlit("METRICS");
    assert("cmd"@[0] != "key"@[0]);
    assert("cmd"@[0] != "value"@[0]);
    assert("cmd"@[0] != "ttl"@[0]);
    assert("key"@[0] != "value"@[0]);
    assert("key"@[0] != "ttl"@[0]);
    assert("value"@[0] != "ttl"@[0]);
    assert("PING"@[1] != "PUT"@[1]);
    assert("GET"@[0] != "SET"@[0]);
    assert("DEL"@[0] != "SET"@[0]);
    assert("STATS"@[1] != "SET"@[1]);
    assert("error"@[0] != "cmd"@[0]);
    assert("EXPIRE"@.len() == 6 && "STATS"@.len() == 5 && "METRICS"@.len() == 7 && "SET"@.len() == 3);
}

/// The name a command goes by in the `cmd` field.
pub open spec fn command_name(c: CommandView) -> Seq<char> {
    match c {
        CommandView::Ping => "PING"@,
        CommandView::Put { .. } => "PUT"@,
        CommandView::Get { .. } => "GET"@,
        CommandView::Del { .. } => "DEL"@,
        CommandView::Expire { .. } => "EXPIRE"@,
        CommandView::Stats => "STATS"@,
        CommandView::Metrics => "METRICS"@,
    }
}

/// The fields of the object that stands for a command.
pub open spec fn command_fields(c: CommandView) -> Seq<(Seq<char>, ToonValue)> {
    match command_toon_value(c) {
        ToonValue::Object(fs) => fs,
        _ => Seq::empty(),
    }
}

/// The object of a command is read as the command wherever its `cmd` field
/// holds any value whose text is the command's name.
proof fn lemma_command_fields_read(c: CommandView, cv: ToonValue, st: Seq<Seq<char>>)
    requires
        text_of(cv, st, crate::protocol::toon::decoder::ToonCommandErrorView::CmdNotString)
            == Ok::<Seq<char>, crate::protocol::toon::decoder::ToonCommandErrorView>(command_name(c)),
    ensures
        command_fields(c).len() > 0,
        command_fields(c)[0] == ("cmd"@, ToonValue::Str(command_name(c))),
        toon_to_command(ToonValue::Object(command_fields(c).update(0, ("cmd"@, cv))), st)
            == Ok::<CommandView, crate::protocol::toon::decoder::ToonCommandErrorView>(c),
{
    lemma_names_differ();
    match c {
        CommandView::Put { key, value, ttl } => {
            let base = seq![("cmd"@, cv), ("key"@, ToonValue::Bytes(key)), ("value"@, ToonValue::Bytes(value))];
            let tail: Seq<(Seq<char>, ToonValue)> = match ttl {
                Some(t) => seq![("ttl"@, ToonValue::UInt64(t))],
                None => Seq::empty(),
            };
            let fs = base + tail;
            assert(fs[0] == ("cmd"@, cv));
            assert(fs.drop_first()[0] == ("key"@, ToonValue::Bytes(key)));
            assert(fs.drop_first().drop_first()[0] == ("value"@, ToonValue::Bytes(value)));
            let f3 = fs.drop_first().drop_first().drop_first();
            assert(f3 =~= tail);
            assert(field_get(fs, "cmd"@) == Some(cv));
            assert(command_fields(c).update(0, ("cmd"@, cv)) =~= fs);
            assert(field_get(fs.drop_first(), "key"@) == Some(ToonValue::Bytes(key)));
            assert(field_get(fs, "key"@) == Some(ToonValue::Bytes(key)));
            assert(field_get(fs.drop_first().drop_first(), "value"@) == Some(ToonValue::Bytes(value)));
            assert(field_get(fs.drop_first(), "value"@) == Some(ToonValue::Bytes(value)));
            assert(field_get(fs, "value"@) == Some(ToonValue::Bytes(value)));
            assert(field_get(fs.drop_first().drop_first(), "ttl"@) == field_get(f3, "ttl"@));
            assert(field_get(fs.drop_first(), "ttl"@) == field_get(f3, "ttl"@));
            match ttl {
                Some(t) => {
                    assert(field_get(tail, "ttl"@) == Some(ToonValue::UInt64(t)));
                },
                None => {
                    assert(field_get(tail, "ttl"@) == None::<ToonValue>);
                },
            }
            assert(field_get(fs, "ttl"@) == field_get(tail, "ttl"@));
        },
        CommandView::Get { key } => {
            let fs = seq![("cmd"@, cv), ("key"@, ToonValue::Bytes(key))];
            assert(command_fields(c).update(0, ("cmd"@, cv)) =~= fs);
            assert(field_get(fs, "key"@) == field_get(fs.drop_first(), "key"@));
        },
        CommandView::Del { key } => {
            let fs = seq![("cmd"@, cv), ("key"@, ToonValue::Bytes(key))];
            assert(command_fields(c).update(0, ("cmd"@, cv)) =~= fs);
            assert(field_get(fs, "key"@) == field_get(fs.drop_first(), "key"@));
        },
        CommandView::Expire { key, ttl } => {
            let fs = seq![("cmd"@, cv), ("key"@, ToonValue::Bytes(key)), ("ttl"@, ToonValue::UInt64(ttl))];
            assert(command_fields(c).update(0, ("cmd"@, cv)) =~= fs);
            assert(fs.drop_first()[0] == ("key"@, ToonValue::Bytes(key)));
            assert(fs.drop_first().drop_first()[0] == ("ttl"@, ToonValue::UInt64(ttl)));
            assert(field_get(fs.drop_first(), "key"@) == Some(ToonValue::Bytes(key)));
            assert(field_get(fs, "key"@) == Some(ToonValue::Bytes(key)));
            assert(field_get(fs.drop_first().drop_first(), "ttl"@) == Some(ToonValue::UInt64(ttl)));
            assert(field_get(fs.drop_first(), "ttl"@) == Some(ToonValue::UInt64(ttl)));
            assert(field_get(fs, "ttl"@) == Some(ToonValue::UInt64(ttl)));
        },
        _ => {
            assert(command_fields(c).update(0, ("cmd"@, cv)) =~= seq![("cmd"@, cv)]);
        },
    }
}

/// Reading a command back from the value that stands for it in TOON gives
/// the command: every field, the TTL of a PUT included, comes back, whatever
/// strings the decoder holds.
pub proof fn lemma_command_toon_roundtrip(c: CommandView, st: Seq<Seq<char>>)
    ensures
        toon_to_command(command_toon_value(c), st) == Ok::<CommandView, crate::protocol::toon::decoder::ToonCommandErrorView>(c),
{
    lemma_command_fields_read(c, ToonValue::Str(command_name(c)), st);
    assert(command_fields(c).update(0, ("cmd"@, ToonValue::Str(command_name(c)))) =~= command_fields(c));
}

/// With interning on, the object of a command, with its name replaced by
/// its number among the strings `g` where it is long enough to be held, is
/// still read as the command by a decoder that holds `g`.
proof fn lemma_command_interned_read(c: CommandView, g: Seq<Seq<char>>)
    requires
        all_distinct(g),
        g.len() < u32::MAX,
        utf8_len(command_name(c)) > 4 ==> g.contains(command_name(c)),
    ensures
        toon_to_command(interned_as(command_toon_value(c), g), g)
            == Ok::<CommandView, crate::protocol::toon::decoder::ToonCommandErrorView>(c),
{
    let fs = command_fields(c);
    let name = command_name(c);
    let iv = interned_as(ToonValue::Str(name), g);
    if utf8_len(name) > 4 {
        let i = g.index_of(name);
        assert(0 <= i < g.len() && g[i] == name);
        assert((i as u32) as int == i);
    }
    lemma_command_fields_read(c, iv, g);
    assert(command_toon_value(c) == ToonValue::Object(fs));
    lemma_interned_fields_index(fs, g);
    assert forall|i: int| 1 <= i < fs.len() implies interned_as(#[trigger] fs[i].1, g) == fs[i].1 by {
        match c {
            CommandView::Put { key, value, ttl } => {
                assert(fs[i].1 is Bytes || fs[i].1 is UInt64);
            },
            CommandView::Expire { key, ttl } => {
                assert(fs[i].1 is Bytes || fs[i].1 is UInt64);
            },
            _ => {
                assert(fs[i].1 is Bytes);
            },
        }
    }
    assert(interned_fields(fs, g) =~= fs.update(0, ("cmd"@, iv)));
}

/// UTF-8 takes at most four bytes a character.
proof fn lemma_utf8_len_bound(s: Seq<char>)
    ensures
        utf8_len(s) <= 4 * s.len(),
    decreases s.len(),
{
    if s.len() > 0 {
        lemma_utf8_len_bound(s.drop_first());
        assert(vstd::utf8::encode_scalar(s[0] as u32).len() <= 4);
    }
}

/// The object of a command can be carried: its keys are distinct, and its
/// texts and bytes fit in 64-bit lengths where its key and value do.
proof fn lemma_command_toon_wf(c: CommandView)
    requires
        c matches CommandView::Put { key, value, .. } ==> key.len() <= u64::MAX && value.len() <= u64::MAX,
        c matches CommandView::Get { key } ==> key.len() <= u64::MAX,
        c matches CommandView::Del { key } ==> key.len() <= u64::MAX,
        c matches CommandView::Expire { key, .. } ==> key.len() <= u64::MAX,
    ensures
        toon_wf(command_toon_value(c)),
{
    lemma_names_differ();
    let fs = command_fields(c);
    reveal_strlit("cmd");
    reveal_strlit("key");
    reveal_strlit("value");
    reveal_strlit("ttl");
    lemma_utf8_len_bound("cmd"@);
    lemma_utf8_len_bound("key"@);
    lemma_utf8_len_bound("value"@);
    lemma_utf8_len_bound("ttl"@);
    lemma_utf8_len_bound(command_name(c));
    lemma_command_fields_read(c, ToonValue::Str(command_name(c)), Seq::empty());
    assert(command_toon_value(c) == ToonValue::Object(fs));
    assert(fs.len() <= 4);
    assert(command_name(c).len() <= 7) by {
        reveal_strlit("PING");
        reveal_strlit("PUT");
        reveal_strlit("GET");
        reveal_strlit("DEL");
        reveal_strlit("EXPIRE");
        reveal_strlit("STATS");
        reveal_strlit("METRICS");
    }
    assert(fields_wf(fs.take(0))) by {
        assert(fs.take(0).len() == 0);
    }
    assert forall|k: int| 0 <= k < fs.len() implies utf8_len(#[trigger] fs[k].0) <= u64::MAX && toon_wf(fs[k].1) by {
        assert(fs[k].0 == "cmd"@ || fs[k].0 == "key"@ || fs[k].0 == "value"@ || fs[k].0 == "ttl"@);
    }
    assert forall|k: int| 0 <= k <= fs.len() implies #[trigger] fields_wf(fs.take(k)) by {
        lemma_fields_wf_take(fs, k);
    }
    assert(fs.take(fs.len() as int) =~= fs);
    assert(fields_wf(fs));
    assert(keys_distinct(fs)) by {
        assert forall|i: int, j: int| 0 <= i < fs.len() && 0 <= j < fs.len() && i != j implies fs[i].0 != fs[j].0 by {
            match c {
                CommandView::Put { key, value, ttl } => {
                    assert(fs[0].0 == "cmd"@ && fs[1].0 == "key"@ && fs[2].0 == "value"@);
                    if fs.len() == 4 {
                        assert(fs[3].0 == "ttl"@);
                    }
                },
                CommandView::Expire { key, ttl } => {
                    assert(fs[0].0 == "cmd"@ && fs[1].0 == "key"@ && fs[2].0 == "ttl"@);
                },
                _ => {
                    assert(fs[0].0 == "cmd"@);
                    if fs.len() == 2 {
                        assert(fs[1].0 == "key"@);
                    }
                },
            }
        }
    }
}

proof fn lemma_fields_wf_take(fs: Seq<(Seq<char>, ToonValue)>, k: int)
    requires
        0 <= k <= fs.len(),
        forall|i: int| 0 <= i < fs.len() ==> utf8_len(#[trigger] fs[i].0) <= u64::MAX && toon_wf(fs[i].1),
    ensures
        fields_wf(fs.take(k)),
    decreases k,
{
    if k > 0 {
        lemma_fields_wf_take(fs, k - 1);
        assert(fs.take(k).drop_last() =~= fs.take(k - 1));
        assert(fs.take(k).last() == fs[k - 1]);
    }
}

/// The packet that `encode_command` writes for a command, read by a decoder
/// that holds what the encoder held, gives the command back, the TTL of a
/// PUT included; the decoder then holds what the encoder holds.
pub proof fn lemma_command_packet_roundtrip(c: CommandView, st: Seq<Seq<char>>)
    requires
        c matches CommandView::Put { key, value, .. } ==> key.len() <= u64::MAX && value.len() <= u64::MAX,
        c matches CommandView::Get { key } ==> key.len() <= u64::MAX,
        c matches CommandView::Del { key } ==> key.len() <= u64::MAX,
        c matches CommandView::Expire { key, .. } ==> key.len() <= u64::MAX,
        all_distinct(enc_value(command_toon_value(c), true, st).1),
        enc_value(command_toon_value(c), true, st).1.len() < u32::MAX,
        enc_value(command_toon_value(c), true, st).0.len() <= u64::MAX,
    ensures
        dec_packet(default_packet_bytes(command_toon_value(c), st), st).1 == enc_value(command_toon_value(c), true, st).1,
        dec_packet(default_packet_bytes(command_toon_value(c), st), st).0 matches Ok((_, _, v))
            && toon_to_command(v, dec_packet(default_packet_bytes(command_toon_value(c), st), st).1)
            == Ok::<CommandView, crate::protocol::toon::decoder::ToonCommandErrorView>(c),
{
    let v = command_toon_value(c);
    let g = enc_value(v, true, st).1;
    let flags = ToonFlags { zero_copy: true, string_interning: true, compression: false, simd_optimized: true };
    assert(default_flags_byte() == flags_byte(flags));
    lemma_command_toon_wf(c);
    lemma_toon_packet_roundtrip_interned(flags, v, st);
    assert(default_packet_bytes(v, st) == toon_magic() + seq![TOON_VERSION, flags_byte(flags)] + varint_bytes(
        enc_value(v, true, st).0.len() as u64,
    ) + enc_value(v, true, st).0);
    let fs = command_fields(c);
    let name = command_name(c);
    lemma_command_fields_read(c, ToonValue::Str(name), st);
    assert(v == ToonValue::Object(fs));
    assert(g == enc_fields(fs, true, st).1);
    lemma_enc_fields_front_il(fs, st);
    let s1 = enc_string("cmd"@, true, st).1;
    let s2 = enc_value(ToonValue::Str(name), true, s1).1;
    lemma_enc_fields_grows(fs.drop_first(), s2);
    assert(g == enc_fields(fs.drop_first(), true, s2).1);
    if utf8_len(name) > 4 {
        assert(s2 == enc_string(name, true, s1).1);
        let j: int = if s1.contains(name) { s1.index_of(name) } else { s1.len() as int };
        if s1.contains(name) {
            assert(0 <= j < s1.len() && s1[j] == name);
        } else {
            if s1.len() >= u32::MAX {
                assert(s2 == s1);
                assert(false);
            }
            assert(s2 == s1.push(name));
            assert(s2[j] == name);
        }
        lemma_index_in_prefix(s2, g, name, j);
    }
    lemma_command_interned_read(c, g);
}

/// In TOON an error reply, and no other reply, is an object whose `error`
/// field holds text: the message of the error.
pub proof fn lemma_response_toon_error_marked(r: ResponseView, m: Seq<char>)
    ensures
        (response_toon_value(r) matches ToonValue::Object(fs) && field_get(fs, "error"@) == Some(ToonValue::Str(m)))
            <==> r == ResponseView::Error(m),
{
    match r {
        ResponseView::Error(x) => {
            let fs = seq![("error"@, ToonValue::Str(x))];
            assert(fs[0].0 == "error"@);
            assert(field_get(fs, "error"@) == Some(ToonValue::Str(x)));
        },
        _ => {},
    }
}

/// Whether a reply is statistics whose text reads "OK" or "PONG", which in
/// TOON is written as that plain reply is.
pub open spec fn stats_like_plain_reply(r: ResponseView) -> bool {
    r matches ResponseView::Stats(s) && (s == "OK"@ || s == "PONG"@)
}

/// Two replies written as the same TOON value are the same reply, save for
/// statistics whose text reads "OK" or "PONG".
pub proof fn lemma_response_toon_distinct(r1: ResponseView, r2: ResponseView)
    requires
        response_toon_value(r1) == response_toon_value(r2),
        !stats_like_plain_reply(r1),
        !stats_like_plain_reply(r2),
    ensures
        r1 == r2,
{
    reveal_strlit("OK");
    reveal_strlit("PONG");
    assert("OK"@.len() == 2 && "PONG"@.len() == 4);
    assert("OK"@ != "PONG"@);
    match (r1, r2) {
        (ResponseView::Error(x), ResponseView::Error(y)) => {
            let a = seq![("error"@, ToonValue::Str(x))];
            let b = seq![("error"@, ToonValue::Str(y))];
            assert(a[0] == b[0]);
        },
        _ => {},
    }
}

} // verus!
