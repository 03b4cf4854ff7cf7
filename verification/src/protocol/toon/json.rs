//! Conversion between TOON values and JSON values. A JSON value here is
//! held as serde_json holds it: a number is a non-negative integer, a
//! negative integer, or a 64-bit float (by its bits).

use vstd::prelude::*;
use crate::protocol::toon::types::{
    float_narrowed, narrow_i64, narrow_u64, optimized_as, ToonTypeAnalyzer,
};
use crate::protocol::toon::{toon_view, toon_view_fields, toon_view_items, ToonType, ToonValue};

verus! {

/// A JSON number: `PosInt` for integers from zero up, `NegInt` for
/// negative integers, `Float` for floats, given by their bits.
#[derive(Debug, Clone, Copy, PartialEq, Eq)]
pub enum JsonNumber {
    PosInt(u64),
    NegInt(i64),
    Float(u64),
}

/// A JSON value; an object is its members in order.
#[derive(Debug)]
pub enum JsonValue {
    Null,
    Bool(bool),
    Number(JsonNumber),
    String(String),
    Array(Vec<JsonValue>),
    Object(Vec<(String, JsonValue)>),
}

/// A JSON value as plain values.
pub enum JsonView {
    Null,
    Bool(bool),
    Number(JsonNumber),
    Text(Seq<char>),
    Array(Seq<JsonView>),
    Object(Seq<(Seq<char>, JsonView)>),
}

/// The plain form of a JSON value.
pub open spec fn json_view(v: JsonValue) -> JsonView
    decreases v,
{
    match v {
        JsonValue::Null => JsonView::Null,
        JsonValue::Bool(b) => JsonView::Bool(b),
        JsonValue::Number(n) => JsonView::Number(n),
        JsonValue::String(s) => JsonView::Text(s@),
        JsonValue::Array(items) => JsonView::Array(json_view_items(items@)),
        JsonValue::Object(fields) => JsonView::Object(json_view_fields(fields@)),
    }
}

/// The plain forms of array elements.
pub open spec fn json_view_items(s: Seq<JsonValue>) -> Seq<JsonView>
    decreases s,
{
    if s.len() == 0 {
        Seq::empty()
    } else {
        json_view_items(s.drop_last()).push(json_view(s.last()))
    }
}

/// The plain forms of object members.
pub open spec fn json_view_fields(s: Seq<(String, JsonValue)>) -> Seq<(Seq<char>, JsonView)>
    decreases s,
{
    if s.len() == 0 {
        Seq::empty()
    } else {
        json_view_fields(s.drop_last()).push((s.last().0@, json_view(s.last().1)))
    }
}

/// The character of a six-bit group in the standard base64 alphabet:
/// `A`..`Z`, `a`..`z`, `0`..`9`, `+`, `/`.
pub open spec fn base64_char(v: int) -> char {
    if v < 26 {
        (65 + v) as char
    } else if v < 52 {
        (97 + v - 26) as char
    } else if v < 62 {
        (48 + v - 52) as char
    } else if v == 62 {
        '+'
    } else {
        '/'
    }
}

/// Standard padded base64 (RFC 4648): every three bytes become four
/// characters of six bits each, first bits first; a last group of one or
/// two bytes becomes two or three characters, its last bits zero, then `=`
/// up to four.
pub open spec fn base64_standard(b: Seq<u8>) -> Seq<char>
    decreases b.len(),
{
    if b.len() == 0 {
        Seq::empty()
    } else {
        let x0 = b[0] as int;
        let x1 = if b.len() > 1 { b[1] as int } else { 0 };
        let x2 = if b.len() > 2 { b[2] as int } else { 0 };
        let c0 = base64_char(x0 / 4);
        let c1 = base64_char((x0 % 4) * 16 + x1 / 16);
        let c2 = base64_char((x1 % 16) * 4 + x2 / 64);
        let c3 = base64_char(x2 % 64);
        if b.len() == 1 {
            seq![c0, c1, '=', '=']
        } else if b.len() == 2 {
            seq![c0, c1, c2, '=']
        } else {
            seq![c0, c1, c2, c3] + base64_standard(b.skip(3))
        }
    }
}

/// Calls `base64::Engine::encode` on the `BASE64_STANDARD` engine (the
/// standard alphabet, with padding). Claimed: the result is the standard
/// padded base64 of the bytes.
#[verifier::external_body]
fn base64_encode(bytes: &[u8]) -> (s: String)
    ensures
        s@ == base64_standard(bytes@),
{
    base64::Engine::encode(&base64::prelude::BASE64_STANDARD, bytes)
}

/// Whether the 64-bit float with bits `x` is finite: its exponent field is
/// not all ones.
pub open spec fn finite_f64(x: u64) -> bool {
    (x >> 52u64) & 0x7ffu64 != 0x7ffu64
}

/// The JSON number of a float, as `serde_json::Number::from_f64` makes it,
/// and 0 where the float is not finite.
pub open spec fn float_number(x: u64) -> JsonNumber {
    if finite_f64(x) {
        JsonNumber::Float(x)
    } else {
        JsonNumber::PosInt(0)
    }
}

/// The JSON number of a signed integer, as serde_json makes it.
pub open spec fn int_number(v: int) -> JsonNumber {
    if v < 0 {
        JsonNumber::NegInt(v as i64)
    } else {
        JsonNumber::PosInt(v as u64)
    }
}

/// Whether `t` is the TOON value of the JSON value `j`: integers in their
/// narrowest type (signed where they fit in 64 signed bits), floats
/// narrowed as `f` decides, text, arrays and objects member by member.
pub open spec fn from_json_as<F: Fn(u64) -> Option<u32>>(f: F, j: JsonView, t: ToonValue) -> bool
    decreases j,
{
    match j {
        JsonView::Null => t == ToonValue::Null,
        JsonView::Bool(b) => t == ToonValue::Bool(b),
        JsonView::Number(JsonNumber::PosInt(n)) => if n <= i64::MAX {
            t == narrow_i64(n as i64)
        } else {
            t == narrow_u64(n)
        },
        JsonView::Number(JsonNumber::NegInt(n)) => t == narrow_i64(n),
        JsonView::Number(JsonNumber::Float(x)) => float_narrowed(f, x, t),
        JsonView::Text(s) => t == ToonValue::Str(s),
        JsonView::Array(items) => match t {
            ToonValue::Array(ts) => items_from_json_as(f, items, ts),
            _ => false,
        },
        JsonView::Object(fields) => match t {
            ToonValue::Object(ts) => fields_from_json_as(f, fields, ts),
            _ => false,
        },
    }
}

/// Element by element `from_json_as`.
pub open spec fn items_from_json_as<F: Fn(u64) -> Option<u32>>(f: F, s: Seq<JsonView>, t: Seq<ToonValue>) -> bool
    decreases s,
{
    s.len() == t.len() && (s.len() == 0 || (items_from_json_as(f, s.drop_last(), t.drop_last())
        && from_json_as(f, s.last(), t.last())))
}

/// Member by member `from_json_as`, keys unchanged.
pub open spec fn fields_from_json_as<F: Fn(u64) -> Option<u32>>(
    f: F,
    s: Seq<(Seq<char>, JsonView)>,
    t: Seq<(Seq<char>, ToonValue)>,
) -> bool
    decreases s,
{
    s.len() == t.len() && (s.len() == 0 || (fields_from_json_as(f, s.drop_last(), t.drop_last())
        && t.last().0 == s.last().0 && from_json_as(f, s.last().1, t.last().1)))
}

/// Whether `j` is the JSON value of the TOON value `t`: integers as JSON
/// integers, floats as JSON floats where finite (32-bit ones widened as `w`
/// gives them) and 0 otherwise, bytes as base64 text, an interned string as
/// the text `INTERNED_STRING`, arrays and objects member by member.
pub open spec fn to_json_as<W: Fn(u32) -> u64>(w: W, t: ToonValue, j: JsonView) -> bool
    decreases t,
{
    match t {
        ToonValue::Null => j == JsonView::Null,
        ToonValue::Bool(b) => j == JsonView::Bool(b),
        ToonValue::Int8(v) => j == JsonView::Number(int_number(v as int)),
        ToonValue::Int16(v) => j == JsonView::Number(int_number(v as int)),
        ToonValue::Int32(v) => j == JsonView::Number(int_number(v as int)),
        ToonValue::Int64(v) => j == JsonView::Number(int_number(v as int)),
        ToonValue::UInt8(v) => j == JsonView::Number(JsonNumber::PosInt(v as u64)),
        ToonValue::UInt16(v) => j == JsonView::Number(JsonNumber::PosInt(v as u64)),
        ToonValue::UInt32(v) => j == JsonView::Number(JsonNumber::PosInt(v as u64)),
        ToonValue::UInt64(v) => j == JsonView::Number(JsonNumber::PosInt(v)),
        ToonValue::Float32(c) => exists|x: u64| call_ensures(w, (c,), x) && j == JsonView::Number(float_number(x)),
        ToonValue::Float64(x) => j == JsonView::Number(float_number(x)),
        ToonValue::Str(s) => j == JsonView::Text(s),
        ToonValue::Bytes(b) => j == JsonView::Text(base64_standard(b)),
        ToonValue::Array(items) => match j {
            JsonView::Array(js) => items_to_json_as(w, items, js),
            _ => false,
        },
        ToonValue::Object(fields) => match j {
            JsonView::Object(js) => fields_to_json_as(w, fields, js),
            _ => false,
        },
        ToonValue::InternedString(_) => j == JsonView::Text("INTERNED_STRING"@),
    }
}

/// Element by element `to_json_as`.
pub open spec fn items_to_json_as<W: Fn(u32) -> u64>(w: W, s: Seq<ToonValue>, t: Seq<JsonView>) -> bool
    decreases s,
{
    s.len() == t.len() && (s.len() == 0 || (items_to_json_as(w, s.drop_last(), t.drop_last())
        && to_json_as(w, s.last(), t.last())))
}

/// Member by member `to_json_as`, keys unchanged.
pub open spec fn fields_to_json_as<W: Fn(u32) -> u64>(
    w: W,
    s: Seq<(Seq<char>, ToonValue)>,
    t: Seq<(Seq<char>, JsonView)>,
) -> bool
    decreases s,
{
    s.len() == t.len() && (s.len() == 0 || (fields_to_json_as(w, s.drop_last(), t.drop_last())
        && t.last().0 == s.last().0 && to_json_as(w, s.last().1, t.last().1)))
}

/// The JSON number of a float by its bits (see `float_number`).
fn float_to_number(x: u64) -> (n: JsonNumber)
    ensures
        n == float_number(x),
{
    if (x >> 52u64) & 0x7ffu64 != 0x7ffu64 {
        JsonNumber::Float(x)
    } else {
        JsonNumber::PosInt(0)
    }
}

/// The JSON number of a signed integer (see `int_number`).
fn int_to_number(v: i64) -> (n: JsonNumber)
    ensures
        n == int_number(v as int),
{
    if v < 0 {
        JsonNumber::NegInt(v)
    } else {
        JsonNumber::PosInt(v as u64)
    }
}

/// Conversion between TOON values and JSON values.
pub struct ToonTypeUtils;

impl ToonTypeUtils {
    /// The TOON value of a JSON value (see `from_json_as`); `narrow` is the
    /// rule for 64-bit floats, as in `ToonTypeAnalyzer::optimize_value`.
    pub fn from_json_value<F: Fn(u64) -> Option<u32>>(value: &JsonValue, narrow: &F) -> (r: ToonType)
        requires
            forall|x: u64| narrow.requires((x,)),
        ensures
            from_json_as(*narrow, json_view(*value), toon_view(r)),
        decreases value,
    {
        match value {
            JsonValue::Null => ToonType::Null,
            JsonValue::Bool(b) => ToonType::Bool(*b),
            JsonValue::Number(n) => {
                let t = match n {
                    JsonNumber::PosInt(u) => if *u <= 9223372036854775807u64 {
                        ToonType::Int64(*u as i64)
                    } else {
                        ToonType::UInt64(*u)
                    },
                    JsonNumber::NegInt(i) => ToonType::Int64(*i),
                    JsonNumber::Float(x) => ToonType::Float64(*x),
                };
                ToonTypeAnalyzer::optimize_value(&t, narrow)
            },
            JsonValue::String(s) => ToonType::String(s.clone()),
            JsonValue::Array(items) => {
                let mut out: Vec<ToonType> = Vec::new();
                let mut i: usize = 0;
                while i < items.len()
                    invariant
                        i <= items@.len(),
                        *value == JsonValue::Array(*items),
                        forall|x: u64| narrow.requires((x,)),
                        items_from_json_as(
                            *narrow,
                            json_view_items(items@.subrange(0, i as int)),
                            toon_view_items(out@),
                        ),
                    decreases items@.len() - i,
                {
                    assert(decreases_to!(*value => (*value)->Array_0));
                    assert(decreases_to!(*items => items@));
                    assert(decreases_to!(items@ => items@[i as int]));
                    assert(decreases_to!(*value => items@[i as int]));
                    let item = Self::from_json_value(&items[i], narrow);
                    let ghost before = out@;
                    out.push(item);
                    assert(out@.drop_last() =~= before);
                    assert(items@.subrange(0, i + 1 as int).drop_last() =~= items@.subrange(
                        0,
                        i as int,
                    ));
                    proof {
                        let sv = json_view_items(items@.subrange(0, i + 1 as int));
                        let tv = toon_view_items(out@);
                        assert(sv.drop_last() =~= json_view_items(items@.subrange(0, i as int)));
                        assert(tv.drop_last() =~= toon_view_items(before));
                    }
                    i += 1;
                }
                assert(items@.subrange(0, i as int) =~= items@);
                ToonType::Array(out)
            },
            JsonValue::Object(fields) => {
                let mut out: Vec<(String, ToonType)> = Vec::new();
                let mut i: usize = 0;
                while i < fields.len()
                    invariant
                        i <= fields@.len(),
                        *value == JsonValue::Object(*fields),
                        forall|x: u64| narrow.requires((x,)),
                        fields_from_json_as(
                            *narrow,
                            json_view_fields(fields@.subrange(0, i as int)),
                            toon_view_fields(out@),
                        ),
                    decreases fields@.len() - i,
                {
                    assert(decreases_to!(*value => (*value)->Object_0));
                    assert(decreases_to!(*fields => fields@));
                    assert(decreases_to!(fields@ => fields@[i as int]));
                    assert(decreases_to!(fields@[i as int] => fields@[i as int].1));
                    assert(decreases_to!(*value => fields@[i as int].1));
                    let v = Self::from_json_value(&fields[i].1, narrow);
                    let key = fields[i].0.clone();
                    let ghost before = out@;
                    out.push((key, v));
                    assert(out@.drop_last() =~= before);
                    assert(fields@.subrange(0, i + 1 as int).drop_last() =~= fields@.subrange(
                        0,
                        i as int,
                    ));
                    proof {
                        let sv = json_view_fields(fields@.subrange(0, i + 1 as int));
                        let tv = toon_view_fields(out@);
                        assert(sv.drop_last() =~= json_view_fields(fields@.subrange(0, i as int)));
                        assert(tv.drop_last() =~= toon_view_fields(before));
                    }
                    i += 1;
                }
                assert(fields@.subrange(0, i as int) =~= fields@);
                ToonType::Object(out)
            },
        }
    }

    /// The JSON value of a TOON value (see `to_json_as`); `widen` gives the
    /// 64-bit float of a 32-bit one, by their bits.
    pub fn to_json_value<W: Fn(u32) -> u64>(value: &ToonType, widen: &W) -> (r: JsonValue)
        requires
            forall|c: u32| widen.requires((c,)),
        ensures
            to_json_as(*widen, toon_view(*value), json_view(r)),
        decreases value,
    {
        match value {
            ToonType::Null => JsonValue::Null,
            ToonType::Bool(b) => JsonValue::Bool(*b),
            ToonType::Int8(v) => JsonValue::Number(int_to_number(*v as i64)),
            ToonType::Int16(v) => JsonValue::Number(int_to_number(*v as i64)),
            ToonType::Int32(v) => JsonValue::Number(int_to_number(*v as i64)),
            ToonType::Int64(v) => JsonValue::Number(int_to_number(*v)),
            ToonType::UInt8(v) => JsonValue::Number(JsonNumber::PosInt(*v as u64)),
            ToonType::UInt16(v) => JsonValue::Number(JsonNumber::PosInt(*v as u64)),
            ToonType::UInt32(v) => JsonValue::Number(JsonNumber::PosInt(*v as u64)),
            ToonType::UInt64(v) => JsonValue::Number(JsonNumber::PosInt(*v)),
            ToonType::Float32(c) => {
                let x = widen(*c);
                JsonValue::Number(float_to_number(x))
            },
            ToonType::Float64(x) => JsonValue::Number(float_to_number(*x)),
            ToonType::String(s) => JsonValue::String(s.clone()),
            ToonType::Bytes(b) => JsonValue::String(base64_encode(b.as_slice())),
            ToonType::Array(items) => {
                let mut out: Vec<JsonValue> = Vec::new();
                let mut i: usize = 0;
                while i < items.len()
                    invariant
                        i <= items@.len(),
                        *value == ToonType::Array(*items),
                        forall|c: u32| widen.requires((c,)),
                        items_to_json_as(
                            *widen,
                            toon_view_items(items@.subrange(0, i as int)),
                            json_view_items(out@),
                        ),
                    decreases items@.len() - i,
                {
                    assert(decreases_to!(*value => (*value)->Array_0));
                    assert(decreases_to!(*items => items@));
                    assert(decreases_to!(items@ => items@[i as int]));
                    assert(decreases_to!(*value => items@[i as int]));
                    let item = Self::to_json_value(&items[i], widen);
                    let ghost before = out@;
                    out.push(item);
                    assert(out@.drop_last() =~= before);
                    assert(items@.subrange(0, i + 1 as int).drop_last() =~= items@.subrange(
                        0,
                        i as int,
                    ));
                    proof {
                        let sv = toon_view_items(items@.subrange(0, i + 1 as int));
                        let tv = json_view_items(out@);
                        assert(sv.drop_last() =~= toon_view_items(items@.subrange(0, i as int)));
                        assert(tv.drop_last() =~= json_view_items(before));
                    }
                    i += 1;
                }
                assert(items@.subrange(0, i as int) =~= items@);
                JsonValue::Array(out)
            },
            ToonType::Object(fields) => {
                let mut out: Vec<(String, JsonValue)> = Vec::new();
                let mut i: usize = 0;
                while i < fields.len()
                    invariant
                        i <= fields@.len(),
                        *value == ToonType::Object(*fields),
                        forall|c: u32| widen.requires((c,)),
                        fields_to_json_as(
                            *widen,
                            toon_view_fields(fields@.subrange(0, i as int)),
                            json_view_fields(out@),
                        ),
                    decreases fields@.len() - i,
                {
                    assert(decreases_to!(*value => (*value)->Object_0));
                    assert(decreases_to!(*fields => fields@));
                    assert(decreases_to!(fields@ => fields@[i as int]));
                    assert(decreases_to!(fields@[i as int] => fields@[i as int].1));
                    assert(decreases_to!(*value => fields@[i as int].1));
                    let v = Self::to_json_value(&fields[i].1, widen);
                    let key = fields[i].0.clone();
                    let ghost before = out@;
                    out.push((key, v));
                    assert(out@.drop_last() =~= before);
                    assert(fields@.subrange(0, i + 1 as int).drop_last() =~= fields@.subrange(
                        0,
                        i as int,
                    ));
                    proof {
                        let sv = toon_view_fields(fields@.subrange(0, i + 1 as int));
                        let tv = json_view_fields(out@);
                        assert(sv.drop_last() =~= toon_view_fields(fields@.subrange(0, i as int)));
                        assert(tv.drop_last() =~= json_view_fields(before));
                    }
                    i += 1;
                }
                assert(fields@.subrange(0, i as int) =~= fields@);
                JsonValue::Object(out)
            },
            ToonType::InternedString(_) => {
                proof {
                    reveal_strlit("INTERNED_STRING");
                }
                JsonValue::String("INTERNED_STRING".to_owned())
            },
        }
    }
}

} // verus!
