//! Choices about how values are best encoded: integers in the narrowest
//! type that holds them, floats narrowed where a given rule allows it.

use vstd::prelude::*;
use crate::protocol::toon::{toon_view, toon_view_fields, toon_view_items, ToonType, ToonValue};

verus! {

/// A signed integer in the narrowest of 8, 16, 32 and 64 bits that holds it.
pub open spec fn narrow_i64(v: i64) -> ToonValue {
    if -128 <= v <= 127 {
        ToonValue::Int8(v as i8)
    } else if -32768 <= v <= 32767 {
        ToonValue::Int16(v as i16)
    } else if -2147483648 <= v <= 2147483647 {
        ToonValue::Int32(v as i32)
    } else {
        ToonValue::Int64(v)
    }
}

/// An unsigned integer in the narrowest of 8, 16, 32 and 64 bits that
/// holds it.
pub open spec fn narrow_u64(v: u64) -> ToonValue {
    if v <= 255 {
        ToonValue::UInt8(v as u8)
    } else if v <= 65535 {
        ToonValue::UInt16(v as u16)
    } else if v <= 4294967295 {
        ToonValue::UInt32(v as u32)
    } else {
        ToonValue::UInt64(v)
    }
}

/// Whether `b` is what the rule `f` makes of a 64-bit float with bits `x`:
/// the 32-bit float it gives, or the value unchanged where it gives none.
pub open spec fn float_narrowed<F: Fn(u64) -> Option<u32>>(f: F, x: u64, b: ToonValue) -> bool {
    match b {
        ToonValue::Float32(c) => call_ensures(f, (x,), Some(c)),
        ToonValue::Float64(y) => y == x && call_ensures(f, (x,), None::<u32>),
        _ => false,
    }
}

/// Whether `b` is `a` with every integer narrowed, every 64-bit float
/// narrowed as `f` decides, and all else, keys included, unchanged.
pub open spec fn optimized_as<F: Fn(u64) -> Option<u32>>(f: F, a: ToonValue, b: ToonValue) -> bool
    decreases a,
{
    match a {
        ToonValue::Int64(v) => b == narrow_i64(v),
        ToonValue::UInt64(v) => b == narrow_u64(v),
        ToonValue::Float64(x) => float_narrowed(f, x, b),
        ToonValue::Array(items) => match b {
            ToonValue::Array(items2) => items_optimized_as(f, items, items2),
            _ => false,
        },
        ToonValue::Object(fields) => match b {
            ToonValue::Object(fields2) => fields_optimized_as(f, fields, fields2),
            _ => false,
        },
        _ => b == a,
    }
}

/// Element by element `optimized_as`.
pub open spec fn items_optimized_as<F: Fn(u64) -> Option<u32>>(f: F, s: Seq<ToonValue>, t: Seq<ToonValue>) -> bool
    decreases s,
{
    s.len() == t.len() && (s.len() == 0 || (items_optimized_as(f, s.drop_last(), t.drop_last())
        && optimized_as(f, s.last(), t.last())))
}

/// Field by field `optimized_as`, keys unchanged.
pub open spec fn fields_optimized_as<F: Fn(u64) -> Option<u32>>(
    f: F,
    s: Seq<(Seq<char>, ToonValue)>,
    t: Seq<(Seq<char>, ToonValue)>,
) -> bool
    decreases s,
{
    s.len() == t.len() && (s.len() == 0 || (fields_optimized_as(f, s.drop_last(), t.drop_last())
        && t.last().0 == s.last().0 && optimized_as(f, s.last().1, t.last().1)))
}

/// Decides how values are best encoded.
pub struct ToonTypeAnalyzer;

impl ToonTypeAnalyzer {
    /// `value` with integers in their narrowest type and 64-bit floats
    /// narrowed where `narrow` (given the float's bits) gives 32-bit bits.
    pub fn optimize_value<F: Fn(u64) -> Option<u32>>(value: &ToonType, narrow: &F) -> (r: ToonType)
        requires
            forall|x: u64| narrow.requires((x,)),
        ensures
            optimized_as(*narrow, toon_view(*value), toon_view(r)),
        decreases value,
    {
        match value {
            ToonType::Int64(v) => {
                let v = *v;
                if -128 <= v && v <= 127 {
                    ToonType::Int8(v as i8)
                } else if -32768 <= v && v <= 32767 {
                    ToonType::Int16(v as i16)
                } else if -2147483648 <= v && v <= 2147483647 {
                    ToonType::Int32(v as i32)
                } else {
                    ToonType::Int64(v)
                }
            },
            ToonType::UInt64(v) => {
                let v = *v;
                if v <= 255 {
                    ToonType::UInt8(v as u8)
                } else if v <= 65535 {
                    ToonType::UInt16(v as u16)
                } else if v <= 4294967295 {
                    ToonType::UInt32(v as u32)
                } else {
                    ToonType::UInt64(v)
                }
            },
            ToonType::Float64(x) => {
                match narrow(*x) {
                    Some(c) => ToonType::Float32(c),
                    None => ToonType::Float64(*x),
                }
            },
            ToonType::Array(items) => {
                let mut out: Vec<ToonType> = Vec::new();
                let mut i: usize = 0;
                while i < items.len()
                    invariant
                        i <= items@.len(),
                        *value == ToonType::Array(*items),
                        forall|x: u64| narrow.requires((x,)),
                        items_optimized_as(
                            *narrow,
                            toon_view_items(items@.subrange(0, i as int)),
                            toon_view_items(out@),
                        ),
                    decreases items@.len() - i,
                {
                    assert(decreases_to!(*value => (*value)->Array_0));
                    assert(decreases_to!(*items => items@));
                    assert(decreases_to!(items@ => items@[i as int]));
                    assert(decreases_to!(*value => items@[i as int]));
                    let item = Self::optimize_value(&items[i], narrow);
                    let ghost before = out@;
                    out.push(item);
                    assert(out@.drop_last() =~= before);
                    assert(items@.subrange(0, i + 1 as int).drop_last() =~= items@.subrange(
                        0,
                        i as int,
                    ));
                    proof {
                        let sv = toon_view_items(items@.subrange(0, i + 1 as int));
                        let tv = toon_view_items(out@);
                        assert(sv == toon_view_items(items@.subrange(0, i as int)).push(
                            toon_view(items@[i as int]),
                        ));
                        assert(tv == toon_view_items(before).push(toon_view(item)));
                        assert(sv.drop_last() =~= toon_view_items(items@.subrange(0, i as int)));
                        assert(tv.drop_last() =~= toon_view_items(before));
                    }
                    i += 1;
                }
                assert(items@.subrange(0, i as int) =~= items@);
                ToonType::Array(out)
            },
            ToonType::Object(fields) => {
                let mut out: Vec<(String, ToonType)> = Vec::new();
                let mut i: usize = 0;
                while i < fields.len()
                    invariant
                        i <= fields@.len(),
                        *value == ToonType::Object(*fields),
                        forall|x: u64| narrow.requires((x,)),
                        fields_optimized_as(
                            *narrow,
                            toon_view_fields(fields@.subrange(0, i as int)),
                            toon_view_fields(out@),
                        ),
                    decreases fields@.len() - i,
                {
                    assert(decreases_to!(*value => (*value)->Object_0));
                    assert(decreases_to!(*fields => fields@));
                    assert(decreases_to!(fields@ => fields@[i as int]));
                    assert(decreases_to!(fields@[i as int] => fields@[i as int].1));
                    assert(decreases_to!(*value => fields@[i as int].1));
                    let v = Self::optimize_value(&fields[i].1, narrow);
                    let key = fields[i].0.clone();
                    let ghost before = out@;
                    out.push((key, v));
                    assert(out@.drop_last() =~= before);
                    assert(fields@.subrange(0, i + 1 as int).drop_last() =~= fields@.subrange(
                        0,
                        i as int,
                    ));
                    proof {
                        let sv = toon_view_fields(fields@.subrange(0, i + 1 as int));
                        let tv = toon_view_fields(out@);
                        assert(sv.drop_last() =~= toon_view_fields(fields@.subrange(0, i as int)));
                        assert(tv.drop_last() =~= toon_view_fields(before));
                    }
                    i += 1;
                }
                assert(fields@.subrange(0, i as int) =~= fields@);
                ToonType::Object(out)
            },
            _ => crate::protocol::toon::toon_clone(value),
        }
    }

    /// Whether a string is worth interning: longer than four bytes and used
    /// more than once.
    pub fn should_intern_string(s: &str, usage_count: usize) -> (b: bool)
        ensures
            b == (vstd::utf8::encode_utf8(s@).len() > 4 && usage_count > 1),
    {
        s.as_bytes().len() > 4 && usage_count > 1
    }
}

proof fn lemma_optimized_uint<F: Fn(u64) -> Option<u32>>(f: F, v: u64, b: ToonValue)
    requires
        optimized_as(f, ToonValue::UInt64(v), b),
    ensures
        b == narrow_u64(v),
{
}

proof fn lemma_optimized_int<F: Fn(u64) -> Option<u32>>(f: F, v: i64, b: ToonValue)
    requires
        optimized_as(f, ToonValue::Int64(v), b),
    ensures
        b == narrow_i64(v),
{
}

/// A signed integer in its narrowest type.
fn narrowed_int(v: i64) -> (r: ToonType)
    ensures
        toon_view(r) == narrow_i64(v),
{
    let keep = |x: u64| -> (c: Option<u32>)
        ensures
            c is None,
        { None };
    let x = ToonType::Int64(v);
    assert(toon_view(x) == ToonValue::Int64(v));
    let r = ToonTypeAnalyzer::optimize_value(&x, &keep);
    assert(optimized_as(keep, toon_view(x), toon_view(r)));
    assert(optimized_as(keep, ToonValue::Int64(v), toon_view(r)));
    proof {
        lemma_optimized_int(keep, v, toon_view(r));
    }
    r
}

/// An unsigned integer in its narrowest type.
fn narrowed_uint(v: u64) -> (r: ToonType)
    ensures
        toon_view(r) == narrow_u64(v),
{
    let keep = |x: u64| -> (c: Option<u32>)
        ensures
            c is None,
        { None };
    let x = ToonType::UInt64(v);
    assert(toon_view(x) == ToonValue::UInt64(v));
    let r = ToonTypeAnalyzer::optimize_value(&x, &keep);
    proof {
        lemma_optimized_uint(keep, v, toon_view(r));
    }
    r
}

/// Builds one value.
pub struct ToonValueBuilder {
    value: ToonType,
}

impl ToonValueBuilder {
    /// The value being built.
    pub closed spec fn current(&self) -> ToonValue {
        toon_view(self.value)
    }

    /// A builder of null.
    pub fn new() -> (b: Self)
        ensures
            b.current() == ToonValue::Null,
    {
        ToonValueBuilder { value: ToonType::Null }
    }

    /// A builder of null.
    pub fn null() -> (b: Self)
        ensures
            b.current() == ToonValue::Null,
    {
        ToonValueBuilder { value: ToonType::Null }
    }

    /// A builder of a boolean.
    pub fn bool(value: bool) -> (b: Self)
        ensures
            b.current() == ToonValue::Bool(value),
    {
        ToonValueBuilder { value: ToonType::Bool(value) }
    }

    /// A builder of a signed integer, in its narrowest type.
    pub fn integer(value: i64) -> (b: Self)
        ensures
            b.current() == narrow_i64(value),
    {
        ToonValueBuilder { value: narrowed_int(value) }
    }

    /// A builder of an unsigned integer, in its narrowest type.
    pub fn uint(value: u64) -> (b: Self)
        ensures
            b.current() == narrow_u64(value),
    {
        ToonValueBuilder { value: narrowed_uint(value) }
    }

    /// A builder of a string.
    pub fn string(value: String) -> (b: Self)
        ensures
            b.current() == ToonValue::Str(value@),
    {
        ToonValueBuilder { value: ToonType::String(value) }
    }

    /// A builder of bytes.
    pub fn bytes(value: Vec<u8>) -> (b: Self)
        ensures
            b.current() == ToonValue::Bytes(value@),
    {
        ToonValueBuilder { value: ToonType::Bytes(value) }
    }

    /// A builder of an array.
    pub fn array() -> (b: ToonArrayBuilder)
        ensures
            b.current().len() == 0,
    {
        ToonArrayBuilder::new()
    }

    /// A builder of an object.
    pub fn object() -> (b: ToonObjectBuilder)
        ensures
            b.current().len() == 0,
    {
        ToonObjectBuilder::new()
    }

    /// The value built.
    pub fn build(self) -> (v: ToonType)
        ensures
            toon_view(v) == self.current(),
    {
        self.value
    }
}

impl Default for ToonValueBuilder {
    fn default() -> (b: Self)
        ensures
            b.current() == ToonValue::Null,
    {
        Self::new()
    }
}

/// Builds an array, element by element.
pub struct ToonArrayBuilder {
    items: Vec<ToonType>,
}

impl ToonArrayBuilder {
    /// The elements so far.
    pub closed spec fn current(&self) -> Seq<ToonValue> {
        toon_view_items(self.items@)
    }

    /// A builder of an empty array.
    pub fn new() -> (b: Self)
        ensures
            b.current().len() == 0,
    {
        ToonArrayBuilder { items: Vec::new() }
    }

    fn push_item(self, item: ToonType) -> (b: Self)
        ensures
            b.current() == self.current().push(toon_view(item)),
    {
        let mut items = self.items;
        let ghost before = items@;
        items.push(item);
        assert(items@.drop_last() =~= before);
        ToonArrayBuilder { items }
    }

    /// Adds a value, optimised as `narrow` decides for its floats (see
    /// `ToonTypeAnalyzer::optimize_value`).
    pub fn push<F: Fn(u64) -> Option<u32>>(self, value: ToonType, narrow: &F) -> (b: Self)
        requires
            forall|x: u64| narrow.requires((x,)),
        ensures
            b.current().len() == self.current().len() + 1,
            b.current().drop_last() == self.current(),
            optimized_as(*narrow, toon_view(value), b.current().last()),
    {
        let v = ToonTypeAnalyzer::optimize_value(&value, narrow);
        let b = self.push_item(v);
        assert(b.current().drop_last() =~= self.current());
        b
    }

    /// Adds null.
    pub fn push_null(self) -> (b: Self)
        ensures
            b.current() == self.current().push(ToonValue::Null),
    {
        self.push_item(ToonType::Null)
    }

    /// Adds a boolean.
    pub fn push_bool(self, value: bool) -> (b: Self)
        ensures
            b.current() == self.current().push(ToonValue::Bool(value)),
    {
        self.push_item(ToonType::Bool(value))
    }

    /// Adds a signed integer in its narrowest type.
    pub fn push_int(self, value: i64) -> (b: Self)
        ensures
            b.current() == self.current().push(narrow_i64(value)),
    {
        let v = narrowed_int(value);
        self.push_item(v)
    }

    /// Adds a string.
    pub fn push_string(self, value: String) -> (b: Self)
        ensures
            b.current() == self.current().push(ToonValue::Str(value@)),
    {
        self.push_item(ToonType::String(value))
    }

    /// The array built.
    pub fn build(self) -> (v: ToonType)
        ensures
            toon_view(v) == ToonValue::Array(self.current()),
    {
        ToonType::Array(self.items)
    }
}

impl Default for ToonArrayBuilder {
    fn default() -> (b: Self)
        ensures
            b.current().len() == 0,
    {
        Self::new()
    }
}

/// The fields after a key is set: its value replaced where it is there,
/// else the field added at the end.
pub open spec fn set_field(fields: Seq<(Seq<char>, ToonValue)>, key: Seq<char>, value: ToonValue) -> Seq<(Seq<char>, ToonValue)> {
    if exists|i: int| 0 <= i < fields.len() && #[trigger] fields[i].0 == key {
        let i = choose|i: int| 0 <= i < fields.len() && #[trigger] fields[i].0 == key;
        fields.update(i, (key, value))
    } else {
        fields.push((key, value))
    }
}

/// Builds an object, field by field; a key set again gets the new value.
pub struct ToonObjectBuilder {
    fields: Vec<(String, ToonType)>,
}

impl ToonObjectBuilder {
    /// The fields so far.
    pub closed spec fn current(&self) -> Seq<(Seq<char>, ToonValue)> {
        toon_view_fields(self.fields@)
    }

    /// No key occurs twice.
    pub open spec fn wf(&self) -> bool {
        forall|i: int, j: int| 0 <= i < j < self.current().len() ==> #[trigger] self.current()[i].0 != #[trigger] self.current()[j].0
    }

    /// A builder of an empty object.
    pub fn new() -> (b: Self)
        ensures
            b.current().len() == 0,
            b.wf(),
    {
        let b = ToonObjectBuilder { fields: Vec::new() };
        assert(b.current() =~= Seq::empty());
        b
    }

    fn set(self, key: String, value: ToonType) -> (b: Self)
        requires
            self.wf(),
        ensures
            b.wf(),
            b.current() == set_field(self.current(), key@, toon_view(value)),
    {
        let ghost before = self.current();
        proof {
            crate::protocol::toon::lemma_view_fields(self.fields@);
            assert forall|a: int, c: int| 0 <= a < c < before.len() implies #[trigger] before[a].0 != #[trigger] before[c].0 by {
                assert(self.current()[a].0 != self.current()[c].0);
            }
        }
        let mut fields = self.fields;
        assert(before == toon_view_fields(fields@));
        let mut i: usize = 0;
        while i < fields.len()
            invariant
                i <= fields@.len(),
                before == self.current(),
                before == toon_view_fields(fields@),
                before.len() == fields@.len(),
                forall|j: int| 0 <= j < fields@.len() ==> #[trigger] before[j] == (fields@[j].0@, toon_view(fields@[j].1)),
                forall|j: int| 0 <= j < i ==> #[trigger] before[j].0 != key@,
                forall|a: int, c: int| 0 <= a < c < before.len() ==> #[trigger] before[a].0 != #[trigger] before[c].0,
            decreases fields@.len() - i,
        {
            if crate::protocol::text::str_eq(fields[i].0.as_str(), key.as_str()) {
                let ghost idx = i as int;
                fields.set(i, (key, value));
                proof {
                    crate::protocol::toon::lemma_view_fields(fields@);
                    assert(before[idx].0 == key@);
                    let c = choose|k: int| 0 <= k < before.len() && #[trigger] before[k].0 == key@;
                    assert(c == idx) by {
                        if c != idx {
                            assert(before[c].0 == before[idx].0);
                        }
                    }
                    assert(set_field(before, key@, toon_view(value)) == before.update(idx, (key@, toon_view(value))));
                    assert(toon_view_fields(fields@) =~= before.update(idx, (key@, toon_view(value))));
                    let after = toon_view_fields(fields@);
                    assert forall|a: int, c: int| 0 <= a < c < after.len() implies #[trigger] after[a].0 != #[trigger] after[c].0 by {
                        assert(after[a].0 == before[a].0);
                        assert(after[c].0 == before[c].0);
                    }
                }
                return ToonObjectBuilder { fields };
            }
            i = i + 1;
        }
        fields.push((key, value));
        proof {
            crate::protocol::toon::lemma_view_fields(fields@);
            assert(toon_view_fields(fields@) =~= before.push((key@, toon_view(value))));
            let after = toon_view_fields(fields@);
            assert forall|a: int, c: int| 0 <= a < c < after.len() implies #[trigger] after[a].0 != #[trigger] after[c].0 by {
                if c == before.len() {
                    assert(after[a].0 == before[a].0);
                } else {
                    assert(after[a].0 == before[a].0);
                    assert(after[c].0 == before[c].0);
                }
            }
            assert(!(exists|k: int| 0 <= k < before.len() && #[trigger] before[k].0 == key@));
        }
        ToonObjectBuilder { fields }
    }

    /// Sets a field to a value optimised as `narrow` decides for its
    /// floats.
    pub fn field<F: Fn(u64) -> Option<u32>>(self, key: String, value: ToonType, narrow: &F) -> (b: Self)
        requires
            self.wf(),
            forall|x: u64| narrow.requires((x,)),
        ensures
            b.wf(),
            exists|v: ToonValue| optimized_as(*narrow, toon_view(value), v) && b.current() == set_field(self.current(), key@, v),
    {
        let v = ToonTypeAnalyzer::optimize_value(&value, narrow);
        self.set(key, v)
    }

    /// Sets a field to null.
    pub fn field_null(self, key: String) -> (b: Self)
        requires
            self.wf(),
        ensures
            b.wf(),
            b.current() == set_field(self.current(), key@, ToonValue::Null),
    {
        self.set(key, ToonType::Null)
    }

    /// Sets a field to a boolean.
    pub fn field_bool(self, key: String, value: bool) -> (b: Self)
        requires
            self.wf(),
        ensures
            b.wf(),
            b.current() == set_field(self.current(), key@, ToonValue::Bool(value)),
    {
        self.set(key, ToonType::Bool(value))
    }

    /// Sets a field to a signed integer in its narrowest type.
    pub fn field_int(self, key: String, value: i64) -> (b: Self)
        requires
            self.wf(),
        ensures
            b.wf(),
            b.current() == set_field(self.current(), key@, narrow_i64(value)),
    {
        let v = narrowed_int(value);
        self.set(key, v)
    }

    /// Sets a field to a string.
    pub fn field_string(self, key: String, value: String) -> (b: Self)
        requires
            self.wf(),
        ensures
            b.wf(),
            b.current() == set_field(self.current(), key@, ToonValue::Str(value@)),
    {
        self.set(key, ToonType::String(value))
    }

    /// Sets a field to bytes.
    pub fn field_bytes(self, key: String, value: Vec<u8>) -> (b: Self)
        requires
            self.wf(),
        ensures
            b.wf(),
            b.current() == set_field(self.current(), key@, ToonValue::Bytes(value@)),
    {
        self.set(key, ToonType::Bytes(value))
    }

    /// The object built.
    pub fn build(self) -> (v: ToonType)
        ensures
            toon_view(v) == ToonValue::Object(self.current()),
    {
        ToonType::Object(self.fields)
    }
}

impl Default for ToonObjectBuilder {
    fn default() -> (b: Self)
        ensures
            b.current().len() == 0,
            b.wf(),
    {
        Self::new()
    }
}

} // verus!
