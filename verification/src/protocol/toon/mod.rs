//! TOON: a compact binary object notation with string interning.

pub mod decoder;
pub mod encoder;
pub mod interning;
pub mod json;
pub mod laws;
pub mod negotiation;
pub mod types;
pub mod zero_copy;

use vstd::prelude::*;
use vstd::utf8::encode_utf8;
use crate::protocol::varint::{spec_varint_size, varint_size as varint_len};
use crate::protocol::text::str_eq;
use crate::protocol::wire::{bytes_eq, has_prefix, starts_with};

pub use crate::protocol::varint::varint_size;

verus! {

/// The four bytes that open every TOON packet: `TOON`.
pub open spec fn toon_magic() -> Seq<u8> {
    seq![0x54u8, 0x4Fu8, 0x4Fu8, 0x4Eu8]
}

/// The magic bytes `TOON` as an array.
pub const TOON_MAGIC: [u8; 4] = [0x54u8, 0x4Fu8, 0x4Fu8, 0x4Eu8];

/// The TOON version this crate speaks.
pub const TOON_VERSION: u8 = 1;

/// The options of a TOON packet, one bit each in the flags byte.
#[derive(Debug, Clone, Copy, PartialEq, Eq, Structural)]
pub struct ToonFlags {
    pub zero_copy: bool,
    pub string_interning: bool,
    pub compression: bool,
    pub simd_optimized: bool,
}

impl Default for ToonFlags {
    fn default() -> (f: Self)
        ensures
            f == (ToonFlags {
                zero_copy: true,
                string_interning: true,
                compression: false,
                simd_optimized: true,
            }),
    {
        ToonFlags { zero_copy: true, string_interning: true, compression: false, simd_optimized: true }
    }
}

/// The flags byte: bit 0 zero-copy, bit 1 string interning, bit 2
/// compression, bit 3 SIMD.
pub open spec fn flags_byte(f: ToonFlags) -> u8 {
    ((if f.zero_copy { 1u8 } else { 0u8 }) | (if f.string_interning { 2u8 } else { 0u8 }) | (
    if f.compression { 4u8 } else { 0u8 }) | (if f.simd_optimized { 8u8 } else { 0u8 })) as u8
}

/// The flags that a flags byte sets; the high four bits are ignored.
pub open spec fn flags_of_byte(b: u8) -> ToonFlags {
    ToonFlags {
        zero_copy: b & 1 != 0,
        string_interning: b & 2 != 0,
        compression: b & 4 != 0,
        simd_optimized: b & 8 != 0,
    }
}

impl ToonFlags {
    /// The flags byte.
    pub fn to_byte(&self) -> (b: u8)
        ensures
            b == flags_byte(*self),
    {
        let z: u8 = if self.zero_copy { 0x01 } else { 0 };
        let i: u8 = if self.string_interning { 0x02 } else { 0 };
        let c: u8 = if self.compression { 0x04 } else { 0 };
        let s: u8 = if self.simd_optimized { 0x08 } else { 0 };
        let flags: u8 = z | i | c | s;
        flags
    }

    /// The flags that `byte` sets.
    pub fn from_byte(byte: u8) -> (f: Self)
        ensures
            f == flags_of_byte(byte),
    {
        ToonFlags {
            zero_copy: (byte & 0x01) != 0,
            string_interning: (byte & 0x02) != 0,
            compression: (byte & 0x04) != 0,
            simd_optimized: (byte & 0x08) != 0,
        }
    }
}

/// Reading back the flags byte of any flags gives the same flags.
pub proof fn lemma_flags_roundtrip(f: ToonFlags)
    ensures
        flags_of_byte(flags_byte(f)) == f,
{
    let z = f.zero_copy;
    let i = f.string_interning;
    let c = f.compression;
    let s = f.simd_optimized;
    let b = flags_byte(f);
    assert(b & 1 != 0 <==> z) by (bit_vector)
        requires
            b == ((if z { 1u8 } else { 0u8 }) | (if i { 2u8 } else { 0u8 }) | (if c { 4u8 } else { 0u8 }) | (if s { 8u8 } else { 0u8 })),
    ;
    assert(b & 2 != 0 <==> i) by (bit_vector)
        requires
            b == ((if z { 1u8 } else { 0u8 }) | (if i { 2u8 } else { 0u8 }) | (if c { 4u8 } else { 0u8 }) | (if s { 8u8 } else { 0u8 })),
    ;
    assert(b & 4 != 0 <==> c) by (bit_vector)
        requires
            b == ((if z { 1u8 } else { 0u8 }) | (if i { 2u8 } else { 0u8 }) | (if c { 4u8 } else { 0u8 }) | (if s { 8u8 } else { 0u8 })),
    ;
    assert(b & 8 != 0 <==> s) by (bit_vector)
        requires
            b == ((if z { 1u8 } else { 0u8 }) | (if i { 2u8 } else { 0u8 }) | (if c { 4u8 } else { 0u8 }) | (if s { 8u8 } else { 0u8 })),
    ;
}

/// Writing the flags that a byte sets keeps its four low bits and clears
/// the rest.
pub proof fn lemma_flags_byte_of_byte(b: u8)
    ensures
        flags_byte(flags_of_byte(b)) == b & 0x0F,
{
    assert(((if b & 1 != 0 { 1u8 } else { 0u8 }) | (if b & 2 != 0 { 2u8 } else { 0u8 }) | (if b & 4
        != 0 { 4u8 } else { 0u8 }) | (if b & 8 != 0 { 8u8 } else { 0u8 })) == b & 0x0F) by (bit_vector);
}


/// A TOON value. Floating-point values are held by their IEEE-754 bits.
#[derive(Debug)]
pub enum ToonType {
    Null,
    Bool(bool),
    Int8(i8),
    Int16(i16),
    Int32(i32),
    Int64(i64),
    UInt8(u8),
    UInt16(u16),
    UInt32(u32),
    UInt64(u64),
    Float32(u32),
    Float64(u64),
    String(String),
    Bytes(Vec<u8>),
    Array(Vec<ToonType>),
    Object(Vec<(String, ToonType)>),
    InternedString(u32),
}

/// A TOON value as plain values; an object is its fields in order.
pub enum ToonValue {
    Null,
    Bool(bool),
    Int8(i8),
    Int16(i16),
    Int32(i32),
    Int64(i64),
    UInt8(u8),
    UInt16(u16),
    UInt32(u32),
    UInt64(u64),
    Float32(u32),
    Float64(u64),
    Str(Seq<char>),
    Bytes(Seq<u8>),
    Array(Seq<ToonValue>),
    Object(Seq<(Seq<char>, ToonValue)>),
    InternedString(u32),
}

pub open spec fn toon_view(t: ToonType) -> ToonValue
    decreases t,
{
    match t {
        ToonType::Null => ToonValue::Null,
        ToonType::Bool(b) => ToonValue::Bool(b),
        ToonType::Int8(v) => ToonValue::Int8(v),
        ToonType::Int16(v) => ToonValue::Int16(v),
        ToonType::Int32(v) => ToonValue::Int32(v),
        ToonType::Int64(v) => ToonValue::Int64(v),
        ToonType::UInt8(v) => ToonValue::UInt8(v),
        ToonType::UInt16(v) => ToonValue::UInt16(v),
        ToonType::UInt32(v) => ToonValue::UInt32(v),
        ToonType::UInt64(v) => ToonValue::UInt64(v),
        ToonType::Float32(v) => ToonValue::Float32(v),
        ToonType::Float64(v) => ToonValue::Float64(v),
        ToonType::String(s) => ToonValue::Str(s@),
        ToonType::Bytes(b) => ToonValue::Bytes(b@),
        ToonType::Array(items) => ToonValue::Array(toon_view_items(items@)),
        ToonType::Object(fields) => ToonValue::Object(toon_view_fields(fields@)),
        ToonType::InternedString(id) => ToonValue::InternedString(id),
    }
}

pub open spec fn toon_view_items(s: Seq<ToonType>) -> Seq<ToonValue>
    decreases s,
{
    if s.len() == 0 {
        Seq::empty()
    } else {
        toon_view_items(s.drop_last()).push(toon_view(s.last()))
    }
}

pub open spec fn toon_view_fields(s: Seq<(String, ToonType)>) -> Seq<(Seq<char>, ToonValue)>
    decreases s,
{
    if s.len() == 0 {
        Seq::empty()
    } else {
        toon_view_fields(s.drop_last()).push((s.last().0@, toon_view(s.last().1)))
    }
}


impl View for ToonType {
    type V = ToonValue;

    open spec fn view(&self) -> ToonValue {
        toon_view(*self)
    }
}

/// A copy of `t`, all the way down.
pub fn toon_clone(t: &ToonType) -> (r: ToonType)
    ensures
        toon_view(r) == toon_view(*t),
    decreases t,
{
    match t {
        ToonType::Null => ToonType::Null,
        ToonType::Bool(b) => ToonType::Bool(*b),
        ToonType::Int8(v) => ToonType::Int8(*v),
        ToonType::Int16(v) => ToonType::Int16(*v),
        ToonType::Int32(v) => ToonType::Int32(*v),
        ToonType::Int64(v) => ToonType::Int64(*v),
        ToonType::UInt8(v) => ToonType::UInt8(*v),
        ToonType::UInt16(v) => ToonType::UInt16(*v),
        ToonType::UInt32(v) => ToonType::UInt32(*v),
        ToonType::UInt64(v) => ToonType::UInt64(*v),
        ToonType::Float32(v) => ToonType::Float32(*v),
        ToonType::Float64(v) => ToonType::Float64(*v),
        ToonType::String(s) => ToonType::String(s.clone()),
        ToonType::Bytes(b) => {
            let c = b.clone();
            assert(c@ =~= b@);
            ToonType::Bytes(c)
        },
        ToonType::Array(items) => {
            let mut out: Vec<ToonType> = Vec::new();
            let mut i: usize = 0;
            while i < items.len()
                invariant
                    i <= items@.len(),
                    *t == ToonType::Array(*items),
                    toon_view_items(out@) == toon_view_items(items@.subrange(0, i as int)),
                decreases items@.len() - i,
            {
                assert(decreases_to!(*t => (*t)->Array_0));
                assert(decreases_to!(*items => items@));
                assert(decreases_to!(items@ => items@[i as int]));
                assert(decreases_to!(*t => items@[i as int]));
                let item = toon_clone(&items[i]);
                let ghost before = out@;
                out.push(item);
                assert(out@.drop_last() =~= before);
                assert(items@.subrange(0, i + 1 as int).drop_last() =~= items@.subrange(0, i as int));
                i += 1;
            }
            assert(items@.subrange(0, i as int) =~= items@);
            ToonType::Array(out)
        },
        ToonType::Object(fields) => {
            let mut out: Vec<(String, ToonType)> = Vec::new();
            let mut i: usize = 0;
            while i < fields.len()
                invariant
                    i <= fields@.len(),
                    *t == ToonType::Object(*fields),
                    toon_view_fields(out@) == toon_view_fields(fields@.subrange(0, i as int)),
                decreases fields@.len() - i,
            {
                assert(decreases_to!(*t => (*t)->Object_0));
                assert(decreases_to!(*fields => fields@));
                assert(decreases_to!(fields@ => fields@[i as int]));
                assert(decreases_to!(fields@[i as int] => fields@[i as int].1));
                assert(decreases_to!(*t => fields@[i as int].1));
                let value = toon_clone(&fields[i].1);
                let key = fields[i].0.clone();
                let ghost before = out@;
                out.push((key, value));
                assert(out@.drop_last() =~= before);
                assert(fields@.subrange(0, i + 1 as int).drop_last() =~= fields@.subrange(0, i as int));
                i += 1;
            }
            assert(fields@.subrange(0, i as int) =~= fields@);
            ToonType::Object(out)
        },
        ToonType::InternedString(id) => ToonType::InternedString(*id),
    }
}


/// The view of a list of values is the list of their views.
pub proof fn lemma_view_items(s: Seq<ToonType>)
    ensures
        toon_view_items(s).len() == s.len(),
        forall|i: int| 0 <= i < s.len() ==> #[trigger] toon_view_items(s)[i] == toon_view(s[i]),
    decreases s.len(),
{
    if s.len() > 0 {
        lemma_view_items(s.drop_last());
    }
}

/// The view of a list of fields is the list of their keys' and values' views.
pub proof fn lemma_view_fields(s: Seq<(String, ToonType)>)
    ensures
        toon_view_fields(s).len() == s.len(),
        forall|i: int|
            0 <= i < s.len() ==> #[trigger] toon_view_fields(s)[i] == (s[i].0@, toon_view(s[i].1)),
    decreases s.len(),
{
    if s.len() > 0 {
        lemma_view_fields(s.drop_last());
    }
}

/// Whether two values are equal, all the way down (floats by their bits).
pub fn toon_eq(a: &ToonType, b: &ToonType) -> (r: bool)
    ensures
        r == (toon_view(*a) == toon_view(*b)),
    decreases a,
{
    match (a, b) {
        (ToonType::Null, ToonType::Null) => true,
        (ToonType::Bool(x), ToonType::Bool(y)) => *x == *y,
        (ToonType::Int8(x), ToonType::Int8(y)) => *x == *y,
        (ToonType::Int16(x), ToonType::Int16(y)) => *x == *y,
        (ToonType::Int32(x), ToonType::Int32(y)) => *x == *y,
        (ToonType::Int64(x), ToonType::Int64(y)) => *x == *y,
        (ToonType::UInt8(x), ToonType::UInt8(y)) => *x == *y,
        (ToonType::UInt16(x), ToonType::UInt16(y)) => *x == *y,
        (ToonType::UInt32(x), ToonType::UInt32(y)) => *x == *y,
        (ToonType::UInt64(x), ToonType::UInt64(y)) => *x == *y,
        (ToonType::Float32(x), ToonType::Float32(y)) => *x == *y,
        (ToonType::Float64(x), ToonType::Float64(y)) => *x == *y,
        (ToonType::String(x), ToonType::String(y)) => *x == *y,
        (ToonType::Bytes(x), ToonType::Bytes(y)) => bytes_eq(x.as_slice(), y.as_slice()),
        (ToonType::Array(xs), ToonType::Array(ys)) => {
            proof {
                lemma_view_items(xs@);
                lemma_view_items(ys@);
            }
            if xs.len() != ys.len() {
                return false;
            }
            let mut i: usize = 0;
            while i < xs.len()
                invariant
                    i <= xs@.len() == ys@.len(),
                    *a == ToonType::Array(*xs),
                    *b == ToonType::Array(*ys),
                    forall|j: int| 0 <= j < i ==> toon_view(xs@[j]) == toon_view(ys@[j]),
                decreases xs@.len() - i,
            {
                assert(decreases_to!(*a => (*a)->Array_0));
                assert(decreases_to!(*xs => xs@));
                assert(decreases_to!(xs@ => xs@[i as int]));
                if !toon_eq(&xs[i], &ys[i]) {
                    proof {
                        lemma_view_items(xs@);
                        lemma_view_items(ys@);
                    }
                    assert(toon_view_items(xs@)[i as int] != toon_view_items(ys@)[i as int]);
                    return false;
                }
                i += 1;
            }
            assert(toon_view_items(xs@) =~= toon_view_items(ys@));
            true
        },
        (ToonType::Object(xs), ToonType::Object(ys)) => {
            proof {
                lemma_view_fields(xs@);
                lemma_view_fields(ys@);
            }
            if xs.len() != ys.len() {
                return false;
            }
            let mut i: usize = 0;
            while i < xs.len()
                invariant
                    i <= xs@.len() == ys@.len(),
                    *a == ToonType::Object(*xs),
                    *b == ToonType::Object(*ys),
                    forall|j: int|
                        0 <= j < i ==> xs@[j].0@ == ys@[j].0@ && toon_view(xs@[j].1) == toon_view(
                            ys@[j].1,
                        ),
                decreases xs@.len() - i,
            {
                assert(decreases_to!(*a => (*a)->Object_0));
                assert(decreases_to!(*xs => xs@));
                assert(decreases_to!(xs@ => xs@[i as int]));
                assert(decreases_to!(xs@[i as int] => xs@[i as int].1));
                let same_key = xs[i].0 == ys[i].0;
                if !same_key || !toon_eq(&xs[i].1, &ys[i].1) {
                    proof {
                        lemma_view_fields(xs@);
                        lemma_view_fields(ys@);
                    }
                    assert(toon_view_fields(xs@)[i as int] != toon_view_fields(ys@)[i as int]);
                    return false;
                }
                i += 1;
            }
            assert(toon_view_fields(xs@) =~= toon_view_fields(ys@));
            true
        },
        (ToonType::InternedString(x), ToonType::InternedString(y)) => *x == *y,
        _ => false,
    }
}

impl Clone for ToonType {
    fn clone(&self) -> (r: Self)
        ensures
            toon_view(r) == toon_view(*self),
    {
        toon_clone(self)
    }
}

impl PartialEq for ToonType {
    fn eq(&self, other: &Self) -> (r: bool) {
        toon_eq(self, other)
    }
}

impl vstd::std_specs::cmp::PartialEqSpecImpl for ToonType {
    open spec fn obeys_eq_spec() -> bool {
        true
    }

    open spec fn eq_spec(&self, other: &ToonType) -> bool {
        toon_view(*self) == toon_view(*other)
    }
}


/// The type byte of each kind of value.
pub open spec fn spec_type_id(v: ToonValue) -> u8 {
    match v {
        ToonValue::Null => 0x00,
        ToonValue::Bool(_) => 0x01,
        ToonValue::Int8(_) => 0x02,
        ToonValue::Int16(_) => 0x03,
        ToonValue::Int32(_) => 0x04,
        ToonValue::Int64(_) => 0x05,
        ToonValue::UInt8(_) => 0x06,
        ToonValue::UInt16(_) => 0x07,
        ToonValue::UInt32(_) => 0x08,
        ToonValue::UInt64(_) => 0x09,
        ToonValue::Float32(_) => 0x0A,
        ToonValue::Float64(_) => 0x0B,
        ToonValue::Str(_) => 0x0C,
        ToonValue::Bytes(_) => 0x0D,
        ToonValue::Array(_) => 0x0E,
        ToonValue::Object(_) => 0x0F,
        ToonValue::InternedString(_) => 0x10,
    }
}

/// Number of bytes of the UTF-8 encoding of `s`.
pub open spec fn utf8_len(s: Seq<char>) -> nat {
    encode_utf8(s).len()
}

/// The size estimate of a value: its type byte and payload, with integers
/// of 32 and 64 bits counted as varints (negative ones sign-extended to 64
/// bits) and an interned reference counted at the largest id.
pub open spec fn toon_size(v: ToonValue) -> nat
    decreases v,
{
    1 + match v {
        ToonValue::Null => 0,
        ToonValue::Bool(_) => 1,
        ToonValue::Int8(_) => 1,
        ToonValue::Int16(_) => 2,
        ToonValue::Int32(x) => spec_varint_size(x as u64),
        ToonValue::Int64(x) => spec_varint_size(x as u64),
        ToonValue::UInt8(_) => 1,
        ToonValue::UInt16(_) => 2,
        ToonValue::UInt32(x) => spec_varint_size(x as u64),
        ToonValue::UInt64(x) => spec_varint_size(x),
        ToonValue::Float32(_) => 4,
        ToonValue::Float64(_) => 8,
        ToonValue::Str(s) => spec_varint_size(utf8_len(s) as u64) + utf8_len(s),
        ToonValue::Bytes(b) => spec_varint_size(b.len() as u64) + b.len(),
        ToonValue::Array(items) => spec_varint_size(items.len() as u64) + items_size(items),
        ToonValue::Object(fields) => spec_varint_size(fields.len() as u64) + fields_size(fields),
        ToonValue::InternedString(_) => spec_varint_size(u32::MAX as u64),
    }
}

/// The sum of the size estimates of `items`.
pub open spec fn items_size(items: Seq<ToonValue>) -> nat
    decreases items,
{
    if items.len() == 0 {
        0
    } else {
        items_size(items.drop_last()) + toon_size(items.last())
    }
}

/// The sum over `fields` of each key's length prefix and bytes and each
/// value's size estimate.
pub open spec fn fields_size(fields: Seq<(Seq<char>, ToonValue)>) -> nat
    decreases fields,
{
    if fields.len() == 0 {
        0
    } else {
        fields_size(fields.drop_last()) + spec_varint_size(utf8_len(fields.last().0) as u64)
            + utf8_len(fields.last().0) + toon_size(fields.last().1)
    }
}

impl ToonType {
    /// The type byte of this value.
    pub fn type_id(&self) -> (id: u8)
        ensures
            id == spec_type_id(toon_view(*self)),
    {
        match self {
            ToonType::Null => 0x00,
            ToonType::Bool(_) => 0x01,
            ToonType::Int8(_) => 0x02,
            ToonType::Int16(_) => 0x03,
            ToonType::Int32(_) => 0x04,
            ToonType::Int64(_) => 0x05,
            ToonType::UInt8(_) => 0x06,
            ToonType::UInt16(_) => 0x07,
            ToonType::UInt32(_) => 0x08,
            ToonType::UInt64(_) => 0x09,
            ToonType::Float32(_) => 0x0A,
            ToonType::Float64(_) => 0x0B,
            ToonType::String(_) => 0x0C,
            ToonType::Bytes(_) => 0x0D,
            ToonType::Array(_) => 0x0E,
            ToonType::Object(_) => 0x0F,
            ToonType::InternedString(_) => 0x10,
        }
    }

    /// The size estimate of this value, for values whose estimate fits in a
    /// machine word.
    pub fn estimated_size(&self) -> (size: usize)
        requires
            toon_size(toon_view(*self)) <= usize::MAX,
        ensures
            size == toon_size(toon_view(*self)),
        decreases self,
    {
        let payload: usize = match self {
            ToonType::Null => 0,
            ToonType::Bool(_) => 1,
            ToonType::Int8(_) => 1,
            ToonType::Int16(_) => 2,
            ToonType::Int32(v) => varint_len(*v as u64),
            ToonType::Int64(v) => varint_len(*v as u64),
            ToonType::UInt8(_) => 1,
            ToonType::UInt16(_) => 2,
            ToonType::UInt32(v) => varint_len(*v as u64),
            ToonType::UInt64(v) => varint_len(*v),
            ToonType::Float32(_) => 4,
            ToonType::Float64(_) => 8,
            ToonType::String(s) => {
                let n = s.as_str().as_bytes().len();
                varint_len(n as u64) + n
            },
            ToonType::Bytes(b) => varint_len(b.len() as u64) + b.len(),
            ToonType::Array(items) => {
                proof { lemma_view_items(items@); }
                let mut total: usize = varint_len(items.len() as u64);
                let mut i: usize = 0;
                while i < items.len()
                    invariant
                        i <= items@.len(),
                        *self == ToonType::Array(*items),
                        toon_size(toon_view(*self)) <= usize::MAX,
                        toon_view_items(items@).len() == items@.len(),
                        forall|j: int| 0 <= j < items@.len() ==> #[trigger] toon_view_items(items@)[j] == toon_view(items@[j]),
                        total == spec_varint_size(items@.len() as u64) + items_size(
                            toon_view_items(items@).subrange(0, i as int),
                        ),
                    decreases items@.len() - i,
                {
                    let ghost vs = toon_view_items(items@);
                    proof {
                        assert(vs.subrange(0, i + 1 as int).drop_last() =~= vs.subrange(0, i as int));
                        lemma_items_size_prefix(vs, i + 1);
                    }
                    assert(decreases_to!(*self => (*self)->Array_0));
                    assert(decreases_to!(*items => items@));
                    assert(decreases_to!(items@ => items@[i as int]));
                    let item_size = items[i].estimated_size();
                    total = total + item_size;
                    i += 1;
                }
                assert(toon_view_items(items@).subrange(0, i as int) =~= toon_view_items(items@));
                total
            },
            ToonType::Object(fields) => {
                proof { lemma_view_fields(fields@); }
                let mut total: usize = varint_len(fields.len() as u64);
                let mut i: usize = 0;
                while i < fields.len()
                    invariant
                        i <= fields@.len(),
                        *self == ToonType::Object(*fields),
                        toon_size(toon_view(*self)) <= usize::MAX,
                        toon_view_fields(fields@).len() == fields@.len(),
                        forall|j: int| 0 <= j < fields@.len() ==> #[trigger] toon_view_fields(fields@)[j] == (fields@[j].0@, toon_view(fields@[j].1)),
                        total == spec_varint_size(fields@.len() as u64) + fields_size(
                            toon_view_fields(fields@).subrange(0, i as int),
                        ),
                    decreases fields@.len() - i,
                {
                    let ghost fs = toon_view_fields(fields@);
                    proof {
                        assert(fs.subrange(0, i + 1 as int).drop_last() =~= fs.subrange(0, i as int));
                        lemma_fields_size_prefix(fs, i + 1);
                    }
                    assert(decreases_to!(*self => (*self)->Object_0));
                    assert(decreases_to!(*fields => fields@));
                    assert(decreases_to!(fields@ => fields@[i as int]));
                    assert(decreases_to!(fields@[i as int] => fields@[i as int].1));
                    let n = fields[i].0.as_str().as_bytes().len();
                    let value_size = fields[i].1.estimated_size();
                    total = total + varint_len(n as u64) + n + value_size;
                    i += 1;
                }
                assert(toon_view_fields(fields@).subrange(0, i as int) =~= toon_view_fields(fields@));
                total
            },
            ToonType::InternedString(_) => varint_len(0xFFFF_FFFFu64),
        };
        1 + payload
    }
}

/// A prefix of a list of values weighs no more than the whole list.
pub(crate) proof fn lemma_items_size_prefix(items: Seq<ToonValue>, n: int)
    requires
        0 <= n <= items.len(),
    ensures
        items_size(items.subrange(0, n)) <= items_size(items),
    decreases items.len(),
{
    if n < items.len() {
        assert(items.drop_last().subrange(0, n) =~= items.subrange(0, n));
        lemma_items_size_prefix(items.drop_last(), n);
    } else {
        assert(items.subrange(0, n) =~= items);
    }
}

/// A prefix of a list of fields weighs no more than the whole list.
pub(crate) proof fn lemma_fields_size_prefix(fields: Seq<(Seq<char>, ToonValue)>, n: int)
    requires
        0 <= n <= fields.len(),
    ensures
        fields_size(fields.subrange(0, n)) <= fields_size(fields),
    decreases fields.len(),
{
    if n < fields.len() {
        assert(fields.drop_last().subrange(0, n) =~= fields.subrange(0, n));
        lemma_fields_size_prefix(fields.drop_last(), n);
    } else {
        assert(fields.subrange(0, n) =~= fields);
    }
}


/// Whether `bytes` starts with the TOON magic.
pub open spec fn has_toon_magic(bytes: Seq<u8>) -> bool {
    has_prefix(bytes, toon_magic())
}

/// Whether `bytes` starts with the TOON magic.
pub fn is_toon_magic(bytes: &[u8]) -> (b: bool)
    ensures
        b == has_toon_magic(bytes@),
{
    let magic: [u8; 4] = TOON_MAGIC;
    assert(magic@ == toon_magic());
    starts_with(bytes, magic.as_slice())
}

/// A TOON packet: magic, version, flags and one value.
#[derive(Debug)]
pub struct ToonPacket {
    pub magic: [u8; 4],
    pub version: u8,
    pub flags: ToonFlags,
    pub data: ToonType,
}

impl ToonPacket {
    /// A packet of the current version with the default flags.
    pub fn new(data: ToonType) -> (p: Self)
        ensures
            p.magic@ == toon_magic(),
            p.version == TOON_VERSION,
            p.flags == (ToonFlags {
                zero_copy: true,
                string_interning: true,
                compression: false,
                simd_optimized: true,
            }),
            p.data == data,
    {
        let magic: [u8; 4] = TOON_MAGIC;
        assert(magic@ == toon_magic());
        ToonPacket { magic, version: TOON_VERSION, flags: ToonFlags::default(), data }
    }

    /// A packet of the current version with the given flags.
    pub fn with_flags(data: ToonType, flags: ToonFlags) -> (p: Self)
        ensures
            p.magic@ == toon_magic(),
            p.version == TOON_VERSION,
            p.flags == flags,
            p.data == data,
    {
        let magic: [u8; 4] = TOON_MAGIC;
        assert(magic@ == toon_magic());
        ToonPacket { magic, version: TOON_VERSION, flags, data }
    }

    /// Whether `bytes` starts with the TOON magic.
    pub fn is_valid_magic(bytes: &[u8]) -> (b: bool)
        ensures
            b == has_toon_magic(bytes@),
    {
        is_toon_magic(bytes)
    }

    /// The size estimate of the packet: six header bytes, the length of the
    /// value's estimate as a varint, and the estimate itself.
    pub fn estimated_size(&self) -> (size: usize)
        requires
            toon_size(toon_view(self.data)) + 16 <= usize::MAX,
        ensures
            size == 6 + spec_varint_size(toon_size(toon_view(self.data)) as u64) + toon_size(
                toon_view(self.data),
            ),
    {
        let data_size = self.data.estimated_size();
        4 + 1 + 1 + varint_len(data_size as u64) + data_size
    }
}

/// Whether no two of `strings` are equal.
pub open spec fn all_distinct(strings: Seq<Seq<char>>) -> bool {
    forall|i: int, j: int| 0 <= i < strings.len() && 0 <= j < strings.len() && i != j ==> strings[i] != strings[j]
}

/// The index of `s` among `strings`, if it is there.
pub open spec fn index_of(strings: Seq<Seq<char>>, s: Seq<char>) -> Option<int> {
    if exists|i: int| 0 <= i < strings.len() && strings[i] == s {
        Some(choose|i: int| 0 <= i < strings.len() && strings[i] == s)
    } else {
        None
    }
}

/// Numbers strings in the order they are first seen, so that a repeated
/// string can be sent as its number.
#[derive(Debug)]
pub struct StringInterner {
    strings: Vec<String>,
    uses: Vec<usize>,
}

impl View for StringInterner {
    type V = Seq<Seq<char>>;

    closed spec fn view(&self) -> Seq<Seq<char>> {
        Seq::new(self.strings@.len(), |i: int| self.strings@[i]@)
    }
}

impl StringInterner {
    /// How many times each string was interned (at most `usize::MAX`).
    pub closed spec fn use_counts(&self) -> Seq<usize> {
        self.uses@
    }

    /// No string is held twice, every string has a 32-bit number, and each
    /// has its count of uses.
    pub open spec fn wf(&self) -> bool {
        all_distinct(self@) && self@.len() <= u32::MAX && self.use_counts().len() == self@.len()
    }

    /// An empty interner.
    pub fn new() -> (s: Self)
        ensures
            s.wf(),
            s@ == Seq::<Seq<char>>::empty(),
    {
        let s = StringInterner { strings: Vec::new(), uses: Vec::new() };
        assert(s@ =~= Seq::<Seq<char>>::empty());
        s
    }

    /// The number of strings held.
    pub fn len(&self) -> (n: usize)
        ensures
            n == self@.len(),
    {
        self.strings.len()
    }

    /// The position of `s`, if it is held.
    pub fn lookup(&self, s: &str) -> (id: Option<usize>)
        requires
            self.wf(),
        ensures
            match id {
                Some(i) => i < self@.len() && self@[i as int] == s@,
                None => forall|i: int| 0 <= i < self@.len() ==> self@[i] != s@,
            },
    {
        let mut i: usize = 0;
        while i < self.strings.len()
            invariant
                i <= self.strings@.len(),
                forall|j: int| 0 <= j < i ==> self@[j] != s@,
            decreases self.strings@.len() - i,
        {
            if str_eq(self.strings[i].as_str(), s) {
                return Some(i);
            }
            i += 1;
        }
        None
    }

    /// The number of `s`: the one it already has, or the next one, under
    /// which it is now held.
    pub fn intern(&mut self, s: &str) -> (id: u32)
        requires
            old(self).wf(),
            old(self)@.len() < u32::MAX,
        ensures
            final(self).wf(),
            (id as int) < final(self)@.len(),
            final(self)@[id as int] == s@,
            old(self)@.contains(s@) ==> final(self)@ == old(self)@,
            !old(self)@.contains(s@) ==> final(self)@ == old(self)@.push(s@) && id as int == old(
                self,
            )@.len(),
            old(self)@.contains(s@) ==> final(self).use_counts() == old(self).use_counts().update(
                id as int,
                one_more(old(self).use_counts()[id as int]),
            ),
            !old(self)@.contains(s@) ==> final(self).use_counts() == old(self).use_counts().push(1),
    {
        match self.lookup(s) {
            Some(i) => {
                assert(old(self)@[i as int] == s@);
                let c = self.uses[i];
                self.uses.set(i, c.saturating_add(1));
                i as u32
            },
            None => {
                let id = self.strings.len() as u32;
                let ghost before = self@;
                self.strings.push(s.to_string());
                self.uses.push(1);
                assert(self@ =~= before.push(s@));
                assert(!before.contains(s@));
                id
            },
        }
    }

    /// The string numbered `id`, if there is one.
    pub fn get(&self, id: u32) -> (s: Option<&str>)
        ensures
            match s {
                Some(t) => (id as int) < self@.len() && t@ == self@[id as int],
                None => id as int >= self@.len(),
            },
    {
        if (id as usize) < self.strings.len() {
            Some(self.strings[id as usize].as_str())
        } else {
            None
        }
    }

    /// The bytes interning saved: each string's UTF-8 length for each use
    /// after its first (see `saved_bytes`), or `usize::MAX` where the total
    /// is larger.
    pub fn memory_saved(&self) -> (saved: usize)
        requires
            self.wf(),
        ensures
            saved as int == capped_saved(self@, self.use_counts()),
    {
        let mut saved: usize = 0;
        let mut id: usize = 0;
        while id < self.strings.len()
            invariant
                id <= self.strings@.len(),
                self.uses@.len() == self.strings@.len(),
                saved as int == (if saved_bytes(self@, self.use_counts(), id as nat) <= usize::MAX {
                    saved_bytes(self@, self.use_counts(), id as nat)
                } else {
                    usize::MAX as int
                }),
            decreases self.strings@.len() - id,
        {
            let count = self.uses[id];
            if count > 1 {
                let len = self.strings[id].as_str().as_bytes().len();
                assert(len == utf8_len(self@[id as int]));
                proof {
                    lemma_saved_bytes_nonneg(self@, self.use_counts(), id as nat);
                    assert(len * (count - 1) >= 0) by (nonlinear_arith)
                        requires
                            count > 1,
                    ;
                }
                saved = match len.checked_mul(count - 1) {
                    Some(t) => saved.saturating_add(t),
                    None => usize::MAX,
                };
            }
            id += 1;
        }
        saved
    }
}

/// The bytes all the strings save (see `saved_bytes`), or `usize::MAX`
/// where that is more.
pub open spec fn capped_saved(strings: Seq<Seq<char>>, uses: Seq<usize>) -> int {
    if saved_bytes(strings, uses, strings.len()) <= usize::MAX {
        saved_bytes(strings, uses, strings.len())
    } else {
        usize::MAX as int
    }
}

/// A count of uses increased by one, staying at `usize::MAX` there.
pub open spec fn one_more(c: usize) -> usize {
    if c < usize::MAX {
        (c + 1) as usize
    } else {
        c
    }
}

/// The bytes the first `n` strings save: each string's UTF-8 length for
/// each use after its first.
pub open spec fn saved_bytes(strings: Seq<Seq<char>>, uses: Seq<usize>, n: nat) -> int
    decreases n,
{
    if n == 0 {
        0
    } else {
        saved_bytes(strings, uses, (n - 1) as nat) + (if uses[n - 1] > 1 {
            utf8_len(strings[n - 1]) * (uses[n - 1] - 1)
        } else {
            0
        })
    }
}

proof fn lemma_saved_bytes_nonneg(strings: Seq<Seq<char>>, uses: Seq<usize>, n: nat)
    ensures
        saved_bytes(strings, uses, n) >= 0,
    decreases n,
{
    if n > 0 {
        lemma_saved_bytes_nonneg(strings, uses, (n - 1) as nat);
        if uses[n - 1] > 1 {
            let l = utf8_len(strings[n - 1]);
            let c = uses[n - 1];
            assert(l * (c - 1) >= 0) by (nonlinear_arith)
                requires
                    c > 1,
            ;
        }
    }
}

} // verus!
