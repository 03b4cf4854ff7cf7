//! Encoding TOON values with few copies: bytes and strings are handed over
//! as they are, and buffers are taken from a pool.

use vstd::prelude::*;
use vstd::bytes::{spec_u16_to_le_bytes, spec_u32_to_le_bytes, spec_u64_to_le_bytes, u16_to_le_bytes, u32_to_le_bytes, u64_to_le_bytes};
use vstd::utf8::encode_utf8;
use crate::protocol::toon::{
    fields_size, items_size, lemma_fields_size_prefix, lemma_items_size_prefix, lemma_view_fields, lemma_view_items,
    spec_type_id, toon_size, toon_view, toon_view_fields, toon_view_items, utf8_len, ToonType, ToonValue,
};
use crate::protocol::wire::{append_bytes, vec_capacity};

verus! {

/// Settings of the zero-copy manager.
#[derive(Debug, Clone, Copy, PartialEq, Eq)]
pub struct ToonZeroCopyConfig {
    pub max_pooled_buffers: usize,
    pub default_buffer_size: usize,
    pub large_buffer_threshold: usize,
    pub enable_simd: bool,
    pub memory_alignment: usize,
}

impl ToonZeroCopyConfig {
    /// The default settings: 1000 pooled buffers of 64 KiB, regions from
    /// 1 MiB, 32-byte alignment, the vectorised copy off (it is turned on
    /// where the processor has AVX2).
    pub open spec fn default_spec() -> ToonZeroCopyConfig {
        ToonZeroCopyConfig {
            max_pooled_buffers: 1000,
            default_buffer_size: 65536,
            large_buffer_threshold: 1048576,
            enable_simd: false,
            memory_alignment: 32,
        }
    }
}

impl Default for ToonZeroCopyConfig {
    fn default() -> (c: Self)
        ensures
            c == ToonZeroCopyConfig::default_spec(),
    {
        ToonZeroCopyConfig {
            max_pooled_buffers: 1000,
            default_buffer_size: 64 * 1024,
            large_buffer_threshold: 1024 * 1024,
            enable_simd: false,
            memory_alignment: 32,
        }
    }
}

/// Counters of the zero-copy manager.
#[derive(Debug, Clone, Copy, PartialEq, Eq)]
pub struct ToonZeroCopyStats {
    pub allocations_avoided: u64,
    pub bytes_saved: u64,
    pub pool_hits: u64,
    pub pool_misses: u64,
    pub simd_operations: u64,
    pub mmap_operations: u64,
}

impl ToonZeroCopyStats {
    /// All counters at zero.
    pub open spec fn zero_spec() -> ToonZeroCopyStats {
        ToonZeroCopyStats {
            allocations_avoided: 0,
            bytes_saved: 0,
            pool_hits: 0,
            pool_misses: 0,
            simd_operations: 0,
            mmap_operations: 0,
        }
    }
}

/// A region of zeroed memory for large data.
#[derive(Debug, Clone)]
pub struct ToonMemoryRegion {
    pub data: Vec<u8>,
    pub size: usize,
}

/// Why an encoding or a copy was refused.
#[derive(Debug, Clone, Copy, PartialEq, Eq)]
pub enum ZeroCopyError {
    /// A nested array, object or interned string in an array or object, or
    /// an interned string alone.
    ComplexAsPrimitive,
    /// A region smaller than the threshold.
    RegionTooSmall,
    /// A copy between slices of different lengths.
    LengthMismatch,
}

impl ZeroCopyError {
    /// The message of the refusal.
    pub fn message(&self) -> (s: &'static str)
        ensures
            s@ == match *self {
                ZeroCopyError::ComplexAsPrimitive => "Cannot serialize complex type as primitive"@,
                ZeroCopyError::RegionTooSmall => "Size too small for memory mapping"@,
                ZeroCopyError::LengthMismatch => "Source and destination must have same length"@,
            },
    {
        match self {
            ZeroCopyError::ComplexAsPrimitive => "Cannot serialize complex type as primitive",
            ZeroCopyError::RegionTooSmall => "Size too small for memory mapping",
            ZeroCopyError::LengthMismatch => "Source and destination must have same length",
        }
    }
}

/// A scalar value as its type byte and its fixed-width little-endian
/// bytes; None for strings, bytes, arrays, objects and interned strings.
pub open spec fn primitive_bytes(v: ToonValue) -> Option<Seq<u8>> {
    let t = seq![spec_type_id(v)];
    match v {
        ToonValue::Null => Some(t),
        ToonValue::Bool(b) => Some(t.push(if b { 1u8 } else { 0u8 })),
        ToonValue::Int8(i) => Some(t.push(i as u8)),
        ToonValue::Int16(i) => Some(t + spec_u16_to_le_bytes(i as u16)),
        ToonValue::Int32(i) => Some(t + spec_u32_to_le_bytes(i as u32)),
        ToonValue::Int64(i) => Some(t + spec_u64_to_le_bytes(i as u64)),
        ToonValue::UInt8(u) => Some(t.push(u)),
        ToonValue::UInt16(u) => Some(t + spec_u16_to_le_bytes(u)),
        ToonValue::UInt32(u) => Some(t + spec_u32_to_le_bytes(u)),
        ToonValue::UInt64(u) => Some(t + spec_u64_to_le_bytes(u)),
        ToonValue::Float32(bits) => Some(t + spec_u32_to_le_bytes(bits)),
        ToonValue::Float64(bits) => Some(t + spec_u64_to_le_bytes(bits)),
        _ => None,
    }
}

/// Bytes after their type byte and their length as four little-endian
/// bytes (the length cut to 32 bits).
pub open spec fn prefixed(type_id: u8, b: Seq<u8>) -> Seq<u8> {
    seq![type_id] + spec_u32_to_le_bytes(b.len() as u32) + b
}

/// An element of an array or object: bytes and strings with their length,
/// scalars as `primitive_bytes`.
pub open spec fn element_bytes(v: ToonValue) -> Option<Seq<u8>> {
    match v {
        ToonValue::Bytes(b) => Some(prefixed(0x0Du8, b)),
        ToonValue::Str(s) => Some(prefixed(0x0Cu8, encode_utf8(s))),
        _ => primitive_bytes(v),
    }
}

/// The elements one after the other; None where one is refused.
pub open spec fn elements_bytes(items: Seq<ToonValue>) -> Option<Seq<u8>>
    decreases items.len(),
{
    if items.len() == 0 {
        Some(Seq::empty())
    } else {
        match (elements_bytes(items.drop_last()), element_bytes(items.last())) {
            (Some(a), Some(b)) => Some(a + b),
            _ => None,
        }
    }
}

/// The fields one after the other, each key as a string element then its
/// value; None where a value is refused.
pub open spec fn fields_bytes(fields: Seq<(Seq<char>, ToonValue)>) -> Option<Seq<u8>>
    decreases fields.len(),
{
    if fields.len() == 0 {
        Some(Seq::empty())
    } else {
        match (fields_bytes(fields.drop_last()), element_bytes(fields.last().1)) {
            (Some(a), Some(b)) => Some(a + prefixed(0x0Cu8, encode_utf8(fields.last().0)) + b),
            _ => None,
        }
    }
}

/// The encoding of a value: bytes and strings as they are; an array or
/// object as its count (cut to a byte) and its elements; a scalar as
/// `primitive_bytes`. None where an element or the value is refused.
pub open spec fn zero_copy_bytes(v: ToonValue) -> Option<Seq<u8>> {
    match v {
        ToonValue::Bytes(b) => Some(b),
        ToonValue::Str(s) => Some(encode_utf8(s)),
        ToonValue::Array(items) => match elements_bytes(items) {
            Some(e) => Some(seq![items.len() as u8] + e),
            None => None,
        },
        ToonValue::Object(fields) => match fields_bytes(fields) {
            Some(e) => Some(seq![fields.len() as u8] + e),
            None => None,
        },
        _ => primitive_bytes(v),
    }
}

/// The buffer size hint of an object: each key's bytes and each value's
/// size estimate.
pub open spec fn object_hint(fields: Seq<(Seq<char>, ToonValue)>) -> nat
    decreases fields.len(),
{
    if fields.len() == 0 {
        0
    } else {
        object_hint(fields.drop_last()) + utf8_len(fields.last().0) + toon_size(fields.last().1)
    }
}

proof fn lemma_object_hint(fields: Seq<(Seq<char>, ToonValue)>)
    ensures
        object_hint(fields) <= fields_size(fields),
    decreases fields.len(),
{
    if fields.len() > 0 {
        lemma_object_hint(fields.drop_last());
    }
}

/// Encodes values with few copies and keeps buffers for reuse.
pub struct ToonZeroCopyManager {
    buffer_pool: Vec<Vec<u8>>,
    mmap_regions: Vec<ToonMemoryRegion>,
    config: ToonZeroCopyConfig,
    stats: ToonZeroCopyStats,
}

impl ToonZeroCopyManager {
    /// The buffers kept, oldest first.
    pub closed spec fn buffers(&self) -> Seq<Vec<u8>> {
        self.buffer_pool@
    }

    /// The number of regions made.
    pub closed spec fn region_count(&self) -> nat {
        self.mmap_regions@.len()
    }

    /// The settings.
    pub closed spec fn settings(&self) -> ToonZeroCopyConfig {
        self.config
    }

    /// The counters.
    pub closed spec fn figures(&self) -> ToonZeroCopyStats {
        self.stats
    }

    /// A manager with the default settings.
    pub fn new() -> (m: Self)
        ensures
            m.settings() == ToonZeroCopyConfig::default_spec(),
            m.figures() == ToonZeroCopyStats::zero_spec(),
            m.buffers().len() == 0,
            m.region_count() == 0,
    {
        Self::with_config(ToonZeroCopyConfig::default())
    }

    /// A manager with the given settings.
    pub fn with_config(config: ToonZeroCopyConfig) -> (m: Self)
        ensures
            m.settings() == config,
            m.figures() == ToonZeroCopyStats::zero_spec(),
            m.buffers().len() == 0,
            m.region_count() == 0,
    {
        ToonZeroCopyManager {
            buffer_pool: Vec::new(),
            mmap_regions: Vec::new(),
            config,
            stats: ToonZeroCopyStats {
                allocations_avoided: 0,
                bytes_saved: 0,
                pool_hits: 0,
                pool_misses: 0,
                simd_operations: 0,
                mmap_operations: 0,
            },
        }
    }

    /// An empty buffer of at least `size` bytes, and at least the default
    /// size: a kept one large enough (smaller ones met on the way are
    /// dropped, oldest first) or a new one. Which is taken depends on the
    /// capacities the allocator gave.
    pub fn get_buffer(&mut self, size: usize) -> (b: Vec<u8>)
        ensures
            b@.len() == 0,
            final(self).settings() == old(self).settings(),
            final(self).region_count() == old(self).region_count(),
            final(self).buffers().len() <= old(self).buffers().len(),
            final(self).buffers() == old(self).buffers().skip(old(self).buffers().len() - final(self).buffers().len()),
            ({
                let o = old(self).figures();
                let f = final(self).figures();
                ||| (f.pool_hits == o.pool_hits.wrapping_add(1) && f.allocations_avoided == o.allocations_avoided.wrapping_add(1)
                    && f.pool_misses == o.pool_misses && f.simd_operations == o.simd_operations && f.mmap_operations == o.mmap_operations)
                ||| (f == (ToonZeroCopyStats { pool_misses: o.pool_misses.wrapping_add(1), ..o }) && final(self).buffers().len() == 0)
            }),
    {
        let required = if size >= self.config.default_buffer_size {
            size
        } else {
            self.config.default_buffer_size
        };
        let ghost start = self.buffer_pool@;
        let ghost mut k: int = 0;
        while self.buffer_pool.len() > 0
            invariant
                0 <= k <= start.len(),
                start == old(self).buffers(),
                self.buffer_pool@ == start.skip(k),
                self.stats == old(self).figures(),
                self.config == old(self).settings(),
                self.mmap_regions == old(self).mmap_regions,
            decreases self.buffer_pool@.len(),
        {
            let mut buffer = self.buffer_pool.remove(0);
            proof {
                assert(self.buffer_pool@ =~= start.skip(k + 1));
                k = k + 1;
            }
            let cap = vec_capacity(&buffer);
            if cap >= required {
                buffer.clear();
                self.stats.pool_hits = self.stats.pool_hits.wrapping_add(1);
                self.stats.allocations_avoided = self.stats.allocations_avoided.wrapping_add(1);
                self.stats.bytes_saved = self.stats.bytes_saved.wrapping_add(cap as u64);
                return buffer;
            }
        }
        self.stats.pool_misses = self.stats.pool_misses.wrapping_add(1);
        assert(start.skip(0) =~= start);
        Vec::with_capacity(required)
    }

    /// Keeps a buffer for reuse where the pool is not full.
    pub fn return_buffer(&mut self, buffer: Vec<u8>)
        ensures
            final(self).settings() == old(self).settings(),
            final(self).figures() == old(self).figures(),
            final(self).region_count() == old(self).region_count(),
            final(self).buffers() == (if old(self).buffers().len() < old(self).settings().max_pooled_buffers {
                old(self).buffers().push(buffer)
            } else {
                old(self).buffers()
            }),
    {
        if self.buffer_pool.len() < self.config.max_pooled_buffers {
            self.buffer_pool.push(buffer);
        }
    }

    /// A copy of the data; counted as an allocation avoided and its bytes
    /// saved.
    pub fn create_zero_copy_slice(&mut self, data: &[u8]) -> (b: Vec<u8>)
        ensures
            b@ == data@,
            final(self).buffers() == old(self).buffers(),
            final(self).settings() == old(self).settings(),
            final(self).region_count() == old(self).region_count(),
            final(self).figures() == (ToonZeroCopyStats {
                allocations_avoided: old(self).figures().allocations_avoided.wrapping_add(1),
                bytes_saved: old(self).figures().bytes_saved.wrapping_add(data@.len() as u64),
                ..old(self).figures()
            }),
    {
        self.stats.allocations_avoided = self.stats.allocations_avoided.wrapping_add(1);
        self.stats.bytes_saved = self.stats.bytes_saved.wrapping_add(data.len() as u64);
        vstd::slice::slice_to_vec(data)
    }

    /// A zeroed region of `size` bytes, kept by the manager too; refused
    /// below the large-buffer threshold.
    pub fn create_mmap_region(&mut self, size: usize) -> (r: Result<ToonMemoryRegion, ZeroCopyError>)
        ensures
            final(self).buffers() == old(self).buffers(),
            final(self).settings() == old(self).settings(),
            size < old(self).settings().large_buffer_threshold ==> r == Err::<ToonMemoryRegion, ZeroCopyError>(ZeroCopyError::RegionTooSmall)
                && final(self).figures() == old(self).figures() && final(self).region_count() == old(self).region_count(),
            size >= old(self).settings().large_buffer_threshold ==> (r matches Ok(g) && g.size == size && g.data@ == Seq::new(size as nat, |i: int| 0u8))
                && final(self).region_count() == old(self).region_count() + 1
                && final(self).figures() == (ToonZeroCopyStats { mmap_operations: old(self).figures().mmap_operations.wrapping_add(1), ..old(self).figures() }),
    {
        if size < self.config.large_buffer_threshold {
            return Err(ZeroCopyError::RegionTooSmall);
        }
        let mut data: Vec<u8> = Vec::new();
        let mut i: usize = 0;
        while i < size
            invariant
                i <= size,
                data@ == Seq::new(i as nat, |j: int| 0u8),
            decreases size - i,
        {
            data.push(0);
            i = i + 1;
            assert(data@ =~= Seq::new(i as nat, |j: int| 0u8));
        }
        let copy = data.clone();
        assert(copy@ =~= data@);
        self.stats.mmap_operations = self.stats.mmap_operations.wrapping_add(1);
        self.mmap_regions.push(ToonMemoryRegion { data, size });
        Ok(ToonMemoryRegion { data: copy, size })
    }

    /// Copies `src` into `dst`. Without the vectorised copy the lengths
    /// must agree; with it, differing lengths are refused and a copy is
    /// counted.
    pub fn simd_copy(&mut self, src: &[u8], dst: &mut Vec<u8>) -> (r: Result<(), ZeroCopyError>)
        requires
            !old(self).settings().enable_simd ==> src@.len() == old(dst)@.len(),
        ensures
            final(self).buffers() == old(self).buffers(),
            final(self).settings() == old(self).settings(),
            final(self).region_count() == old(self).region_count(),
            src@.len() == old(dst)@.len() ==> r is Ok && final(dst)@ == src@ && final(self).figures() == (if old(self).settings().enable_simd {
                ToonZeroCopyStats { simd_operations: old(self).figures().simd_operations.wrapping_add(1), ..old(self).figures() }
            } else {
                old(self).figures()
            }),
            src@.len() != old(dst)@.len() ==> r == Err::<(), ZeroCopyError>(ZeroCopyError::LengthMismatch)
                && final(dst)@ == old(dst)@ && final(self).figures() == old(self).figures(),
    {
        if self.config.enable_simd && src.len() != dst.len() {
            return Err(ZeroCopyError::LengthMismatch);
        }
        let mut i: usize = 0;
        while i < src.len()
            invariant
                src@.len() == old(dst)@.len(),
                dst@.len() == src@.len(),
                i <= src@.len(),
                forall|j: int| 0 <= j < i ==> dst@[j] == src@[j],
                forall|j: int| i <= j < dst@.len() ==> dst@[j] == old(dst)@[j],
            decreases src@.len() - i,
        {
            dst.set(i, src[i]);
            i = i + 1;
        }
        assert(dst@ =~= src@);
        if self.config.enable_simd {
            self.stats.simd_operations = self.stats.simd_operations.wrapping_add(1);
        }
        Ok(())
    }

    /// The counters.
    pub fn get_stats(&self) -> (s: ToonZeroCopyStats)
        ensures
            s == self.figures(),
    {
        self.stats
    }
}

fn write_primitive(value: &ToonType, buffer: &mut Vec<u8>) -> (r: Result<(), ZeroCopyError>)
    ensures
        match primitive_bytes(toon_view(*value)) {
            Some(b) => r is Ok && final(buffer)@ == old(buffer)@ + b,
            None => r == Err::<(), ZeroCopyError>(ZeroCopyError::ComplexAsPrimitive),
        },
{
    let ghost b0 = buffer@;
    buffer.push(value.type_id());
    let ghost b1 = buffer@;
    match value {
        ToonType::Null => {},
        ToonType::Bool(b) => buffer.push(if *b { 1 } else { 0 }),
        ToonType::Int8(i) => buffer.push(*i as u8),
        ToonType::Int16(i) => append_bytes(buffer, u16_to_le_bytes(*i as u16).as_slice()),
        ToonType::Int32(i) => append_bytes(buffer, u32_to_le_bytes(*i as u32).as_slice()),
        ToonType::Int64(i) => append_bytes(buffer, u64_to_le_bytes(*i as u64).as_slice()),
        ToonType::UInt8(u) => buffer.push(*u),
        ToonType::UInt16(u) => append_bytes(buffer, u16_to_le_bytes(*u).as_slice()),
        ToonType::UInt32(u) => append_bytes(buffer, u32_to_le_bytes(*u).as_slice()),
        ToonType::UInt64(u) => append_bytes(buffer, u64_to_le_bytes(*u).as_slice()),
        ToonType::Float32(bits) => append_bytes(buffer, u32_to_le_bytes(*bits).as_slice()),
        ToonType::Float64(bits) => append_bytes(buffer, u64_to_le_bytes(*bits).as_slice()),
        _ => return Err(ZeroCopyError::ComplexAsPrimitive),
    }
    assert(b1 == b0.push(spec_type_id(toon_view(*value))));
    proof {
        let t = seq![spec_type_id(toon_view(*value))];
        assert(b0 + t =~= b1);
        if let Some(b) = primitive_bytes(toon_view(*value)) {
            assert(buffer@ =~= b0 + b);
        }
    }
    Ok(())
}

fn write_prefixed(type_id: u8, data: &[u8], buffer: &mut Vec<u8>)
    ensures
        final(buffer)@ == old(buffer)@ + prefixed(type_id, data@),
{
    buffer.push(type_id);
    append_bytes(buffer, u32_to_le_bytes(data.len() as u32).as_slice());
    append_bytes(buffer, data);
    assert(final(buffer)@ =~= old(buffer)@ + prefixed(type_id, data@));
}

impl ToonZeroCopyManager {
    fn write_element(&mut self, item: &ToonType, buffer: &mut Vec<u8>) -> (r: Result<(), ZeroCopyError>)
        ensures
            final(self).buffers() == old(self).buffers(),
            final(self).settings() == old(self).settings(),
            final(self).region_count() == old(self).region_count(),
            match element_bytes(toon_view(*item)) {
                Some(b) => r is Ok && final(buffer)@ == old(buffer)@ + b,
                None => r == Err::<(), ZeroCopyError>(ZeroCopyError::ComplexAsPrimitive),
            },
    {
        match item {
            ToonType::Bytes(b) => {
                write_prefixed(0x0D, b.as_slice(), buffer);
                self.stats.allocations_avoided = self.stats.allocations_avoided.wrapping_add(1);
                Ok(())
            },
            ToonType::String(s) => {
                write_prefixed(0x0C, s.as_str().as_bytes(), buffer);
                self.stats.allocations_avoided = self.stats.allocations_avoided.wrapping_add(1);
                Ok(())
            },
            _ => write_primitive(item, buffer),
        }
    }

    /// Encodes a value (see `zero_copy_bytes`): bytes and strings are
    /// handed over and counted as an allocation avoided with their bytes
    /// saved; arrays, objects and scalars are written into a buffer taken
    /// from the pool (see `get_buffer`), sized by the estimate of their
    /// parts. Refused where an element of an array or object, or the value
    /// itself, is an array, object or interned string nested where only a
    /// scalar can stand.
    pub fn zero_copy_encode(&mut self, value: &ToonType) -> (r: Result<Vec<u8>, ZeroCopyError>)
        requires
            toon_size(toon_view(*value)) <= usize::MAX,
        ensures
            final(self).settings() == old(self).settings(),
            final(self).region_count() == old(self).region_count(),
            match zero_copy_bytes(toon_view(*value)) {
                Some(b) => r matches Ok(v) && v@ == b,
                None => r == Err::<Vec<u8>, ZeroCopyError>(ZeroCopyError::ComplexAsPrimitive),
            },
            match toon_view(*value) {
                ToonValue::Bytes(b) => final(self).figures() == (ToonZeroCopyStats {
                    allocations_avoided: old(self).figures().allocations_avoided.wrapping_add(1),
                    bytes_saved: old(self).figures().bytes_saved.wrapping_add(b.len() as u64),
                    ..old(self).figures()
                }) && final(self).buffers() == old(self).buffers(),
                ToonValue::Str(s) => final(self).figures() == (ToonZeroCopyStats {
                    allocations_avoided: old(self).figures().allocations_avoided.wrapping_add(1),
                    bytes_saved: old(self).figures().bytes_saved.wrapping_add(utf8_len(s) as u64),
                    ..old(self).figures()
                }) && final(self).buffers() == old(self).buffers(),
                _ => true,
            },
    {
        match value {
            ToonType::Bytes(b) => {
                self.stats.allocations_avoided = self.stats.allocations_avoided.wrapping_add(1);
                self.stats.bytes_saved = self.stats.bytes_saved.wrapping_add(b.len() as u64);
                let c = b.clone();
                assert(c@ =~= b@);
                Ok(c)
            },
            ToonType::String(s) => {
                let bytes = s.as_str().as_bytes();
                self.stats.allocations_avoided = self.stats.allocations_avoided.wrapping_add(1);
                self.stats.bytes_saved = self.stats.bytes_saved.wrapping_add(bytes.len() as u64);
                Ok(vstd::slice::slice_to_vec(bytes))
            },
            ToonType::Array(items) => {
                proof {
                    lemma_view_items(items@);
                }
                let ghost vs = toon_view_items(items@);
                let mut total: usize = 0;
                let mut i: usize = 0;
                while i < items.len()
                    invariant
                        i <= items@.len(),
                        vs == toon_view_items(items@),
                        vs.len() == items@.len(),
                        forall|j: int| 0 <= j < items@.len() ==> #[trigger] vs[j] == toon_view(items@[j]),
                        toon_size(ToonValue::Array(vs)) <= usize::MAX,
                        total == items_size(vs.subrange(0, i as int)),
                    decreases items@.len() - i,
                {
                    proof {
                        assert(vs.subrange(0, i + 1 as int).drop_last() =~= vs.subrange(0, i as int));
                        lemma_items_size_prefix(vs, i + 1);
                    }
                    total = total + items[i].estimated_size();
                    i = i + 1;
                }
                let mut buffer = self.get_buffer(total);
                buffer.push(items.len() as u8);
                let mut k: usize = 0;
                while k < items.len()
                    invariant
                        k <= items@.len(),
                        *value == ToonType::Array(*items),
                        vs == toon_view_items(items@),
                        vs.len() == items@.len(),
                        forall|j: int| 0 <= j < items@.len() ==> #[trigger] vs[j] == toon_view(items@[j]),
                        self.config == old(self).config,
                        self.region_count() == old(self).region_count(),
                        elements_bytes(vs.subrange(0, k as int)) matches Some(e) && buffer@ == seq![items@.len() as u8] + e,
                    decreases items@.len() - k,
                {
                    let ghost before = buffer@;
                    proof {
                        assert(vs.subrange(0, k + 1 as int).drop_last() =~= vs.subrange(0, k as int));
                        assert(vs.subrange(0, k + 1 as int).last() == toon_view(items@[k as int]));
                    }
                    match self.write_element(&items[k], &mut buffer) {
                        Ok(()) => {},
                        Err(e) => {
                            proof {
                                lemma_elements_none(vs, k as int);
                            }
                            return Err(e);
                        },
                    }
                    k = k + 1;
                    proof {
                        let e = elements_bytes(vs.subrange(0, k as int))->0;
                        assert(buffer@ =~= seq![items@.len() as u8] + e);
                    }
                }
                assert(vs.subrange(0, k as int) =~= vs);
                Ok(buffer)
            },
            ToonType::Object(fields) => {
                proof {
                    lemma_view_fields(fields@);
                }
                let ghost fs = toon_view_fields(fields@);
                let mut total: usize = 0;
                let mut i: usize = 0;
                while i < fields.len()
                    invariant
                        i <= fields@.len(),
                        fs == toon_view_fields(fields@),
                        fs.len() == fields@.len(),
                        forall|j: int| 0 <= j < fields@.len() ==> #[trigger] fs[j] == (fields@[j].0@, toon_view(fields@[j].1)),
                        toon_size(ToonValue::Object(fs)) <= usize::MAX,
                        total == object_hint(fs.subrange(0, i as int)),
                    decreases fields@.len() - i,
                {
                    proof {
                        assert(fs.subrange(0, i + 1 as int).drop_last() =~= fs.subrange(0, i as int));
                        lemma_fields_size_prefix(fs, i + 1);
                        lemma_object_hint(fs.subrange(0, i + 1 as int));
                    }
                    let n = fields[i].0.as_str().as_bytes().len();
                    total = total + n + fields[i].1.estimated_size();
                    i = i + 1;
                }
                let mut buffer = self.get_buffer(total);
                buffer.push(fields.len() as u8);
                let mut k: usize = 0;
                while k < fields.len()
                    invariant
                        k <= fields@.len(),
                        *value == ToonType::Object(*fields),
                        fs == toon_view_fields(fields@),
                        fs.len() == fields@.len(),
                        forall|j: int| 0 <= j < fields@.len() ==> #[trigger] fs[j] == (fields@[j].0@, toon_view(fields@[j].1)),
                        self.config == old(self).config,
                        self.region_count() == old(self).region_count(),
                        fields_bytes(fs.subrange(0, k as int)) matches Some(e) && buffer@ == seq![fields@.len() as u8] + e,
                    decreases fields@.len() - k,
                {
                    proof {
                        assert(fs.subrange(0, k + 1 as int).drop_last() =~= fs.subrange(0, k as int));
                        assert(fs.subrange(0, k + 1 as int).last() == (fields@[k as int].0@, toon_view(fields@[k as int].1)));
                    }
                    write_prefixed(0x0C, fields[k].0.as_str().as_bytes(), &mut buffer);
                    self.stats.allocations_avoided = self.stats.allocations_avoided.wrapping_add(1);
                    match self.write_element(&fields[k].1, &mut buffer) {
                        Ok(()) => {},
                        Err(e) => {
                            proof {
                                lemma_fields_none(fs, k as int);
                            }
                            return Err(e);
                        },
                    }
                    k = k + 1;
                    proof {
                        let e = fields_bytes(fs.subrange(0, k as int))->0;
                        assert(buffer@ =~= seq![fields@.len() as u8] + e);
                    }
                }
                assert(fs.subrange(0, k as int) =~= fs);
                Ok(buffer)
            },
            _ => {
                let size = value.estimated_size();
                let mut buffer = self.get_buffer(size);
                match write_primitive(value, &mut buffer) {
                    Ok(()) => {
                        assert(buffer@ =~= primitive_bytes(toon_view(*value))->0);
                        Ok(buffer)
                    },
                    Err(e) => Err(e),
                }
            },
        }
    }
}

/// Where an element is refused, so is every longer run of elements.
proof fn lemma_elements_none(vs: Seq<ToonValue>, k: int)
    requires
        0 <= k < vs.len(),
        element_bytes(vs[k]) is None,
    ensures
        elements_bytes(vs) is None,
    decreases vs.len(),
{
    if k < vs.len() - 1 {
        lemma_elements_none(vs.drop_last(), k);
    }
}

/// Where a field's value is refused, so is every longer run of fields.
proof fn lemma_fields_none(fs: Seq<(Seq<char>, ToonValue)>, k: int)
    requires
        0 <= k < fs.len(),
        element_bytes(fs[k].1) is None,
    ensures
        fields_bytes(fs) is None,
    decreases fs.len(),
{
    if k < fs.len() - 1 {
        lemma_fields_none(fs.drop_last(), k);
    }
}

impl Default for ToonZeroCopyManager {
    fn default() -> (m: Self)
        ensures
            m.settings() == ToonZeroCopyConfig::default_spec(),
            m.figures() == ToonZeroCopyStats::zero_spec(),
            m.buffers().len() == 0,
            m.region_count() == 0,
    {
        Self::new()
    }
}

/// A front for encoding values with a manager of its own.
pub struct ToonZeroCopyBuilder {
    manager: ToonZeroCopyManager,
}

impl ToonZeroCopyBuilder {
    /// The manager behind it.
    pub closed spec fn inner(&self) -> ToonZeroCopyManager {
        self.manager
    }

    /// A builder with a default manager.
    pub fn new() -> (b: Self)
        ensures
            b.inner().settings() == ToonZeroCopyConfig::default_spec(),
            b.inner().figures() == ToonZeroCopyStats::zero_spec(),
            b.inner().buffers().len() == 0,
    {
        ToonZeroCopyBuilder { manager: ToonZeroCopyManager::new() }
    }

    /// A builder whose manager has the given settings.
    pub fn with_config(config: ToonZeroCopyConfig) -> (b: Self)
        ensures
            b.inner().settings() == config,
            b.inner().figures() == ToonZeroCopyStats::zero_spec(),
            b.inner().buffers().len() == 0,
    {
        ToonZeroCopyBuilder { manager: ToonZeroCopyManager::with_config(config) }
    }

    /// Encodes a value (see `ToonZeroCopyManager::zero_copy_encode`).
    pub fn encode_value(&mut self, value: &ToonType) -> (r: Result<Vec<u8>, ZeroCopyError>)
        requires
            toon_size(toon_view(*value)) <= usize::MAX,
        ensures
            match zero_copy_bytes(toon_view(*value)) {
                Some(b) => r matches Ok(v) && v@ == b,
                None => r == Err::<Vec<u8>, ZeroCopyError>(ZeroCopyError::ComplexAsPrimitive),
            },
            final(self).inner().settings() == old(self).inner().settings(),
            match toon_view(*value) {
                ToonValue::Bytes(_) | ToonValue::Str(_) => final(self).inner().figures().allocations_avoided
                    == old(self).inner().figures().allocations_avoided.wrapping_add(1),
                _ => true,
            },
    {
        self.manager.zero_copy_encode(value)
    }

    /// A buffer of the manager (see `ToonZeroCopyManager::get_buffer`).
    pub fn get_buffer(&mut self, size: usize) -> (b: Vec<u8>)
        ensures
            b@.len() == 0,
            final(self).inner().settings() == old(self).inner().settings(),
    {
        self.manager.get_buffer(size)
    }

    /// Gives a buffer back to the manager.
    pub fn return_buffer(&mut self, buffer: Vec<u8>)
        ensures
            final(self).inner().settings() == old(self).inner().settings(),
            final(self).inner().figures() == old(self).inner().figures(),
            final(self).inner().buffers() == (if old(self).inner().buffers().len() < old(self).inner().settings().max_pooled_buffers {
                old(self).inner().buffers().push(buffer)
            } else {
                old(self).inner().buffers()
            }),
    {
        self.manager.return_buffer(buffer);
    }

    /// The manager's counters.
    pub fn get_stats(&self) -> (s: ToonZeroCopyStats)
        ensures
            s == self.inner().figures(),
    {
        self.manager.get_stats()
    }
}

impl Default for ToonZeroCopyBuilder {
    fn default() -> (b: Self)
        ensures
            b.inner().settings() == ToonZeroCopyConfig::default_spec(),
    {
        Self::new()
    }
}

} // verus!
