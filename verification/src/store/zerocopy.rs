//! An arena that stores values by copy and hands out references to them:
//! freed space goes on a free list, kept sorted by offset, whose adjacent
//! blocks are merged, and later allocations take the first block that fits.

use vstd::prelude::*;

verus! {

/// Where a value lies in an arena: offset, length and the arena's
/// generation when it was stored, each in 32 bits.
#[derive(Debug, Clone, Copy, PartialEq, Eq)]
pub struct ArenaRef {
    offset: u32,
    len: u32,
    generation: u32,
}

impl ArenaRef {
    /// The offset.
    pub closed spec fn offset(&self) -> u32 {
        self.offset
    }

    /// The length.
    pub closed spec fn len(&self) -> u32 {
        self.len
    }

    /// The generation.
    pub closed spec fn generation(&self) -> u32 {
        self.generation
    }

    /// A reference; offset and length are kept modulo 2^32.
    pub fn new(offset: usize, len: usize, generation: u32) -> (r: Self)
        ensures
            r.offset() == offset as u32,
            r.len() == len as u32,
            r.generation() == generation,
    {
        ArenaRef { offset: offset as u32, len: len as u32, generation }
    }
}

/// Why a value could not be stored.
#[derive(Debug, Clone, Copy, PartialEq, Eq)]
pub enum ArenaError {
    /// There is no room at the end of the arena.
    ArenaFull,
    /// A free block lies outside the arena's memory.
    WriteOutOfBounds,
}

/// The first free block from `i` on that holds at least `size` bytes, or
/// the number of blocks.
pub open spec fn first_fit(free: Seq<(usize, usize)>, size: usize, i: int) -> int
    decreases free.len() - i,
{
    if i < 0 || i >= free.len() {
        free.len() as int
    } else if free[i].1 >= size {
        i
    } else {
        first_fit(free, size, i + 1)
    }
}

/// The free list after `size` bytes are taken from the front of block `k`:
/// the block leaves when it fits exactly, else it shrinks from the front.
pub open spec fn take_block(free: Seq<(usize, usize)>, k: int, size: usize) -> Seq<(usize, usize)> {
    if free[k].1 == size {
        free.remove(k)
    } else {
        free.update(k, ((free[k].0 + size) as usize, (free[k].1 - size) as usize))
    }
}

/// `m` with `data` written at `off`.
pub open spec fn written(m: Seq<u8>, off: int, data: Seq<u8>) -> Seq<u8> {
    m.subrange(0, off) + data + m.subrange(off + data.len(), m.len() as int)
}

/// Where a block goes in a list sorted by offset: after every block whose
/// offset is not larger.
pub open spec fn sorted_position(s: Seq<(usize, usize)>, x: (usize, usize), i: int) -> int
    decreases s.len() - i,
{
    if i < 0 || i >= s.len() {
        s.len() as int
    } else if s[i].0 > x.0 {
        i
    } else {
        sorted_position(s, x, i + 1)
    }
}

/// The blocks sorted by offset, blocks of equal offset in their order: what
/// a stable sort by offset gives.
pub open spec fn sort_by_offset(s: Seq<(usize, usize)>) -> Seq<(usize, usize)>
    decreases s.len(),
{
    if s.len() == 0 {
        s
    } else {
        let t = sort_by_offset(s.drop_last());
        t.insert(sorted_position(t, s.last(), 0), s.last())
    }
}

/// Whether every block ends inside the range of `usize`.
pub open spec fn blocks_bounded(s: Seq<(usize, usize)>) -> bool {
    forall|i: int| 0 <= i < s.len() ==> #[trigger] s[i].0 + s[i].1 <= usize::MAX
}

/// The free list after merging, from block `i` on, each block with the next
/// one where it ends where the next begins.
pub open spec fn coalesce_from(f: Seq<(usize, usize)>, i: int) -> Seq<(usize, usize)>
    decreases f.len() - i,
{
    if i < 0 || i + 1 >= f.len() {
        f
    } else if f[i].0 + f[i].1 == f[i + 1].0 {
        coalesce_from(
            f.update(i, (f[i].0, (f[i].1 + f[i + 1].1) as usize)).remove(i + 1),
            i,
        )
    } else {
        coalesce_from(f, i + 1)
    }
}

/// The free list after a block is given back: added, sorted by offset, and
/// merged.
pub open spec fn free_after_release(f: Seq<(usize, usize)>, block: (usize, usize)) -> Seq<(usize, usize)> {
    coalesce_from(sort_by_offset(f.push(block)), 0)
}

/// An arena of `capacity` bytes with a free list.
pub struct Arena {
    memory: Vec<u8>,
    free_list: Vec<(usize, usize)>,
    next_offset: usize,
    generation: u32,
    capacity: usize,
}

impl Arena {
    /// The arena's bytes.
    pub closed spec fn memory(&self) -> Seq<u8> {
        self.memory@
    }

    /// The free blocks, as (offset, size).
    pub closed spec fn free(&self) -> Seq<(usize, usize)> {
        self.free_list@
    }

    /// Where the next block at the end goes.
    pub closed spec fn next(&self) -> usize {
        self.next_offset
    }

    /// The generation of references handed out now.
    pub closed spec fn current_generation(&self) -> u32 {
        self.generation
    }

    /// The arena's size.
    pub closed spec fn capacity(&self) -> usize {
        self.capacity
    }

    /// The arena's invariant: its memory has its size and every free block
    /// ends inside the range of `usize`.
    pub closed spec fn wf(&self) -> bool {
        &&& self.memory@.len() == self.capacity
        &&& blocks_bounded(self.free_list@)
    }

    /// Where `allocate` puts `size` bytes: at the first free block that is
    /// large enough, else at the end.
    pub open spec fn allocation_offset(&self, size: usize) -> usize {
        let k = first_fit(self.free(), size, 0);
        if k < self.free().len() {
            self.free()[k].0
        } else {
            self.next()
        }
    }

    /// Whether `size` bytes at that place lie inside the arena.
    pub open spec fn allocation_fits(&self, size: usize) -> bool {
        let k = first_fit(self.free(), size, 0);
        if k < self.free().len() {
            self.allocation_offset(size) + size <= self.memory().len()
        } else {
            self.allocation_offset(size) + size <= self.capacity()
        }
    }

    /// An arena of `capacity` zero bytes, with nothing stored.
    pub fn new(capacity: usize) -> (a: Self)
        ensures
            a.wf(),
            a.memory() == Seq::new(capacity as nat, |i: int| 0u8),
            a.free() == Seq::<(usize, usize)>::empty(),
            a.next() == 0,
            a.current_generation() == 1,
            a.capacity() == capacity,
    {
        let mut memory: Vec<u8> = Vec::new();
        let mut i: usize = 0;
        while i < capacity
            invariant
                i <= capacity,
                memory@ == Seq::new(i as nat, |k: int| 0u8),
            decreases capacity - i,
        {
            memory.push(0u8);
            i = i + 1;
            assert(memory@ =~= Seq::new(i as nat, |k: int| 0u8));
        }
        Arena { memory, free_list: Vec::new(), next_offset: 0, generation: 1, capacity }
    }

    fn find_free_space(&mut self, size: usize) -> (r: Option<usize>)
        requires
            old(self).wf(),
        ensures
            final(self).wf(),
            final(self).memory() == old(self).memory(),
            final(self).next() == old(self).next(),
            final(self).current_generation() == old(self).current_generation(),
            final(self).capacity() == old(self).capacity(),
            ({
                let k = first_fit(old(self).free(), size, 0);
                if k < old(self).free().len() {
                    r == Some(old(self).free()[k].0) && final(self).free() == take_block(
                        old(self).free(),
                        k,
                        size,
                    )
                } else {
                    r is None && final(self).free() == old(self).free()
                }
            }),
    {
        let ghost f = self.free_list@;
        let mut i: usize = 0;
        while i < self.free_list.len()
            invariant
                i <= self.free_list@.len(),
                self.free_list@ == f,
                f == old(self).free(),
                blocks_bounded(f),
                self.memory@ == old(self).memory(),
                self.memory@.len() == self.capacity,
                self.next_offset == old(self).next(),
                self.generation == old(self).current_generation(),
                self.capacity == old(self).capacity(),
                first_fit(f, size, i as int) == first_fit(f, size, 0),
            decreases self.free_list@.len() - i,
        {
            let (offset, free_size) = self.free_list[i];
            if free_size >= size {
                if free_size == size {
                    self.free_list.remove(i);
                } else {
                    assert(f[i as int].0 + f[i as int].1 <= usize::MAX);
                    self.free_list.set(i, (offset + size, free_size - size));
                }
                proof {
                    let g = self.free_list@;
                    assert forall|j: int| 0 <= j < g.len() implies #[trigger] g[j].0 + g[j].1
                        <= usize::MAX by {
                        if free_size == size {
                            if j >= i {
                                assert(g[j] == f[j + 1]);
                            } else {
                                assert(g[j] == f[j]);
                            }
                        } else if j != i {
                            assert(g[j] == f[j]);
                        }
                    }
                }
                return Some(offset);
            }
            i = i + 1;
        }
        None
    }

    fn write_data(&mut self, offset: usize, data: &[u8]) -> (res: Result<(), ArenaError>)
        requires
            old(self).wf(),
        ensures
            final(self).wf(),
            final(self).free() == old(self).free(),
            final(self).next() == old(self).next(),
            final(self).current_generation() == old(self).current_generation(),
            final(self).capacity() == old(self).capacity(),
            offset + data@.len() > old(self).memory().len() ==> (res == Err::<(), ArenaError>(
                ArenaError::WriteOutOfBounds,
            ) && final(self).memory() == old(self).memory()),
            offset + data@.len() <= old(self).memory().len() ==> (res is Ok && final(self).memory()
                == written(old(self).memory(), offset as int, data@)),
    {
        if offset > self.memory.len() || data.len() > self.memory.len() - offset {
            return Err(ArenaError::WriteOutOfBounds);
        }
        let ghost m = self.memory@;
        let mut i: usize = 0;
        while i < data.len()
            invariant
                i <= data@.len(),
                offset + data@.len() <= m.len(),
                self.memory@.len() == m.len(),
                self.memory@.len() == self.capacity,
                blocks_bounded(self.free_list@),
                self.free_list@ == old(self).free(),
                self.next_offset == old(self).next(),
                self.generation == old(self).current_generation(),
                self.capacity == old(self).capacity(),
                forall|k: int| 0 <= k < offset ==> self.memory@[k] == m[k],
                forall|k: int| offset + data@.len() <= k < m.len() ==> self.memory@[k] == m[k],
                forall|k: int| 0 <= k < i ==> self.memory@[offset + k] == data@[k],
            decreases data@.len() - i,
        {
            self.memory.set(offset + i, data[i]);
            i = i + 1;
        }
        assert(self.memory@ =~= written(m, offset as int, data@));
        Ok(())
    }

    /// Stores a copy of `data`: in the first free block that is large
    /// enough, else at the end. The end moves on by the size even when the
    /// arena turns out to be full (modulo 2^`usize::BITS`).
    pub fn allocate(&mut self, data: &[u8]) -> (res: Result<ArenaRef, ArenaError>)
        requires
            old(self).wf(),
        ensures
            final(self).wf(),
            final(self).capacity() == old(self).capacity(),
            final(self).current_generation() == old(self).current_generation(),
            ({
                let f = old(self).free();
                let size = data@.len() as usize;
                let k = first_fit(f, size, 0);
                let off = old(self).allocation_offset(size);
                &&& final(self).free() == (if k < f.len() {
                    take_block(f, k, size)
                } else {
                    f
                })
                &&& final(self).next() == (if k < f.len() {
                    old(self).next()
                } else {
                    old(self).next().wrapping_add(size)
                })
                &&& !old(self).allocation_fits(size) ==> final(self).memory() == old(self).memory() && res == Err::<ArenaRef, ArenaError>(
                    if k < f.len() {
                        ArenaError::WriteOutOfBounds
                    } else {
                        ArenaError::ArenaFull
                    },
                )
                &&& old(self).allocation_fits(size) ==> final(self).memory() == written(old(self).memory(), off as int, data@)
                    && (res matches Ok(r) && r.offset() == off as u32 && r.len() == size as u32
                    && r.generation() == old(self).current_generation())
            }),
    {
        let size = data.len();
        match self.find_free_space(size) {
            Some(offset) => {
                self.write_data(offset, data)?;
                Ok(ArenaRef::new(offset, size, self.generation))
            },
            None => {
                let offset = self.next_offset;
                self.next_offset = self.next_offset.wrapping_add(size);
                if offset > self.capacity || size > self.capacity - offset {
                    return Err(ArenaError::ArenaFull);
                }
                self.write_data(offset, data)?;
                Ok(ArenaRef::new(offset, size, self.generation))
            },
        }
    }

    /// A copy of the value a reference points to, if the reference is of
    /// the current generation and lies inside the arena.
    pub fn get_data(&self, arena_ref: &ArenaRef) -> (r: Option<Vec<u8>>)
        ensures
            ({
                let start = arena_ref.offset() as int;
                let end = start + arena_ref.len() as int;
                if arena_ref.generation() != self.current_generation() || end > self.memory().len() {
                    r is None
                } else {
                    r matches Some(v) && v@ == self.memory().subrange(start, end)
                }
            }),
    {
        if arena_ref.generation != self.generation {
            return None;
        }
        let start = arena_ref.offset as usize;
        let len = arena_ref.len as usize;
        if start > self.memory.len() || len > self.memory.len() - start {
            return None;
        }
        Some(vstd::slice::slice_to_vec(vstd::slice::slice_subrange(self.memory.as_slice(), start, start + len)))
    }

    /// Gives the block of a reference back: it joins the free list, which
    /// is sorted by offset and whose adjacent blocks are merged.
    pub fn deallocate(&mut self, arena_ref: &ArenaRef)
        requires
            old(self).wf(),
            arena_ref.offset() + arena_ref.len() <= usize::MAX,
        ensures
            final(self).wf(),
            final(self).free() == free_after_release(
                old(self).free(),
                (arena_ref.offset() as usize, arena_ref.len() as usize),
            ),
            final(self).memory() == old(self).memory(),
            final(self).next() == old(self).next(),
            final(self).current_generation() == old(self).current_generation(),
            final(self).capacity() == old(self).capacity(),
    {
        let block = (arena_ref.offset as usize, arena_ref.len as usize);
        let mut list = self.take_free_list();
        list.push(block);
        let sorted = sort_blocks(&list);
        let merged = coalesce(sorted);
        self.free_list = merged;
    }

    fn take_free_list(&mut self) -> (l: Vec<(usize, usize)>)
        ensures
            l@ == old(self).free(),
            final(self).free() == Seq::<(usize, usize)>::empty(),
            final(self).memory() == old(self).memory(),
            final(self).next() == old(self).next(),
            final(self).current_generation() == old(self).current_generation(),
            final(self).capacity() == old(self).capacity(),
    {
        let mut l: Vec<(usize, usize)> = Vec::new();
        std::mem::swap(&mut l, &mut self.free_list);
        l
    }

    /// How far the end has moved and how many bytes are free in the list.
    pub fn used_and_free(&self) -> (r: (usize, usize))
        requires
            self.wf(),
        ensures
            r.0 == self.next(),
            r.1 as int == free_total(self.free()) || r.1 == usize::MAX,
    {
        let mut total: usize = 0;
        let mut i: usize = 0;
        while i < self.free_list.len()
            invariant
                i <= self.free_list@.len(),
                total as int == free_total(self.free_list@.subrange(0, i as int)) || total
                    == usize::MAX,
            decreases self.free_list@.len() - i,
        {
            let ghost sub = self.free_list@.subrange(0, i as int + 1);
            assert(sub.drop_last() =~= self.free_list@.subrange(0, i as int));
            total = total.saturating_add(self.free_list[i].1);
            i = i + 1;
        }
        assert(self.free_list@.subrange(0, i as int) =~= self.free_list@);
        (self.next_offset, total)
    }
}

/// The bytes of all free blocks together.
pub open spec fn free_total(s: Seq<(usize, usize)>) -> int
    decreases s.len(),
{
    if s.len() == 0 {
        0
    } else {
        free_total(s.drop_last()) + s.last().1
    }
}

fn sorted_pos(s: &Vec<(usize, usize)>, x: (usize, usize)) -> (k: usize)
    ensures
        k == sorted_position(s@, x, 0),
        k <= s@.len(),
{
    let mut i: usize = 0;
    while i < s.len()
        invariant
            i <= s@.len(),
            sorted_position(s@, x, i as int) == sorted_position(s@, x, 0),
        decreases s@.len() - i,
    {
        if s[i].0 > x.0 {
            return i;
        }
        i = i + 1;
    }
    i
}

/// The blocks sorted stably by offset.
fn sort_blocks(s: &Vec<(usize, usize)>) -> (r: Vec<(usize, usize)>)
    ensures
        r@ == sort_by_offset(s@),
        blocks_bounded(s@) ==> blocks_bounded(r@),
{
    let mut r: Vec<(usize, usize)> = Vec::new();
    let mut i: usize = 0;
    while i < s.len()
        invariant
            i <= s@.len(),
            r@ == sort_by_offset(s@.subrange(0, i as int)),
            blocks_bounded(s@) ==> blocks_bounded(r@),
        decreases s@.len() - i,
    {
        let ghost sub = s@.subrange(0, i as int + 1);
        assert(sub.drop_last() =~= s@.subrange(0, i as int));
        let x = s[i];
        let k = sorted_pos(&r, x);
        let ghost before = r@;
        r.insert(k, x);
        proof {
            if blocks_bounded(s@) {
                assert(s@[i as int].0 + s@[i as int].1 <= usize::MAX);
                assert forall|j: int| 0 <= j < r@.len() implies #[trigger] r@[j].0 + r@[j].1
                    <= usize::MAX by {
                    if j < k {
                        assert(r@[j] == before[j]);
                    } else if j > k {
                        assert(r@[j] == before[j - 1]);
                    }
                }
            }
        }
        i = i + 1;
    }
    assert(s@.subrange(0, i as int) =~= s@);
    r
}

/// Merges each block with the next where it ends where the next begins.
fn coalesce(f: Vec<(usize, usize)>) -> (r: Vec<(usize, usize)>)
    requires
        blocks_bounded(f@),
    ensures
        r@ == coalesce_from(f@, 0),
        blocks_bounded(r@),
{
    let mut f = f;
    if f.len() < 2 {
        return f;
    }
    let ghost f0 = f@;
    let mut i: usize = 0;
    while i < f.len() - 1
        invariant
            blocks_bounded(f@),
            i < f@.len(),
            coalesce_from(f@, i as int) == coalesce_from(f0, 0),
        decreases f@.len() - i,
    {
        let (o1, s1) = f[i];
        let (o2, s2) = f[i + 1];
        assert(f@[i as int].0 + f@[i as int].1 <= usize::MAX);
        if o1 + s1 == o2 {
            assert(f@[i as int + 1].0 + f@[i as int + 1].1 <= usize::MAX);
            let ghost g = f@;
            f.set(i, (o1, s1 + s2));
            f.remove(i + 1);
            proof {
                assert(f@ =~= g.update(i as int, (o1, (s1 + s2) as usize)).remove(i as int + 1));
                assert forall|j: int| 0 <= j < f@.len() implies #[trigger] f@[j].0 + f@[j].1
                    <= usize::MAX by {
                    if j < i {
                        assert(f@[j] == g[j]);
                    } else if j > i {
                        assert(f@[j] == g[j + 1]);
                    }
                }
            }
        } else {
            i = i + 1;
        }
    }
    proof {
        if f@.len() >= 1 {
            assert(i + 1 >= f@.len());
        }
    }
    f
}

/// The reference stored for a key: that of the first pair with the key.
pub open spec fn ref_of(pairs: Seq<(Seq<u8>, ArenaRef)>, key: Seq<u8>) -> Option<ArenaRef>
    decreases pairs.len(),
{
    if pairs.len() == 0 {
        None
    } else if pairs[0].0 == key {
        Some(pairs[0].1)
    } else {
        ref_of(pairs.skip(1), key)
    }
}

proof fn lemma_ref_of_at(pairs: Seq<(Seq<u8>, ArenaRef)>, key: Seq<u8>, i: int)
    requires
        0 <= i < pairs.len(),
        pairs[i].0 == key,
        forall|j: int| 0 <= j < i ==> #[trigger] pairs[j].0 != key,
    ensures
        ref_of(pairs, key) == Some(pairs[i].1),
    decreases i,
{
    if i > 0 {
        assert forall|j: int| 0 <= j < i - 1 implies #[trigger] pairs.skip(1)[j].0 != key by {
            assert(pairs.skip(1)[j] == pairs[j + 1]);
        }
        lemma_ref_of_at(pairs.skip(1), key, i - 1);
    }
}

proof fn lemma_ref_of_none(pairs: Seq<(Seq<u8>, ArenaRef)>, key: Seq<u8>)
    requires
        forall|j: int| 0 <= j < pairs.len() ==> #[trigger] pairs[j].0 != key,
    ensures
        ref_of(pairs, key) is None,
    decreases pairs.len(),
{
    if pairs.len() > 0 {
        assert forall|j: int| 0 <= j < pairs.len() - 1 implies #[trigger] pairs.skip(1)[j].0 != key by {
            assert(pairs.skip(1)[j] == pairs[j + 1]);
        }
        lemma_ref_of_none(pairs.skip(1), key);
    }
}

/// Counters of the zero-copy store.
#[derive(Debug, Clone, Copy, Default, PartialEq, Eq)]
pub struct ZeroCopyMetrics {
    pub zero_copy_operations: u64,
    pub bytes_copied: u64,
    pub bytes_zero_copied: u64,
    pub allocation_count: u64,
}

impl ZeroCopyMetrics {
    /// All counters at zero.
    pub open spec fn zero_spec() -> ZeroCopyMetrics {
        ZeroCopyMetrics { zero_copy_operations: 0, bytes_copied: 0, bytes_zero_copied: 0, allocation_count: 0 }
    }
}

/// Where keys are distinct, the reference of a key is that of the pair
/// that holds it.
proof fn lemma_ref_of_distinct(pairs: Seq<(Seq<u8>, ArenaRef)>, key: Seq<u8>, i: int)
    requires
        forall|a: int, b: int| 0 <= a < b < pairs.len() ==> #[trigger] pairs[a].0 != #[trigger] pairs[b].0,
        0 <= i < pairs.len(),
        pairs[i].0 == key,
    ensures
        ref_of(pairs, key) == Some(pairs[i].1),
{
    assert forall|j: int| 0 <= j < i implies #[trigger] pairs[j].0 != key by {
        assert(pairs[j].0 != pairs[i].0);
    }
    lemma_ref_of_at(pairs, key, i);
}

/// Values in an arena, found by key.
pub struct ZeroCopyStore {
    arena: Arena,
    map: Vec<(Vec<u8>, ArenaRef)>,
    metrics: ZeroCopyMetrics,
}

impl ZeroCopyStore {
    /// The key and reference pairs, each key once.
    pub closed spec fn refs(&self) -> Seq<(Seq<u8>, ArenaRef)> {
        self.map@.map_values(|p: (Vec<u8>, ArenaRef)| (p.0@, p.1))
    }

    /// The arena.
    pub closed spec fn store_arena(&self) -> Arena {
        self.arena
    }

    /// The counters.
    pub closed spec fn figures(&self) -> ZeroCopyMetrics {
        self.metrics
    }

    /// The value a key reads: the arena's bytes under its reference, where
    /// the reference is of the current generation and inside the arena.
    pub open spec fn value_of(&self, key: Seq<u8>) -> Option<Seq<u8>> {
        match ref_of(self.refs(), key) {
            Some(r) => {
                let start = r.offset() as int;
                let end = start + r.len() as int;
                if r.generation() != self.store_arena().current_generation() || end > self.store_arena().memory().len() {
                    None
                } else {
                    Some(self.store_arena().memory().subrange(start, end))
                }
            },
            None => None,
        }
    }

    /// The arena is well formed, no key occurs twice, and every reference
    /// ends inside the range of `usize`.
    pub closed spec fn wf(&self) -> bool {
        &&& self.arena.wf()
        &&& forall|i: int, j: int| 0 <= i < j < self.refs().len() ==> #[trigger] self.refs()[i].0 != #[trigger] self.refs()[j].0
        &&& forall|i: int| 0 <= i < self.refs().len() ==> #[trigger] self.refs()[i].1.offset() + self.refs()[i].1.len() <= usize::MAX
    }

    /// An empty store over an arena of `initial_capacity` bytes.
    pub fn new(initial_capacity: usize) -> (s: Self)
        ensures
            s.wf(),
            s.refs().len() == 0,
            s.figures() == ZeroCopyMetrics::zero_spec(),
            s.store_arena().capacity() == initial_capacity,
            s.store_arena().memory() == Seq::new(initial_capacity as nat, |i: int| 0u8),
            s.store_arena().free() == Seq::<(usize, usize)>::empty(),
            s.store_arena().next() == 0,
            s.store_arena().current_generation() == 1,
    {
        let s = ZeroCopyStore { arena: Arena::new(initial_capacity), map: Vec::new(), metrics: ZeroCopyMetrics { zero_copy_operations: 0, bytes_copied: 0, bytes_zero_copied: 0, allocation_count: 0 } };
        assert(s.refs() =~= Seq::empty());
        s
    }

    fn position(&self, key: &[u8]) -> (r: Option<usize>)
        requires
            self.wf(),
        ensures
            match r {
                Some(i) => i < self.refs().len() && self.refs()[i as int].0 == key@ && ref_of(self.refs(), key@) == Some(self.refs()[i as int].1),
                None => ref_of(self.refs(), key@) is None && forall|j: int| 0 <= j < self.refs().len() ==> #[trigger] self.refs()[j].0 != key@,
            },
    {
        let mut i: usize = 0;
        while i < self.map.len()
            invariant
                i <= self.map@.len(),
                forall|j: int| 0 <= j < i ==> #[trigger] self.refs()[j].0 != key@,
            decreases self.map@.len() - i,
        {
            if crate::protocol::wire::bytes_eq(self.map[i].0.as_slice(), key) {
                proof {
                    lemma_ref_of_at(self.refs(), key@, i as int);
                }
                return Some(i);
            }
            i = i + 1;
        }
        proof {
            lemma_ref_of_none(self.refs(), key@);
        }
        None
    }

    /// The value of a key (see `value_of`); a found value counts as an
    /// operation with its bytes.
    pub fn get_zero_copy(&mut self, key: &[u8]) -> (r: Option<Vec<u8>>)
        requires
            old(self).wf(),
        ensures
            final(self).wf(),
            final(self).refs() == old(self).refs(),
            final(self).store_arena() == old(self).store_arena(),
            match r {
                Some(v) => old(self).value_of(key@) == Some(v@) && final(self).figures() == (ZeroCopyMetrics {
                    zero_copy_operations: old(self).figures().zero_copy_operations.wrapping_add(1),
                    bytes_zero_copied: old(self).figures().bytes_zero_copied.wrapping_add(v@.len() as u64),
                    ..old(self).figures()
                }),
                None => old(self).value_of(key@) is None && final(self).figures() == old(self).figures(),
            },
    {
        match self.position(key) {
            None => None,
            Some(i) => {
                let r = self.map[i].1;
                match self.arena.get_data(&r) {
                    Some(data) => {
                        self.metrics.zero_copy_operations = self.metrics.zero_copy_operations.wrapping_add(1);
                        self.metrics.bytes_zero_copied = self.metrics.bytes_zero_copied.wrapping_add(data.len() as u64);
                        Some(data)
                    },
                    None => None,
                }
            },
        }
    }

    /// Stores a value in the arena (see `Arena::allocate`) and the key's
    /// reference to it, replacing any earlier one (whose block is not given
    /// back); counts an operation, its bytes and an allocation. Refused as
    /// the arena refuses it, with the keys and counters unchanged. The value
    /// reads back where the arena's offsets fit in 32 bits.
    pub fn put_zero_copy(&mut self, key: Vec<u8>, value: Vec<u8>) -> (res: Result<(), ArenaError>)
        requires
            old(self).wf(),
        ensures
            final(self).wf(),
            final(self).store_arena().capacity() == old(self).store_arena().capacity(),
            res is Ok <==> old(self).store_arena().allocation_fits(value@.len() as usize),
            res is Err ==> final(self).refs() == old(self).refs() && final(self).figures() == old(self).figures()
                && final(self).store_arena().memory() == old(self).store_arena().memory()
                && final(self).store_arena().current_generation() == old(self).store_arena().current_generation(),
            res is Ok ==> ({
                let off = old(self).store_arena().allocation_offset(value@.len() as usize);
                &&& ref_of(final(self).refs(), key@) matches Some(r) && r.offset() == off as u32
                    && r.len() == value@.len() as u32
                    && r.generation() == old(self).store_arena().current_generation()
                &&& final(self).store_arena().memory() == written(old(self).store_arena().memory(), off as int, value@)
                &&& final(self).store_arena().current_generation() == old(self).store_arena().current_generation()
                &&& old(self).store_arena().capacity() <= u32::MAX ==> final(self).value_of(key@) == Some(value@)
                &&& forall|k: Seq<u8>| k != key@ ==> #[trigger] ref_of(final(self).refs(), k) == ref_of(old(self).refs(), k)
                &&& final(self).figures() == (ZeroCopyMetrics {
                    zero_copy_operations: old(self).figures().zero_copy_operations.wrapping_add(1),
                    bytes_zero_copied: old(self).figures().bytes_zero_copied.wrapping_add(value@.len() as u64),
                    allocation_count: old(self).figures().allocation_count.wrapping_add(1),
                    ..old(self).figures()
                })
            }),
    {
        let ghost p0 = self.refs();
        let pos = self.position(key.as_slice());
        let r = match self.arena.allocate(value.as_slice()) {
            Ok(r) => r,
            Err(e) => return Err(e),
        };
        let ghost off = old(self).arena.allocation_offset(value@.len() as usize);
        let ghost kv = key@;
        proof {
            let size = value@.len() as usize;
            assert(off as u32 <= off) by (bit_vector);
            assert(size as u32 <= size) by (bit_vector);
            assert(off + size <= usize::MAX);
        }
        match pos {
            Some(i) => {
                self.map.set(i, (key, r));
                assert(self.refs() =~= p0.update(i as int, (kv, r)));
            },
            None => {
                self.map.push((key, r));
                assert(self.refs() =~= p0.push((kv, r)));
            },
        }
        self.metrics.zero_copy_operations = self.metrics.zero_copy_operations.wrapping_add(1);
        self.metrics.bytes_zero_copied = self.metrics.bytes_zero_copied.wrapping_add(value.len() as u64);
        self.metrics.allocation_count = self.metrics.allocation_count.wrapping_add(1);
        proof {
            let p1 = self.refs();
            let j: int = match pos { Some(i) => i as int, None => p0.len() as int };
            assert(p1[j] == (kv, r));
            assert forall|a: int, b: int| 0 <= a < b < p1.len() implies #[trigger] p1[a].0 != #[trigger] p1[b].0 by {
                if a != j && b != j {
                    assert(p1[a] == p0[a] && p1[b] == p0[b]);
                } else if a == j {
                    assert(p1[b] == p0[b]);
                } else {
                    assert(p1[a] == p0[a]);
                }
            }
            assert forall|a: int| 0 <= a < p1.len() implies #[trigger] p1[a].1.offset() + p1[a].1.len() <= usize::MAX by {
                if a != j {
                    assert(p1[a] == p0[a]);
                }
            }
            lemma_ref_of_distinct(p1, kv, j);
            assert forall|k: Seq<u8>| k != kv implies #[trigger] ref_of(p1, k) == ref_of(p0, k) by {
                if exists|a: int| 0 <= a < p1.len() && p1[a].0 == k {
                    let a = choose|a: int| 0 <= a < p1.len() && p1[a].0 == k;
                    assert(a != j);
                    assert(p1[a] == p0[a]);
                    lemma_ref_of_distinct(p1, k, a);
                    lemma_ref_of_distinct(p0, k, a);
                } else {
                    assert forall|a: int| 0 <= a < p0.len() implies #[trigger] p0[a].0 != k by {
                        if a != j {
                            assert(p1[a] == p0[a]);
                        }
                    }
                    lemma_ref_of_none(p1, k);
                    lemma_ref_of_none(p0, k);
                }
            }
            if old(self).arena.capacity() <= u32::MAX {
                let size = value@.len() as usize;
                assert(off as u32 == off);
                assert(size as u32 == size);
                let m = self.arena.memory();
                assert(m.subrange(off as int, off + size) =~= value@);
            }
        }
        Ok(())
    }

    /// Removes a key and gives its block back to the arena (see
    /// `Arena::deallocate`), counting an operation; false where the key is
    /// absent, with nothing changed.
    pub fn del_zero_copy(&mut self, key: &[u8]) -> (found: bool)
        requires
            old(self).wf(),
        ensures
            final(self).wf(),
            found <==> ref_of(old(self).refs(), key@) is Some,
            ref_of(final(self).refs(), key@) is None,
            forall|k: Seq<u8>| k != key@ ==> #[trigger] ref_of(final(self).refs(), k) == ref_of(old(self).refs(), k),
            !found ==> final(self).store_arena() == old(self).store_arena() && final(self).figures() == old(self).figures(),
            found ==> ({
                let r = ref_of(old(self).refs(), key@)->0;
                &&& final(self).store_arena().free() == free_after_release(
                    old(self).store_arena().free(),
                    (r.offset() as usize, r.len() as usize),
                )
                &&& final(self).store_arena().memory() == old(self).store_arena().memory()
                &&& final(self).store_arena().next() == old(self).store_arena().next()
                &&& final(self).store_arena().current_generation() == old(self).store_arena().current_generation()
                &&& final(self).store_arena().capacity() == old(self).store_arena().capacity()
                &&& final(self).figures() == (ZeroCopyMetrics {
                    zero_copy_operations: old(self).figures().zero_copy_operations.wrapping_add(1),
                    ..old(self).figures()
                })
            }),
    {
        let ghost p0 = self.refs();
        let ghost kv = key@;
        match self.position(key) {
            None => {
                proof {
                    lemma_ref_of_none(p0, kv);
                }
                false
            },
            Some(i) => {
                let (_k, r) = self.map.remove(i);
                assert(self.refs() =~= p0.remove(i as int));
                assert(p0[i as int].1.offset() + p0[i as int].1.len() <= usize::MAX);
                self.arena.deallocate(&r);
                self.metrics.zero_copy_operations = self.metrics.zero_copy_operations.wrapping_add(1);
                proof {
                    let p1 = self.refs();
                    assert forall|a: int, b: int| 0 <= a < b < p1.len() implies #[trigger] p1[a].0 != #[trigger] p1[b].0 by {
                        let a0 = if a < i { a } else { a + 1 };
                        let b0 = if b < i { b } else { b + 1 };
                        assert(p1[a] == p0[a0] && p1[b] == p0[b0]);
                    }
                    assert forall|a: int| 0 <= a < p1.len() implies #[trigger] p1[a].1.offset() + p1[a].1.len() <= usize::MAX by {
                        let a0 = if a < i { a } else { a + 1 };
                        assert(p1[a] == p0[a0]);
                    }
                    assert forall|a: int| 0 <= a < p1.len() implies #[trigger] p1[a].0 != kv by {
                        let a0 = if a < i { a } else { a + 1 };
                        assert(p1[a] == p0[a0]);
                        assert(p0[a0].0 != p0[i as int].0);
                    }
                    lemma_ref_of_none(p1, kv);
                    assert forall|k: Seq<u8>| k != kv implies #[trigger] ref_of(p1, k) == ref_of(p0, k) by {
                        if exists|a: int| 0 <= a < p1.len() && p1[a].0 == k {
                            let a = choose|a: int| 0 <= a < p1.len() && p1[a].0 == k;
                            let a0 = if a < i { a } else { a + 1 };
                            assert(p1[a] == p0[a0]);
                            lemma_ref_of_distinct(p1, k, a);
                            lemma_ref_of_distinct(p0, k, a0);
                        } else {
                            assert forall|a: int| 0 <= a < p0.len() implies #[trigger] p0[a].0 != k by {
                                if a < i {
                                    assert(p1[a] == p0[a]);
                                } else if a > i {
                                    assert(p1[a - 1] == p0[a]);
                                }
                            }
                            lemma_ref_of_none(p1, k);
                            lemma_ref_of_none(p0, k);
                        }
                    }
                }
                true
            },
        }
    }

    /// The counters.
    pub fn metrics(&self) -> (m: ZeroCopyMetrics)
        ensures
            m == self.figures(),
    {
        self.metrics
    }

    /// The arena's end, the bytes in its free list (see `used_and_free`)
    /// and its size.
    pub fn arena_usage(&self) -> (r: (usize, usize, usize))
        requires
            self.wf(),
        ensures
            r.0 == self.store_arena().next(),
            r.1 as int == free_total(self.store_arena().free()) || r.1 == usize::MAX,
            r.2 == self.store_arena().capacity(),
    {
        let (used, free) = self.arena.used_and_free();
        (used, free, self.arena.capacity)
    }

    /// Compaction of the arena: nothing is moved, and it always succeeds.
    pub fn compact_arena(&self) -> (res: Result<(), ArenaError>)
        ensures
            res is Ok,
    {
        Ok(())
    }
}

} // verus!
