//! A bump arena: space is handed out from one block, front to back, and
//! taken back all at once.

use vstd::prelude::*;

verus! {

/// `pos` rounded up as `(pos + align - 1) & !(align - 1)` does, which is the
/// next multiple of `align` when `align` is a power of two.
pub open spec fn align_up(pos: usize, align: usize) -> usize {
    ((pos + align - 1) as usize) & !((align - 1) as usize)
}

/// A bump arena over a block of `capacity` bytes. Allocations are offsets
/// into the block.
pub struct ArenaAllocator {
    capacity: usize,
    position: usize,
    memory: Option<Vec<u8>>,
}

impl ArenaAllocator {
    /// The size of the block.
    pub closed spec fn capacity(&self) -> usize {
        self.capacity
    }

    /// How much of the block is handed out.
    pub closed spec fn position(&self) -> usize {
        self.position
    }

    /// Whether the block is there.
    pub closed spec fn initialized(&self) -> bool {
        self.memory is Some
    }

    /// The arena's invariant: the block, once there, has the arena's size.
    pub closed spec fn wf(&self) -> bool {
        self.memory matches Some(m) ==> m@.len() == self.capacity
    }

    /// Whether `size` bytes aligned as `align` asks fit after what is
    /// handed out.
    pub open spec fn fits(&self, size: usize, align: usize) -> bool {
        align_up(self.position(), align) + size <= self.capacity()
    }

    /// What allocating `size` bytes aligned as `align` asks from `a` gives:
    /// the aligned offset, with what is handed out moved past the space,
    /// where it fits; else nothing, with what is handed out unchanged.
    pub open spec fn allocated(a: ArenaAllocator, size: usize, align: usize, r: Option<usize>, position_after: usize) -> bool {
        if a.fits(size, align) {
            r == Some(align_up(a.position(), align)) && position_after == align_up(a.position(), align) + size
        } else {
            r is None && position_after == a.position()
        }
    }

    /// An arena of `capacity` bytes; the block is made on first use.
    pub fn new(capacity: usize) -> (a: Self)
        ensures
            a.wf(),
            a.capacity() == capacity,
            a.position() == 0,
            !a.initialized(),
    {
        ArenaAllocator { capacity, position: 0, memory: None }
    }

    /// Makes the block, if it is not there yet; it never fails.
    pub fn init(&mut self) -> (res: Result<(), String>)
        requires
            old(self).wf(),
        ensures
            res is Ok,
            final(self).wf(),
            final(self).initialized(),
            final(self).capacity() == old(self).capacity(),
            final(self).position() == old(self).position(),
    {
        if self.memory.is_some() {
            return Ok(());
        }
        let mut m: Vec<u8> = Vec::new();
        let mut i: usize = 0;
        while i < self.capacity
            invariant
                i <= self.capacity,
                m@.len() == i,
            decreases self.capacity - i,
        {
            m.push(0u8);
            i = i + 1;
        }
        self.memory = Some(m);
        Ok(())
    }

    /// Hands out `size` bytes aligned as `align` asks: their offset, or
    /// nothing where the rest of the block is too small.
    pub fn allocate(&mut self, size: usize, align: usize) -> (r: Option<usize>)
        requires
            old(self).wf(),
            align >= 1,
            old(self).position() + align - 1 <= usize::MAX,
        ensures
            final(self).wf(),
            final(self).initialized(),
            final(self).capacity() == old(self).capacity(),
            Self::allocated(*old(self), size, align, r, final(self).position()),
    {
        let _ = self.init();
        let aligned_pos = (self.position + (align - 1)) & !(align - 1);
        if aligned_pos > self.capacity || size > self.capacity - aligned_pos {
            return None;
        }
        self.position = aligned_pos + size;
        Some(aligned_pos)
    }

    /// Takes back everything handed out; the block stays.
    pub fn reset(&mut self)
        ensures
            final(self).position() == 0,
            final(self).capacity() == old(self).capacity(),
            final(self).initialized() == old(self).initialized(),
            final(self).wf() == old(self).wf(),
    {
        self.position = 0;
    }

    /// How much is handed out and how large the block is.
    pub fn usage(&self) -> (r: (usize, usize))
        ensures
            r == (self.position(), self.capacity()),
    {
        (self.position, self.capacity)
    }

    /// Whether `size` bytes aligned as `align` asks would fit.
    pub fn can_allocate(&self, size: usize, align: usize) -> (b: bool)
        requires
            align >= 1,
            self.position() + align - 1 <= usize::MAX,
        ensures
            b == self.fits(size, align),
    {
        let aligned_pos = (self.position + (align - 1)) & !(align - 1);
        !(aligned_pos > self.capacity || size > self.capacity - aligned_pos)
    }
}

/// `can_allocate` answers yes exactly where `allocate`, called on the same
/// arena with the same size and alignment, gives an offset.
pub proof fn lemma_can_allocate_iff_allocate(
    a: ArenaAllocator,
    size: usize,
    align: usize,
    answer: bool,
    r: Option<usize>,
    position_after: usize,
)
    requires
        answer == a.fits(size, align),
        ArenaAllocator::allocated(a, size, align, r, position_after),
    ensures
        answer == r is Some,
{
}

} // verus!
