//! A pool of byte buffers for message encoding: buffers come back emptied,
//! first in first out, and the pool keeps at most a fixed number.

use vstd::prelude::*;

verus! {

/// What the pool holds and how it was made.
#[derive(Debug, Clone, Copy, PartialEq, Eq)]
pub struct PoolStats {
    pub available_buffers: usize,
    pub max_size: usize,
    pub default_capacity: usize,
}

/// Buffers kept for reuse, oldest first.
pub struct ProtobufBufferPool {
    buffers: Vec<Vec<u8>>,
    max_size: usize,
    default_capacity: usize,
}

impl ProtobufBufferPool {
    /// The contents of the buffers held, oldest first.
    pub closed spec fn held(&self) -> Seq<Seq<u8>> {
        self.buffers@.map_values(|b: Vec<u8>| b@)
    }

    /// The most buffers the pool keeps.
    pub closed spec fn limit(&self) -> usize {
        self.max_size
    }

    /// The capacity a new buffer is made with.
    pub closed spec fn fresh_capacity(&self) -> usize {
        self.default_capacity
    }

    /// The pool never holds more buffers than its limit.
    pub closed spec fn wf(&self) -> bool {
        self.buffers@.len() <= self.max_size
    }

    /// An empty pool.
    pub fn new(max_size: usize, default_capacity: usize) -> (p: Self)
        ensures
            p.wf(),
            p.held() == Seq::<Seq<u8>>::empty(),
            p.limit() == max_size,
            p.fresh_capacity() == default_capacity,
    {
        let p = ProtobufBufferPool { buffers: Vec::new(), max_size, default_capacity };
        assert(p.held() =~= Seq::<Seq<u8>>::empty());
        p
    }

    /// An empty buffer: the oldest one held, emptied, else a new one.
    pub fn get_buffer(&mut self) -> (b: Vec<u8>)
        requires
            old(self).wf(),
        ensures
            final(self).wf(),
            b@.len() == 0,
            final(self).held() == (if old(self).held().len() > 0 {
                old(self).held().drop_first()
            } else {
                old(self).held()
            }),
            final(self).limit() == old(self).limit(),
            final(self).fresh_capacity() == old(self).fresh_capacity(),
    {
        if self.buffers.len() > 0 {
            let ghost h = self.held();
            let mut b = self.buffers.remove(0);
            b.clear();
            assert(self.held() =~= h.drop_first());
            b
        } else {
            Vec::with_capacity(self.default_capacity)
        }
    }

    /// Keeps a buffer for reuse, unless the pool is full.
    pub fn return_buffer(&mut self, buf: Vec<u8>)
        requires
            old(self).wf(),
        ensures
            final(self).wf(),
            final(self).held() == (if old(self).held().len() < old(self).limit() {
                old(self).held().push(buf@)
            } else {
                old(self).held()
            }),
            final(self).limit() == old(self).limit(),
            final(self).fresh_capacity() == old(self).fresh_capacity(),
    {
        if self.buffers.len() < self.max_size {
            let ghost h = self.held();
            let ghost bv = buf@;
            self.buffers.push(buf);
            assert(self.held() =~= h.push(bv));
        }
    }

    /// How many buffers are held, and the pool's settings.
    pub fn stats(&self) -> (s: PoolStats)
        ensures
            s.available_buffers == self.held().len(),
            s.max_size == self.limit(),
            s.default_capacity == self.fresh_capacity(),
    {
        PoolStats {
            available_buffers: self.buffers.len(),
            max_size: self.max_size,
            default_capacity: self.default_capacity,
        }
    }
}

impl Default for ProtobufBufferPool {
    /// A pool of at most 1000 buffers of 4096 bytes.
    fn default() -> (p: Self)
        ensures
            p.wf(),
            p.held() == Seq::<Seq<u8>>::empty(),
            p.limit() == 1000,
            p.fresh_capacity() == 4096,
    {
        Self::new(1000, 4096)
    }
}

} // verus!
