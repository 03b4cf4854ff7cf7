//! Read buffers of one size for connections: a buffer handed out is always
//! that many zero bytes, reused where the pool holds one, and the pool
//! counts hits, misses and returns.

use crate::protocol::wire::vec_capacity;
use vstd::prelude::*;

verus! {

/// The pool's counters and settings.
#[derive(Debug, Clone, Copy, PartialEq, Eq)]
pub struct BufferPoolStats {
    pub current_size: usize,
    pub max_size: usize,
    pub buffer_size: usize,
    pub hits: usize,
    pub misses: usize,
    pub returns: usize,
}

/// `n` zero bytes.
pub open spec fn zeros(n: usize) -> Seq<u8> {
    Seq::new(n as nat, |i: int| 0u8)
}

/// A pool of reusable buffers of `buffer_size` bytes.
pub struct BufferPool {
    buffer_size: usize,
    max_pool_size: usize,
    hits: usize,
    misses: usize,
    returns: usize,
    buffers: Vec<Vec<u8>>,
}

impl BufferPool {
    /// The contents of the buffers held, oldest first.
    pub closed spec fn held(&self) -> Seq<Seq<u8>> {
        self.buffers@.map_values(|b: Vec<u8>| b@)
    }

    /// The counters and settings as they stand (`current_size` is the
    /// number of buffers held).
    pub closed spec fn figures(&self) -> BufferPoolStats {
        BufferPoolStats {
            current_size: self.buffers@.len() as usize,
            max_size: self.max_pool_size,
            buffer_size: self.buffer_size,
            hits: self.hits,
            misses: self.misses,
            returns: self.returns,
        }
    }

    /// An empty pool with all counters at zero.
    pub fn new(buffer_size: usize, max_pool_size: usize) -> (p: Self)
        ensures
            p.held() == Seq::<Seq<u8>>::empty(),
            p.figures() == (BufferPoolStats {
                current_size: 0,
                max_size: max_pool_size,
                buffer_size,
                hits: 0,
                misses: 0,
                returns: 0,
            }),
    {
        let p = BufferPool { buffer_size, max_pool_size, hits: 0, misses: 0, returns: 0, buffers: Vec::new() };
        assert(p.held() =~= Seq::<Seq<u8>>::empty());
        p
    }

    /// `buffer_size` zero bytes: the oldest buffer held, reset (a hit), or a
    /// new one (a miss).
    pub fn get_buffer(&mut self) -> (b: Vec<u8>)
        ensures
            b@ == zeros(old(self).figures().buffer_size),
            old(self).held().len() > 0 ==> final(self).held() == old(self).held().drop_first()
                && final(self).figures() == (BufferPoolStats {
                current_size: (old(self).held().len() - 1) as usize,
                hits: old(self).figures().hits.wrapping_add(1),
                ..old(self).figures()
            }),
            old(self).held().len() == 0 ==> final(self).held() == old(self).held()
                && final(self).figures() == (BufferPoolStats {
                misses: old(self).figures().misses.wrapping_add(1),
                ..old(self).figures()
            }),
    {
        if self.buffers.len() > 0 {
            let ghost h = self.held();
            let mut b = self.buffers.remove(0);
            self.hits = self.hits.wrapping_add(1);
            b.clear();
            b.resize(self.buffer_size, 0);
            assert(self.held() =~= h.drop_first());
            assert(b@ =~= zeros(self.buffer_size));
            b
        } else {
            self.misses = self.misses.wrapping_add(1);
            let mut b: Vec<u8> = Vec::with_capacity(self.buffer_size);
            b.resize(self.buffer_size, 0);
            assert(b@ =~= zeros(self.buffer_size));
            b
        }
    }

    /// Takes a buffer back whose capacity is `capacity`: counted as a
    /// return; kept only where it can hold `buffer_size` bytes and the pool
    /// holds fewer than its limit.
    pub fn return_buffer_with_capacity(&mut self, buffer: Vec<u8>, capacity: usize)
        ensures
            final(self).figures().returns == old(self).figures().returns.wrapping_add(1),
            final(self).figures().hits == old(self).figures().hits,
            final(self).figures().misses == old(self).figures().misses,
            final(self).figures().max_size == old(self).figures().max_size,
            final(self).figures().buffer_size == old(self).figures().buffer_size,
            final(self).held() == (if capacity >= old(self).figures().buffer_size && old(self).held().len()
                < old(self).figures().max_size {
                old(self).held().push(buffer@)
            } else {
                old(self).held()
            }),
    {
        self.returns = self.returns.wrapping_add(1);
        if capacity < self.buffer_size {
            return;
        }
        if self.buffers.len() < self.max_pool_size {
            let ghost h = self.held();
            let ghost bv = buffer@;
            self.buffers.push(buffer);
            assert(self.held() =~= h.push(bv));
        }
    }

    /// Takes a buffer back (see `return_buffer_with_capacity`), by the
    /// capacity it has.
    pub fn return_buffer(&mut self, buffer: Vec<u8>)
        ensures
            final(self).figures().returns == old(self).figures().returns.wrapping_add(1),
            final(self).figures().hits == old(self).figures().hits,
            final(self).figures().misses == old(self).figures().misses,
            final(self).figures().max_size == old(self).figures().max_size,
            final(self).figures().buffer_size == old(self).figures().buffer_size,
            final(self).held() == old(self).held() || (old(self).held().len() < old(self).figures().max_size
                && final(self).held() == old(self).held().push(buffer@)),
    {
        let capacity = vec_capacity(&buffer);
        self.return_buffer_with_capacity(buffer, capacity);
    }

    /// The counters and settings.
    pub fn stats(&self) -> (s: BufferPoolStats)
        ensures
            s == self.figures(),
    {
        BufferPoolStats {
            current_size: self.buffers.len(),
            max_size: self.max_pool_size,
            buffer_size: self.buffer_size,
            hits: self.hits,
            misses: self.misses,
            returns: self.returns,
        }
    }

    /// Adds `min(count, max_size)` buffers of `buffer_size` zero bytes,
    /// whatever the pool holds already.
    pub fn prewarm(&mut self, count: usize)
        ensures
            ({
                let n = if count < old(self).figures().max_size {
                    count
                } else {
                    old(self).figures().max_size
                };
                final(self).held() == old(self).held() + Seq::new(n as nat, |i: int| zeros(old(self).figures().buffer_size))
            }),
            final(self).figures().hits == old(self).figures().hits,
            final(self).figures().misses == old(self).figures().misses,
            final(self).figures().returns == old(self).figures().returns,
            final(self).figures().max_size == old(self).figures().max_size,
            final(self).figures().buffer_size == old(self).figures().buffer_size,
    {
        let actual = if count < self.max_pool_size {
            count
        } else {
            self.max_pool_size
        };
        let ghost h = self.held();
        let ghost z = zeros(self.buffer_size);
        let mut k: usize = 0;
        while k < actual
            invariant
                k <= actual,
                self.buffer_size == old(self).buffer_size,
                self.max_pool_size == old(self).max_pool_size,
                self.hits == old(self).hits,
                self.misses == old(self).misses,
                self.returns == old(self).returns,
                z == zeros(self.buffer_size),
                self.held() == h + Seq::new(k as nat, |i: int| z),
            decreases actual - k,
        {
            let mut b: Vec<u8> = Vec::with_capacity(self.buffer_size);
            b.resize(self.buffer_size, 0);
            assert(b@ =~= z);
            let ghost before = self.held();
            self.buffers.push(b);
            assert(self.held() =~= before.push(z));
            k = k + 1;
            assert(self.held() =~= h + Seq::new(k as nat, |i: int| z));
        }
    }
}

} // verus!
