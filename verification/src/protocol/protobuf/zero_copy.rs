//! Buffers kept for reuse by the protobuf paths that avoid copying, last
//! returned first out, up to the configured number.

use vstd::prelude::*;
use crate::protocol::protobuf::{ProtobufConfig, ProtobufError};
use crate::protocol::wire::vec_capacity;

verus! {

/// The smallest capacity a new buffer is made with.
pub const MIN_BUFFER_CAPACITY: usize = 4096;

/// A processor that hands out reusable buffers.
pub struct ProtobufZeroCopy {
    config: ProtobufConfig,
    buffer_pool: Vec<Vec<u8>>,
}

impl ProtobufZeroCopy {
    /// The contents of the buffers held, in the order they came back.
    pub closed spec fn held(&self) -> Seq<Seq<u8>> {
        self.buffer_pool@.map_values(|b: Vec<u8>| b@)
    }

    /// The settings it was made with.
    pub closed spec fn settings(&self) -> ProtobufConfig {
        self.config
    }

    /// It never holds more buffers than the settings allow.
    pub closed spec fn wf(&self) -> bool {
        self.buffer_pool@.len() <= self.config.buffer_pool_size
    }

    /// A processor holding no buffer.
    pub fn new(config: ProtobufConfig) -> (z: Self)
        ensures
            z.wf(),
            z.held() == Seq::<Seq<u8>>::empty(),
            z.settings() == config,
    {
        let z = ProtobufZeroCopy { config, buffer_pool: Vec::new() };
        assert(z.held() =~= Seq::<Seq<u8>>::empty());
        z
    }

    /// An empty buffer: the one returned last, emptied, where one is held
    /// and it has room for `size` bytes, else a new one with room for
    /// `size` bytes and at least 4096. Either way the last one held leaves
    /// the pool.
    pub fn get_buffer(&mut self, size: usize) -> (b: Vec<u8>)
        requires
            old(self).wf(),
        ensures
            final(self).wf(),
            b@.len() == 0,
            final(self).held() == (if old(self).held().len() > 0 {
                old(self).held().drop_last()
            } else {
                old(self).held()
            }),
            final(self).settings() == old(self).settings(),
    {
        let ghost h = self.held();
        match self.buffer_pool.pop() {
            Some(mut buf) => {
                assert(self.held() =~= h.drop_last());
                buf.clear();
                if vec_capacity(&buf) >= size {
                    return buf;
                }
            },
            None => {
                assert(self.held() =~= h);
            },
        }
        let cap = if size > MIN_BUFFER_CAPACITY { size } else { MIN_BUFFER_CAPACITY };
        Vec::with_capacity(cap)
    }

    /// Keeps a buffer for reuse, unless the pool is full.
    pub fn return_buffer(&mut self, buf: Vec<u8>)
        requires
            old(self).wf(),
        ensures
            final(self).wf(),
            final(self).held() == (if old(self).held().len() < old(self).settings().buffer_pool_size {
                old(self).held().push(buf@)
            } else {
                old(self).held()
            }),
            final(self).settings() == old(self).settings(),
    {
        if self.buffer_pool.len() < self.config.buffer_pool_size {
            let ghost h = self.held();
            let ghost bv = buf@;
            self.buffer_pool.push(buf);
            assert(self.held() =~= h.push(bv));
        }
    }

    /// Hands the message back as it is: it is read where it lies.
    pub fn parse_zero_copy(&mut self, data: Vec<u8>) -> (r: Result<Vec<u8>, ProtobufError>)
        ensures
            r matches Ok(d) && d@ == data@,
            *final(self) == *old(self),
    {
        Ok(data)
    }
}

impl Default for ProtobufZeroCopy {
    fn default() -> (z: Self)
        ensures
            z.wf(),
            z.held() == Seq::<Seq<u8>>::empty(),
            z.settings() == ProtobufConfig::default_spec(),
    {
        Self::new(ProtobufConfig::default())
    }
}

} // verus!
