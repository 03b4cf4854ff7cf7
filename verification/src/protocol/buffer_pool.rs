//! A pool of reusable buffers in four size classes: small (4 KiB), medium
//! (64 KiB), large (256 KiB) and extra large (1 MiB), with counters.

use vstd::prelude::*;
use std::time::{Duration, Instant};
use crate::clock::{duration_nanos, duration_secs, duration_since, instant_now};
use crate::protocol::wire::vec_capacity;

verus! {

/// Settings of the pool.
#[derive(Debug, Clone, Copy, PartialEq, Eq)]
pub struct BufferPoolConfig {
    pub max_small_buffers: usize,
    pub max_medium_buffers: usize,
    pub max_large_buffers: usize,
    pub max_xlarge_buffers: usize,
    pub small_buffer_size: usize,
    pub medium_buffer_size: usize,
    pub large_buffer_size: usize,
    pub xlarge_buffer_size: usize,
    pub cleanup_interval_secs: u64,
    pub enable_prewarming: bool,
    pub prewarm_count: usize,
}

impl BufferPoolConfig {
    /// The default settings: at most 200, 100, 50 and 20 buffers of 4 KiB,
    /// 64 KiB, 256 KiB and 1 MiB; clean-up each minute; ten buffers made
    /// ahead.
    pub open spec fn default_spec() -> BufferPoolConfig {
        BufferPoolConfig {
            max_small_buffers: 200,
            max_medium_buffers: 100,
            max_large_buffers: 50,
            max_xlarge_buffers: 20,
            small_buffer_size: 4096,
            medium_buffer_size: 65536,
            large_buffer_size: 262144,
            xlarge_buffer_size: 1048576,
            cleanup_interval_secs: 60,
            enable_prewarming: true,
            prewarm_count: 10,
        }
    }

    /// The most buffers kept of a class (0 small to 3 extra large).
    pub open spec fn max_of(self, k: int) -> usize {
        if k == 0 {
            self.max_small_buffers
        } else if k == 1 {
            self.max_medium_buffers
        } else if k == 2 {
            self.max_large_buffers
        } else {
            self.max_xlarge_buffers
        }
    }

    /// The buffer size of a class.
    pub open spec fn size_of(self, k: int) -> usize {
        if k == 0 {
            self.small_buffer_size
        } else if k == 1 {
            self.medium_buffer_size
        } else if k == 2 {
            self.large_buffer_size
        } else {
            self.xlarge_buffer_size
        }
    }

    /// How many buffers of a class are made ahead: the count for small and
    /// medium, half of it for large, a quarter for extra large.
    pub open spec fn prewarm_of(self, k: int) -> usize {
        if k <= 1 {
            self.prewarm_count
        } else if k == 2 {
            self.prewarm_count / 2
        } else {
            self.prewarm_count / 4
        }
    }
}

impl Default for BufferPoolConfig {
    fn default() -> (c: Self)
        ensures
            c == BufferPoolConfig::default_spec(),
    {
        BufferPoolConfig {
            max_small_buffers: 200,
            max_medium_buffers: 100,
            max_large_buffers: 50,
            max_xlarge_buffers: 20,
            small_buffer_size: 4 * 1024,
            medium_buffer_size: 64 * 1024,
            large_buffer_size: 256 * 1024,
            xlarge_buffer_size: 1024 * 1024,
            cleanup_interval_secs: 60,
            enable_prewarming: true,
            prewarm_count: 10,
        }
    }
}

/// The class a size hint asks for: up to 4096 small, up to 65536 medium,
/// up to 262144 large, extra large above.
pub open spec fn class_of_hint(h: usize) -> int {
    if h <= 4096 {
        0
    } else if h <= 65536 {
        1
    } else if h <= 262144 {
        2
    } else {
        3
    }
}

/// The class a returned buffer goes back to by its capacity: up to 8192
/// small, up to 131072 medium, up to 524288 large, extra large above.
pub open spec fn class_of_capacity(c: usize) -> int {
    if c <= 8192 {
        0
    } else if c <= 131072 {
        1
    } else if c <= 524288 {
        2
    } else {
        3
    }
}

/// Counters of the pool.
#[derive(Debug, Clone, Copy, PartialEq, Eq)]
pub struct BufferPoolStats {
    pub total_allocations: u64,
    pub total_reuses: u64,
    pub total_returns: u64,
    pub small_allocations: usize,
    pub medium_allocations: usize,
    pub large_allocations: usize,
    pub xlarge_allocations: usize,
    pub small_reuses: usize,
    pub medium_reuses: usize,
    pub large_reuses: usize,
    pub xlarge_reuses: usize,
    pub total_memory_allocated: u64,
    pub total_memory_reused: u64,
    pub peak_memory_usage: u64,
    pub avg_allocation_time_ns: u64,
    pub cleanup_count: usize,
}

impl BufferPoolStats {
    /// All counters at zero.
    pub open spec fn zero_spec() -> BufferPoolStats {
        BufferPoolStats {
            total_allocations: 0,
            total_reuses: 0,
            total_returns: 0,
            small_allocations: 0,
            medium_allocations: 0,
            large_allocations: 0,
            xlarge_allocations: 0,
            small_reuses: 0,
            medium_reuses: 0,
            large_reuses: 0,
            xlarge_reuses: 0,
            total_memory_allocated: 0,
            total_memory_reused: 0,
            peak_memory_usage: 0,
            avg_allocation_time_ns: 0,
            cleanup_count: 0,
        }
    }

    /// The counters after a buffer of class `k` is reused.
    pub open spec fn reused(self, k: int) -> BufferPoolStats {
        let s = BufferPoolStats { total_reuses: self.total_reuses.wrapping_add(1), ..self };
        if k == 0 {
            BufferPoolStats { small_reuses: self.small_reuses.wrapping_add(1), ..s }
        } else if k == 1 {
            BufferPoolStats { medium_reuses: self.medium_reuses.wrapping_add(1), ..s }
        } else if k == 2 {
            BufferPoolStats { large_reuses: self.large_reuses.wrapping_add(1), ..s }
        } else {
            BufferPoolStats { xlarge_reuses: self.xlarge_reuses.wrapping_add(1), ..s }
        }
    }

    /// The counters after a buffer of class `k` and `size` bytes is made.
    pub open spec fn allocated(self, k: int, size: usize) -> BufferPoolStats {
        let s = BufferPoolStats {
            total_allocations: self.total_allocations.wrapping_add(1),
            total_memory_allocated: self.total_memory_allocated.wrapping_add(size as u64),
            ..self
        };
        if k == 0 {
            BufferPoolStats { small_allocations: self.small_allocations.wrapping_add(1), ..s }
        } else if k == 1 {
            BufferPoolStats { medium_allocations: self.medium_allocations.wrapping_add(1), ..s }
        } else if k == 2 {
            BufferPoolStats { large_allocations: self.large_allocations.wrapping_add(1), ..s }
        } else {
            BufferPoolStats { xlarge_allocations: self.xlarge_allocations.wrapping_add(1), ..s }
        }
    }
}

/// The counters at one moment, with the buffers held and the memory they
/// stand for.
#[derive(Debug, Clone, Copy, PartialEq, Eq)]
pub struct BufferPoolStatsSnapshot {
    pub total_allocations: u64,
    pub total_reuses: u64,
    pub total_returns: u64,
    pub small_allocations: usize,
    pub medium_allocations: usize,
    pub large_allocations: usize,
    pub xlarge_allocations: usize,
    pub small_reuses: usize,
    pub medium_reuses: usize,
    pub large_reuses: usize,
    pub xlarge_reuses: usize,
    pub total_memory_allocated: u64,
    pub total_memory_reused: u64,
    pub peak_memory_usage: u64,
    pub current_memory_usage: u64,
    pub avg_allocation_time_ns: u64,
    pub cleanup_count: usize,
    pub small_buffers_available: usize,
    pub medium_buffers_available: usize,
    pub large_buffers_available: usize,
    pub xlarge_buffers_available: usize,
}

/// Buffers kept for reuse in four size classes.
pub struct BufferPool {
    small_buffers: Vec<Vec<u8>>,
    medium_buffers: Vec<Vec<u8>>,
    large_buffers: Vec<Vec<u8>>,
    xlarge_buffers: Vec<Vec<u8>>,
    config: BufferPoolConfig,
    stats: BufferPoolStats,
    last_cleanup: Instant,
}

impl BufferPool {
    /// The buffers kept in a class, oldest first.
    pub closed spec fn pool(&self, k: int) -> Seq<Vec<u8>> {
        if k == 0 {
            self.small_buffers@
        } else if k == 1 {
            self.medium_buffers@
        } else if k == 2 {
            self.large_buffers@
        } else {
            self.xlarge_buffers@
        }
    }

    /// The settings.
    pub closed spec fn settings(&self) -> BufferPoolConfig {
        self.config
    }

    /// The counters.
    pub closed spec fn figures(&self) -> BufferPoolStats {
        self.stats
    }

    /// The memory the kept buffers stand for: each class's count times its
    /// buffer size.
    pub open spec fn memory_usage(&self) -> int {
        usage_of(self.settings(), self.pool(0).len(), self.pool(1).len(), self.pool(2).len(), self.pool(3).len())
    }

    /// Every kept buffer is empty.
    pub open spec fn wf(&self) -> bool {
        forall|k: int, i: int| 0 <= k < 4 && 0 <= i < self.pool(k).len() ==> (#[trigger] self.pool(k)[i])@.len() == 0
    }
}

/// A class's buffers after a clean-up: at most half the maximum, the
/// oldest kept.
pub open spec fn trimmed(pool: Seq<Vec<u8>>, max: usize) -> Seq<Vec<u8>> {
    if pool.len() > max / 2 {
        pool.take((max / 2) as int)
    } else {
        pool
    }
}

/// The average allocation time after a new time: the first time as it is,
/// then nine tenths of the average and one tenth of the new time.
pub open spec fn average_after(avg: u64, t: u64) -> u64 {
    if avg == 0 {
        t
    } else {
        ((avg * 9 + t) / 10) as u64
    }
}

/// The size of a new buffer for a hint: the class size, or for extra large
/// the hint where it is larger.
pub open spec fn new_buffer_size(c: BufferPoolConfig, h: usize) -> usize {
    let k = class_of_hint(h);
    if k < 3 {
        c.size_of(k)
    } else if h >= c.xlarge_buffer_size {
        h
    } else {
        c.xlarge_buffer_size
    }
}

impl BufferPool {
    fn empty_buffers(n: usize, size: usize) -> (v: Vec<Vec<u8>>)
        ensures
            v@.len() == n,
            forall|i: int| 0 <= i < n ==> (#[trigger] v@[i])@.len() == 0,
    {
        let mut v: Vec<Vec<u8>> = Vec::new();
        let mut i: usize = 0;
        while i < n
            invariant
                i <= n,
                v@.len() == i,
                forall|j: int| 0 <= j < i ==> (#[trigger] v@[j])@.len() == 0,
            decreases n - i,
        {
            v.push(Vec::with_capacity(size));
            i = i + 1;
        }
        v
    }

    /// A pool with the given settings; where making ahead is on, it holds
    /// that many empty buffers of each class (half as many large, a quarter
    /// as many extra large).
    pub fn with_config(config: BufferPoolConfig) -> (p: Self)
        ensures
            p.wf(),
            p.settings() == config,
            p.figures() == BufferPoolStats::zero_spec(),
            forall|k: int| 0 <= k < 4 ==> #[trigger] p.pool(k).len() == (if config.enable_prewarming {
                config.prewarm_of(k)
            } else {
                0
            }),
    {
        let warm = config.enable_prewarming;
        let n = config.prewarm_count;
        BufferPool {
            small_buffers: Self::empty_buffers(if warm { n } else { 0 }, config.small_buffer_size),
            medium_buffers: Self::empty_buffers(if warm { n } else { 0 }, config.medium_buffer_size),
            large_buffers: Self::empty_buffers(if warm { n / 2 } else { 0 }, config.large_buffer_size),
            xlarge_buffers: Self::empty_buffers(if warm { n / 4 } else { 0 }, config.xlarge_buffer_size),
            config,
            stats: BufferPoolStats {
                total_allocations: 0,
                total_reuses: 0,
                total_returns: 0,
                small_allocations: 0,
                medium_allocations: 0,
                large_allocations: 0,
                xlarge_allocations: 0,
                small_reuses: 0,
                medium_reuses: 0,
                large_reuses: 0,
                xlarge_reuses: 0,
                total_memory_allocated: 0,
                total_memory_reused: 0,
                peak_memory_usage: 0,
                avg_allocation_time_ns: 0,
                cleanup_count: 0,
            },
            last_cleanup: instant_now(),
        }
    }

    /// A pool with the default settings.
    pub fn new() -> (p: Self)
        ensures
            p.wf(),
            p.settings() == BufferPoolConfig::default_spec(),
            p.figures() == BufferPoolStats::zero_spec(),
            p.pool(0).len() == 10 && p.pool(1).len() == 10 && p.pool(2).len() == 5 && p.pool(3).len() == 2,
    {
        let p = Self::with_config(BufferPoolConfig::default());
        assert(p.pool(0).len() == 10 && p.pool(1).len() == 10 && p.pool(2).len() == 5 && p.pool(3).len() == 2);
        p
    }

    /// Keeps at most half the maximum of each class, dropping the newest.
    fn cleanup_excess_buffers(&mut self)
        requires
            old(self).wf(),
        ensures
            final(self).wf(),
            forall|k: int| 0 <= k < 4 ==> #[trigger] final(self).pool(k) == trimmed(old(self).pool(k), old(self).settings().max_of(k)),
            final(self).settings() == old(self).settings(),
            final(self).figures() == (BufferPoolStats { cleanup_count: old(self).figures().cleanup_count.wrapping_add(1), ..old(self).figures() }),
    {
        let target = self.config.max_small_buffers / 2;
        if self.small_buffers.len() > target {
            self.small_buffers.truncate(target);
        }
        let target = self.config.max_medium_buffers / 2;
        if self.medium_buffers.len() > target {
            self.medium_buffers.truncate(target);
        }
        let target = self.config.max_large_buffers / 2;
        if self.large_buffers.len() > target {
            self.large_buffers.truncate(target);
        }
        let target = self.config.max_xlarge_buffers / 2;
        if self.xlarge_buffers.len() > target {
            self.xlarge_buffers.truncate(target);
        }
        self.stats.cleanup_count = self.stats.cleanup_count.wrapping_add(1);
        assert forall|k: int| 0 <= k < 4 implies #[trigger] self.pool(k) == trimmed(old(self).pool(k), old(self).settings().max_of(k)) by {
            assert(self.pool(k) =~= trimmed(old(self).pool(k), old(self).settings().max_of(k)));
        }
    }

    /// The memory the kept buffers stand for.
    fn calculate_current_memory_usage(&self) -> (m: u64)
        requires
            self.memory_usage() <= u64::MAX,
        ensures
            m == self.memory_usage(),
    {
        let a = self.small_buffers.len() as u128 * self.config.small_buffer_size as u128;
        let b = self.medium_buffers.len() as u128 * self.config.medium_buffer_size as u128;
        let c = self.large_buffers.len() as u128 * self.config.large_buffer_size as u128;
        let d = self.xlarge_buffers.len() as u128 * self.config.xlarge_buffer_size as u128;
        assert(a + b + c + d == self.memory_usage());
        (a + b + c + d) as u64
    }

    /// Keeps the average allocation time and the peak memory.
    fn update_allocation_stats(&mut self, allocation_time_ns: u64)
        requires
            old(self).memory_usage() <= u64::MAX,
        ensures
            final(self).small_buffers == old(self).small_buffers,
            final(self).medium_buffers == old(self).medium_buffers,
            final(self).large_buffers == old(self).large_buffers,
            final(self).xlarge_buffers == old(self).xlarge_buffers,
            final(self).config == old(self).config,
            final(self).figures() == (BufferPoolStats {
                avg_allocation_time_ns: average_after(old(self).figures().avg_allocation_time_ns, allocation_time_ns),
                peak_memory_usage: if old(self).memory_usage() > old(self).figures().peak_memory_usage {
                    old(self).memory_usage() as u64
                } else {
                    old(self).figures().peak_memory_usage
                },
                ..old(self).figures()
            }),
    {
        let current = self.stats.avg_allocation_time_ns;
        self.stats.avg_allocation_time_ns = if current == 0 {
            allocation_time_ns
        } else {
            let wide: u128 = (current as u128) * 9 + allocation_time_ns as u128;
            (wide / 10) as u64
        };
        let memory = self.calculate_current_memory_usage();
        if memory > self.stats.peak_memory_usage {
            self.stats.peak_memory_usage = memory;
        }
    }
}

/// The memory that buffers of the given counts stand for.
pub open spec fn usage_of(c: BufferPoolConfig, l0: nat, l1: nat, l2: nat, l3: nat) -> int {
    l0 * c.size_of(0) + l1 * c.size_of(1) + l2 * c.size_of(2) + l3 * c.size_of(3)
}

proof fn lemma_usage_monotone(c: BufferPoolConfig, a0: nat, a1: nat, a2: nat, a3: nat, b0: nat, b1: nat, b2: nat, b3: nat)
    requires
        a0 <= b0,
        a1 <= b1,
        a2 <= b2,
        a3 <= b3,
    ensures
        usage_of(c, a0, a1, a2, a3) <= usage_of(c, b0, b1, b2, b3),
{
    assert(a0 * c.size_of(0) <= b0 * c.size_of(0)) by (nonlinear_arith)
        requires
            a0 <= b0,
    ;
    assert(a1 * c.size_of(1) <= b1 * c.size_of(1)) by (nonlinear_arith)
        requires
            a1 <= b1,
    ;
    assert(a2 * c.size_of(2) <= b2 * c.size_of(2)) by (nonlinear_arith)
        requires
            a2 <= b2,
    ;
    assert(a3 * c.size_of(3) <= b3 * c.size_of(3)) by (nonlinear_arith)
        requires
            a3 <= b3,
    ;
}

/// The counters after the timing of a request: the average time and the
/// peak of the memory `usage`.
pub open spec fn timed(s: BufferPoolStats, t: u64, usage: int) -> BufferPoolStats {
    BufferPoolStats {
        avg_allocation_time_ns: average_after(s.avg_allocation_time_ns, t),
        peak_memory_usage: if usage > s.peak_memory_usage {
            usage as u64
        } else {
            s.peak_memory_usage
        },
        ..s
    }
}

impl BufferPool {
    /// The buffers of class `k` once a clean-up is or is not done.
    pub open spec fn pool_after(&self, k: int, cleanup_due: bool) -> Seq<Vec<u8>> {
        if cleanup_due {
            trimmed(self.pool(k), self.settings().max_of(k))
        } else {
            self.pool(k)
        }
    }

    fn pop_front(&mut self, k: usize) -> (r: Option<Vec<u8>>)
        requires
            old(self).wf(),
            k < 4,
        ensures
            final(self).wf(),
            final(self).config == old(self).config,
            final(self).stats == old(self).stats,
            old(self).pool(k as int).len() == 0 ==> r is None && forall|j: int| 0 <= j < 4 ==> #[trigger] final(self).pool(j) == old(self).pool(j),
            old(self).pool(k as int).len() > 0 ==> r == Some(old(self).pool(k as int)[0]) && final(self).pool(k as int) == old(self).pool(k as int).skip(1)
                && forall|j: int| 0 <= j < 4 && j != k ==> #[trigger] final(self).pool(j) == old(self).pool(j),
    {
        let r = if k == 0 {
            if self.small_buffers.len() > 0 {
                Some(self.small_buffers.remove(0))
            } else {
                None
            }
        } else if k == 1 {
            if self.medium_buffers.len() > 0 {
                Some(self.medium_buffers.remove(0))
            } else {
                None
            }
        } else if k == 2 {
            if self.large_buffers.len() > 0 {
                Some(self.large_buffers.remove(0))
            } else {
                None
            }
        } else {
            if self.xlarge_buffers.len() > 0 {
                Some(self.xlarge_buffers.remove(0))
            } else {
                None
            }
        };
        assert forall|j: int, i: int| 0 <= j < 4 && 0 <= i < self.pool(j).len() implies (#[trigger] self.pool(j)[i])@.len() == 0 by {
            if j == k {
                assert(self.pool(j)[i] == old(self).pool(j)[i + 1]);
            } else {
                assert(self.pool(j) == old(self).pool(j));
            }
        }
        assert(old(self).pool(k as int).len() > 0 ==> final(self).pool(k as int) =~= old(self).pool(k as int).skip(1));
        r
    }

    fn allocate_new_buffer(&mut self, size_hint: usize) -> (b: Vec<u8>)
        ensures
            b@.len() == 0,
            final(self).small_buffers == old(self).small_buffers,
            final(self).medium_buffers == old(self).medium_buffers,
            final(self).large_buffers == old(self).large_buffers,
            final(self).xlarge_buffers == old(self).xlarge_buffers,
            final(self).config == old(self).config,
            final(self).stats == old(self).stats.allocated(class_of_hint(size_hint), new_buffer_size(old(self).config, size_hint)),
    {
        let actual_size = if size_hint <= 4096 {
            self.stats.small_allocations = self.stats.small_allocations.wrapping_add(1);
            self.config.small_buffer_size
        } else if size_hint <= 65536 {
            self.stats.medium_allocations = self.stats.medium_allocations.wrapping_add(1);
            self.config.medium_buffer_size
        } else if size_hint <= 262144 {
            self.stats.large_allocations = self.stats.large_allocations.wrapping_add(1);
            self.config.large_buffer_size
        } else {
            self.stats.xlarge_allocations = self.stats.xlarge_allocations.wrapping_add(1);
            if size_hint >= self.config.xlarge_buffer_size {
                size_hint
            } else {
                self.config.xlarge_buffer_size
            }
        };
        self.stats.total_allocations = self.stats.total_allocations.wrapping_add(1);
        self.stats.total_memory_allocated = self.stats.total_memory_allocated.wrapping_add(actual_size as u64);
        Vec::with_capacity(actual_size)
    }

    fn count_reuse(&mut self, k: usize)
        requires
            k < 4,
        ensures
            final(self).small_buffers == old(self).small_buffers,
            final(self).medium_buffers == old(self).medium_buffers,
            final(self).large_buffers == old(self).large_buffers,
            final(self).xlarge_buffers == old(self).xlarge_buffers,
            final(self).config == old(self).config,
            final(self).stats == old(self).stats.reused(k as int),
    {
        if k == 0 {
            self.stats.small_reuses = self.stats.small_reuses.wrapping_add(1);
        } else if k == 1 {
            self.stats.medium_reuses = self.stats.medium_reuses.wrapping_add(1);
        } else if k == 2 {
            self.stats.large_reuses = self.stats.large_reuses.wrapping_add(1);
        } else {
            self.stats.xlarge_reuses = self.stats.xlarge_reuses.wrapping_add(1);
        }
        self.stats.total_reuses = self.stats.total_reuses.wrapping_add(1);
    }

    /// What `take_buffer` does, from this pool to `fin`, handing out `b`,
    /// for a request of `size_hint` bytes, with or without a clean-up first,
    /// taking `allocation_time_ns`.
    pub open spec fn took(&self, fin: Self, b: Vec<u8>, size_hint: usize, cleanup_due: bool, allocation_time_ns: u64) -> bool {
        &&& fin.wf()
        &&& fin.settings() == self.settings()
        &&& b@.len() == 0
        &&& {
        let c = self.settings();
        let k = class_of_hint(size_hint);
        let s0 = if cleanup_due {
            BufferPoolStats { cleanup_count: self.figures().cleanup_count.wrapping_add(1), ..self.figures() }
        } else {
            self.figures()
        };
        let p = |j: int| self.pool_after(j, cleanup_due);
        if p(k).len() > 0 {
            &&& b == p(k)[0]
            &&& fin.pool(k) == p(k).skip(1)
            &&& forall|j: int| 0 <= j < 4 && j != k ==> #[trigger] fin.pool(j) == p(j)
            &&& fin.figures() == timed(s0.reused(k), allocation_time_ns, fin.memory_usage())
        } else {
            &&& forall|j: int| 0 <= j < 4 ==> #[trigger] fin.pool(j) == p(j)
            &&& fin.figures() == timed(s0, allocation_time_ns, fin.memory_usage()).allocated(k, new_buffer_size(c, size_hint))
        }
        }
    }

    /// A buffer for a request of `size_hint` bytes, given whether a
    /// clean-up is due and how long the request took: after the clean-up
    /// (see `trimmed`), the oldest kept buffer of the hint's class, or else
    /// a new empty one of the class size (see `new_buffer_size`). The
    /// counters count the reuse or the new buffer, the time and the peak
    /// memory after the buffer left the pool.
    pub fn take_buffer(&mut self, size_hint: usize, cleanup_due: bool, allocation_time_ns: u64) -> (b: Vec<u8>)
        requires
            old(self).wf(),
            old(self).memory_usage() <= u64::MAX,
        ensures
            final(self).wf(),
            final(self).settings() == old(self).settings(),
            old(self).took(*final(self), b, size_hint, cleanup_due, allocation_time_ns),
    {
        if cleanup_due {
            self.cleanup_excess_buffers();
        }
        let ghost mid = *self;
        let k: usize = if size_hint <= 4096 {
            0
        } else if size_hint <= 65536 {
            1
        } else if size_hint <= 262144 {
            2
        } else {
            3
        };
        let reused = self.pop_front(k);
        proof {
            assert forall|j: int| 0 <= j < 4 implies #[trigger] self.pool(j).len() <= old(self).pool(j).len() by {
                assert(mid.pool(j) == old(self).pool_after(j, cleanup_due));
            }
            assert(self.pool(0).len() <= old(self).pool(0).len());
            assert(self.pool(1).len() <= old(self).pool(1).len());
            assert(self.pool(2).len() <= old(self).pool(2).len());
            assert(self.pool(3).len() <= old(self).pool(3).len());
            lemma_usage_monotone(self.config, self.pool(0).len(), self.pool(1).len(), self.pool(2).len(), self.pool(3).len(),
                old(self).pool(0).len(), old(self).pool(1).len(), old(self).pool(2).len(), old(self).pool(3).len());
        }
        match reused {
            Some(b) => {
                self.count_reuse(k);
                self.update_allocation_stats(allocation_time_ns);
                b
            },
            None => {
                self.update_allocation_stats(allocation_time_ns);
                self.allocate_new_buffer(size_hint)
            },
        }
    }

    /// A buffer for a request of `size_hint` bytes (see `take_buffer`); a
    /// clean-up is done first where the interval has passed since the last
    /// one. Whether it has, and the time the request took, come from the
    /// clock and are not named.
    pub fn get_buffer(&mut self, size_hint: usize) -> (b: Vec<u8>)
        requires
            old(self).wf(),
            old(self).memory_usage() <= u64::MAX,
        ensures
            final(self).wf(),
            final(self).settings() == old(self).settings(),
            b@.len() == 0,
            final(self).memory_usage() <= old(self).memory_usage(),
            exists|due: bool, t: u64| #[trigger] old(self).took(*final(self), b, size_hint, due, t),
    {
        let start = instant_now();
        let since = duration_secs(&duration_since(&start, &self.last_cleanup));
        let due = since >= self.config.cleanup_interval_secs;
        if due {
            self.last_cleanup = start;
        }
        let t = duration_nanos(&duration_since(&instant_now(), &start));
        let ghost mid = *self;
        let b = self.take_buffer(size_hint, due, t as u64);
        proof {
            assert(old(self).took(*self, b, size_hint, due, t as u64)) by {
                assert(mid.took(*self, b, size_hint, due, t as u64));
                assert forall|j: int| 0 <= j < 4 implies #[trigger] mid.pool_after(j, due) == old(self).pool_after(j, due) by {
                    assert(mid.pool(j) == old(self).pool(j));
                }
            }
            let c = old(self).settings();
            assert(self.pool(0).len() <= old(self).pool(0).len());
            assert(self.pool(1).len() <= old(self).pool(1).len());
            assert(self.pool(2).len() <= old(self).pool(2).len());
            assert(self.pool(3).len() <= old(self).pool(3).len());
            lemma_usage_monotone(c, self.pool(0).len(), self.pool(1).len(), self.pool(2).len(), self.pool(3).len(),
                old(self).pool(0).len(), old(self).pool(1).len(), old(self).pool(2).len(), old(self).pool(3).len());
        }
        b
    }

    /// A buffer for reading: of the medium size.
    pub fn get_read_buffer(&mut self) -> (b: Vec<u8>)
        requires
            old(self).wf(),
            old(self).memory_usage() <= u64::MAX,
        ensures
            final(self).wf(),
            final(self).settings() == old(self).settings(),
            b@.len() == 0,
            exists|due: bool, t: u64| #[trigger] old(self).took(*final(self), b, old(self).settings().medium_buffer_size, due, t),
    {
        let h = self.config.medium_buffer_size;
        self.get_buffer(h)
    }

    /// A buffer for writing: of the large size.
    pub fn get_write_buffer(&mut self) -> (b: Vec<u8>)
        requires
            old(self).wf(),
            old(self).memory_usage() <= u64::MAX,
        ensures
            final(self).wf(),
            final(self).settings() == old(self).settings(),
            b@.len() == 0,
            exists|due: bool, t: u64| #[trigger] old(self).took(*final(self), b, old(self).settings().large_buffer_size, due, t),
    {
        let h = self.config.large_buffer_size;
        self.get_buffer(h)
    }

    /// What `return_buffer_with_capacity` does to the pool, from this one
    /// to `fin`, for a buffer of the given capacity.
    pub open spec fn kept_as(&self, fin: Self, capacity: usize) -> bool {
        let k = class_of_capacity(capacity);
        if self.pool(k).len() < self.settings().max_of(k) {
            &&& fin.pool(k).len() == self.pool(k).len() + 1
            &&& fin.pool(k).drop_last() == self.pool(k)
            &&& forall|j: int| 0 <= j < 4 && j != k ==> #[trigger] fin.pool(j) == self.pool(j)
            &&& fin.figures() == (BufferPoolStats {
                total_returns: self.figures().total_returns.wrapping_add(1),
                total_memory_reused: self.figures().total_memory_reused.wrapping_add(capacity as u64),
                ..self.figures()
            })
        } else {
            &&& forall|j: int| 0 <= j < 4 ==> #[trigger] fin.pool(j) == self.pool(j)
            &&& fin.figures() == self.figures()
        }
    }

    /// Keeps a buffer of the given capacity for reuse, emptied, in the
    /// class of its capacity (see `class_of_capacity`) where that class is
    /// not full; the return and the capacity are counted then.
    pub fn return_buffer_with_capacity(&mut self, buffer: Vec<u8>, capacity: usize)
        requires
            old(self).wf(),
        ensures
            final(self).wf(),
            final(self).settings() == old(self).settings(),
            old(self).kept_as(*final(self), capacity),
    {
        let mut buffer = buffer;
        buffer.clear();
        let returned = if capacity <= 8192 {
            if self.small_buffers.len() < self.config.max_small_buffers {
                self.small_buffers.push(buffer);
                true
            } else {
                false
            }
        } else if capacity <= 131072 {
            if self.medium_buffers.len() < self.config.max_medium_buffers {
                self.medium_buffers.push(buffer);
                true
            } else {
                false
            }
        } else if capacity <= 524288 {
            if self.large_buffers.len() < self.config.max_large_buffers {
                self.large_buffers.push(buffer);
                true
            } else {
                false
            }
        } else {
            if self.xlarge_buffers.len() < self.config.max_xlarge_buffers {
                self.xlarge_buffers.push(buffer);
                true
            } else {
                false
            }
        };
        if returned {
            self.stats.total_returns = self.stats.total_returns.wrapping_add(1);
            self.stats.total_memory_reused = self.stats.total_memory_reused.wrapping_add(capacity as u64);
        }
        proof {
            let k = class_of_capacity(capacity);
            assert(self.pool(k).drop_last() =~= old(self).pool(k) || self.pool(k) =~= old(self).pool(k));
            assert forall|j: int, i: int| 0 <= j < 4 && 0 <= i < self.pool(j).len() implies (#[trigger] self.pool(j)[i])@.len() == 0 by {
                if j == k && i == old(self).pool(k).len() {
                } else {
                    assert(self.pool(j)[i] == old(self).pool(j)[i]);
                }
            }
        }
    }

    /// Keeps a buffer for reuse (see `return_buffer_with_capacity`), by the
    /// capacity the allocator gave it, which is at least its length and is
    /// not named otherwise.
    pub fn return_buffer(&mut self, buffer: Vec<u8>)
        requires
            old(self).wf(),
        ensures
            final(self).wf(),
            final(self).settings() == old(self).settings(),
            forall|j: int| 0 <= j < 4 ==> #[trigger] final(self).pool(j) == old(self).pool(j) || (final(self).pool(j).len() == old(self).pool(j).len() + 1
                && final(self).pool(j).drop_last() == old(self).pool(j)),
            final(self).figures().total_reuses == old(self).figures().total_reuses,
            final(self).figures().total_allocations == old(self).figures().total_allocations,
            exists|capacity: usize| capacity >= buffer@.len() && #[trigger] old(self).kept_as(*final(self), capacity),
    {
        let capacity = vec_capacity(&buffer);
        self.return_buffer_with_capacity(buffer, capacity);
        assert(old(self).kept_as(*self, capacity));
    }

    /// The counters, the buffers held and the memory they stand for.
    pub fn get_stats(&self) -> (s: BufferPoolStatsSnapshot)
        requires
            self.memory_usage() <= u64::MAX,
        ensures
            ({
                let f = self.figures();
                &&& s.total_allocations == f.total_allocations
                &&& s.total_reuses == f.total_reuses
                &&& s.total_returns == f.total_returns
                &&& s.small_allocations == f.small_allocations
                &&& s.medium_allocations == f.medium_allocations
                &&& s.large_allocations == f.large_allocations
                &&& s.xlarge_allocations == f.xlarge_allocations
                &&& s.small_reuses == f.small_reuses
                &&& s.medium_reuses == f.medium_reuses
                &&& s.large_reuses == f.large_reuses
                &&& s.xlarge_reuses == f.xlarge_reuses
                &&& s.total_memory_allocated == f.total_memory_allocated
                &&& s.total_memory_reused == f.total_memory_reused
                &&& s.peak_memory_usage == f.peak_memory_usage
                &&& s.current_memory_usage == self.memory_usage()
                &&& s.avg_allocation_time_ns == f.avg_allocation_time_ns
                &&& s.cleanup_count == f.cleanup_count
                &&& s.small_buffers_available == self.pool(0).len()
                &&& s.medium_buffers_available == self.pool(1).len()
                &&& s.large_buffers_available == self.pool(2).len()
                &&& s.xlarge_buffers_available == self.pool(3).len()
            }),
    {
        BufferPoolStatsSnapshot {
            total_allocations: self.stats.total_allocations,
            total_reuses: self.stats.total_reuses,
            total_returns: self.stats.total_returns,
            small_allocations: self.stats.small_allocations,
            medium_allocations: self.stats.medium_allocations,
            large_allocations: self.stats.large_allocations,
            xlarge_allocations: self.stats.xlarge_allocations,
            small_reuses: self.stats.small_reuses,
            medium_reuses: self.stats.medium_reuses,
            large_reuses: self.stats.large_reuses,
            xlarge_reuses: self.stats.xlarge_reuses,
            total_memory_allocated: self.stats.total_memory_allocated,
            total_memory_reused: self.stats.total_memory_reused,
            peak_memory_usage: self.stats.peak_memory_usage,
            current_memory_usage: self.calculate_current_memory_usage(),
            avg_allocation_time_ns: self.stats.avg_allocation_time_ns,
            cleanup_count: self.stats.cleanup_count,
            small_buffers_available: self.small_buffers.len(),
            medium_buffers_available: self.medium_buffers.len(),
            large_buffers_available: self.large_buffers.len(),
            xlarge_buffers_available: self.xlarge_buffers.len(),
        }
    }
}

impl Default for BufferPool {
    fn default() -> (p: Self)
        ensures
            p.wf(),
            p.settings() == BufferPoolConfig::default_spec(),
            p.figures() == BufferPoolStats::zero_spec(),
    {
        Self::new()
    }
}

} // verus!
