//! Counters of connections, commands, latencies and errors.

use vstd::prelude::*;
use std::time::Duration;

verus! {

/// A copy of the figures at one moment.
#[derive(Debug, Clone, Copy, PartialEq, Eq)]
pub struct MetricsSnapshot {
    pub total_connections: u64,
    pub active_connections: usize,
    pub total_commands: u64,
    pub avg_latency_ns: u64,
    pub min_latency_ns: u64,
    pub max_latency_ns: u64,
    pub parse_errors: u64,
    pub processing_errors: u64,
    pub network_errors: u64,
    pub buffer_pool_hits: u64,
    pub buffer_pool_misses: u64,
}

/// Counters of a server. Counters wrap around on overflow, as atomic
/// additions do.
#[derive(Debug, Clone, Copy, PartialEq, Eq)]
pub struct ConnectionMetrics {
    pub total_connections: u64,
    pub active_connections: usize,
    pub total_commands: u64,
    pub total_latency_ns: u64,
    pub min_latency_ns: u64,
    pub max_latency_ns: u64,
    pub parse_errors: u64,
    pub processing_errors: u64,
    pub network_errors: u64,
    pub buffer_pool_hits: u64,
    pub buffer_pool_misses: u64,
}

impl ConnectionMetrics {
    /// The counters after a command that took `ns` nanoseconds.
    pub open spec fn after_latency(self, ns: u64) -> ConnectionMetrics {
        ConnectionMetrics {
            total_commands: self.total_commands.wrapping_add(1),
            total_latency_ns: self.total_latency_ns.wrapping_add(ns),
            min_latency_ns: if ns < self.min_latency_ns {
                ns
            } else {
                self.min_latency_ns
            },
            max_latency_ns: if ns > self.max_latency_ns {
                ns
            } else {
                self.max_latency_ns
            },
            ..self
        }
    }

    /// All counters zero, the smallest latency at its largest value.
    pub fn new() -> (m: Self)
        ensures
            m == (ConnectionMetrics {
                total_connections: 0,
                active_connections: 0,
                total_commands: 0,
                total_latency_ns: 0,
                min_latency_ns: u64::MAX,
                max_latency_ns: 0,
                parse_errors: 0,
                processing_errors: 0,
                network_errors: 0,
                buffer_pool_hits: 0,
                buffer_pool_misses: 0,
            }),
    {
        ConnectionMetrics {
            total_connections: 0,
            active_connections: 0,
            total_commands: 0,
            total_latency_ns: 0,
            min_latency_ns: u64::MAX,
            max_latency_ns: 0,
            parse_errors: 0,
            processing_errors: 0,
            network_errors: 0,
            buffer_pool_hits: 0,
            buffer_pool_misses: 0,
        }
    }

    /// The counters after a connection opened.
    pub open spec fn after_opened(self) -> ConnectionMetrics {
        ConnectionMetrics {
            total_connections: self.total_connections.wrapping_add(1),
            active_connections: self.active_connections.wrapping_add(1),
            ..self
        }
    }

    /// The counters after a connection closed.
    pub open spec fn after_closed(self) -> ConnectionMetrics {
        ConnectionMetrics { active_connections: self.active_connections.wrapping_sub(1), ..self }
    }

    /// The counters after connections opened (`true`) and closed (`false`),
    /// first to last.
    pub open spec fn after_connections(self, events: Seq<bool>) -> ConnectionMetrics
        decreases events.len(),
    {
        if events.len() == 0 {
            self
        } else {
            let m = self.after_connections(events.drop_last());
            if events.last() {
                m.after_opened()
            } else {
                m.after_closed()
            }
        }
    }

    /// Counts a connection that opened.
    pub fn connection_opened(&mut self)
        ensures
            *final(self) == old(self).after_opened(),
    {
        self.total_connections = self.total_connections.wrapping_add(1);
        self.active_connections = self.active_connections.wrapping_add(1);
    }

    /// Counts a connection that closed.
    pub fn connection_closed(&mut self)
        ensures
            *final(self) == old(self).after_closed(),
    {
        self.active_connections = self.active_connections.wrapping_sub(1);
    }

    /// Counts a command that took `latency_ns` nanoseconds.
    pub fn record_latency_ns(&mut self, latency_ns: u64)
        ensures
            *final(self) == old(self).after_latency(latency_ns),
    {
        self.total_commands = self.total_commands.wrapping_add(1);
        self.total_latency_ns = self.total_latency_ns.wrapping_add(latency_ns);
        if latency_ns < self.min_latency_ns {
            self.min_latency_ns = latency_ns;
        }
        if latency_ns > self.max_latency_ns {
            self.max_latency_ns = latency_ns;
        }
    }

    /// Counts a command that took `duration` (in whole nanoseconds, modulo
    /// 2^64).
    pub fn record_command_latency(&mut self, duration: Duration)
        ensures
            exists|ns: u64| *final(self) == old(self).after_latency(ns),
    {
        let ns = crate::clock::duration_nanos(&duration) as u64;
        self.record_latency_ns(ns);
    }

    /// Counts a command that could not be read.
    pub fn record_parse_error(&mut self)
        ensures
            *final(self) == (ConnectionMetrics {
                parse_errors: old(self).parse_errors.wrapping_add(1),
                ..*old(self)
            }),
    {
        self.parse_errors = self.parse_errors.wrapping_add(1);
    }

    /// Counts a command that failed.
    pub fn record_processing_error(&mut self)
        ensures
            *final(self) == (ConnectionMetrics {
                processing_errors: old(self).processing_errors.wrapping_add(1),
                ..*old(self)
            }),
    {
        self.processing_errors = self.processing_errors.wrapping_add(1);
    }

    /// Counts a network error.
    pub fn record_network_error(&mut self)
        ensures
            *final(self) == (ConnectionMetrics {
                network_errors: old(self).network_errors.wrapping_add(1),
                ..*old(self)
            }),
    {
        self.network_errors = self.network_errors.wrapping_add(1);
    }

    /// Counts a buffer taken from the pool.
    pub fn record_buffer_pool_hit(&mut self)
        ensures
            *final(self) == (ConnectionMetrics {
                buffer_pool_hits: old(self).buffer_pool_hits.wrapping_add(1),
                ..*old(self)
            }),
    {
        self.buffer_pool_hits = self.buffer_pool_hits.wrapping_add(1);
    }

    /// Counts a buffer that had to be made.
    pub fn record_buffer_pool_miss(&mut self)
        ensures
            *final(self) == (ConnectionMetrics {
                buffer_pool_misses: old(self).buffer_pool_misses.wrapping_add(1),
                ..*old(self)
            }),
    {
        self.buffer_pool_misses = self.buffer_pool_misses.wrapping_add(1);
    }

    /// The figures now: the average latency is the whole-number quotient
    /// (0 with no command), and the smallest latency is 0 while no command
    /// was counted.
    pub fn snapshot(&self) -> (s: MetricsSnapshot)
        ensures
            s == (MetricsSnapshot {
                total_connections: self.total_connections,
                active_connections: self.active_connections,
                total_commands: self.total_commands,
                avg_latency_ns: if self.total_commands > 0 {
                    (self.total_latency_ns / self.total_commands) as u64
                } else {
                    0
                },
                min_latency_ns: if self.min_latency_ns == u64::MAX {
                    0
                } else {
                    self.min_latency_ns
                },
                max_latency_ns: self.max_latency_ns,
                parse_errors: self.parse_errors,
                processing_errors: self.processing_errors,
                network_errors: self.network_errors,
                buffer_pool_hits: self.buffer_pool_hits,
                buffer_pool_misses: self.buffer_pool_misses,
            }),
    {
        MetricsSnapshot {
            total_connections: self.total_connections,
            active_connections: self.active_connections,
            total_commands: self.total_commands,
            avg_latency_ns: if self.total_commands > 0 {
                self.total_latency_ns / self.total_commands
            } else {
                0
            },
            min_latency_ns: if self.min_latency_ns == u64::MAX {
                0
            } else {
                self.min_latency_ns
            },
            max_latency_ns: self.max_latency_ns,
            parse_errors: self.parse_errors,
            processing_errors: self.processing_errors,
            network_errors: self.network_errors,
            buffer_pool_hits: self.buffer_pool_hits,
            buffer_pool_misses: self.buffer_pool_misses,
        }
    }
}

impl Default for ConnectionMetrics {
    fn default() -> (m: Self)
        ensures
            m == ConnectionMetrics::new_spec(),
    {
        Self::new()
    }
}

impl ConnectionMetrics {
    /// The counters `new` gives.
    pub open spec fn new_spec() -> ConnectionMetrics {
        ConnectionMetrics {
            total_connections: 0,
            active_connections: 0,
            total_commands: 0,
            total_latency_ns: 0,
            min_latency_ns: u64::MAX,
            max_latency_ns: 0,
            parse_errors: 0,
            processing_errors: 0,
            network_errors: 0,
            buffer_pool_hits: 0,
            buffer_pool_misses: 0,
        }
    }
}

/// How many of `events` are openings (`true`).
pub open spec fn openings(events: Seq<bool>) -> nat
    decreases events.len(),
{
    if events.len() == 0 {
        0
    } else {
        openings(events.drop_last()) + if events.last() { 1nat } else { 0nat }
    }
}

/// How many of `events` are closings (`false`).
pub open spec fn closings(events: Seq<bool>) -> nat
    decreases events.len(),
{
    if events.len() == 0 {
        0
    } else {
        closings(events.drop_last()) + if events.last() { 0nat } else { 1nat }
    }
}

/// Whether no connection closes that was not open: at every step, the
/// closings so far do not outnumber the openings so far.
pub open spec fn closes_after_opens(events: Seq<bool>) -> bool
    decreases events.len(),
{
    if events.len() == 0 {
        true
    } else {
        closes_after_opens(events.drop_last()) && closings(events) <= openings(events)
    }
}

/// Starting from `new`, after connections open and close, never closing
/// more than opened and opening no more than a `usize` counts, the active
/// count is the openings less the closings and the total is the openings.
pub proof fn lemma_connection_counts(events: Seq<bool>)
    requires
        closes_after_opens(events),
        openings(events) <= usize::MAX,
    ensures
        ConnectionMetrics::new_spec().after_connections(events).active_connections == openings(events) - closings(events),
        ConnectionMetrics::new_spec().after_connections(events).total_connections == openings(events),
    decreases events.len(),
{
    if events.len() > 0 {
        let d = events.drop_last();
        assert(openings(d) <= openings(events));
        lemma_connection_counts(d);
        let m = ConnectionMetrics::new_spec().after_connections(d);
        assert(openings(d) <= u64::MAX);
        if events.last() {
            assert(m.active_connections + 1 <= usize::MAX);
        } else {
            assert(m.active_connections >= 1);
        }
    }
}

} // verus!
