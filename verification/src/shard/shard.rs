//! One shard: the entries of a part of the key space, their expiry wheel,
//! and the answers to commands.

use vstd::prelude::*;
use vstd::string::StringExecFns;
use crate::protocol::commands::{Command, CommandView, Response, ResponseView};
use crate::protocol::text::{append_decimal, decimal_chars};
use crate::store::hashmap::{read_at, written, ShardStore};
use crate::store::item::{item_size, now_seconds, ItemView};
use crate::ttl::wheel::TTLWheel;

verus! {

/// The statistics line of a shard.
pub open spec fn stats_text(id: nat, keys: nat, used: nat, max: nat, ttl_keys: nat, ttl_slots: nat) -> Seq<char> {
    "shard_"@ + decimal_chars(id) + ": "@ + decimal_chars(keys) + " keys, "@ + decimal_chars(used) + "B/"@
        + decimal_chars(max) + "B memory, "@ + decimal_chars(ttl_keys) + " TTL keys in "@ + decimal_chars(ttl_slots)
        + " slots"@
}

/// The metrics line of a shard.
pub open spec fn metrics_text(id: nat, keys: nat, used: nat, max: nat) -> Seq<char> {
    "shard_"@ + decimal_chars(id) + "_metrics: keys="@ + decimal_chars(keys) + ", memory="@ + decimal_chars(used)
        + "B/"@ + decimal_chars(max) + "B"@
}

/// The inputs on which a command's arithmetic stays in range at the time
/// `now`: an expiry time fits, and the memory count of a write does.
pub open spec fn command_fits(c: CommandView, now: u64, used: usize) -> bool {
    match c {
        CommandView::Put { key, value, ttl } => (ttl matches Some(t) ==> now + t <= u64::MAX)
            && used + item_size(written(key, value, ttl, now)) <= usize::MAX,
        CommandView::Expire { ttl, .. } => now + ttl <= u64::MAX,
        _ => true,
    }
}

/// A command with its time to live cut, as at the time `now`, so that it
/// expires by the largest time.
pub open spec fn clamped_command(c: CommandView, now: u64) -> CommandView {
    match c {
        CommandView::Put { key, value, ttl } => CommandView::Put { key, value, ttl: crate::store::hashmap::clamped_ttl(ttl, now) },
        CommandView::Expire { key, ttl } => CommandView::Expire {
            key,
            ttl: if ttl > u64::MAX - now { (u64::MAX - now) as u64 } else { ttl },
        },
        other => other,
    }
}

/// The entries without the given keys.
pub open spec fn without_entries(m: Map<Seq<u8>, ItemView>, keys: Seq<Seq<u8>>) -> Map<Seq<u8>, ItemView>
    decreases keys.len(),
{
    if keys.len() == 0 {
        m
    } else {
        without_entries(m, keys.drop_last()).remove(keys.last())
    }
}

/// A part of the key space: its entries and their expiry wheel.
pub struct Shard {
    id: usize,
    store: ShardStore,
    ttl_wheel: TTLWheel,
}

impl Shard {
    /// The number of the shard.
    pub closed spec fn number(&self) -> usize {
        self.id
    }

    /// The entries by key.
    pub closed spec fn contents(&self) -> Map<Seq<u8>, ItemView> {
        self.store.contents()
    }

    /// The memory counted as used.
    pub closed spec fn used(&self) -> usize {
        self.store.used()
    }

    /// The memory limit.
    pub closed spec fn limit(&self) -> usize {
        self.store.limit()
    }

    /// The expiry wheel.
    pub closed spec fn expiry_wheel(&self) -> TTLWheel {
        self.ttl_wheel
    }

    /// What `process_command_at` does, from this shard to `fin`, answering
    /// `command` with `r` at the time `now`.
    pub open spec fn answered(&self, fin: Self, command: CommandView, r: ResponseView, now: u64) -> bool {
        let c = self.contents();
        match command {
            CommandView::Put { key, value, ttl } => {
                let stored = !(self.used() + item_size(written(key, value, ttl, now)) > self.limit()
                    && !c.contains_key(key));
                &&& stored ==> r == ResponseView::Okay && fin.contents() == c.insert(key, written(key, value, ttl, now))
                &&& !stored ==> r == ResponseView::Error("Memory limit exceeded"@) && fin.contents() == c
            },
            CommandView::Get { key } => {
                &&& r == match read_at(c, key, now) {
                    Some(v) => ResponseView::Value(v),
                    None => ResponseView::Null,
                }
                &&& forall|k: Seq<u8>| #[trigger] read_at(fin.contents(), k, now) == read_at(c, k, now)
            },
            CommandView::Del { key } => {
                &&& r == (if c.contains_key(key) { ResponseView::Okay } else { ResponseView::Null })
                &&& fin.contents() == c.remove(key)
            },
            CommandView::Expire { key, ttl } => {
                &&& r == (if c.contains_key(key) { ResponseView::Okay } else { ResponseView::Null })
                &&& c.contains_key(key) ==> fin.contents() == c.insert(
                    key,
                    ItemView { expires_at: Some((now + ttl) as u64), ..c[key] },
                )
                &&& !c.contains_key(key) ==> fin.contents() == c
            },
            CommandView::Stats => r == ResponseView::Stats(self.stats_spec()) && fin.contents() == c,
            CommandView::Metrics => r == ResponseView::Stats(
                metrics_text(self.number() as nat, c.dom().len(), self.used() as nat, self.limit() as nat),
            ) && fin.contents() == c,
            CommandView::Ping => r == ResponseView::Pong && fin.contents() == c,
        }
    }

    /// What `ttl_cleanup_step_at` does, from this shard to `fin`, at the
    /// time `now`, returning `removed`.
    pub open spec fn stepped(&self, fin: Self, removed: usize, now: u64) -> bool {
        let w = self.expiry_wheel();
        let slot = w.ring()[w.current() as int];
        let kept = without_entries(self.contents(), slot);
        &&& fin.contents() == crate::store::hashmap::unexpired(kept, now)
        &&& removed == kept.dom().len() - fin.contents().dom().len()
        &&& fin.expiry_wheel().ring() == w.ring().update(w.current() as int, Seq::empty())
        &&& fin.expiry_wheel().entries() == crate::ttl::wheel::without_keys(w.entries(), slot)
        &&& fin.expiry_wheel().current() == (w.current() + 1) % (w.slot_count() as int)
        &&& fin.expiry_wheel().slot_count() == w.slot_count()
        &&& fin.expiry_wheel().seconds_per_slot() == w.seconds_per_slot()
    }

    /// The statistics line of the shard.
    pub closed spec fn stats_spec(&self) -> Seq<char> {
        stats_text(
            self.id as nat,
            self.store.contents().dom().len(),
            self.store.used() as nat,
            self.store.limit() as nat,
            self.ttl_wheel.entries().len(),
            crate::ttl::wheel::busy_slots(self.ttl_wheel.ring()),
        )
    }

    /// The store and the wheel are well formed.
    pub closed spec fn wf(&self) -> bool {
        self.store.wf() && self.ttl_wheel.wf()
    }

    /// An empty shard with a memory limit and a wheel of an hour in
    /// seconds.
    pub fn new(id: usize, max_memory: usize) -> (s: Self)
        ensures
            s.wf(),
            s.number() == id,
            s.contents() == Map::<Seq<u8>, ItemView>::empty(),
            s.used() == 0,
            s.limit() == max_memory,
    {
        Shard { id, store: ShardStore::new(max_memory), ttl_wheel: TTLWheel::new(3600, 1) }
    }

    fn stats_line(&self) -> (s: String)
        requires
            self.wf(),
        ensures
            s@ == stats_text(
                self.id as nat,
                self.store.contents().dom().len(),
                self.store.used() as nat,
                self.store.limit() as nat,
                self.ttl_wheel.entries().len(),
                crate::ttl::wheel::busy_slots(self.ttl_wheel.ring()),
            ),
    {
        let (used, max, keys) = self.store.memory_stats();
        let (ttl_keys, ttl_slots) = self.ttl_wheel.stats();
        let mut s = String::from_str("shard_");
        append_decimal(&mut s, self.id);
        s.append(": ");
        append_decimal(&mut s, keys);
        s.append(" keys, ");
        append_decimal(&mut s, used);
        s.append("B/");
        append_decimal(&mut s, max);
        s.append("B memory, ");
        append_decimal(&mut s, ttl_keys);
        s.append(" TTL keys in ");
        append_decimal(&mut s, ttl_slots);
        s.append(" slots");
        s
    }

    fn metrics_line(&self) -> (s: String)
        ensures
            s@ == metrics_text(self.id as nat, self.store.contents().dom().len(), self.store.used() as nat, self.store.limit() as nat),
    {
        let (used, max, keys) = self.store.memory_stats();
        let mut s = String::from_str("shard_");
        append_decimal(&mut s, self.id);
        s.append("_metrics: keys=");
        append_decimal(&mut s, keys);
        s.append(", memory=");
        append_decimal(&mut s, used);
        s.append("B/");
        append_decimal(&mut s, max);
        s.append("B");
        s
    }

    /// Answers a command at the time `now`: a write stores the entry (and
    /// tracks its expiry) or is refused for memory; a read gives the value
    /// or null; a delete answers OK where there was an entry, else null; an
    /// expiry answers OK where there is an entry, else null; statistics and
    /// metrics describe the shard; a ping gets a pong.
    pub fn process_command_at(&mut self, command: Command, now: u64) -> (r: Response)
        requires
            old(self).wf(),
            command_fits(command@, now, old(self).used()),
        ensures
            final(self).wf(),
            final(self).number() == old(self).number(),
            final(self).limit() == old(self).limit(),
            old(self).answered(*final(self), command@, r@, now),
    {
        match command {
            Command::Put { key, value, ttl } => {
                let k2 = key.clone();
                assert(k2@ == key@);
                if self.store.put_at(key, value, ttl, now) {
                    match ttl {
                        Some(t) => self.ttl_wheel.add_key_at(k2, t, now),
                        None => {},
                    }
                    Response::Okay
                } else {
                    Response::Error(String::from_str("Memory limit exceeded"))
                }
            },
            Command::Get { key } => {
                let ghost c = self.store.contents();
                let r = self.store.get_at(key.as_slice(), now);
                proof {
                    assert forall|k: Seq<u8>| #[trigger] read_at(self.store.contents(), k, now) == read_at(c, k, now) by {
                        if c.contains_key(key@) && crate::store::item::expired_at(c[key@], now) && k == key@ {
                        }
                    }
                }
                match r {
                    Some(v) => Response::Value(v),
                    None => Response::Null,
                }
            },
            Command::Del { key } => {
                self.ttl_wheel.remove_key(key.as_slice());
                if self.store.del(key.as_slice()) {
                    Response::Okay
                } else {
                    Response::Null
                }
            },
            Command::Expire { key, ttl } => {
                if self.store.expire_at(key.as_slice(), ttl, now) {
                    self.ttl_wheel.add_key_at(key, ttl, now);
                    Response::Okay
                } else {
                    Response::Null
                }
            },
            Command::Stats => Response::Stats(self.stats_line()),
            Command::Metrics => Response::Stats(self.metrics_line()),
            Command::Ping => Response::Pong,
        }
    }

    /// Answers a command now (see `process_command_at`); an expiry past
    /// the largest time counts as that time: the answer of
    /// `process_command_at` at the time the clock reads, which is not named.
    pub fn process_command(&mut self, command: Command) -> (r: Response)
        requires
            old(self).wf(),
            command matches Command::Put { key, value, ttl } ==> old(self).used() + item_size(written(key@, value@, ttl, 0)) <= usize::MAX,
        ensures
            final(self).wf(),
            final(self).number() == old(self).number(),
            command@ is Ping ==> r@ == ResponseView::Pong,
            command@ matches CommandView::Del { key } ==> final(self).contents() == old(self).contents().remove(key)
                && r@ == (if old(self).contents().contains_key(key) { ResponseView::Okay } else { ResponseView::Null }),
            exists|now: u64| #[trigger] old(self).answered(*final(self), clamped_command(command@, now), r@, now),
    {
        let now = now_seconds();
        let ghost cv = command@;
        let command = match command {
            Command::Put { key, value, ttl } => Command::Put {
                key,
                value,
                ttl: match ttl {
                    Some(t) => Some(if t > u64::MAX - now { u64::MAX - now } else { t }),
                    None => None,
                },
            },
            Command::Expire { key, ttl } => Command::Expire { key, ttl: if ttl > u64::MAX - now { u64::MAX - now } else { ttl } },
            other => other,
        };
        proof {
            if let CommandView::Put { key, value, ttl } = command@ {
                assert(item_size(written(key, value, ttl, now)) == item_size(written(key, value, None, 0)));
            }
        }
        assert(command@ == clamped_command(cv, now));
        let r = self.process_command_at(command, now);
        assert(old(self).answered(*self, clamped_command(cv, now), r@, now));
        r
    }

    /// The number, the number of entries, the memory used and the limit.
    pub fn get_stats(&self) -> (r: (usize, usize, usize, usize))
        ensures
            r.0 == self.number(),
            r.1 == self.contents().dom().len(),
            r.2 == self.used(),
            r.3 == self.limit(),
    {
        let (used, max, keys) = self.store.memory_stats();
        (self.id, keys, used, max)
    }

    /// Drops the entries expired at the time `now`; how many.
    pub fn cleanup_expired_at(&mut self, now: u64) -> (removed: usize)
        requires
            old(self).wf(),
        ensures
            final(self).wf(),
            final(self).number() == old(self).number(),
            final(self).contents() == crate::store::hashmap::unexpired(old(self).contents(), now),
            removed == old(self).contents().dom().len() - final(self).contents().dom().len(),
    {
        self.store.cleanup_expired_at(now)
    }

    /// Drops the entries expired now; how many.
    pub fn cleanup_expired(&mut self) -> (removed: usize)
        requires
            old(self).wf(),
        ensures
            final(self).wf(),
            final(self).number() == old(self).number(),
            removed == old(self).contents().dom().len() - final(self).contents().dom().len(),
            exists|now: u64| final(self).contents() == #[trigger] crate::store::hashmap::unexpired(old(self).contents(), now),
    {
        let now = now_seconds();
        let removed = self.store.cleanup_expired_at(now);
        assert(self.contents() == crate::store::hashmap::unexpired(old(self).contents(), now));
        removed
    }

    /// One step of the expiry clean-up at the time `now`: the keys of the
    /// wheel's current slot are deleted, the wheel moves on, and the
    /// entries expired at `now` are dropped. How many entries the last part
    /// dropped.
    pub fn ttl_cleanup_step_at(&mut self, now: u64) -> (removed: usize)
        requires
            old(self).wf(),
        ensures
            final(self).wf(),
            final(self).number() == old(self).number(),
            final(self).limit() == old(self).limit(),
            old(self).stepped(*final(self), removed, now),
    {
        let expired_keys = self.ttl_wheel.tick();
        let ghost ks = expired_keys@.map_values(|k: Vec<u8>| k@);
        let ghost wheel_after = self.ttl_wheel;
        let mut i: usize = 0;
        assert(ks.subrange(0, 0) =~= Seq::<Seq<u8>>::empty());
        while i < expired_keys.len()
            invariant
                self.wf(),
                self.id == old(self).id,
                self.ttl_wheel == wheel_after,
                self.store.limit() == old(self).store.limit(),
                i <= expired_keys@.len(),
                ks == expired_keys@.map_values(|k: Vec<u8>| k@),
                self.store.contents() == without_entries(old(self).contents(), ks.subrange(0, i as int)),
            decreases expired_keys@.len() - i,
        {
            self.store.del(expired_keys[i].as_slice());
            assert(ks.subrange(0, i + 1 as int).drop_last() =~= ks.subrange(0, i as int));
            i = i + 1;
        }
        assert(ks.subrange(0, i as int) =~= ks);
        self.store.cleanup_expired_at(now)
    }

    /// One step of the expiry clean-up now (see `ttl_cleanup_step_at`).
    pub fn ttl_cleanup_step(&mut self) -> (removed: usize)
        requires
            old(self).wf(),
        ensures
            final(self).wf(),
            final(self).number() == old(self).number(),
            exists|now: u64| #[trigger] old(self).stepped(*final(self), removed, now),
    {
        let now = now_seconds();
        let removed = self.ttl_cleanup_step_at(now);
        assert(old(self).stepped(*self, removed, now));
        removed
    }
}

} // verus!
