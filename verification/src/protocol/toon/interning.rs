//! String interning with usage statistics, a size limit and the clean-up of
//! strings that went unused.

use vstd::prelude::*;
use std::time::{Duration, Instant};
use crate::clock::{duration_exceeds, duration_from_secs, duration_since, instant_now};
use crate::protocol::text::str_eq;
use crate::protocol::varint::{spec_varint_size, varint_size};

verus! {

/// How often one interned string was used and what that saved.
#[derive(Debug, Clone, Copy)]
pub struct InterningStats {
    /// Number of times the string was referenced.
    pub usage_count: u64,
    /// Bytes saved by sending the number instead of the string.
    pub bytes_saved: u64,
    /// When the string was first seen.
    pub first_seen: Instant,
    /// When the string was last used.
    pub last_used: Instant,
}

impl Default for InterningStats {
    fn default() -> (s: Self)
        ensures
            s.usage_count == 0,
            s.bytes_saved == 0,
    {
        let now = instant_now();
        InterningStats { usage_count: 0, bytes_saved: 0, first_seen: now, last_used: now }
    }
}

/// The limits of an interner.
#[derive(Debug, Clone, Copy)]
pub struct InterningConfig {
    /// Strings shorter than this are numbered without the size limit.
    pub min_length: usize,
    /// The usage from which a string is worth interning.
    pub min_usage_count: u64,
    /// The most strings interned: at this many, a string of the minimum
    /// length not held yet is not stored (clean-up is tried first).
    pub max_interned_strings: usize,
    /// Whether strings unused for a while are removed when the limit is hit.
    pub auto_cleanup: bool,
    /// How long a string may go unused before it is removed.
    pub cleanup_threshold: Duration,
}

impl Default for InterningConfig {
    fn default() -> (c: Self)
        ensures
            c.min_length == 4,
            c.min_usage_count == 2,
            c.max_interned_strings == 10000,
            c.auto_cleanup,
    {
        InterningConfig {
            min_length: 4,
            min_usage_count: 2,
            max_interned_strings: 10000,
            auto_cleanup: true,
            cleanup_threshold: duration_from_secs(300),
        }
    }
}

/// Numbers strings and keeps usage statistics for each.
#[derive(Debug)]
pub struct AdvancedStringInterner {
    strings: Vec<String>,
    lookup: Vec<(String, u32)>,
    usage_stats: Vec<InterningStats>,
    config: InterningConfig,
}

/// The numbers in `v` from position `r` on.
pub open spec fn ids_from(v: Seq<u32>, r: int) -> Set<int> {
    Set::new(|j: int| exists|a: int| r <= a < v.len() && v[a] as int == j)
}

/// The bytes a use of string `s` numbered `id` saves: its length less the
/// size of the number, if that is positive.
pub open spec fn use_saving(byte_len: nat, id: u32) -> nat {
    if byte_len > spec_varint_size(id as u64) {
        (byte_len - spec_varint_size(id as u64)) as nat
    } else {
        0
    }
}

/// The sum of the bytes saved, as a 64-bit counter that wraps.
pub open spec fn saved_total(stats: Seq<InterningStats>) -> u64
    decreases stats.len(),
{
    if stats.len() == 0 {
        0
    } else {
        vstd::wrapping::u64_specs::wrapping_add(saved_total(stats.drop_last()), stats.last().bytes_saved)
    }
}

/// The number of strings used more than once.
pub open spec fn reused_count(stats: Seq<InterningStats>) -> nat
    decreases stats.len(),
{
    if stats.len() == 0 {
        0
    } else {
        reused_count(stats.drop_last()) + if stats.last().usage_count > 1 { 1nat } else { 0nat }
    }
}

/// Whether the string numbered `i` survives optimisation: it is not empty
/// and was used.
pub open spec fn kept(strs: Seq<Seq<char>>, stats: Seq<InterningStats>, i: int) -> bool {
    strs[i].len() > 0 && stats[i].usage_count > 0
}

/// The numbers below `n` that survive optimisation, in order.
pub open spec fn kept_ids(strs: Seq<Seq<char>>, stats: Seq<InterningStats>, n: nat) -> Seq<int>
    decreases n,
{
    if n == 0 {
        Seq::empty()
    } else {
        let r = kept_ids(strs, stats, (n - 1) as nat);
        if kept(strs, stats, n - 1) {
            r.push(n - 1)
        } else {
            r
        }
    }
}

proof fn lemma_kept_ids(strs: Seq<Seq<char>>, stats: Seq<InterningStats>, n: nat)
    ensures
        forall|a: int| 0 <= a < kept_ids(strs, stats, n).len() ==> 0 <= #[trigger] kept_ids(strs, stats, n)[a] < n
            && kept(strs, stats, kept_ids(strs, stats, n)[a]),
        forall|a: int, b: int| 0 <= a < b < kept_ids(strs, stats, n).len() ==> kept_ids(strs, stats, n)[a] < kept_ids(strs, stats, n)[b],
        kept_ids(strs, stats, n).len() <= n,
    decreases n,
{
    if n > 0 {
        lemma_kept_ids(strs, stats, (n - 1) as nat);
        let r = kept_ids(strs, stats, (n - 1) as nat);
        if kept(strs, stats, n - 1) {
            let k = r.push(n - 1);
            assert(kept_ids(strs, stats, n) == k);
            assert forall|a: int| 0 <= a < k.len() implies 0 <= #[trigger] k[a] < n && kept(strs, stats, k[a]) by {
                if a < r.len() {
                    assert(k[a] == r[a]);
                }
            }
            assert forall|a: int, b: int| 0 <= a < b < k.len() implies k[a] < k[b] by {
                assert(k[a] == r[a]);
                if b < r.len() {
                    assert(k[b] == r[b]);
                }
            }
        }
    }
}

impl AdvancedStringInterner {
    /// The strings, by number; a removed string is empty.
    pub closed spec fn strings(&self) -> Seq<Seq<char>> {
        Seq::new(self.strings@.len(), |i: int| self.strings@[i]@)
    }

    /// The number that each string in the lookup has.
    pub closed spec fn lookup(&self) -> Map<Seq<char>, u32> {
        Map::new(
            |k: Seq<char>| exists|i: int| 0 <= i < self.lookup@.len() && self.lookup@[i].0@ == k,
            |k: Seq<char>| self.lookup@[choose|i: int| 0 <= i < self.lookup@.len() && self.lookup@[i].0@ == k].1,
        )
    }

    /// The statistics of each number.
    pub closed spec fn stats(&self) -> Seq<InterningStats> {
        self.usage_stats@
    }

    /// The configuration.
    pub closed spec fn config(&self) -> InterningConfig {
        self.config
    }

    /// The lookup names each string once, by a number that holds it; every
    /// string that is not empty is in the lookup under its own number; each
    /// number has statistics; numbers fit in 32 bits.
    pub closed spec fn wf(&self) -> bool {
        &&& self.usage_stats@.len() == self.strings@.len()
        &&& self.strings@.len() <= u32::MAX
        &&& forall|i: int, j: int| 0 <= i < self.lookup@.len() && 0 <= j < self.lookup@.len() && i != j
            ==> self.lookup@[i].0@ != self.lookup@[j].0@
        &&& forall|i: int| 0 <= i < self.lookup@.len() ==> {
            let (k, id) = #[trigger] self.lookup@[i];
            &&& (id as int) < self.strings@.len()
            &&& self.strings@[id as int]@ == k@
        }
        &&& forall|j: int| 0 <= j < self.strings@.len() && self.strings@[j]@.len() > 0 ==> exists|i: int|
            0 <= i < self.lookup@.len() && self.lookup@[i].0@ == #[trigger] self.strings@[j]@ && self.lookup@[i].1 == j
    }

    /// An empty interner with the default configuration.
    pub fn new() -> (s: Self)
        ensures
            s.wf(),
            s.strings() == Seq::<Seq<char>>::empty(),
            s.lookup() == Map::<Seq<char>, u32>::empty(),
            s.stats() == Seq::<InterningStats>::empty(),
            s.config().min_length == 4,
            s.config().max_interned_strings == 10000,
            s.config().auto_cleanup,
    {
        Self::with_config(InterningConfig::default())
    }

    /// An empty interner with the given configuration.
    pub fn with_config(config: InterningConfig) -> (s: Self)
        ensures
            s.wf(),
            s.strings() == Seq::<Seq<char>>::empty(),
            s.config().min_length == config.min_length,
            s.config().max_interned_strings == config.max_interned_strings,
            s.config().auto_cleanup == config.auto_cleanup,
            s.config().min_usage_count == config.min_usage_count,
            s.lookup() == Map::<Seq<char>, u32>::empty(),
            s.stats() == Seq::<InterningStats>::empty(),
    {
        let s = AdvancedStringInterner {
            strings: Vec::new(),
            lookup: Vec::new(),
            usage_stats: Vec::new(),
            config,
        };
        assert(s.strings() =~= Seq::<Seq<char>>::empty());
        assert(s.lookup() =~= Map::<Seq<char>, u32>::empty());
        assert(s.stats() =~= Seq::<InterningStats>::empty());
        s
    }

    fn find(&self, s: &str) -> (r: Option<usize>)
        requires
            self.wf(),
        ensures
            match r {
                Some(i) => i < self.lookup@.len() && self.lookup@[i as int].0@ == s@,
                None => !self.lookup().contains_key(s@),
            },
    {
        let mut i: usize = 0;
        while i < self.lookup.len()
            invariant
                i <= self.lookup@.len(),
                forall|j: int| 0 <= j < i ==> self.lookup@[j].0@ != s@,
            decreases self.lookup@.len() - i,
        {
            if str_eq(self.lookup[i].0.as_str(), s) {
                return Some(i);
            }
            i += 1;
        }
        None
    }

    proof fn lemma_lookup_at(&self, i: int)
        requires
            self.wf(),
            0 <= i < self.lookup@.len(),
        ensures
            self.lookup().contains_key(self.lookup@[i].0@),
            self.lookup()[self.lookup@[i].0@] == self.lookup@[i].1,
    {
        let k = self.lookup@[i].0@;
        let j = choose|j: int| 0 <= j < self.lookup@.len() && self.lookup@[j].0@ == k;
        assert(j == i);
    }

    /// The string numbered `id`, if there is one.
    pub fn get(&self, id: u32) -> (s: Option<&str>)
        ensures
            match s {
                Some(t) => (id as int) < self.strings().len() && t@ == self.strings()[id as int],
                None => id as int >= self.strings().len(),
            },
    {
        if (id as usize) < self.strings.len() {
            Some(self.strings[id as usize].as_str())
        } else {
            None
        }
    }

    /// The statistics of the string numbered `id` after one more use: the
    /// count goes up by one and the saving of a use is added (both 64-bit
    /// counters that wrap).
    pub open spec fn used_once_more(old_stats: InterningStats, new_stats: InterningStats, byte_len: nat, id: u32) -> bool {
        &&& new_stats.usage_count == vstd::wrapping::u64_specs::wrapping_add(old_stats.usage_count, 1)
        &&& new_stats.bytes_saved == vstd::wrapping::u64_specs::wrapping_add(
            old_stats.bytes_saved,
            use_saving(byte_len, id) as u64,
        )
        &&& new_stats.first_seen == old_stats.first_seen
    }

    fn update_usage_stats(&mut self, id: u32)
        requires
            old(self).wf(),
            (id as int) < old(self).strings().len(),
        ensures
            final(self).wf(),
            final(self).strings() == old(self).strings(),
            final(self).lookup() == old(self).lookup(),
            final(self).config() == old(self).config(),
            final(self).stats().len() == old(self).stats().len(),
            Self::used_once_more(old(self).stats()[id as int], final(self).stats()[id as int], vstd::utf8::encode_utf8(old(self).strings()[id as int]).len(), id),
            forall|j: int| 0 <= j < old(self).stats().len() && j != id ==> final(self).stats()[j] == old(self).stats()[j],
    {
        let i = id as usize;
        let mut stats = self.usage_stats[i];
        stats.usage_count = stats.usage_count.wrapping_add(1);
        stats.last_used = instant_now();
        let len = self.strings[i].as_str().as_bytes().len();
        let id_size = varint_size(id as u64);
        if len > id_size {
            stats.bytes_saved = stats.bytes_saved.wrapping_add((len - id_size) as u64);
        }
        let ghost before = self.strings();
        self.usage_stats.set(i, stats);
        assert(self.strings() =~= before);
        assert(self.strings@ == old(self).strings@);
        assert(self.lookup@ == old(self).lookup@);
    }

    fn push_new(&mut self, s: &str) -> (id: u32)
        requires
            old(self).wf(),
            old(self).strings().len() < u32::MAX,
            !old(self).lookup().contains_key(s@),
        ensures
            final(self).wf(),
            id as int == old(self).strings().len(),
            final(self).strings() == old(self).strings().push(s@),
            final(self).lookup() == old(self).lookup().insert(s@, id),
            final(self).config() == old(self).config(),
            final(self).stats().len() == old(self).stats().len() + 1,
            final(self).stats()[id as int].usage_count == 1,
            final(self).stats()[id as int].bytes_saved == 0,
            forall|j: int| 0 <= j < old(self).stats().len() ==> final(self).stats()[j] == old(self).stats()[j],
    {
        let id = self.strings.len() as u32;
        let ghost old_strings = self.strings();
        let ghost old_lookup = self.lookup@;
        self.strings.push(s.to_string());
        self.lookup.push((s.to_string(), id));
        let now = instant_now();
        self.usage_stats.push(InterningStats { usage_count: 1, bytes_saved: 0, first_seen: now, last_used: now });
        assert(self.strings() =~= old_strings.push(s@));
        proof {
            assert forall|i: int| 0 <= i < old_lookup.len() implies old_lookup[i].0@ != s@ by {
                if old_lookup[i].0@ == s@ {
                    assert(old(self).lookup().contains_key(s@));
                }
            }
            assert forall|j: int| 0 <= j < self.strings@.len() && self.strings@[j]@.len() > 0 implies exists|i: int|
                0 <= i < self.lookup@.len() && self.lookup@[i].0@ == #[trigger] self.strings@[j]@ && self.lookup@[i].1 == j by {
                if j < old_strings.len() {
                    let i = choose|i: int| 0 <= i < old_lookup.len() && old_lookup[i].0@ == old(self).strings@[j]@ && old_lookup[i].1 == j;
                    assert(self.lookup@[i] == old_lookup[i]);
                } else {
                    assert(self.lookup@[old_lookup.len() as int].0@ == s@);
                }
            }
            assert(self.lookup() =~= old(self).lookup().insert(s@, id)) by {
                assert forall|k: Seq<char>| #[trigger] self.lookup().contains_key(k) <==> old(self).lookup().insert(s@, id).contains_key(k) by {
                    assert(self.lookup@[old_lookup.len() as int].0@ == s@);
                    if k == s@ {
                        assert(self.lookup().contains_key(k));
                    } else {
                        if exists|i: int| 0 <= i < old_lookup.len() && old_lookup[i].0@ == k {
                            let i = choose|i: int| 0 <= i < old_lookup.len() && old_lookup[i].0@ == k;
                            assert(self.lookup@[i].0@ == k);
                            assert(self.lookup().contains_key(k));
                        }
                        if exists|i: int| 0 <= i < self.lookup@.len() && self.lookup@[i].0@ == k {
                            let i = choose|i: int| 0 <= i < self.lookup@.len() && self.lookup@[i].0@ == k;
                            assert(i < old_lookup.len());
                            assert(old_lookup[i].0@ == k);
                            assert(old(self).lookup().contains_key(k));
                        }
                    }
                }
                assert forall|k: Seq<char>| #[trigger] self.lookup().contains_key(k) implies self.lookup()[k] == old(self).lookup().insert(s@, id)[k] by {
                    let i = choose|i: int| 0 <= i < self.lookup@.len() && self.lookup@[i].0@ == k;
                    if k == s@ {
                        assert(i == old_lookup.len());
                    } else {
                        assert(i < old_lookup.len());
                        let i2 = choose|i2: int| 0 <= i2 < old_lookup.len() && old_lookup[i2].0@ == k;
                        assert(i2 == i);
                    }
                }
            }
        }
        id
    }

    /// The number of `s`, numbering it if it has none; used by strings that
    /// are too short for the size limit, and by every string once the limit
    /// is reached.
    fn intern_unconditional(&mut self, s: &str) -> (id: u32)
        requires
            old(self).wf(),
            old(self).strings().len() < u32::MAX,
        ensures
            final(self).wf(),
            final(self).config() == old(self).config(),
            Self::interned_as(*old(self), *final(self), s@, id),
    {
        match self.find(s) {
            Some(k) => {
                let id = self.lookup[k].1;
                proof { self.lemma_lookup_at(k as int); }
                self.update_usage_stats(id);
                id
            },
            None => self.push_new(s),
        }
    }

    /// What interning `s` did, as `old` became `new` and `id` came back:
    /// a string in the lookup keeps its number and its use is counted;
    /// another is numbered next, with one use and no saving.
    pub open spec fn interned_as(old: Self, new: Self, s: Seq<char>, id: u32) -> bool {
        if old.lookup().contains_key(s) {
            &&& id == old.lookup()[s]
            &&& new.strings() == old.strings()
            &&& new.lookup() == old.lookup()
            &&& new.stats().len() == old.stats().len()
            &&& Self::used_once_more(old.stats()[id as int], new.stats()[id as int], vstd::utf8::encode_utf8(s).len(), id)
            &&& forall|j: int| 0 <= j < old.stats().len() && j != id ==> new.stats()[j] == old.stats()[j]
        } else {
            &&& id as int == old.strings().len()
            &&& new.strings() == old.strings().push(s)
            &&& new.lookup() == old.lookup().insert(s, id)
            &&& new.stats().len() == old.stats().len() + 1
            &&& new.stats()[id as int].usage_count == 1
            &&& new.stats()[id as int].bytes_saved == 0
            &&& forall|j: int| 0 <= j < old.stats().len() ==> new.stats()[j] == old.stats()[j]
        }
    }

    /// Removes the string numbered `id`: its entry leaves the lookup, the
    /// string becomes empty and its statistics start over. Numbers that hold
    /// no string are ignored.
    pub fn remove_string(&mut self, id: u32)
        requires
            old(self).wf(),
        ensures
            final(self).wf(),
            final(self).config() == old(self).config(),
            final(self).stats().len() == old(self).stats().len(),
            id as int >= old(self).strings().len() ==> final(self).strings() == old(self).strings()
                && final(self).lookup() == old(self).lookup() && final(self).stats() == old(self).stats(),
            (id as int) < old(self).strings().len() ==> {
                &&& final(self).strings() == old(self).strings().update(id as int, Seq::<char>::empty())
                &&& final(self).lookup() == old(self).lookup().remove(old(self).strings()[id as int])
                &&& final(self).stats()[id as int].usage_count == 0
                &&& final(self).stats()[id as int].bytes_saved == 0
                &&& forall|j: int| 0 <= j < old(self).stats().len() && j != id ==> final(self).stats()[j] == old(self).stats()[j]
            },
    {
        let i = id as usize;
        if i >= self.strings.len() {
            return;
        }
        let ghost key = self.strings@[i as int]@;
        let ghost old_lookup = self.lookup@;
        let ghost found: Option<usize> = None;
        match self.find(self.strings[i].as_str()) {
            Some(k) => {
                self.lookup.remove(k);
                proof { found = Some(k); }
            },
            None => {},
        }
        let ghost old_strings = self.strings@;
        self.strings.set(i, String::new());
        self.usage_stats.set(i, InterningStats::default());
        proof {
            // Where each remaining entry of the lookup was before.
            let pos = |a: int| -> int {
                match found {
                    Some(k) => if a < k { a } else { a + 1 },
                    None => a,
                }
            };
            assert forall|a: int| 0 <= a < self.lookup@.len() implies 0 <= #[trigger] pos(a) < old_lookup.len()
                && old_lookup[pos(a)] == self.lookup@[a] && old_lookup[pos(a)].0@ != key by {
                match found {
                    Some(k) => {
                        assert(self.lookup@ == old_lookup.remove(k as int));
                    },
                    None => {},
                }
            }
            assert forall|a1: int, a2: int| 0 <= a1 < self.lookup@.len() && 0 <= a2 < self.lookup@.len() && a1 != a2
                implies self.lookup@[a1].0@ != self.lookup@[a2].0@ by {
                assert(pos(a1) != pos(a2));
                assert(old_lookup[pos(a1)] == self.lookup@[a1]);
                assert(old_lookup[pos(a2)] == self.lookup@[a2]);
            }
            assert forall|a: int| 0 <= a < self.lookup@.len() implies {
                let (k, d) = #[trigger] self.lookup@[a];
                &&& (d as int) < self.strings@.len()
                &&& self.strings@[d as int]@ == k@
            } by {
                assert(old_lookup[pos(a)] == self.lookup@[a]);
                let d = self.lookup@[a].1;
                assert(old_strings[d as int]@ == self.lookup@[a].0@);
                assert(d != i);
            }
            assert forall|j: int| 0 <= j < self.strings@.len() && self.strings@[j]@.len() > 0 implies exists|a: int|
                0 <= a < self.lookup@.len() && self.lookup@[a].0@ == #[trigger] self.strings@[j]@ && self.lookup@[a].1 == j by {
                assert(j != i);
                assert(self.strings@[j] == old_strings[j]);
                let b = choose|b: int| 0 <= b < old_lookup.len() && old_lookup[b].0@ == old_strings[j]@ && old_lookup[b].1 == j;
                match found {
                    Some(k) => {
                        assert(old_lookup[k as int].0@ == key);
                        if b == k {
                            if key.len() > 0 {
                                let c = choose|c: int| 0 <= c < old_lookup.len() && old_lookup[c].0@ == old_strings[i as int]@ && old_lookup[c].1 == i;
                                assert(c == b);
                            }
                        }
                        assert(b != k);
                        assert(self.lookup@ == old_lookup.remove(k as int));
                        let a = if b < k { b } else { b - 1 };
                        assert(self.lookup@[a] == old_lookup[b]);
                    },
                    None => {
                        assert(self.lookup@[b] == old_lookup[b]);
                    },
                }
            }
            assert(self.strings() =~= old(self).strings().update(id as int, Seq::<char>::empty()));
            assert(self.lookup() =~= old(self).lookup().remove(key)) by {
                assert forall|kk: Seq<char>| #[trigger] self.lookup().contains_key(kk) <==> old(self).lookup().remove(key).contains_key(kk) by {
                    if exists|a: int| 0 <= a < self.lookup@.len() && self.lookup@[a].0@ == kk {
                        let a = choose|a: int| 0 <= a < self.lookup@.len() && self.lookup@[a].0@ == kk;
                        assert(old_lookup[pos(a)].0@ == kk);
                    }
                    if kk != key && exists|b: int| 0 <= b < old_lookup.len() && old_lookup[b].0@ == kk {
                        let b = choose|b: int| 0 <= b < old_lookup.len() && old_lookup[b].0@ == kk;
                        match found {
                            Some(k) => {
                                assert(b != k);
                                assert(self.lookup@ == old_lookup.remove(k as int));
                                let a = if b < k { b } else { b - 1 };
                                assert(self.lookup@[a] == old_lookup[b]);
                            },
                            None => {
                                assert(self.lookup@[b] == old_lookup[b]);
                            },
                        }
                    }
                }
                assert forall|kk: Seq<char>| #[trigger] self.lookup().contains_key(kk) implies self.lookup()[kk] == old(self).lookup()[kk] by {
                    let a = choose|a: int| 0 <= a < self.lookup@.len() && self.lookup@[a].0@ == kk;
                    assert(old_lookup[pos(a)].0@ == kk);
                    let b = choose|b: int| 0 <= b < old_lookup.len() && old_lookup[b].0@ == kk;
                    assert(b == pos(a));
                }
            }
        }
    }

    /// What removing the strings numbered in `removed` does, from this
    /// interner to `fin`: those strings become empty, their lookup entries
    /// go, their use is counted from zero again, and all else stays.
    pub open spec fn cleaned_of(&self, fin: Self, removed: Set<int>) -> bool {
        &&& forall|j: int| #[trigger] removed.contains(j) ==> 0 <= j < self.strings().len()
        &&& fin.strings().len() == self.strings().len()
        &&& forall|j: int| 0 <= j < self.strings().len() ==> #[trigger] fin.strings()[j] == (if removed.contains(j) {
            Seq::<char>::empty()
        } else {
            self.strings()[j]
        })
        &&& forall|k: Seq<char>| #[trigger] fin.lookup().contains_key(k) <==> (self.lookup().contains_key(k)
            && !(exists|j: int| #[trigger] removed.contains(j) && self.strings()[j] == k))
        &&& forall|k: Seq<char>| #[trigger] fin.lookup().contains_key(k) ==> fin.lookup()[k] == self.lookup()[k]
        &&& fin.stats().len() == self.stats().len()
        &&& forall|j: int| 0 <= j < self.stats().len() ==> #[trigger] fin.stats()[j] == self.stats()[j] || (removed.contains(j)
            && fin.stats()[j].usage_count == 0 && fin.stats()[j].bytes_saved == 0)
        &&& forall|j: int| 0 <= j < self.stats().len() && #[trigger] removed.contains(j) ==> fin.stats()[j].usage_count == 0
            && fin.stats()[j].bytes_saved == 0
    }

    /// Removes the strings that went unused for longer than the threshold,
    /// when clean-up is on (see `cleaned_of`); which those are depends on
    /// the clock, so the set removed is not named.
    fn cleanup_if_needed(&mut self)
        requires
            old(self).wf(),
        ensures
            final(self).wf(),
            final(self).config() == old(self).config(),
            final(self).strings().len() == old(self).strings().len(),
            final(self).stats().len() == old(self).stats().len(),
            forall|j: int| 0 <= j < old(self).strings().len() ==> final(self).strings()[j] == old(self).strings()[j]
                || final(self).strings()[j].len() == 0,
            forall|k: Seq<char>| #[trigger] final(self).lookup().contains_key(k) ==> old(self).lookup().contains_key(k)
                && final(self).lookup()[k] == old(self).lookup()[k],
            !old(self).config().auto_cleanup ==> final(self).strings() == old(self).strings()
                && final(self).lookup() == old(self).lookup() && final(self).stats() == old(self).stats(),
            old(self).config().auto_cleanup ==> exists|removed: Set<int>| #[trigger] old(self).cleaned_of(*final(self), removed),
    {
        if !self.config.auto_cleanup {
            return;
        }
        let now = instant_now();
        let mut to_remove: Vec<u32> = Vec::new();
        let mut id: usize = 0;
        while id < self.usage_stats.len()
            invariant
                id <= self.usage_stats@.len() == self.strings@.len() <= u32::MAX,
                forall|a: int| 0 <= a < to_remove@.len() ==> (to_remove@[a] as int) < id,
                forall|a: int, b: int| 0 <= a < b < to_remove@.len() ==> to_remove@[a] < to_remove@[b],
            decreases self.usage_stats@.len() - id,
        {
            let gap = duration_since(&now, &self.usage_stats[id].last_used);
            if duration_exceeds(&gap, &self.config.cleanup_threshold) {
                to_remove.push(id as u32);
            }
            id += 1;
        }
        let mut r: usize = to_remove.len();
        assert(ids_from(to_remove@, r as int) =~= Set::<int>::empty());
        while r > 0
            invariant
                r <= to_remove@.len(),
                self.wf(),
                self.config() == old(self).config(),
                self.strings().len() == old(self).strings().len(),
                self.stats().len() == old(self).stats().len(),
                forall|j: int| 0 <= j < old(self).strings().len() ==> self.strings()[j] == old(self).strings()[j]
                    || self.strings()[j].len() == 0,
                forall|k: Seq<char>| #[trigger] self.lookup().contains_key(k) ==> old(self).lookup().contains_key(k)
                    && self.lookup()[k] == old(self).lookup()[k],
                forall|a: int| 0 <= a < to_remove@.len() ==> (to_remove@[a] as int) < old(self).strings().len(),
                forall|a: int, b: int| 0 <= a < b < to_remove@.len() ==> to_remove@[a] < to_remove@[b],
                old(self).cleaned_of(*self, ids_from(to_remove@, r as int)),
            decreases r,
        {
            r -= 1;
            let ghost before = *self;
            let ghost rs = ids_from(to_remove@, r as int + 1);
            let ghost j = to_remove@[r as int] as int;
            assert(!rs.contains(j)) by {
                if rs.contains(j) {
                    let a = choose|a: int| r + 1 <= a < to_remove@.len() && to_remove@[a] as int == j;
                    assert(to_remove@[r as int] < to_remove@[a]);
                }
            }
            self.remove_string(to_remove[r]);
            proof {
                let o = *old(self);
                let rs2 = ids_from(to_remove@, r as int);
                assert(rs2 =~= rs.insert(j));
                assert(before.strings()[j] == o.strings()[j]);
                assert forall|k: Seq<char>| #[trigger] self.lookup().contains_key(k) <==> (o.lookup().contains_key(k)
                    && !(exists|i: int| #[trigger] rs2.contains(i) && o.strings()[i] == k)) by {
                    if self.lookup().contains_key(k) {
                        assert(before.lookup().contains_key(k));
                        assert(k != o.strings()[j]);
                        if exists|i: int| #[trigger] rs2.contains(i) && o.strings()[i] == k {
                            let i = choose|i: int| #[trigger] rs2.contains(i) && o.strings()[i] == k;
                            assert(i != j);
                            assert(rs.contains(i));
                        }
                    }
                    if o.lookup().contains_key(k) && !(exists|i: int| #[trigger] rs2.contains(i) && o.strings()[i] == k) {
                        assert(rs2.contains(j));
                        if exists|i: int| #[trigger] rs.contains(i) && o.strings()[i] == k {
                            let i = choose|i: int| #[trigger] rs.contains(i) && o.strings()[i] == k;
                            assert(rs2.contains(i));
                        }
                        assert(before.lookup().contains_key(k));
                    }
                }
                assert forall|i: int| 0 <= i < o.strings().len() implies #[trigger] self.strings()[i] == (if rs2.contains(i) {
                    Seq::<char>::empty()
                } else {
                    o.strings()[i]
                }) by {
                    assert(before.strings()[i] == (if rs.contains(i) { Seq::<char>::empty() } else { o.strings()[i] }));
                }
                assert forall|i: int| 0 <= i < o.stats().len() implies #[trigger] self.stats()[i] == o.stats()[i] || (rs2.contains(i)
                    && self.stats()[i].usage_count == 0 && self.stats()[i].bytes_saved == 0) by {
                    if i != j {
                        assert(self.stats()[i] == before.stats()[i]);
                    }
                }
                assert forall|i: int| 0 <= i < o.stats().len() && #[trigger] rs2.contains(i) implies self.stats()[i].usage_count == 0
                    && self.stats()[i].bytes_saved == 0 by {
                    if i != j {
                        assert(self.stats()[i] == before.stats()[i]);
                        assert(rs.contains(i));
                    }
                }
                assert(o.cleaned_of(*self, rs2));
            }
            proof {
                assert forall|k: Seq<char>| #[trigger] self.lookup().contains_key(k) implies old(self).lookup().contains_key(k)
                    && self.lookup()[k] == old(self).lookup()[k] by {
                    assert(before.lookup().contains_key(k));
                    assert(self.lookup()[k] == before.lookup()[k]);
                }
            }
        }
    }

    /// The number of `s`. A string already in the lookup keeps its number
    /// and its use is counted. Another is numbered next and stored, unless
    /// it has the minimum length and the limit of strings is reached: then
    /// clean-up runs where it is on, which empties strings but keeps their
    /// number, and the next number is returned without storing the string.
    pub fn intern(&mut self, s: &str) -> (id: u32)
        requires
            old(self).wf(),
            old(self).strings().len() < u32::MAX,
        ensures
            final(self).wf(),
            final(self).config() == old(self).config(),
            old(self).lookup().contains_key(s@) || vstd::utf8::encode_utf8(s@).len() < old(self).config().min_length
                || old(self).strings().len() < old(self).config().max_interned_strings ==> Self::interned_as(*old(self), *final(self), s@, id),
            !old(self).lookup().contains_key(s@) && (vstd::utf8::encode_utf8(s@).len() < old(self).config().min_length
                || old(self).strings().len() < old(self).config().max_interned_strings) ==> {
                &&& id as int == old(self).strings().len()
                &&& final(self).strings().len() == old(self).strings().len() + 1
                &&& final(self).strings()[id as int] == s@
                &&& final(self).lookup().contains_key(s@)
                &&& final(self).lookup()[s@] == id
                &&& final(self).stats()[id as int].usage_count == 1
                &&& final(self).stats()[id as int].bytes_saved == 0
                &&& forall|j: int| 0 <= j < old(self).strings().len() ==> final(self).strings()[j] == old(self).strings()[j]
            },
            !old(self).lookup().contains_key(s@) && vstd::utf8::encode_utf8(s@).len() >= old(self).config().min_length
                && old(self).strings().len() >= old(self).config().max_interned_strings ==> {
                &&& id as int == old(self).strings().len()
                &&& final(self).strings().len() == old(self).strings().len()
                &&& !old(self).config().auto_cleanup ==> final(self).strings() == old(self).strings()
                    && final(self).lookup() == old(self).lookup() && final(self).stats() == old(self).stats()
                &&& old(self).config().auto_cleanup ==> exists|removed: Set<int>| #[trigger] old(self).cleaned_of(*final(self), removed)
            },
    {
        if s.as_bytes().len() < self.config.min_length {
            return self.intern_unconditional(s);
        }
        match self.find(s) {
            Some(k) => {
                let id = self.lookup[k].1;
                proof { self.lemma_lookup_at(k as int); }
                self.update_usage_stats(id);
                return id;
            },
            None => {},
        }
        if self.strings.len() >= self.config.max_interned_strings {
            self.cleanup_if_needed();
            if self.strings.len() >= self.config.max_interned_strings {
                return self.strings.len() as u32;
            }
        }
        self.push_new(s)
    }

    /// The bytes saved by all strings, as a 64-bit counter that wraps.
    pub fn total_memory_saved(&self) -> (total: u64)
        ensures
            total == saved_total(self.stats()),
    {
        let mut total: u64 = 0;
        let mut i: usize = 0;
        while i < self.usage_stats.len()
            invariant
                i <= self.usage_stats@.len(),
                total == saved_total(self.usage_stats@.subrange(0, i as int)),
            decreases self.usage_stats@.len() - i,
        {
            assert(self.usage_stats@.subrange(0, i + 1 as int).drop_last() =~= self.usage_stats@.subrange(0, i as int));
            total = total.wrapping_add(self.usage_stats[i].bytes_saved);
            i += 1;
        }
        assert(self.usage_stats@.subrange(0, i as int) =~= self.usage_stats@);
        total
    }

    /// Whether `s` is worth interning: it has the minimum length and the
    /// limit of strings is not reached.
    pub fn should_intern(&self, s: &str) -> (b: bool)
        requires
            self.wf(),
        ensures
            b == (vstd::utf8::encode_utf8(s@).len() >= self.config().min_length
                && self.strings().len() < self.config().max_interned_strings),
    {
        if s.as_bytes().len() < self.config.min_length {
            return false;
        }
        if self.strings.len() >= self.config.max_interned_strings {
            return false;
        }
        match self.find(s) {
            Some(_) => true,
            None => true,
        }
    }

    /// The number of strings used more than once.
    pub fn effective_string_count(&self) -> (n: usize)
        ensures
            n == reused_count(self.stats()),
    {
        let mut n: usize = 0;
        let mut i: usize = 0;
        while i < self.usage_stats.len()
            invariant
                i <= self.usage_stats@.len(),
                n == reused_count(self.usage_stats@.subrange(0, i as int)),
                n <= i,
            decreases self.usage_stats@.len() - i,
        {
            assert(self.usage_stats@.subrange(0, i + 1 as int).drop_last() =~= self.usage_stats@.subrange(0, i as int));
            if self.usage_stats[i].usage_count > 1 {
                n += 1;
            }
            i += 1;
        }
        assert(self.usage_stats@.subrange(0, i as int) =~= self.usage_stats@);
        n
    }

    proof fn lemma_nonempty_distinct(&self, i: int, j: int)
        requires
            self.wf(),
            0 <= i < self.strings@.len(),
            0 <= j < self.strings@.len(),
            i != j,
            self.strings@[i]@.len() > 0,
        ensures
            self.strings@[i]@ != self.strings@[j]@,
    {
        if self.strings@[i]@ == self.strings@[j]@ {
            let a = choose|a: int| 0 <= a < self.lookup@.len() && self.lookup@[a].0@ == self.strings@[i]@ && self.lookup@[a].1 == i;
            let b = choose|b: int| 0 <= b < self.lookup@.len() && self.lookup@[b].0@ == self.strings@[j]@ && self.lookup@[b].1 == j;
            assert(a == b);
        }
    }

    /// Rebuilds the interner without the strings that are empty or unused:
    /// the survivors keep their order and statistics and are numbered from
    /// zero.
    pub fn optimize(&mut self)
        requires
            old(self).wf(),
        ensures
            final(self).wf(),
            final(self).config() == old(self).config(),
            ({
                let ids = kept_ids(old(self).strings(), old(self).stats(), old(self).strings().len());
                &&& final(self).strings().len() == ids.len()
                &&& final(self).stats().len() == ids.len()
                &&& forall|a: int| 0 <= a < ids.len() ==> final(self).strings()[a] == old(self).strings()[#[trigger] ids[a]]
                    && final(self).stats()[a] == old(self).stats()[ids[a]]
            }),
            forall|k: Seq<char>| #[trigger] final(self).lookup().contains_key(k) <==> exists|a: int|
                0 <= a < final(self).strings().len() && final(self).strings()[a] == k,
            forall|a: int| 0 <= a < final(self).strings().len() ==> final(self).lookup()[#[trigger] final(self).strings()[a]] == a,
    {
        let ghost strs = self.strings();
        let ghost stats = self.stats();
        let mut new_strings: Vec<String> = Vec::new();
        let mut new_lookup: Vec<(String, u32)> = Vec::new();
        let mut new_stats: Vec<InterningStats> = Vec::new();
        let mut old_id: usize = 0;
        while old_id < self.strings.len()
            invariant
                self.wf(),
                strs == self.strings(),
                stats == self.stats(),
                old_id <= self.strings@.len(),
                new_strings@.len() == kept_ids(strs, stats, old_id as nat).len(),
                new_stats@.len() == kept_ids(strs, stats, old_id as nat).len(),
                new_lookup@.len() == kept_ids(strs, stats, old_id as nat).len(),
                forall|a: int| 0 <= a < kept_ids(strs, stats, old_id as nat).len() ==> #[trigger] new_strings@[a]@ == strs[kept_ids(strs, stats, old_id as nat)[a]],
                forall|a: int| 0 <= a < kept_ids(strs, stats, old_id as nat).len() ==> #[trigger] new_stats@[a] == stats[kept_ids(strs, stats, old_id as nat)[a]],
                forall|a: int| 0 <= a < kept_ids(strs, stats, old_id as nat).len() ==> (#[trigger] new_lookup@[a]).0@ == strs[kept_ids(strs, stats, old_id as nat)[a]]
                    && new_lookup@[a].1 == a,
            decreases self.strings@.len() - old_id,
        {
            proof { lemma_kept_ids(strs, stats, old_id as nat); }
            if self.strings[old_id].as_str().as_bytes().len() > 0 && self.usage_stats[old_id].usage_count > 0 {
                proof {
                    assert(self.strings@[old_id as int]@.len() > 0) by {
                        if self.strings@[old_id as int]@.len() == 0 {
                            assert(self.strings@[old_id as int]@ =~= Seq::<char>::empty());
                        }
                    }
                }
                let new_id = new_strings.len() as u32;
                new_strings.push(self.strings[old_id].clone());
                new_lookup.push((self.strings[old_id].clone(), new_id));
                new_stats.push(self.usage_stats[old_id]);
                proof {
                    let ids = kept_ids(strs, stats, old_id as nat);
                    let ids2 = kept_ids(strs, stats, (old_id + 1) as nat);
                    assert(ids2 == ids.push(old_id as int));
                    assert forall|a: int| 0 <= a < ids2.len() implies #[trigger] new_strings@[a]@ == strs[ids2[a]] by {
                        if a < ids.len() {
                            assert(ids2[a] == ids[a]);
                        }
                    }
                    assert forall|a: int| 0 <= a < ids2.len() implies #[trigger] new_stats@[a] == stats[ids2[a]] by {
                        if a < ids.len() {
                            assert(ids2[a] == ids[a]);
                        }
                    }
                    assert forall|a: int| 0 <= a < ids2.len() implies (#[trigger] new_lookup@[a]).0@ == strs[ids2[a]] && new_lookup@[a].1 == a by {
                        if a < ids.len() {
                            assert(ids2[a] == ids[a]);
                        }
                    }
                }
            } else {
                proof {
                    if self.strings@[old_id as int]@.len() > 0 {
                        assert(vstd::utf8::encode_utf8(self.strings@[old_id as int]@).len() > 0) by {
                            vstd::utf8::encode_utf8_decode_utf8(self.strings@[old_id as int]@);
                        }
                    }
                    let ids = kept_ids(strs, stats, old_id as nat);
                    let ids2 = kept_ids(strs, stats, (old_id + 1) as nat);
                    assert(!kept(strs, stats, old_id as int));
                    assert(ids2 == ids);
                    assert forall|a: int| 0 <= a < ids2.len() implies #[trigger] new_strings@[a]@ == strs[ids2[a]] by {
                        assert(ids2[a] == ids[a]);
                    }
                    assert forall|a: int| 0 <= a < ids2.len() implies #[trigger] new_stats@[a] == stats[ids2[a]] by {
                        assert(ids2[a] == ids[a]);
                    }
                    assert forall|a: int| 0 <= a < ids2.len() implies (#[trigger] new_lookup@[a]).0@ == strs[ids2[a]] && new_lookup@[a].1 == a by {
                        assert(ids2[a] == ids[a]);
                    }
                }
            }
            old_id += 1;
        }
        proof {
            let ids = kept_ids(strs, stats, old_id as nat);
            lemma_kept_ids(strs, stats, old_id as nat);
            assert forall|a: int, b: int| 0 <= a < new_lookup@.len() && 0 <= b < new_lookup@.len() && a != b
                implies new_lookup@[a].0@ != new_lookup@[b].0@ by {
                if a < b {
                    self.lemma_nonempty_distinct(ids[a], ids[b]);
                } else {
                    self.lemma_nonempty_distinct(ids[b], ids[a]);
                }
            }
        }
        self.strings = new_strings;
        self.lookup = new_lookup;
        self.usage_stats = new_stats;
        proof {
            let ids = kept_ids(strs, stats, old_id as nat);
            lemma_kept_ids(strs, stats, old_id as nat);
            assert forall|j: int| 0 <= j < self.strings@.len() && self.strings@[j]@.len() > 0 implies exists|i: int|
                0 <= i < self.lookup@.len() && self.lookup@[i].0@ == #[trigger] self.strings@[j]@ && self.lookup@[i].1 == j by {
                assert(self.lookup@[j].0@ == strs[ids[j]]);
                assert(self.strings@[j]@ == strs[ids[j]]);
            }
            assert forall|a: int| 0 <= a < self.lookup@.len() implies {
                let (k, d) = #[trigger] self.lookup@[a];
                &&& (d as int) < self.strings@.len()
                &&& self.strings@[d as int]@ == k@
            } by {
                assert(self.lookup@[a].0@ == strs[ids[a]]);
                assert(self.strings@[a]@ == strs[ids[a]]);
            }
            assert(self.strings().len() == ids.len());
            assert forall|k: Seq<char>| #[trigger] self.lookup().contains_key(k) <==> exists|a: int|
                0 <= a < self.strings().len() && self.strings()[a] == k by {
                if self.lookup().contains_key(k) {
                    let i = choose|i: int| 0 <= i < self.lookup@.len() && self.lookup@[i].0@ == k;
                    assert(self.strings()[i] == k);
                }
                if exists|a: int| 0 <= a < self.strings().len() && self.strings()[a] == k {
                    let a = choose|a: int| 0 <= a < self.strings().len() && self.strings()[a] == k;
                    assert(self.lookup@[a].0@ == k);
                }
            }
            assert forall|a: int| 0 <= a < self.strings().len() implies self.lookup()[#[trigger] self.strings()[a]] == a by {
                let k = self.strings()[a];
                assert(self.lookup@[a].0@ == k);
                let i = choose|i: int| 0 <= i < self.lookup@.len() && self.lookup@[i].0@ == k;
                assert(i == a);
            }
            assert forall|a: int| 0 <= a < ids.len() implies self.strings()[a] == old(self).strings()[#[trigger] ids[a]]
                && self.stats()[a] == old(self).stats()[ids[a]] by {
                assert(self.strings@[a]@ == strs[ids[a]]);
                assert(self.usage_stats@[a] == stats[ids[a]]);
            }
        }
    }

    /// The last string with the highest use count, and that count.
    pub fn most_used_string(&self) -> (r: Option<(u32, u64)>)
        requires
            self.wf(),
        ensures
            match r {
                None => self.stats().len() == 0,
                Some((id, count)) => (id as int) < self.stats().len() && count == self.stats()[id as int].usage_count
                    && (forall|j: int| 0 <= j < self.stats().len() ==> self.stats()[j].usage_count <= count)
                    && (forall|j: int| id < j < self.stats().len() ==> self.stats()[j].usage_count < count),
            },
    {
        if self.usage_stats.len() == 0 {
            return None;
        }
        let mut best: usize = 0;
        let mut i: usize = 1;
        while i < self.usage_stats.len()
            invariant
                1 <= i <= self.usage_stats@.len() <= u32::MAX,
                best < i,
                forall|j: int| 0 <= j < i ==> self.usage_stats@[j].usage_count <= self.usage_stats@[best as int].usage_count,
                forall|j: int| best < j < i ==> self.usage_stats@[j].usage_count < self.usage_stats@[best as int].usage_count,
            decreases self.usage_stats@.len() - i,
        {
            if self.usage_stats[i].usage_count >= self.usage_stats[best].usage_count {
                best = i;
            }
            i += 1;
        }
        Some((best as u32, self.usage_stats[best].usage_count))
    }

    /// The last string with the highest saving, and that saving.
    pub fn most_savings_string(&self) -> (r: Option<(u32, u64)>)
        requires
            self.wf(),
        ensures
            match r {
                None => self.stats().len() == 0,
                Some((id, saved)) => (id as int) < self.stats().len() && saved == self.stats()[id as int].bytes_saved
                    && (forall|j: int| 0 <= j < self.stats().len() ==> self.stats()[j].bytes_saved <= saved)
                    && (forall|j: int| id < j < self.stats().len() ==> self.stats()[j].bytes_saved < saved),
            },
    {
        if self.usage_stats.len() == 0 {
            return None;
        }
        let mut best: usize = 0;
        let mut i: usize = 1;
        while i < self.usage_stats.len()
            invariant
                1 <= i <= self.usage_stats@.len() <= u32::MAX,
                best < i,
                forall|j: int| 0 <= j < i ==> self.usage_stats@[j].bytes_saved <= self.usage_stats@[best as int].bytes_saved,
                forall|j: int| best < j < i ==> self.usage_stats@[j].bytes_saved < self.usage_stats@[best as int].bytes_saved,
            decreases self.usage_stats@.len() - i,
        {
            if self.usage_stats[i].bytes_saved >= self.usage_stats[best].bytes_saved {
                best = i;
            }
            i += 1;
        }
        Some((best as u32, self.usage_stats[best].bytes_saved))
    }

    /// The number of strings held (removed ones included).
    pub fn len(&self) -> (n: usize)
        ensures
            n == self.strings().len(),
    {
        self.strings.len()
    }
}

} // verus!
