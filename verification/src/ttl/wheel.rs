//! A timing wheel of expirations: a ring of slots, each standing for
//! `granularity` seconds, holding the keys that expire then.

use vstd::prelude::*;
use crate::clock::unix_now;
use crate::protocol::wire::bytes_eq;

verus! {

/// The slot of the key in a list of key and slot pairs: the first pair with
/// that key.
pub open spec fn slot_of(pairs: Seq<(Seq<u8>, usize)>, key: Seq<u8>) -> Option<usize>
    decreases pairs.len(),
{
    if pairs.len() == 0 {
        None
    } else if pairs[0].0 == key {
        Some(pairs[0].1)
    } else {
        slot_of(pairs.skip(1), key)
    }
}

/// The pairs without the first one that has the key.
pub open spec fn without_key(pairs: Seq<(Seq<u8>, usize)>, key: Seq<u8>) -> Seq<(Seq<u8>, usize)>
    decreases pairs.len(),
{
    if pairs.len() == 0 {
        pairs
    } else if pairs[0].0 == key {
        pairs.skip(1)
    } else {
        seq![pairs[0]] + without_key(pairs.skip(1), key)
    }
}

/// The pairs without those of the keys, one after the other.
pub open spec fn without_keys(pairs: Seq<(Seq<u8>, usize)>, keys: Seq<Seq<u8>>) -> Seq<(Seq<u8>, usize)>
    decreases keys.len(),
{
    if keys.len() == 0 {
        pairs
    } else {
        without_key(without_keys(pairs, keys.drop_last()), keys.last())
    }
}

/// The position of the first occurrence of `key`, or the length where it
/// does not occur.
pub open spec fn first_index(s: Seq<Seq<u8>>, key: Seq<u8>) -> int
    decreases s.len(),
{
    if s.len() == 0 {
        0
    } else if s[0] == key {
        0
    } else {
        1 + first_index(s.skip(1), key)
    }
}

/// The keys of a slot without the first occurrence of `key`.
pub open spec fn drop_first(s: Seq<Seq<u8>>, key: Seq<u8>) -> Seq<Seq<u8>> {
    if first_index(s, key) < s.len() {
        s.remove(first_index(s, key))
    } else {
        s
    }
}

/// How many slots hold a key.
pub open spec fn busy_slots(w: Seq<Seq<Seq<u8>>>) -> nat
    decreases w.len(),
{
    if w.len() == 0 {
        0
    } else {
        busy_slots(w.drop_last()) + if w.last().len() > 0 {
            1nat
        } else {
            0nat
        }
    }
}

proof fn lemma_first_index(s: Seq<Seq<u8>>, key: Seq<u8>)
    ensures
        0 <= first_index(s, key) <= s.len(),
        first_index(s, key) < s.len() ==> s[first_index(s, key)] == key,
        forall|j: int| 0 <= j < first_index(s, key) ==> s[j] != key,
    decreases s.len(),
{
    if s.len() > 0 && s[0] != key {
        lemma_first_index(s.skip(1), key);
        assert forall|j: int| 0 <= j < first_index(s, key) implies s[j] != key by {
            if j > 0 {
                assert(s[j] == s.skip(1)[j - 1]);
            }
        }
    }
}

proof fn lemma_slot_of_at(pairs: Seq<(Seq<u8>, usize)>, key: Seq<u8>, i: int)
    requires
        0 <= i < pairs.len(),
        pairs[i].0 == key,
        forall|j: int| 0 <= j < i ==> #[trigger] pairs[j].0 != key,
    ensures
        slot_of(pairs, key) == Some(pairs[i].1),
        without_key(pairs, key) == pairs.remove(i),
    decreases i,
{
    if i > 0 {
        assert(pairs[0].0 != key);
        assert forall|j: int| 0 <= j < i - 1 implies #[trigger] pairs.skip(1)[j].0 != key by {
            assert(pairs.skip(1)[j] == pairs[j + 1]);
        }
        lemma_slot_of_at(pairs.skip(1), key, i - 1);
        assert(seq![pairs[0]] + pairs.skip(1).remove(i - 1) =~= pairs.remove(i));
    } else {
        assert(pairs.skip(1) =~= pairs.remove(0));
    }
}

proof fn lemma_slot_of_absent(pairs: Seq<(Seq<u8>, usize)>, key: Seq<u8>)
    requires
        forall|j: int| 0 <= j < pairs.len() ==> #[trigger] pairs[j].0 != key,
    ensures
        slot_of(pairs, key) is None,
        without_key(pairs, key) == pairs,
    decreases pairs.len(),
{
    if pairs.len() > 0 {
        assert(pairs[0].0 != key);
        assert forall|j: int| 0 <= j < pairs.skip(1).len() implies #[trigger] pairs.skip(1)[j].0 != key by {
            assert(pairs.skip(1)[j] == pairs[j + 1]);
        }
        lemma_slot_of_absent(pairs.skip(1), key);
        assert(seq![pairs[0]] + pairs.skip(1) =~= pairs);
    }
}

/// A ring of slots of keys, with the slot of each key.
pub struct TTLWheel {
    slots: usize,
    current_slot: usize,
    wheel: Vec<Vec<Vec<u8>>>,
    key_to_slot: Vec<(Vec<u8>, usize)>,
    granularity: u64,
}

impl TTLWheel {
    /// The number of slots.
    pub closed spec fn slot_count(&self) -> usize {
        self.slots
    }

    /// The seconds each slot stands for.
    pub closed spec fn seconds_per_slot(&self) -> u64 {
        self.granularity
    }

    /// The slot the next tick empties.
    pub closed spec fn current(&self) -> usize {
        self.current_slot
    }

    /// The keys of each slot, oldest first.
    pub closed spec fn ring(&self) -> Seq<Seq<Seq<u8>>> {
        self.wheel@.map_values(|s: Vec<Vec<u8>>| s@.map_values(|k: Vec<u8>| k@))
    }

    /// The keys tracked and their slots.
    pub closed spec fn entries(&self) -> Seq<(Seq<u8>, usize)> {
        self.key_to_slot@.map_values(|p: (Vec<u8>, usize)| (p.0@, p.1))
    }

    /// The ring has its slots, the slot durations are not zero, the current
    /// slot lies in the ring, and the slot of each key lies in it too.
    pub closed spec fn wf(&self) -> bool {
        &&& self.slots > 0
        &&& self.granularity > 0
        &&& self.wheel@.len() == self.slots
        &&& self.current_slot < self.slots
        &&& forall|i: int| 0 <= i < self.key_to_slot@.len() ==> #[trigger] self.key_to_slot@[i].1 < self.slots
    }

    /// The slot a time in seconds falls into.
    pub open spec fn slot_spec(&self, time_seconds: u64) -> usize {
        ((time_seconds / self.seconds_per_slot()) % (self.slot_count() as u64)) as usize
    }

    /// A ring of `slots` empty slots of `granularity` seconds each. It is
    /// usable where both are above zero.
    pub fn new(slots: usize, granularity: u64) -> (w: Self)
        ensures
            w.slot_count() == slots,
            w.seconds_per_slot() == granularity,
            w.current() == 0,
            w.ring() == Seq::new(slots as nat, |i: int| Seq::<Seq<u8>>::empty()),
            w.entries().len() == 0,
            w.wf() == (slots > 0 && granularity > 0),
    {
        let mut wheel: Vec<Vec<Vec<u8>>> = Vec::new();
        let mut i: usize = 0;
        while i < slots
            invariant
                i <= slots,
                wheel@.len() == i,
                forall|k: int| 0 <= k < i ==> #[trigger] wheel@[k]@.len() == 0,
            decreases slots - i,
        {
            wheel.push(Vec::new());
            i = i + 1;
        }
        let w = TTLWheel { slots, current_slot: 0, wheel, key_to_slot: Vec::new(), granularity };
        assert forall|k: int| 0 <= k < slots implies #[trigger] w.ring()[k] =~= Seq::<Seq<u8>>::empty() by {
            assert(w.wheel@[k]@.len() == 0);
        }
        assert(w.ring() =~= Seq::new(slots as nat, |i: int| Seq::<Seq<u8>>::empty()));
        assert(w.entries() =~= Seq::<(Seq<u8>, usize)>::empty());
        w
    }

    fn time_to_slot(&self, time_seconds: u64) -> (s: usize)
        requires
            self.wf(),
        ensures
            s == self.slot_spec(time_seconds),
            s < self.slot_count(),
    {
        ((time_seconds / self.granularity) % self.slots as u64) as usize
    }

    fn position(&self, key: &[u8]) -> (r: Option<usize>)
        ensures
            match r {
                Some(i) => i < self.entries().len() && self.entries()[i as int].0 == key@
                    && forall|j: int| 0 <= j < i ==> #[trigger] self.entries()[j].0 != key@,
                None => forall|j: int| 0 <= j < self.entries().len() ==> #[trigger] self.entries()[j].0 != key@,
            },
    {
        let mut i: usize = 0;
        while i < self.key_to_slot.len()
            invariant
                i <= self.key_to_slot@.len(),
                forall|j: int| 0 <= j < i ==> #[trigger] self.entries()[j].0 != key@,
            decreases self.key_to_slot@.len() - i,
        {
            if bytes_eq(self.key_to_slot[i].0.as_slice(), key) {
                return Some(i);
            }
            i = i + 1;
        }
        None
    }

    /// Stops tracking a key: its pair goes, and the first occurrence of the
    /// key in its slot. Whether it was found in its slot.
    pub fn remove_key(&mut self, key: &[u8]) -> (found: bool)
        requires
            old(self).wf(),
        ensures
            final(self).wf(),
            final(self).slot_count() == old(self).slot_count(),
            final(self).seconds_per_slot() == old(self).seconds_per_slot(),
            final(self).current() == old(self).current(),
            final(self).entries() == without_key(old(self).entries(), key@),
            match slot_of(old(self).entries(), key@) {
                Some(s) => {
                    &&& found == (first_index(old(self).ring()[s as int], key@) < old(self).ring()[s as int].len())
                    &&& final(self).ring() == old(self).ring().update(s as int, drop_first(old(self).ring()[s as int], key@))
                },
                None => !found && final(self).ring() == old(self).ring(),
            },
    {
        let ghost e0 = self.entries();
        match self.position(key) {
            None => {
                proof {
                    lemma_slot_of_absent(e0, key@);
                }
                false
            },
            Some(i) => {
                proof {
                    lemma_slot_of_at(e0, key@, i as int);
                }
                let (_k, slot) = self.key_to_slot.remove(i);
                assert(self.entries() =~= e0.remove(i as int));
                assert forall|m: int| 0 <= m < self.key_to_slot@.len() implies #[trigger] self.key_to_slot@[m].1 < self.slots by {
                    if m < i {
                        assert(self.key_to_slot@[m] == old(self).key_to_slot@[m]);
                    } else {
                        assert(self.key_to_slot@[m] == old(self).key_to_slot@[m + 1]);
                    }
                }
                assert(self.wf());
                let ghost r0 = self.ring();
                let ghost ks = r0[slot as int];
                proof {
                    lemma_first_index(ks, key@);
                }
                let mut j: usize = 0;
                let n = self.wheel[slot].len();
                while j < n
                    invariant
                        self.wf(),
                        self.slots == old(self).slots,
                        self.current_slot == old(self).current_slot,
                        self.granularity == old(self).granularity,
                        self.entries() == without_key(e0, key@),
                        e0 == old(self).entries(),
                        r0 == old(self).ring(),
                        slot_of(e0, key@) == Some(slot),
                        slot < self.wheel@.len(),
                        n == self.wheel@[slot as int]@.len(),
                        ks == r0[slot as int],
                        r0 == self.ring(),
                        j <= n,
                        forall|m: int| 0 <= m < j ==> #[trigger] ks[m] != key@,
                    decreases n - j,
                {
                    assert(ks[j as int] == self.wheel@[slot as int]@[j as int]@);
                    if bytes_eq(self.wheel[slot][j].as_slice(), key) {
                        proof {
                            lemma_first_index(ks, key@);
                            assert(first_index(ks, key@) == j) by {
                                if first_index(ks, key@) < j {
                                    assert(ks[first_index(ks, key@)] == key@);
                                }
                            }
                        }
                        let ghost w0 = self.wheel@;
                        let mut bucket = self.wheel.remove(slot);
                        let ghost b0 = bucket@;
                        bucket.remove(j);
                        let ghost b1 = bucket@;
                        self.wheel.insert(slot, bucket);
                        assert(self.wheel@ =~= w0.update(slot as int, bucket));
                        assert(b1 == b0.remove(j as int));
                        assert(ks == b0.map_values(|k: Vec<u8>| k@));
                        assert(b1.map_values(|k: Vec<u8>| k@) =~= ks.remove(j as int));
                        assert(self.ring() =~= r0.update(slot as int, drop_first(ks, key@)));
                        return true;
                    }
                    j = j + 1;
                }
                proof {
                    if first_index(ks, key@) < ks.len() {
                        assert(ks[first_index(ks, key@)] == key@);
                    }
                }
                false
            },
        }
    }

    fn remove_entry(&mut self, key: &[u8])
        requires
            old(self).wf(),
        ensures
            final(self).wf(),
            final(self).entries() == without_key(old(self).entries(), key@),
            final(self).wheel == old(self).wheel,
            final(self).slots == old(self).slots,
            final(self).current_slot == old(self).current_slot,
            final(self).granularity == old(self).granularity,
    {
        let ghost e0 = self.entries();
        match self.position(key) {
            None => {
                proof {
                    lemma_slot_of_absent(e0, key@);
                }
            },
            Some(i) => {
                proof {
                    lemma_slot_of_at(e0, key@, i as int);
                }
                self.key_to_slot.remove(i);
                assert(self.entries() =~= e0.remove(i as int));
                assert forall|m: int| 0 <= m < self.key_to_slot@.len() implies #[trigger] self.key_to_slot@[m].1 < self.slots by {
                    if m < i {
                        assert(self.key_to_slot@[m] == old(self).key_to_slot@[m]);
                    } else {
                        assert(self.key_to_slot@[m] == old(self).key_to_slot@[m + 1]);
                    }
                }
            },
        }
    }

    /// What tracking `key` to expire at the time `expiry` does, from this
    /// wheel to `fin`: the key leaves its old slot and joins the end of the
    /// slot of that time.
    pub open spec fn added(&self, fin: Self, key: Seq<u8>, expiry: u64) -> bool {
        let s = self.slot_spec(expiry);
        let mid = ring_without(self.ring(), self.entries(), key);
        &&& fin.wf()
        &&& fin.slot_count() == self.slot_count()
        &&& fin.seconds_per_slot() == self.seconds_per_slot()
        &&& fin.current() == self.current()
        &&& fin.ring() == mid.update(s as int, mid[s as int].push(key))
        &&& fin.entries() == without_key(self.entries(), key).push((key, s))
    }

    /// Tracks a key that lives `ttl_seconds` from the time `now`: it is
    /// first untracked (see `remove_key`), then put at the end of the slot
    /// of its expiry time.
    pub fn add_key_at(&mut self, key: Vec<u8>, ttl_seconds: u64, now: u64)
        requires
            old(self).wf(),
            now + ttl_seconds <= u64::MAX,
        ensures
            final(self).wf(),
            final(self).slot_count() == old(self).slot_count(),
            final(self).seconds_per_slot() == old(self).seconds_per_slot(),
            final(self).current() == old(self).current(),
            ({
                let s = old(self).slot_spec((now + ttl_seconds) as u64);
                let mid = ring_without(old(self).ring(), old(self).entries(), key@);
                &&& final(self).ring() == mid.update(s as int, mid[s as int].push(key@))
                &&& final(self).entries() == without_key(old(self).entries(), key@).push((key@, s))
            }),
    {
        let expire_time = now + ttl_seconds;
        let slot = self.time_to_slot(expire_time);
        self.remove_key(key.as_slice());
        let ghost mid = self.ring();
        let ghost e1 = self.entries();
        let ghost w0 = self.wheel@;
        let mut bucket = self.wheel.remove(slot);
        let ghost b0 = bucket@;
        bucket.push(key.clone());
        self.wheel.insert(slot, bucket);
        proof {
            assert(self.wheel@ =~= w0.update(slot as int, bucket));
            assert(bucket@.map_values(|k: Vec<u8>| k@) =~= b0.map_values(|k: Vec<u8>| k@).push(key@));
            assert(self.ring() =~= mid.update(slot as int, mid[slot as int].push(key@)));
        }
        self.key_to_slot.push((key, slot));
        assert(self.entries() =~= e1.push((key@, slot)));
    }

    /// Tracks a key that lives `ttl_seconds` from now (see `add_key_at`);
    /// an expiry past the largest time counts as that time, and a clock set
    /// before 1970 as 1970: what `add_key_at` does at the time the clock
    /// reads, which is not named.
    pub fn add_key(&mut self, key: Vec<u8>, ttl_seconds: u64)
        requires
            old(self).wf(),
        ensures
            final(self).wf(),
            final(self).slot_count() == old(self).slot_count(),
            final(self).current() == old(self).current(),
            final(self).entries().len() > 0,
            ({
                let e = final(self).entries().last();
                let mid = ring_without(old(self).ring(), old(self).entries(), key@);
                &&& e.0 == key@
                &&& e.1 < old(self).slot_count()
                &&& final(self).entries() == without_key(old(self).entries(), key@).push(e)
                &&& final(self).ring() == mid.update(e.1 as int, mid[e.1 as int].push(key@))
            }),
            exists|now: u64| #[trigger] old(self).added(*final(self), key@, crate::store::item::expiry_time(now, ttl_seconds)),
    {
        let now = match unix_now() {
            Some(n) => n,
            None => 0,
        };
        let ttl = if ttl_seconds > u64::MAX - now {
            u64::MAX - now
        } else {
            ttl_seconds
        };
        let ghost kv = key@;
        self.add_key_at(key, ttl, now);
        assert(old(self).added(*self, kv, crate::store::item::expiry_time(now, ttl_seconds)));
    }

    /// Empties the current slot and moves to the next, round the ring: the
    /// keys of the slot, in order, are no longer tracked and are returned.
    pub fn tick(&mut self) -> (expired: Vec<Vec<u8>>)
        requires
            old(self).wf(),
        ensures
            final(self).wf(),
            final(self).slot_count() == old(self).slot_count(),
            final(self).seconds_per_slot() == old(self).seconds_per_slot(),
            expired@.map_values(|k: Vec<u8>| k@) == old(self).ring()[old(self).current() as int],
            final(self).ring() == old(self).ring().update(old(self).current() as int, Seq::empty()),
            final(self).entries() == without_keys(old(self).entries(), old(self).ring()[old(self).current() as int]),
            final(self).current() == (old(self).current() + 1) % (old(self).slot_count() as int),
    {
        let cur = self.current_slot;
        let ghost w0 = self.wheel@;
        let bucket = self.wheel.remove(cur);
        let fresh: Vec<Vec<u8>> = Vec::new();
        self.wheel.insert(cur, fresh);
        proof {
            assert(self.wheel@ =~= w0.update(cur as int, fresh));
            assert(fresh@.map_values(|k: Vec<u8>| k@) =~= Seq::<Seq<u8>>::empty());
            assert(self.ring()[cur as int] =~= Seq::<Seq<u8>>::empty());
            assert(self.ring() =~= old(self).ring().update(cur as int, Seq::empty()));
        }
        let ghost keys = bucket@.map_values(|k: Vec<u8>| k@);
        let mut expired: Vec<Vec<u8>> = Vec::new();
        let mut i: usize = 0;
        while i < bucket.len()
            invariant
                self.wf(),
                self.slots == old(self).slots,
                self.granularity == old(self).granularity,
                self.current_slot == cur,
                cur == old(self).current_slot,
                self.ring() == old(self).ring().update(cur as int, Seq::empty()),
                keys == bucket@.map_values(|k: Vec<u8>| k@),
                keys == old(self).ring()[cur as int],
                i <= bucket@.len(),
                expired@.map_values(|k: Vec<u8>| k@) == keys.take(i as int),
                self.entries() == without_keys(old(self).entries(), keys.take(i as int)),
            decreases bucket@.len() - i,
        {
            let ghost e0 = self.entries();
            self.remove_entry(bucket[i].as_slice());
            let ghost before = expired@;
            expired.push(bucket[i].clone());
            proof {
                assert(keys.take(i + 1).drop_last() =~= keys.take(i as int));
                assert(keys.take(i + 1).last() == bucket@[i as int]@);
                assert(expired@.map_values(|k: Vec<u8>| k@) =~= keys.take(i + 1));
            }
            i = i + 1;
        }
        assert(keys.take(i as int) =~= keys);
        self.current_slot = (self.current_slot + 1) % self.slots;
        expired
    }

    /// The slots from `from` forward to `to`, round the ring.
    pub fn slots_between(&self, from: usize, to: usize) -> (n: usize)
        requires
            self.wf(),
            from < self.slot_count(),
            to < self.slot_count(),
        ensures
            n == (if to >= from {
                to - from
            } else {
                self.slot_count() - from + to
            }),
    {
        if to >= from {
            to - from
        } else {
            (self.slots - from) + to
        }
    }

    /// Whether a key is tracked and due at the time `now`: its slot lies
    /// more than half the ring ahead of the slot of `now`.
    pub open spec fn due_at(&self, key: Seq<u8>, now: u64) -> bool {
        match slot_of(self.entries(), key) {
            Some(s) => {
                let c = self.slot_spec(now);
                (if s >= c {
                    s - c
                } else {
                    self.slot_count() - c + s
                }) > self.slot_count() / 2
            },
            None => false,
        }
    }

    /// Whether a tracked key is due at the time `now`: its slot lies more
    /// than half the ring ahead of the slot of `now`.
    pub fn should_expire_at(&self, key: &[u8], now: u64) -> (b: bool)
        requires
            self.wf(),
        ensures
            b == self.due_at(key@, now),
    {
        let ghost e0 = self.entries();
        match self.position(key) {
            Some(i) => {
                proof {
                    lemma_slot_of_at(e0, key@, i as int);
                }
                let slot = self.key_to_slot[i].1;
                let current_time_slot = self.time_to_slot(now);
                self.slots_between(current_time_slot, slot) > self.slots / 2
            },
            None => {
                proof {
                    lemma_slot_of_absent(e0, key@);
                }
                false
            },
        }
    }

    /// Whether a tracked key is due now (see `should_expire_at`); a clock
    /// set before 1970 counts as 1970.
    pub fn should_expire(&self, key: &[u8]) -> (b: bool)
        requires
            self.wf(),
        ensures
            slot_of(self.entries(), key@) is None ==> !b,
            exists|now: u64| b == #[trigger] self.due_at(key@, now),
    {
        let now = match unix_now() {
            Some(n) => n,
            None => 0,
        };
        let b = self.should_expire_at(key, now);
        assert(b == self.due_at(key@, now));
        b
    }

    /// The number of keys tracked and of slots that hold a key.
    pub fn stats(&self) -> (r: (usize, usize))
        ensures
            r.0 == self.entries().len(),
            r.1 == busy_slots(self.ring()),
    {
        let mut busy: usize = 0;
        let mut i: usize = 0;
        while i < self.wheel.len()
            invariant
                i <= self.wheel@.len(),
                busy == busy_slots(self.ring().take(i as int)),
                busy <= i,
            decreases self.wheel@.len() - i,
        {
            assert(self.ring().take(i + 1).drop_last() =~= self.ring().take(i as int));
            if self.wheel[i].len() > 0 {
                busy = busy + 1;
            }
            i = i + 1;
        }
        assert(self.ring().take(i as int) =~= self.ring());
        (self.key_to_slot.len(), busy)
    }
}

/// The ring once a key is untracked: the first occurrence of the key in its
/// slot is dropped.
pub open spec fn ring_without(ring: Seq<Seq<Seq<u8>>>, entries: Seq<(Seq<u8>, usize)>, key: Seq<u8>) -> Seq<Seq<Seq<u8>>> {
    match slot_of(entries, key) {
        Some(s) => ring.update(s as int, drop_first(ring[s as int], key)),
        None => ring,
    }
}

} // verus!
