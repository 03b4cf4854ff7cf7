//! The store of a shard: entries by key in an `ahash` map, with the memory
//! their layouts take and a limit on it. Expiry is checked against a time
//! in whole seconds; the functions without a time read the clock.

use vstd::prelude::*;
use ahash::{AHashMap, RandomState};
use crate::store::item::{expired_at, expiry_time, item_size, now_seconds, Item, ItemView};

verus! {

#[verifier::external_type_specification]
#[verifier::external_body]
#[verifier::reject_recursive_types(K)]
#[verifier::reject_recursive_types(V)]
#[verifier::reject_recursive_types(S)]
pub struct ExAHashMap<K, V, S>(AHashMap<K, V, S>);

#[verifier::external_type_specification]
#[verifier::external_body]
pub struct ExRandomState(RandomState);

/// An `ahash` map of entries by key.
pub type ItemMap = AHashMap<Vec<u8>, Item>;

/// The entries an `ahash` map of entries holds, by key.
pub uninterp spec fn entries_of(m: ItemMap) -> Map<Seq<u8>, ItemView>;

/// No entry at all.
pub open spec fn no_entries() -> Map<Seq<u8>, ItemView> {
    Map::empty()
}

/// Calls `AHashMap::new`. Claimed: the map is empty.
#[verifier::external_body]
fn map_new() -> (m: ItemMap)
    ensures
        entries_of(m) == no_entries(),
{
    AHashMap::new()
}

/// Calls `AHashMap::get`. Claimed, as `HashMap::get` documents: the entry
/// of the key where there is one.
#[verifier::external_body]
fn map_get<'a>(m: &'a ItemMap, key: &[u8]) -> (r: Option<&'a Item>)
    ensures
        match r {
            Some(i) => entries_of(*m).contains_key(key@) && i@ == entries_of(*m)[key@],
            None => !entries_of(*m).contains_key(key@),
        },
{
    m.get(key)
}

/// Calls `AHashMap::insert`. Claimed, as `HashMap::insert` documents: the
/// key now maps to the entry, and the entry it mapped to before is
/// returned.
#[verifier::external_body]
fn map_insert(m: &mut ItemMap, key: Vec<u8>, item: Item) -> (r: Option<Item>)
    ensures
        entries_of(*final(m)) == entries_of(*old(m)).insert(key@, item@),
        match r {
            Some(i) => entries_of(*old(m)).contains_key(key@) && i@ == entries_of(*old(m))[key@],
            None => !entries_of(*old(m)).contains_key(key@),
        },
{
    m.insert(key, item)
}

/// Calls `AHashMap::remove`. Claimed, as `HashMap::remove` documents: the
/// key no longer maps to anything, and the entry it mapped to is returned.
#[verifier::external_body]
fn map_remove(m: &mut ItemMap, key: &[u8]) -> (r: Option<Item>)
    ensures
        entries_of(*final(m)) == entries_of(*old(m)).remove(key@),
        match r {
            Some(i) => entries_of(*old(m)).contains_key(key@) && i@ == entries_of(*old(m))[key@],
            None => !entries_of(*old(m)).contains_key(key@),
        },
{
    m.remove(key)
}

/// Calls `HashMap::len` through the map. Claimed: the number of keys.
#[verifier::external_body]
fn map_len(m: &ItemMap) -> (n: usize)
    ensures
        n == entries_of(*m).dom().len(),
{
    m.len()
}

/// Calls `HashMap::keys` through the map and copies each key. Claimed:
/// every key once, in an order the contract does not give (it depends on
/// the hasher's seed).
#[verifier::external_body]
fn map_keys(m: &ItemMap) -> (r: Vec<Vec<u8>>)
    ensures
        r@.len() == entries_of(*m).dom().len(),
        forall|i: int| 0 <= i < r@.len() ==> entries_of(*m).contains_key(#[trigger] r@[i]@),
        forall|k: Seq<u8>| entries_of(*m).contains_key(k) ==> exists|i: int| 0 <= i < r@.len() && #[trigger] r@[i]@ == k,
        forall|i: int, j: int| 0 <= i < j < r@.len() ==> #[trigger] r@[i]@ != #[trigger] r@[j]@,
{
    m.keys().cloned().collect()
}

/// The bytes of an optional value.
pub open spec fn bytes_opt(r: Option<Vec<u8>>) -> Option<Seq<u8>> {
    match r {
        Some(v) => Some(v@),
        None => None,
    }
}

/// The value a read of `key` at the time `now` gives: the entry's value
/// where there is an entry that has not expired.
pub open spec fn read_at(m: Map<Seq<u8>, ItemView>, key: Seq<u8>, now: u64) -> Option<Seq<u8>> {
    if m.contains_key(key) && !expired_at(m[key], now) {
        Some(m[key].value)
    } else {
        None
    }
}

/// The entry a write of `value` under `key` at the time `now` makes, living
/// `ttl` seconds where one is given.
pub open spec fn written(key: Seq<u8>, value: Seq<u8>, ttl: Option<u64>, now: u64) -> ItemView {
    ItemView {
        key,
        value,
        expires_at: match ttl {
            Some(t) => Some((now + t) as u64),
            None => None,
        },
        flags: 0,
    }
}

/// A time to live cut, where given, so that it expires by the largest
/// time when counted from `now`.
pub open spec fn clamped_ttl(ttl: Option<u64>, now: u64) -> Option<u64> {
    match ttl {
        Some(t) => Some(if t > u64::MAX - now { (u64::MAX - now) as u64 } else { t }),
        None => None,
    }
}

/// The entries after the expired ones at the time `now` are dropped.
pub open spec fn unexpired(m: Map<Seq<u8>, ItemView>, now: u64) -> Map<Seq<u8>, ItemView> {
    m.restrict(m.dom().filter(|k: Seq<u8>| !expired_at(m[k], now)))
}

/// Every key of a map appears among a list of all its keys.
proof fn lemma_key_listed(keys: Seq<Vec<u8>>, m: Map<Seq<u8>, ItemView>, k: Seq<u8>)
    requires
        keys.len() == m.dom().len(),
        m.dom().finite(),
        forall|j: int| 0 <= j < keys.len() ==> m.contains_key(#[trigger] keys[j]@),
        forall|a: int, b: int| 0 <= a < b < keys.len() ==> #[trigger] keys[a]@ != #[trigger] keys[b]@,
        m.contains_key(k),
    ensures
        exists|j: int| 0 <= j < keys.len() && #[trigger] keys[j]@ == k,
{
    let listed = Set::new(|x: Seq<u8>| exists|j: int| 0 <= j < keys.len() && #[trigger] keys[j]@ == x);
    let views = keys.map_values(|v: Vec<u8>| v@);
    assert forall|a: int, b: int| 0 <= a < b < views.len() implies views[a] != views[b] by {
        assert(views[a] == keys[a]@);
        assert(views[b] == keys[b]@);
    }
    views.unique_seq_to_set();
    assert(views.to_set() =~= listed) by {
        assert forall|x: Seq<u8>| views.to_set().contains(x) implies listed.contains(x) by {
            let j = choose|j: int| 0 <= j < views.len() && views[j] == x;
            assert(keys[j]@ == x);
        }
        assert forall|x: Seq<u8>| listed.contains(x) implies views.to_set().contains(x) by {
            let j = choose|j: int| 0 <= j < keys.len() && #[trigger] keys[j]@ == x;
            assert(views[j] == x);
        }
    }
    assert(listed.subset_of(m.dom()));
    if !listed.contains(k) {
        vstd::set_lib::lemma_len_subset(listed, m.dom().remove(k));
        assert(false);
    }
}

/// The entries of a shard and the memory they take.
pub struct ShardStore {
    items: ItemMap,
    memory_used: usize,
    max_memory: usize,
}

impl ShardStore {
    /// The entries by key.
    pub closed spec fn contents(&self) -> Map<Seq<u8>, ItemView> {
        entries_of(self.items)
    }

    /// The memory counted as used.
    pub closed spec fn used(&self) -> usize {
        self.memory_used
    }

    /// The memory limit.
    pub closed spec fn limit(&self) -> usize {
        self.max_memory
    }

    /// Every entry's layout size can be computed.
    pub open spec fn wf(&self) -> bool {
        &&& self.contents().dom().finite()
        &&& forall|k: Seq<u8>| self.contents().contains_key(k) ==> item_size(#[trigger] self.contents()[k]) <= usize::MAX
    }

    /// An empty store with the given limit.
    pub fn new(max_memory: usize) -> (s: Self)
        ensures
            s.wf(),
            s.contents() == Map::<Seq<u8>, ItemView>::empty(),
            s.used() == 0,
            s.limit() == max_memory,
    {
        ShardStore { items: map_new(), memory_used: 0, max_memory }
    }

    /// What `put_at` does, from this store to `fin`, storing `value` under
    /// `key` at the time `now` with the given time to live, and returning
    /// `stored`.
    pub open spec fn put_outcome(&self, fin: Self, key: Seq<u8>, value: Seq<u8>, ttl: Option<u64>, now: u64, stored: bool) -> bool {
        let iv = written(key, value, ttl, now);
        let size = item_size(iv);
        let c = self.contents();
        &&& stored == !(self.used() + size > self.limit() && !c.contains_key(key))
        &&& stored ==> fin.contents() == c.insert(key, iv) && fin.used() == (if c.contains_key(key) {
            if self.used() >= item_size(c[key]) {
                self.used() - item_size(c[key])
            } else {
                0
            }
        } else {
            self.used() as int
        }) + size
        &&& !stored ==> fin.contents() == c && fin.used() == self.used()
    }

    /// Stores `value` under `key` at the time `now`, living `ttl` seconds
    /// where given. Refused, with nothing changed, where the key is new and
    /// its layout would take the memory past the limit; else the entry
    /// replaces any old one, whose size is no longer counted.
    pub fn put_at(&mut self, key: Vec<u8>, value: Vec<u8>, ttl: Option<u64>, now: u64) -> (stored: bool)
        requires
            old(self).wf(),
            ttl matches Some(t) ==> now + t <= u64::MAX,
            old(self).used() + item_size(written(key@, value@, ttl, now)) <= usize::MAX,
        ensures
            final(self).wf(),
            final(self).limit() == old(self).limit(),
            old(self).put_outcome(*final(self), key@, value@, ttl, now, stored),
    {
        let k2 = key.clone();
        assert(k2@ == key@);
        let item = match ttl {
            Some(t) => Item::with_ttl_at(k2, value, t, now),
            None => Item::new(k2, value, None),
        };
        let item_size = item.binary_size();
        let present = match map_get(&self.items, key.as_slice()) {
            Some(_) => true,
            None => false,
        };
        if self.memory_used + item_size > self.max_memory && !present {
            return false;
        }
        match map_remove(&mut self.items, key.as_slice()) {
            Some(old_item) => {
                let old_size = old_item.binary_size();
                self.memory_used = self.memory_used.saturating_sub(old_size);
            },
            None => {},
        }
        self.memory_used = self.memory_used + item_size;
        map_insert(&mut self.items, key, item);
        assert(self.contents() =~= old(self).contents().insert(key@, item@));
        true
    }

    /// Stores `value` under `key` now (see `put_at`); an expiry past the
    /// largest time counts as that time.
    pub fn put(&mut self, key: Vec<u8>, value: Vec<u8>, ttl: Option<u64>) -> (stored: bool)
        requires
            old(self).wf(),
            old(self).used() + item_size(written(key@, value@, ttl, 0)) <= usize::MAX,
        ensures
            final(self).wf(),
            final(self).limit() == old(self).limit(),
            stored ==> final(self).contents().contains_key(key@) && final(self).contents()[key@].value == value@
                && (final(self).contents()[key@].expires_at is Some <==> ttl is Some),
            !stored ==> final(self).contents() == old(self).contents(),
            exists|now: u64| #[trigger] old(self).put_outcome(*final(self), key@, value@, clamped_ttl(ttl, now), now, stored),
    {
        let now = now_seconds();
        let ttl2 = match ttl {
            Some(t) => Some(if t > u64::MAX - now {
                u64::MAX - now
            } else {
                t
            }),
            None => None,
        };
        assert(item_size(written(key@, value@, ttl2, now)) == item_size(written(key@, value@, ttl, 0)));
        let ghost kv = key@;
        let ghost vv = value@;
        let stored = self.put_at(key, value, ttl2, now);
        assert(old(self).put_outcome(*self, kv, vv, clamped_ttl(ttl, now), now, stored));
        stored
    }

    /// The value of `key` at the time `now` (see `read_at`); an entry found
    /// expired is dropped and its size no longer counted.
    pub fn get_at(&mut self, key: &[u8], now: u64) -> (r: Option<Vec<u8>>)
        requires
            old(self).wf(),
        ensures
            final(self).wf(),
            final(self).limit() == old(self).limit(),
            match r {
                Some(v) => Some(v@) == read_at(old(self).contents(), key@, now),
                None => read_at(old(self).contents(), key@, now) is None,
            },
            ({
                let c = old(self).contents();
                if c.contains_key(key@) && expired_at(c[key@], now) {
                    &&& final(self).contents() == c.remove(key@)
                    &&& final(self).used() == (if old(self).used() >= item_size(c[key@]) {
                        old(self).used() - item_size(c[key@])
                    } else {
                        0
                    })
                } else {
                    final(self).contents() == c && final(self).used() == old(self).used()
                }
            }),
    {
        match map_get(&self.items, key) {
            None => None,
            Some(item) => {
                if item.is_expired_at(now) {
                    match map_remove(&mut self.items, key) {
                        Some(expired) => {
                            let size = expired.binary_size();
                            self.memory_used = self.memory_used.saturating_sub(size);
                        },
                        None => {},
                    }
                    None
                } else {
                    let v = item.value.clone();
                    assert(v@ == item.value@);
                    Some(v)
                }
            },
        }
    }

    /// What `get_at` does, from this store to `fin`, reading `key` at the
    /// time `now` and giving `r`.
    pub open spec fn read_outcome(&self, fin: Self, key: Seq<u8>, r: Option<Seq<u8>>, now: u64) -> bool {
        let c = self.contents();
        &&& fin.wf()
        &&& fin.limit() == self.limit()
        &&& r == read_at(c, key, now)
        &&& if c.contains_key(key) && expired_at(c[key], now) {
            &&& fin.contents() == c.remove(key)
            &&& fin.used() == (if self.used() >= item_size(c[key]) {
                self.used() - item_size(c[key])
            } else {
                0
            })
        } else {
            fin.contents() == c && fin.used() == self.used()
        }
    }

    /// The value of `key` now (see `get_at`).
    pub fn get(&mut self, key: &[u8]) -> (r: Option<Vec<u8>>)
        requires
            old(self).wf(),
        ensures
            final(self).wf(),
            final(self).limit() == old(self).limit(),
            !old(self).contents().contains_key(key@) ==> r is None && final(self).contents() == old(self).contents(),
            r matches Some(v) ==> old(self).contents().contains_key(key@) && v@ == old(self).contents()[key@].value,
            exists|now: u64| #[trigger] old(self).read_outcome(*final(self), key@, bytes_opt(r), now),
    {
        let now = now_seconds();
        let r = self.get_at(key, now);
        assert(old(self).read_outcome(*self, key@, bytes_opt(r), now));
        r
    }

    /// Drops the entry of `key`; whether there was one.
    pub fn del(&mut self, key: &[u8]) -> (removed: bool)
        requires
            old(self).wf(),
        ensures
            final(self).wf(),
            final(self).limit() == old(self).limit(),
            removed == old(self).contents().contains_key(key@),
            final(self).contents() == old(self).contents().remove(key@),
            final(self).used() == (if removed {
                if old(self).used() >= item_size(old(self).contents()[key@]) {
                    old(self).used() - item_size(old(self).contents()[key@])
                } else {
                    0
                }
            } else {
                old(self).used() as int
            }),
    {
        match map_remove(&mut self.items, key) {
            Some(item) => {
                let size = item.binary_size();
                self.memory_used = self.memory_used.saturating_sub(size);
                true
            },
            None => false,
        }
    }

    /// Makes the entry of `key` expire `ttl_seconds` after the time `now`;
    /// whether there was one.
    pub fn expire_at(&mut self, key: &[u8], ttl_seconds: u64, now: u64) -> (found: bool)
        requires
            old(self).wf(),
            now + ttl_seconds <= u64::MAX,
        ensures
            final(self).wf(),
            final(self).limit() == old(self).limit(),
            final(self).used() == old(self).used(),
            found == old(self).contents().contains_key(key@),
            found ==> final(self).contents() == old(self).contents().insert(
                key@,
                ItemView { expires_at: Some((now + ttl_seconds) as u64), ..old(self).contents()[key@] },
            ),
            !found ==> final(self).contents() == old(self).contents(),
    {
        match map_get(&self.items, key) {
            None => false,
            Some(item) => {
                let k = item.key.clone();
                let v = item.value.clone();
                let updated = Item { key: k, value: v, expires_at: Some(now + ttl_seconds), flags: item.flags };
                let kk = vstd::slice::slice_to_vec(key);
                map_insert(&mut self.items, kk, updated);
                assert(self.contents() =~= old(self).contents().insert(
                    key@,
                    ItemView { expires_at: Some((now + ttl_seconds) as u64), ..old(self).contents()[key@] },
                ));
                true
            },
        }
    }

    /// What setting the expiry time `t` of `key` does, from this store to
    /// `fin`.
    pub open spec fn expiry_set(&self, fin: Self, key: Seq<u8>, t: u64) -> bool {
        if self.contents().contains_key(key) {
            fin.contents() == self.contents().insert(key, ItemView { expires_at: Some(t), ..self.contents()[key] })
        } else {
            fin.contents() == self.contents()
        }
    }

    /// Makes the entry of `key` expire `ttl_seconds` from now (see
    /// `expire_at`); an expiry past the largest time counts as that time.
    pub fn expire(&mut self, key: &[u8], ttl_seconds: u64) -> (found: bool)
        requires
            old(self).wf(),
        ensures
            final(self).wf(),
            found == old(self).contents().contains_key(key@),
            final(self).contents().dom() == old(self).contents().dom(),
            final(self).used() == old(self).used(),
            exists|now: u64| #[trigger] old(self).expiry_set(*final(self), key@, expiry_time(now, ttl_seconds)),
    {
        let now = now_seconds();
        let ttl = if ttl_seconds > u64::MAX - now {
            u64::MAX - now
        } else {
            ttl_seconds
        };
        let r = self.expire_at(key, ttl, now);
        assert(old(self).expiry_set(*self, key@, expiry_time(now, ttl_seconds)));
        proof {
            if r {
                assert(self.contents().dom() =~= old(self).contents().dom());
            }
        }
        r
    }

    /// How many entries there are.
    pub fn len(&self) -> (n: usize)
        ensures
            n == self.contents().dom().len(),
    {
        map_len(&self.items)
    }

    /// Whether there is no entry.
    pub fn is_empty(&self) -> (b: bool)
        ensures
            b == (self.contents().dom().len() == 0),
    {
        map_len(&self.items) == 0
    }

    /// The memory used, the limit and the number of entries.
    pub fn memory_stats(&self) -> (r: (usize, usize, usize))
        ensures
            r.0 == self.used(),
            r.1 == self.limit(),
            r.2 == self.contents().dom().len(),
    {
        (self.memory_used, self.max_memory, map_len(&self.items))
    }

    /// Every key, each once, in no particular order.
    pub fn keys(&self) -> (r: Vec<Vec<u8>>)
        ensures
            r@.len() == self.contents().dom().len(),
            forall|i: int| 0 <= i < r@.len() ==> self.contents().contains_key(#[trigger] r@[i]@),
            forall|k: Seq<u8>| self.contents().contains_key(k) ==> exists|i: int| 0 <= i < r@.len() && #[trigger] r@[i]@ == k,
    {
        map_keys(&self.items)
    }

    /// Drops every entry expired at the time `now`; how many were dropped.
    /// The memory they took is no longer counted.
    pub fn cleanup_expired_at(&mut self, now: u64) -> (removed: usize)
        requires
            old(self).wf(),
        ensures
            final(self).wf(),
            final(self).limit() == old(self).limit(),
            final(self).contents() == unexpired(old(self).contents(), now),
            removed == old(self).contents().dom().len() - final(self).contents().dom().len(),
            final(self).used() <= old(self).used(),
    {
        let keys = map_keys(&self.items);
        let ghost m0 = self.contents();
        let mut removed: usize = 0;
        let mut i: usize = 0;
        while i < keys.len()
            invariant
                self.wf(),
                m0 == old(self).contents(),
                self.max_memory == old(self).max_memory,
                self.memory_used <= old(self).memory_used,
                i <= keys@.len(),
                keys@.len() == m0.dom().len(),
                forall|j: int| 0 <= j < keys@.len() ==> m0.contains_key(#[trigger] keys@[j]@),
                forall|a: int, b: int| 0 <= a < b < keys@.len() ==> #[trigger] keys@[a]@ != #[trigger] keys@[b]@,
                forall|k: Seq<u8>| #[trigger] self.contents().contains_key(k) <==> (m0.contains_key(k) && !(expired_at(m0[k], now)
                    && exists|j: int| 0 <= j < i && #[trigger] keys@[j]@ == k)),
                forall|k: Seq<u8>| #[trigger] self.contents().contains_key(k) ==> self.contents()[k] == m0[k],
                removed <= i,
                self.contents().dom().len() + removed == m0.dom().len(),
            decreases keys@.len() - i,
        {
            let key = keys[i].as_slice();
            let ghost k = keys@[i as int]@;
            proof {
                assert(self.contents().contains_key(k)) by {
                    if exists|j: int| 0 <= j < i && #[trigger] keys@[j]@ == k {
                        let j = choose|j: int| 0 <= j < i && #[trigger] keys@[j]@ == k;
                        assert(keys@[j]@ != keys@[i as int]@);
                    }
                }
            }
            let expired = match map_get(&self.items, key) {
                Some(item) => item.is_expired_at(now),
                None => false,
            };
            if expired {
                let ghost before = self.contents();
                match map_remove(&mut self.items, key) {
                    Some(item) => {
                        let size = item.binary_size();
                        self.memory_used = self.memory_used.saturating_sub(size);
                    },
                    None => {},
                }
                proof {
                    assert(before.dom().contains(k));
                    assert(self.contents().dom() =~= before.dom().remove(k));
                }
                removed = removed + 1;
            }
            i = i + 1;
            proof {
                assert forall|k2: Seq<u8>| #[trigger] self.contents().contains_key(k2) <==> (m0.contains_key(k2) && !(expired_at(m0[k2], now)
                    && exists|j: int| 0 <= j < i && #[trigger] keys@[j]@ == k2)) by {
                    if k2 == k {
                        assert(keys@[i - 1]@ == k2);
                    } else {
                        if exists|j: int| 0 <= j < i && #[trigger] keys@[j]@ == k2 {
                            let j = choose|j: int| 0 <= j < i && #[trigger] keys@[j]@ == k2;
                            assert(j < i - 1);
                        }
                    }
                }
            }
        }
        proof {
            assert forall|k: Seq<u8>| #[trigger] self.contents().contains_key(k) <==> unexpired(m0, now).contains_key(k) by {
                if m0.contains_key(k) {
                    assert(exists|j: int| 0 <= j < keys@.len() && #[trigger] keys@[j]@ == k) by {
                        lemma_key_listed(keys@, m0, k);
                    }
                }
            }
            assert(self.contents() =~= unexpired(m0, now));
        }
        removed
    }

    /// Drops every entry expired now (see `cleanup_expired_at`).
    pub fn cleanup_expired(&mut self) -> (removed: usize)
        requires
            old(self).wf(),
        ensures
            final(self).wf(),
            final(self).limit() == old(self).limit(),
            removed == old(self).contents().dom().len() - final(self).contents().dom().len(),
            exists|now: u64| final(self).contents() == #[trigger] unexpired(old(self).contents(), now),
    {
        let now = now_seconds();
        let removed = self.cleanup_expired_at(now);
        assert(self.contents() == unexpired(old(self).contents(), now));
        removed
    }
}

/// A read gives back the value a write stored under the key, until the
/// entry expires.
pub proof fn law_read_after_write(m: Map<Seq<u8>, ItemView>, key: Seq<u8>, value: Seq<u8>, ttl: Option<u64>, t_write: u64, t_read: u64)
    requires
        ttl matches Some(t) ==> t_write + t <= u64::MAX,
    ensures
        read_at(m.insert(key, written(key, value, ttl, t_write)), key, t_read) == (if ttl matches Some(t) && t_read >= t_write + t {
            None
        } else {
            Some(value)
        }),
{
}

/// A write under one key leaves the reads of every other key as they were.
pub proof fn law_write_leaves_others(m: Map<Seq<u8>, ItemView>, key: Seq<u8>, other: Seq<u8>, entry: ItemView, now: u64)
    requires
        key != other,
    ensures
        read_at(m.insert(key, entry), other, now) == read_at(m, other, now),
{
}

/// A deleted key reads as absent, and the other keys read as before.
pub proof fn law_read_after_delete(m: Map<Seq<u8>, ItemView>, key: Seq<u8>, other: Seq<u8>, now: u64)
    ensures
        read_at(m.remove(key), key, now) is None,
        other != key ==> read_at(m.remove(key), other, now) == read_at(m, other, now),
{
}

/// Dropping the entries expired at a time changes no read at that time, so
/// a read that drops an expired entry, and a clean-up, are invisible to
/// reads.
pub proof fn law_cleanup_keeps_reads(m: Map<Seq<u8>, ItemView>, key: Seq<u8>, now: u64)
    ensures
        read_at(unexpired(m, now), key, now) == read_at(m, key, now),
        m.contains_key(key) && expired_at(m[key], now) ==> read_at(m.remove(key), key, now) == read_at(m, key, now),
{
}

} // verus!
