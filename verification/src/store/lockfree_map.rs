//! Sizing of the concurrent map: its bucket count is a prime, and its
//! figures are plain counters.

use vstd::prelude::*;
use std::hash::{Hash, Hasher};
use vstd::arithmetic::div_mod::{lemma_fundamental_div_mod, lemma_mod_multiples_basic};

verus! {

/// Whether `n` is prime: at least 2, and no number from 2 below it divides it.
pub open spec fn is_prime_spec(n: int) -> bool {
    n >= 2 && forall|d: int| 2 <= d < n ==> #[trigger] (n % d) != 0
}

proof fn lemma_divides_trans(n: int, d: int, m: int)
    requires
        n >= 0,
        d > 0,
        m > 0,
        n % d == 0,
        d % m == 0,
    ensures
        n % m == 0,
{
    let q = n / d;
    let r = d / m;
    lemma_fundamental_div_mod(n, d);
    lemma_fundamental_div_mod(d, m);
    assert(n == (r * q) * m) by (nonlinear_arith)
        requires
            n == d * q,
            d == m * r,
    ;
    lemma_mod_multiples_basic(r * q, m);
}

proof fn lemma_prime_from_no_small_divisor(n: int, i: int)
    requires
        n >= 2,
        i >= 2,
        n / i < i,
        forall|d: int| 2 <= d < i ==> #[trigger] (n % d) != 0,
    ensures
        is_prime_spec(n),
{
    assert forall|d: int| 2 <= d < n implies #[trigger] (n % d) != 0 by {
        if n % d == 0 {
            let e = n / d;
            lemma_fundamental_div_mod(n, d);
            assert(n == d * e);
            assert(e >= 0) by (nonlinear_arith)
                requires
                    n == d * e,
                    n >= 2,
                    d >= 2,
            ;
            assert(e >= 2) by (nonlinear_arith)
                requires
                    n == d * e,
                    d < n,
                    e >= 0,
                    n >= 2,
            ;
            lemma_mod_multiples_basic(d, e);
            assert(n % e == 0) by {
                assert(d * e == e * d) by (nonlinear_arith);
            }
            if d < i {
            } else if e < i {
            } else {
                lemma_fundamental_div_mod(n, i);
                assert(n < i * i) by (nonlinear_arith)
                    requires
                        n == i * (n / i) + n % i,
                        0 <= n % i < i,
                        n / i <= i - 1,
                        i >= 2,
                ;
                assert(d * e >= i * i) by (nonlinear_arith)
                    requires
                        d >= i,
                        e >= i,
                        i >= 2,
                ;
            }
        }
    }
}

/// Tests whether `n` is prime, trying 2, 3 and then the numbers 6k-1 and
/// 6k+1 up to the square root.
pub fn is_prime(n: usize) -> (b: bool)
    ensures
        b == is_prime_spec(n as int),
{
    if n <= 1 {
        return false;
    }
    if n <= 3 {
        return true;
    }
    if n % 2 == 0 {
        assert((n as int) % 2 == 0);
        return false;
    }
    if n % 3 == 0 {
        assert((n as int) % 3 == 0);
        return false;
    }
    let mut i: usize = 5;
    assert forall|d: int| 2 <= d < 5 implies #[trigger] ((n as int) % d) != 0 by {
        if d == 4 && (n as int) % 4 == 0 {
            lemma_divides_trans(n as int, 4, 2);
        }
    }
    while i <= n / i
        invariant
            5 <= i,
            i % 6 == 5,
            n >= 5,
            (n as int) % 2 != 0,
            (n as int) % 3 != 0,
            forall|d: int| 2 <= d < i ==> #[trigger] ((n as int) % d) != 0,
        decreases n - i,
    {
        proof {
            lemma_fundamental_div_mod(n as int, i as int);
            let q = (n as int) / (i as int);
            assert((i as int) * (i as int) <= (i as int) * q) by (nonlinear_arith)
                requires
                    i <= q,
                    i >= 5,
            ;
            assert(i + 2 < (i as int) * (i as int)) by (nonlinear_arith)
                requires
                    i >= 5,
            ;
        }
        if n % i == 0 {
            assert((n as int) % (i as int) == 0 && i < n);
            return false;
        }
        if n % (i + 2) == 0 {
            assert((n as int) % ((i + 2) as int) == 0 && i + 2 < n);
            return false;
        }
        proof {
            let ii = i as int;
            let nn = n as int;
            assert forall|d: int| 2 <= d < ii + 6 implies #[trigger] (nn % d) != 0 by {
                if d >= ii && nn % d == 0 {
                    if d == ii + 1 || d == ii + 3 || d == ii + 5 {
                        lemma_divides_trans(nn, d, 2);
                    } else if d == ii + 4 {
                        lemma_divides_trans(nn, d, 3);
                    }
                }
            }
        }
        i = i + 6;
    }
    proof {
        lemma_prime_from_no_small_divisor(n as int, i as int);
    }
    true
}

/// Whether some prime lies in `n..=max`.
pub open spec fn prime_within(n: int, max: int) -> bool {
    exists|p: int| n <= p <= max && #[trigger] is_prime_spec(p)
}

/// The smallest prime that is at least `n` (2 for `n` up to 2). Such a
/// prime must exist within the range of `usize`.
pub fn next_prime(n: usize) -> (p: usize)
    requires
        prime_within(n as int, usize::MAX as int),
    ensures
        is_prime_spec(p as int),
        p >= n,
        forall|q: int| n <= q < p ==> !#[trigger] is_prime_spec(q),
{
    if n <= 2 {
        assert(is_prime_spec(2));
        return 2;
    }
    let mut candidate = if n % 2 == 0 {
        n + 1
    } else {
        n
    };
    assert(!is_prime_spec(n as int) || candidate == n) by {
        if n % 2 == 0 {
            assert((n as int) % 2 == 0);
        }
    }
    while !is_prime(candidate)
        invariant
            candidate >= n > 2,
            candidate % 2 == 1,
            prime_within(n as int, usize::MAX as int),
            forall|q: int| n <= q < candidate ==> !#[trigger] is_prime_spec(q),
        decreases usize::MAX - candidate,
    {
        let ghost c = candidate as int;
        let ghost w = choose|p: int| n <= p <= usize::MAX && #[trigger] is_prime_spec(p);
        assert(w > c) by {
            if w <= c {
                assert(!is_prime_spec(w));
            }
        }
        assert(!is_prime_spec(c + 1)) by {
            assert((c + 1) % 2 == 0);
        }
        assert(w >= c + 2) by {
            if w == c + 1 {
                assert(!is_prime_spec(w));
            }
        }
        candidate = candidate + 2;
        assert forall|q: int| n <= q < candidate implies !#[trigger] is_prime_spec(q) by {
            if q == c + 1 {
                assert((c + 1) % 2 == 0);
            }
        }
    }
    candidate
}

/// Operation counters of the concurrent map.
#[derive(Debug, Clone, Copy, Default, PartialEq, Eq)]
pub struct LockFreeMetrics {
    pub total_operations: usize,
    pub cas_failures: usize,
    pub bucket_collisions: usize,
    pub max_chain_length: usize,
}

/// What the std `DefaultHasher`, made with `new`, gives for a byte string.
pub uninterp spec fn key_hash(key: Seq<u8>) -> u64;

/// Hashes a byte string with a `DefaultHasher` made with `new`, whose keys
/// std fixes. Claimed: the result is the named function of the bytes.
#[verifier::external_body]
fn hash_bytes(key: &[u8]) -> (h: u64)
    ensures
        h == key_hash(key@),
{
    let mut hasher = std::collections::hash_map::DefaultHasher::new();
    key.hash(&mut hasher);
    hasher.finish()
}

/// The value of a key in a bucket: that of its first entry with the key.
pub open spec fn bucket_lookup(b: Seq<(Seq<u8>, Seq<u8>)>, key: Seq<u8>) -> Option<Seq<u8>>
    decreases b.len(),
{
    if b.len() == 0 {
        None
    } else if b[0].0 == key {
        Some(b[0].1)
    } else {
        bucket_lookup(b.skip(1), key)
    }
}

/// A bucket as views.
pub open spec fn bucket_view(b: Seq<(Vec<u8>, Vec<u8>)>) -> Seq<(Seq<u8>, Seq<u8>)> {
    b.map_values(|e: (Vec<u8>, Vec<u8>)| (e.0@, e.1@))
}

proof fn lemma_bucket_lookup_at(b: Seq<(Seq<u8>, Seq<u8>)>, key: Seq<u8>, i: int)
    requires
        0 <= i < b.len(),
        b[i].0 == key,
        forall|j: int| 0 <= j < i ==> #[trigger] b[j].0 != key,
    ensures
        bucket_lookup(b, key) == Some(b[i].1),
    decreases i,
{
    if i > 0 {
        assert forall|j: int| 0 <= j < i - 1 implies #[trigger] b.skip(1)[j].0 != key by {
            assert(b.skip(1)[j] == b[j + 1]);
        }
        lemma_bucket_lookup_at(b.skip(1), key, i - 1);
    }
}

proof fn lemma_bucket_lookup_none(b: Seq<(Seq<u8>, Seq<u8>)>, key: Seq<u8>)
    requires
        forall|j: int| 0 <= j < b.len() ==> #[trigger] b[j].0 != key,
    ensures
        bucket_lookup(b, key) is None,
    decreases b.len(),
{
    if b.len() > 0 {
        assert forall|j: int| 0 <= j < b.len() - 1 implies #[trigger] b.skip(1)[j].0 != key by {
            assert(b.skip(1)[j] == b[j + 1]);
        }
        lemma_bucket_lookup_none(b.skip(1), key);
    }
}

/// A map from byte strings to byte strings in hashed buckets: a key lives
/// in the bucket its hash picks, modulo the capacity.
pub struct LockFreeHashMap {
    buckets: Vec<Vec<(Vec<u8>, Vec<u8>)>>,
    size: usize,
    capacity: usize,
    metrics: LockFreeMetrics,
}

impl LockFreeHashMap {
    /// The number of buckets.
    pub closed spec fn bucket_count(&self) -> usize {
        self.capacity
    }

    /// The bucket a key lives in.
    pub open spec fn bucket_of(&self, key: Seq<u8>) -> int {
        ((key_hash(key) as usize) % self.bucket_count()) as int
    }

    /// The entries of a bucket.
    pub closed spec fn bucket(&self, b: int) -> Seq<(Seq<u8>, Seq<u8>)> {
        bucket_view(self.buckets@[b]@)
    }

    /// The map: each key with the value its bucket holds for it.
    pub open spec fn contents(&self) -> Map<Seq<u8>, Seq<u8>> {
        Map::new(
            |k: Seq<u8>| bucket_lookup(self.bucket(self.bucket_of(k)), k) is Some,
            |k: Seq<u8>| bucket_lookup(self.bucket(self.bucket_of(k)), k)->0,
        )
    }

    /// The number of entries counted.
    pub closed spec fn count(&self) -> usize {
        self.size
    }

    /// The operation counters.
    pub closed spec fn figures(&self) -> LockFreeMetrics {
        self.metrics
    }

    /// The buckets are there, each entry lies in the bucket of its key, no
    /// key occurs twice in a bucket, and the count is the number of keys.
    pub closed spec fn wf(&self) -> bool {
        &&& self.capacity > 0
        &&& self.buckets@.len() == self.capacity
        &&& forall|b: int, i: int| 0 <= b < self.capacity && 0 <= i < self.bucket(b).len() ==> self.bucket_of(
            #[trigger] self.bucket(b)[i].0,
        ) == b
        &&& forall|b: int, i: int, j: int| 0 <= b < self.capacity && 0 <= i < j < self.bucket(b).len() ==> #[trigger] self.bucket(b)[i].0
            != #[trigger] self.bucket(b)[j].0
        &&& self.contents().dom().finite()
        &&& self.size == self.contents().dom().len()
    }

    /// An empty map of `capacity` buckets; usable where that is not zero.
    pub fn new(capacity: usize) -> (m: Self)
        ensures
            m.bucket_count() == capacity,
            m.count() == 0,
            m.figures() == LockFreeMetrics::zero_spec(),
            capacity > 0 ==> m.wf() && m.contents() == Map::<Seq<u8>, Seq<u8>>::empty(),
    {
        let mut buckets: Vec<Vec<(Vec<u8>, Vec<u8>)>> = Vec::new();
        let mut i: usize = 0;
        while i < capacity
            invariant
                i <= capacity,
                buckets@.len() == i,
                forall|b: int| 0 <= b < i ==> #[trigger] buckets@[b]@.len() == 0,
            decreases capacity - i,
        {
            buckets.push(Vec::new());
            i = i + 1;
        }
        let m = LockFreeHashMap {
            buckets,
            size: 0,
            capacity,
            metrics: LockFreeMetrics { total_operations: 0, cas_failures: 0, bucket_collisions: 0, max_chain_length: 0 },
        };
        proof {
            if capacity > 0 {
                assert forall|k: Seq<u8>| !(#[trigger] m.contents().contains_key(k)) by {
                    let b = m.bucket_of(k);
                    assert(m.bucket(b).len() == 0);
                }
                assert(m.contents() =~= Map::<Seq<u8>, Seq<u8>>::empty());
            }
        }
        m
    }

    fn find(&self, b: usize, key: &[u8]) -> (r: Option<usize>)
        requires
            self.wf(),
            b < self.bucket_count(),
        ensures
            match r {
                Some(i) => i < self.bucket(b as int).len() && self.bucket(b as int)[i as int].0 == key@,
                None => forall|j: int| 0 <= j < self.bucket(b as int).len() ==> #[trigger] self.bucket(b as int)[j].0 != key@,
            },
    {
        let bucket = &self.buckets[b];
        let mut i: usize = 0;
        while i < bucket.len()
            invariant
                bucket@ == self.buckets@[b as int]@,
                i <= bucket@.len(),
                forall|j: int| 0 <= j < i ==> #[trigger] self.bucket(b as int)[j].0 != key@,
            decreases bucket@.len() - i,
        {
            if crate::protocol::wire::bytes_eq(bucket[i].0.as_slice(), key) {
                return Some(i);
            }
            i = i + 1;
        }
        None
    }

    fn bucket_index(&self, key: &[u8]) -> (b: usize)
        requires
            self.wf(),
        ensures
            b == self.bucket_of(key@),
            b < self.bucket_count(),
    {
        (hash_bytes(key) as usize) % self.capacity
    }
}

impl LockFreeMetrics {
    /// All counters at zero.
    pub open spec fn zero_spec() -> LockFreeMetrics {
        LockFreeMetrics { total_operations: 0, cas_failures: 0, bucket_collisions: 0, max_chain_length: 0 }
    }
}

/// In a bucket without repeated keys, a key's value is that of its entry,
/// and a key without an entry has none.
proof fn lemma_lookup_distinct(b: Seq<(Seq<u8>, Seq<u8>)>, key: Seq<u8>)
    requires
        forall|i: int, j: int| 0 <= i < j < b.len() ==> #[trigger] b[i].0 != #[trigger] b[j].0,
    ensures
        forall|i: int| 0 <= i < b.len() && b[i].0 == key ==> bucket_lookup(b, key) == Some(#[trigger] b[i].1),
        (forall|i: int| 0 <= i < b.len() ==> #[trigger] b[i].0 != key) ==> bucket_lookup(b, key) is None,
{
    assert forall|i: int| 0 <= i < b.len() && b[i].0 == key implies bucket_lookup(b, key) == Some(#[trigger] b[i].1) by {
        assert forall|j: int| 0 <= j < i implies #[trigger] b[j].0 != key by {
            assert(b[j].0 != b[i].0);
        }
        lemma_bucket_lookup_at(b, key, i);
    }
    if forall|i: int| 0 <= i < b.len() ==> #[trigger] b[i].0 != key {
        lemma_bucket_lookup_none(b, key);
    }
}

impl LockFreeHashMap {
    fn count_operation(&mut self)
        requires
            old(self).wf(),
        ensures
            final(self).wf(),
            final(self).buckets == old(self).buckets,
            final(self).size == old(self).size,
            final(self).capacity == old(self).capacity,
            final(self).contents() == old(self).contents(),
            final(self).metrics == (LockFreeMetrics {
                total_operations: old(self).metrics.total_operations.wrapping_add(1),
                ..old(self).metrics
            }),
    {
        self.metrics.total_operations = self.metrics.total_operations.wrapping_add(1);
        assert forall|c: int| #[trigger] self.bucket(c) == old(self).bucket(c) by {}
        assert(self.contents() =~= old(self).contents());
    }

    /// The map's value for `key`, counting the operation.
    pub fn get(&mut self, key: &[u8]) -> (r: Option<Vec<u8>>)
        requires
            old(self).wf(),
        ensures
            final(self).wf(),
            final(self).contents() == old(self).contents(),
            final(self).count() == old(self).count(),
            final(self).bucket_count() == old(self).bucket_count(),
            final(self).figures() == (LockFreeMetrics {
                total_operations: old(self).figures().total_operations.wrapping_add(1),
                ..old(self).figures()
            }),
            match r {
                Some(v) => old(self).contents().contains_key(key@) && v@ == old(self).contents()[key@],
                None => !old(self).contents().contains_key(key@),
            },
    {
        self.count_operation();
        let b = self.bucket_index(key);
        proof {
            lemma_lookup_distinct(self.bucket(b as int), key@);
        }
        match self.find(b, key) {
            Some(i) => {
                let v = self.buckets[b][i].1.clone();
                assert(self.bucket(b as int)[i as int].1 == self.buckets@[b as int]@[i as int].1@);
                Some(v)
            },
            None => None,
        }
    }

    /// Sets `key` to `value`; the value it had, if any. A new key adds one
    /// to the count.
    pub fn insert(&mut self, key: Vec<u8>, value: Vec<u8>) -> (r: Option<Vec<u8>>)
        requires
            old(self).wf(),
            old(self).count() < usize::MAX,
        ensures
            final(self).wf(),
            final(self).contents() == old(self).contents().insert(key@, value@),
            final(self).bucket_count() == old(self).bucket_count(),
            final(self).figures() == (LockFreeMetrics {
                total_operations: old(self).figures().total_operations.wrapping_add(1),
                ..old(self).figures()
            }),
            match r {
                Some(v) => old(self).contents().contains_key(key@) && v@ == old(self).contents()[key@],
                None => !old(self).contents().contains_key(key@),
            },
    {
        self.count_operation();
        let ghost m0 = self.contents();
        let b = self.bucket_index(key.as_slice());
        let ghost bk0 = self.bucket(b as int);
        let ghost w0 = self.buckets@;
        proof {
            lemma_lookup_distinct(bk0, key@);
        }
        let found = self.find(b, key.as_slice());
        let mut bucket = self.buckets.remove(b);
        let r = match found {
            Some(i) => {
                let old_value = bucket[i].1.clone();
                assert(old_value@ == bk0[i as int].1);
                bucket.set(i, (key, value));
                Some(old_value)
            },
            None => {
                bucket.push((key, value));
                None
            },
        };
        self.buckets.insert(b, bucket);
        if found.is_none() {
            self.size = self.size + 1;
        }
        proof {
            assert(self.buckets@ =~= w0.update(b as int, bucket));
            let bk1 = self.bucket(b as int);
            match found {
                Some(i) => {
                    assert(bk1 =~= bk0.update(i as int, (key@, value@)));
                },
                None => {
                    assert(bk1 =~= bk0.push((key@, value@)));
                },
            }
            assert forall|c: int, i: int, j: int| 0 <= c < self.capacity && 0 <= i < j < self.bucket(c).len() implies #[trigger] self.bucket(c)[i].0
                != #[trigger] self.bucket(c)[j].0 by {
                if c != b {
                    assert(self.bucket(c) == old(self).bucket(c));
                }
            }
            assert forall|c: int, i: int| 0 <= c < self.capacity && 0 <= i < self.bucket(c).len() implies self.bucket_of(
                #[trigger] self.bucket(c)[i].0,
            ) == c by {
                if c != b {
                    assert(self.bucket(c) == old(self).bucket(c));
                } else if !(found is Some && i == found->0) && !(found is None && i == bk0.len()) {
                    assert(self.bucket(c)[i] == bk0[i]);
                }
            }
            lemma_lookup_distinct(bk1, key@);
            assert forall|k: Seq<u8>| #[trigger] self.contents().contains_key(k) == m0.insert(key@, value@).contains_key(k)
                && (self.contents().contains_key(k) ==> self.contents()[k] == m0.insert(key@, value@)[k]) by {
                let c = self.bucket_of(k);
                assert(c == old(self).bucket_of(k));
                assert(self.contents().contains_key(k) == (bucket_lookup(self.bucket(c), k) is Some));
                assert(m0.contains_key(k) == (bucket_lookup(old(self).bucket(c), k) is Some));
                assert(old(self).bucket(c) == bk0 || c != b);
                if c != b {
                    assert(self.buckets@[c] == w0[c]);
                    assert(self.bucket(c) == old(self).bucket(c));
                } else if k != key@ {
                    lemma_lookup_distinct(bk0, k);
                    lemma_lookup_distinct(bk1, k);
                    if exists|j: int| 0 <= j < bk0.len() && #[trigger] bk0[j].0 == k {
                        let j = choose|j: int| 0 <= j < bk0.len() && #[trigger] bk0[j].0 == k;
                        assert(bk1[j] == bk0[j]);
                        assert(bucket_lookup(bk1, k) == Some(bk1[j].1));
                        assert(bucket_lookup(bk0, k) == Some(bk0[j].1));
                    } else {
                        assert forall|j: int| 0 <= j < bk1.len() implies #[trigger] bk1[j].0 != k by {
                            if j < bk0.len() && !(found is Some && j == found->0) {
                                assert(bk1[j] == bk0[j]);
                            } else {
                                assert(bk1[j].0 == key@);
                            }
                        }
                        assert(bucket_lookup(bk1, k) is None);
                        assert(bucket_lookup(bk0, k) is None);
                    }
                } else {
                    match found {
                        Some(i) => {
                            assert(bk1[i as int] == (key@, value@));
                            assert(bk1[i as int].0 == key@);
                            assert(bucket_lookup(bk1, key@) == Some(bk1[i as int].1));
                        },
                        None => {
                            assert(bk1[bk0.len() as int] == (key@, value@));
                            assert(bk1[bk0.len() as int].0 == key@);
                            assert(bucket_lookup(bk1, key@) == Some(bk1[bk0.len() as int].1));
                        },
                    }
                }
            }
            assert(self.contents() =~= m0.insert(key@, value@));
        }
        proof {
            assert(self.contents().dom() =~= m0.dom().insert(key@));
            if found is Some {
                assert(m0.dom().contains(key@));
                assert(m0.dom().insert(key@) =~= m0.dom());
            }
        }
        r
    }

    /// Removes `key`; the value it had, if any. A removed key takes one
    /// from the count.
    pub fn remove(&mut self, key: &[u8]) -> (r: Option<Vec<u8>>)
        requires
            old(self).wf(),
        ensures
            final(self).wf(),
            final(self).contents() == old(self).contents().remove(key@),
            final(self).bucket_count() == old(self).bucket_count(),
            final(self).figures() == (LockFreeMetrics {
                total_operations: old(self).figures().total_operations.wrapping_add(1),
                ..old(self).figures()
            }),
            match r {
                Some(v) => old(self).contents().contains_key(key@) && v@ == old(self).contents()[key@],
                None => !old(self).contents().contains_key(key@),
            },
    {
        self.count_operation();
        let ghost m0 = self.contents();
        let b = self.bucket_index(key);
        let ghost bk0 = self.bucket(b as int);
        let ghost w0 = self.buckets@;
        proof {
            lemma_lookup_distinct(bk0, key@);
        }
        let found = self.find(b, key);
        match found {
            None => {
                assert(self.contents() =~= m0.remove(key@));
                None
            },
            Some(i) => {
                let mut bucket = self.buckets.remove(b);
                let (_k, v) = bucket.remove(i);
                assert(v@ == bk0[i as int].1);
                self.buckets.insert(b, bucket);
                self.size = self.size - 1;
                proof {
                    assert(self.buckets@ =~= w0.update(b as int, bucket));
                    let bk1 = self.bucket(b as int);
                    assert(bk1 =~= bk0.remove(i as int));
                    assert forall|c: int, x: int, y: int| 0 <= c < self.capacity && 0 <= x < y < self.bucket(c).len() implies #[trigger] self.bucket(c)[x].0
                        != #[trigger] self.bucket(c)[y].0 by {
                        if c != b {
                            assert(self.bucket(c) == old(self).bucket(c));
                        } else {
                            let x0 = if x < i { x } else { x + 1 };
                            let y0 = if y < i { y } else { y + 1 };
                            assert(bk1[x] == bk0[x0]);
                            assert(bk1[y] == bk0[y0]);
                        }
                    }
                    assert forall|c: int, x: int| 0 <= c < self.capacity && 0 <= x < self.bucket(c).len() implies self.bucket_of(
                        #[trigger] self.bucket(c)[x].0,
                    ) == c by {
                        if c != b {
                            assert(self.bucket(c) == old(self).bucket(c));
                        } else {
                            let x0 = if x < i { x } else { x + 1 };
                            assert(bk1[x] == bk0[x0]);
                        }
                    }
                    lemma_lookup_distinct(bk1, key@);
                    assert forall|k: Seq<u8>| #[trigger] self.contents().contains_key(k) == m0.remove(key@).contains_key(k)
                        && (self.contents().contains_key(k) ==> self.contents()[k] == m0.remove(key@)[k]) by {
                        let c = self.bucket_of(k);
                        assert(c == old(self).bucket_of(k));
                        assert(self.contents().contains_key(k) == (bucket_lookup(self.bucket(c), k) is Some));
                        assert(m0.contains_key(k) == (bucket_lookup(old(self).bucket(c), k) is Some));
                        if c != b {
                            assert(self.buckets@[c] == w0[c]);
                            assert(self.bucket(c) == old(self).bucket(c));
                        } else {
                            lemma_lookup_distinct(bk0, k);
                            lemma_lookup_distinct(bk1, k);
                            if k == key@ {
                                assert forall|j: int| 0 <= j < bk1.len() implies #[trigger] bk1[j].0 != k by {
                                    let j0 = if j < i { j } else { j + 1 };
                                    assert(bk1[j] == bk0[j0]);
                                    assert(bk0[j0].0 != bk0[i as int].0);
                                }
                            } else if exists|j: int| 0 <= j < bk0.len() && #[trigger] bk0[j].0 == k {
                                let j = choose|j: int| 0 <= j < bk0.len() && #[trigger] bk0[j].0 == k;
                                let j1 = if j < i { j } else { j - 1 };
                                assert(j != i);
                                assert(bk1[j1] == bk0[j]);
                                assert(bucket_lookup(bk1, k) == Some(bk1[j1].1));
                                assert(bucket_lookup(bk0, k) == Some(bk0[j].1));
                            } else {
                                assert forall|j: int| 0 <= j < bk1.len() implies #[trigger] bk1[j].0 != k by {
                                    let j0 = if j < i { j } else { j + 1 };
                                    assert(bk1[j] == bk0[j0]);
                                }
                            }
                        }
                    }
                    assert(self.contents() =~= m0.remove(key@));
                    assert(m0.dom().contains(key@));
                    assert(self.contents().dom() =~= m0.dom().remove(key@));
                }
                Some(v)
            },
        }
    }

    /// How many keys there are.
    pub fn len(&self) -> (n: usize)
        ensures
            n == self.count(),
            self.wf() ==> n == self.contents().dom().len(),
    {
        self.size
    }

    /// Whether there is no key.
    pub fn is_empty(&self) -> (b: bool)
        ensures
            b == (self.count() == 0),
            self.wf() ==> b == (self.contents().dom().len() == 0),
    {
        self.size == 0
    }

    /// The operation counters.
    pub fn metrics(&self) -> (m: LockFreeMetrics)
        ensures
            m == self.figures(),
    {
        self.metrics
    }

    /// The number of buckets.
    pub fn capacity(&self) -> (n: usize)
        ensures
            n == self.bucket_count(),
    {
        self.capacity
    }

    /// A map sized for about `estimated_size` keys: the smallest prime of
    /// at least twice that many buckets.
    pub fn new_optimized(estimated_size: usize) -> (m: Self)
        requires
            estimated_size * 2 <= usize::MAX,
            prime_within(estimated_size * 2, usize::MAX as int),
        ensures
            m.wf(),
            m.contents() == Map::<Seq<u8>, Seq<u8>>::empty(),
            is_prime_spec(m.bucket_count() as int),
            m.bucket_count() >= estimated_size * 2,
            forall|q: int| estimated_size * 2 <= q < m.bucket_count() ==> !#[trigger] is_prime_spec(q),
    {
        let capacity = next_prime(estimated_size * 2);
        Self::new(capacity)
    }

    /// Inserts each pair in order; how many keys were new.
    pub fn bulk_insert(&mut self, entries: Vec<(Vec<u8>, Vec<u8>)>) -> (inserted: usize)
        requires
            old(self).wf(),
            old(self).count() + entries@.len() <= usize::MAX,
        ensures
            final(self).wf(),
            final(self).bucket_count() == old(self).bucket_count(),
            final(self).contents() == inserted_all(old(self).contents(), bucket_pairs(entries@)),
            inserted == final(self).contents().dom().len() - old(self).contents().dom().len(),
    {
        let mut inserted: usize = 0;
        let mut i: usize = 0;
        let ghost m0 = self.contents();
        let ghost ps = bucket_pairs(entries@);
        while i < entries.len()
            invariant
                self.wf(),
                self.capacity == old(self).capacity,
                m0 == old(self).contents(),
                ps == bucket_pairs(entries@),
                i <= entries@.len(),
                self.size <= old(self).size + i,
                old(self).count() + entries@.len() <= usize::MAX,
                self.contents() == inserted_all(m0, ps.take(i as int)),
                inserted == self.contents().dom().len() - m0.dom().len(),
                inserted <= i,
            decreases entries@.len() - i,
        {
            let k = entries[i].0.clone();
            let v = entries[i].1.clone();
            assert(ps.take(i + 1).drop_last() =~= ps.take(i as int));
            assert(ps.take(i + 1).last() == (k@, v@));
            if self.insert(k, v).is_none() {
                inserted = inserted + 1;
            }
            i = i + 1;
        }
        assert(ps.take(i as int) =~= ps);
        inserted
    }
}

/// Pairs as views.
pub open spec fn bucket_pairs(v: Seq<(Vec<u8>, Vec<u8>)>) -> Seq<(Seq<u8>, Seq<u8>)> {
    v.map_values(|e: (Vec<u8>, Vec<u8>)| (e.0@, e.1@))
}

/// A map after the pairs are inserted in order.
pub open spec fn inserted_all(m: Map<Seq<u8>, Seq<u8>>, ps: Seq<(Seq<u8>, Seq<u8>)>) -> Map<Seq<u8>, Seq<u8>>
    decreases ps.len(),
{
    if ps.len() == 0 {
        m
    } else {
        inserted_all(m, ps.drop_last()).insert(ps.last().0, ps.last().1)
    }
}

/// A read gives back the value of the last insert of the key, and nothing
/// after the key is removed; other keys are unaffected by either.
pub proof fn law_map_read_after_write(m: Map<Seq<u8>, Seq<u8>>, key: Seq<u8>, other: Seq<u8>, value: Seq<u8>)
    ensures
        m.insert(key, value).contains_key(key) && m.insert(key, value)[key] == value,
        !m.remove(key).contains_key(key),
        other != key ==> m.insert(key, value).contains_key(other) == m.contains_key(other)
            && m.remove(key).contains_key(other) == m.contains_key(other),
        other != key && m.contains_key(other) ==> m.insert(key, value)[other] == m[other] && m.remove(key)[other] == m[other],
{
}

} // verus!
