//! A bounded registry of protobuf schemas by name.

use vstd::prelude::*;
use vstd::slice::slice_to_vec;
use crate::protocol::text::str_eq;

verus! {

/// The entries of a registry as plain values.
pub open spec fn entries_view(v: Seq<(String, Vec<u8>)>) -> Seq<(Seq<char>, Seq<u8>)> {
    v.map_values(|e: (String, Vec<u8>)| (e.0@, e.1@))
}

/// Whether no name occurs twice.
pub open spec fn names_distinct(e: Seq<(Seq<char>, Seq<u8>)>) -> bool {
    forall|i: int, j: int| 0 <= i < j < e.len() ==> #[trigger] e[i].0 != #[trigger] e[j].0
}

/// The first position that holds `name`, or the length.
pub open spec fn find_name(e: Seq<(Seq<char>, Seq<u8>)>, name: Seq<char>, i: int) -> int
    decreases e.len() - i,
{
    if i < 0 || i >= e.len() {
        e.len() as int
    } else if e[i].0 == name {
        i
    } else {
        find_name(e, name, i + 1)
    }
}

/// The entries after registering `data` under `name` with room for `cap`:
/// when full, the oldest entry leaves first; then an entry of the same name
/// is replaced, or the new one is added last.
pub open spec fn register_spec(e: Seq<(Seq<char>, Seq<u8>)>, cap: nat, name: Seq<char>, data: Seq<u8>) -> Seq<(Seq<char>, Seq<u8>)> {
    let kept = if e.len() >= cap && e.len() > 0 {
        e.drop_first()
    } else {
        e
    };
    let k = find_name(kept, name, 0);
    if k < kept.len() {
        kept.update(k, (name, data))
    } else {
        kept.push((name, data))
    }
}

/// Schemas by name, oldest first, at most `cache_size` of them where the
/// size allows one at all.
pub struct SchemaRegistry {
    schemas: Vec<(String, Vec<u8>)>,
    cache_size: usize,
}

impl SchemaRegistry {
    /// The registered schemas, oldest first.
    pub closed spec fn entries(&self) -> Seq<(Seq<char>, Seq<u8>)> {
        entries_view(self.schemas@)
    }

    /// How many schemas the registry keeps.
    pub closed spec fn capacity(&self) -> nat {
        self.cache_size as nat
    }

    /// The registry's invariant: names are distinct, and, where the size
    /// allows one schema at all, there are no more schemas than it allows.
    pub closed spec fn wf(&self) -> bool {
        &&& names_distinct(self.entries())
        &&& self.cache_size >= 1 ==> self.schemas@.len() <= self.cache_size
    }

    /// A registry whose size allows one schema at all never holds more
    /// schemas than its size: this holds of a new registry and every
    /// registration keeps it.
    pub proof fn lemma_count_within_size(&self)
        requires
            self.wf(),
            self.capacity() >= 1,
        ensures
            self.entries().len() <= self.capacity(),
    {
    }

    /// An empty registry for at most `cache_size` schemas.
    pub fn new(cache_size: usize) -> (r: Self)
        ensures
            r.wf(),
            r.entries() == Seq::<(Seq<char>, Seq<u8>)>::empty(),
            r.capacity() == cache_size,
    {
        let r = SchemaRegistry { schemas: Vec::new(), cache_size };
        assert(r.entries() =~= Seq::<(Seq<char>, Seq<u8>)>::empty());
        r
    }

    fn position(&self, name: &str) -> (k: usize)
        ensures
            k == find_name(self.entries(), name@, 0),
            k <= self.entries().len(),
    {
        let mut i: usize = 0;
        while i < self.schemas.len()
            invariant
                i <= self.schemas@.len(),
                find_name(self.entries(), name@, i as int) == find_name(self.entries(), name@, 0),
            decreases self.schemas@.len() - i,
        {
            if str_eq(self.schemas[i].0.as_str(), name) {
                return i;
            }
            i = i + 1;
        }
        i
    }

    /// Registers a schema under a name; it never fails.
    pub fn register_schema(&mut self, name: String, schema_data: Vec<u8>) -> (res: Result<(), String>)
        requires
            old(self).wf(),
        ensures
            res is Ok,
            final(self).wf(),
            final(self).capacity() == old(self).capacity(),
            final(self).entries() == register_spec(
                old(self).entries(),
                old(self).capacity(),
                name@,
                schema_data@,
            ),
    {
        let ghost e0 = self.entries();
        if self.schemas.len() >= self.cache_size && self.schemas.len() > 0 {
            self.schemas.remove(0);
            assert(self.entries() =~= e0.drop_first());
        }
        let ghost kept = self.entries();
        assert(names_distinct(kept));
        let k = self.position(name.as_str());
        let ghost nm = name@;
        let ghost d = schema_data@;
        if k < self.schemas.len() {
            self.schemas.set(k, (name, schema_data));
            assert(self.entries() =~= kept.update(k as int, (nm, d)));
        } else {
            self.schemas.push((name, schema_data));
            assert(self.entries() =~= kept.push((nm, d)));
        }
        proof {
            lemma_find_name(kept, nm, 0);
            lemma_register_len(e0, self.cache_size as nat, nm, d);
        }
        Ok(())
    }

    /// The schema registered under a name, if any.
    pub fn get_schema(&self, name: &str) -> (r: Option<Vec<u8>>)
        ensures
            find_name(self.entries(), name@, 0) < self.entries().len() ==> (r matches Some(d)
                && d@ == self.entries()[find_name(self.entries(), name@, 0)].1),
            find_name(self.entries(), name@, 0) == self.entries().len() ==> r is None,
    {
        let k = self.position(name);
        if k < self.schemas.len() {
            Some(slice_to_vec(self.schemas[k].1.as_slice()))
        } else {
            None
        }
    }

    /// Whether a schema is registered under a name.
    pub fn has_schema(&self, name: &str) -> (b: bool)
        ensures
            b == (find_name(self.entries(), name@, 0) < self.entries().len()),
    {
        self.position(name) < self.schemas.len()
    }

    /// How many schemas are registered.
    pub fn schema_count(&self) -> (n: usize)
        ensures
            n == self.entries().len(),
    {
        self.schemas.len()
    }
}

impl Default for SchemaRegistry {
    fn default() -> (r: Self)
        ensures
            r.wf(),
            r.entries() == Seq::<(Seq<char>, Seq<u8>)>::empty(),
            r.capacity() == 100,
    {
        Self::new(100)
    }
}

/// What a registration leaves: no more than one entry more than before,
/// and, with room for at least one, no more than the room when there was
/// no more before.
proof fn lemma_register_len(e: Seq<(Seq<char>, Seq<u8>)>, cap: nat, name: Seq<char>, data: Seq<u8>)
    ensures
        cap >= 1 && e.len() <= cap ==> register_spec(e, cap, name, data).len() <= cap,
{
    let kept = if e.len() >= cap && e.len() > 0 { e.drop_first() } else { e };
    lemma_find_name(kept, name, 0);
}

/// Right after a schema is registered under a name, the registry holds
/// the name, and its schema is the one registered, whatever was there
/// before and however full the registry was.
pub proof fn lemma_register_then_get(e: Seq<(Seq<char>, Seq<u8>)>, cap: nat, name: Seq<char>, data: Seq<u8>)
    ensures
        find_name(register_spec(e, cap, name, data), name, 0) < register_spec(e, cap, name, data).len(),
        register_spec(e, cap, name, data)[find_name(register_spec(e, cap, name, data), name, 0)].1 == data,
{
    let kept = if e.len() >= cap && e.len() > 0 { e.drop_first() } else { e };
    let k = find_name(kept, name, 0);
    let e2 = register_spec(e, cap, name, data);
    lemma_find_name(kept, name, 0);
    lemma_find_name(e2, name, 0);
    if k < kept.len() {
        assert(e2 == kept.update(k, (name, data)));
        assert forall|j: int| 0 <= j < k implies e2[j].0 != name by {
            assert(e2[j] == kept[j]);
        }
        lemma_find_name_first(e2, name, k);
    } else {
        assert(e2 == kept.push((name, data)));
        assert forall|j: int| 0 <= j < kept.len() implies e2[j].0 != name by {
            assert(e2[j] == kept[j]);
        }
        lemma_find_name_first(e2, name, kept.len() as int);
    }
}

/// The first position that holds a name is where `find_name` stops.
proof fn lemma_find_name_first(e: Seq<(Seq<char>, Seq<u8>)>, name: Seq<char>, k: int)
    requires
        0 <= k < e.len(),
        e[k].0 == name,
        forall|j: int| 0 <= j < k ==> e[j].0 != name,
    ensures
        find_name(e, name, 0) == k,
{
    lemma_find_name(e, name, 0);
    let f = find_name(e, name, 0);
    if f < k {
        assert(e[f].0 == name);
    } else if f > k {
        assert(e[k].0 != name);
    }
}

proof fn lemma_find_name(e: Seq<(Seq<char>, Seq<u8>)>, name: Seq<char>, i: int)
    requires
        0 <= i <= e.len(),
    ensures
        i <= find_name(e, name, i) <= e.len(),
        find_name(e, name, i) < e.len() ==> e[find_name(e, name, i)].0 == name,
        forall|j: int| i <= j < find_name(e, name, i) ==> e[j].0 != name,
    decreases e.len() - i,
{
    if i < e.len() && e[i].0 != name {
        lemma_find_name(e, name, i + 1);
    }
}

} // verus!
