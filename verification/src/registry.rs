//! The reader's accumulated state: the jump index, the table-schema map
//! and the style map.  Entries are only added or overwritten, never
//! removed.

use vstd::prelude::*;
use crate::bytes::copy_range;
use crate::types::{JumpEntry, JumpEntryV, StyleEntry, StyleEntryV, TableSchema, TableSchemaV};

verus! {

pub open spec fn keys_view(ks: Seq<Vec<u8>>) -> Seq<Seq<u8>> {
    ks.map_values(|k: Vec<u8>| k@)
}

pub open spec fn vals_view<V: View>(vs: Seq<V>) -> Seq<V::V> {
    vs.map_values(|v: V| v@)
}

/// The map an association list denotes; a later binding of a key wins.
pub open spec fn map_of<T>(ks: Seq<Seq<u8>>, vs: Seq<T>) -> Map<Seq<u8>, T>
    decreases ks.len(),
{
    if ks.len() == 0 || vs.len() == 0 {
        Map::empty()
    } else {
        map_of(ks.drop_last(), vs.drop_last()).insert(ks.last(), vs.last())
    }
}

pub open spec fn unique_keys(ks: Seq<Seq<u8>>) -> bool {
    forall|a: int, b: int| 0 <= a < b < ks.len() ==> ks[a] != ks[b]
}

proof fn lemma_map_of_index<T>(ks: Seq<Seq<u8>>, vs: Seq<T>, i: int)
    requires
        ks.len() == vs.len(),
        unique_keys(ks),
        0 <= i < ks.len(),
    ensures
        map_of(ks, vs).contains_key(ks[i]),
        map_of(ks, vs)[ks[i]] == vs[i],
    decreases ks.len(),
{
    if i < ks.len() - 1 {
        let ks2 = ks.drop_last();
        let vs2 = vs.drop_last();
        assert(unique_keys(ks2)) by {
            assert forall|a: int, b: int| 0 <= a < b < ks2.len() implies ks2[a] != ks2[b] by {
                assert(ks[a] == ks2[a]);
                assert(ks[b] == ks2[b]);
            }
        }
        lemma_map_of_index(ks2, vs2, i);
        assert(ks[i] != ks.last());
    }
}

proof fn lemma_map_of_dom<T>(ks: Seq<Seq<u8>>, vs: Seq<T>, k: Seq<u8>)
    requires
        ks.len() == vs.len(),
        forall|i: int| 0 <= i < ks.len() ==> ks[i] != k,
    ensures
        !map_of(ks, vs).contains_key(k),
    decreases ks.len(),
{
    if ks.len() > 0 {
        let ks2 = ks.drop_last();
        let vs2 = vs.drop_last();
        assert forall|i: int| 0 <= i < ks2.len() implies ks2[i] != k by {
            assert(ks[i] == ks2[i]);
        }
        lemma_map_of_dom(ks2, vs2, k);
        assert(ks.last() != k);
    }
}

proof fn lemma_map_of_update<T>(ks: Seq<Seq<u8>>, vs: Seq<T>, i: int, v: T)
    requires
        ks.len() == vs.len(),
        unique_keys(ks),
        0 <= i < ks.len(),
    ensures
        map_of(ks, vs.update(i, v)) == map_of(ks, vs).insert(ks[i], v),
    decreases ks.len(),
{
    let n = ks.len() as int;
    if i == n - 1 {
        assert(vs.update(i, v).drop_last() =~= vs.drop_last());
        assert(vs.update(i, v).last() == v);
        assert(map_of(ks, vs.update(i, v))
            == map_of(ks.drop_last(), vs.drop_last()).insert(ks.last(), v));
        assert(map_of(ks.drop_last(), vs.drop_last()).insert(ks.last(), vs.last()).insert(
            ks.last(), v) =~= map_of(ks.drop_last(), vs.drop_last()).insert(ks.last(), v));
    } else {
        let ks2 = ks.drop_last();
        let vs2 = vs.drop_last();
        assert(unique_keys(ks2)) by {
            assert forall|a: int, b: int| 0 <= a < b < ks2.len() implies ks2[a] != ks2[b] by {
                assert(ks[a] == ks2[a]);
                assert(ks[b] == ks2[b]);
            }
        }
        assert(vs.update(i, v).drop_last() =~= vs2.update(i, v));
        assert(vs.update(i, v).last() == vs.last());
        lemma_map_of_update(ks2, vs2, i, v);
        assert(ks2[i] == ks[i]);
        assert(ks[i] != ks.last());
        assert(map_of(ks2, vs2).insert(ks[i], v).insert(ks.last(), vs.last())
            =~= map_of(ks2, vs2).insert(ks.last(), vs.last()).insert(ks[i], v));
    }
}

/// Re-registering under a key already present overwrites the previous
/// entry — the last write wins: after two registrations of the same key
/// the map reflects only the newest entry, and every other key is
/// untouched.
pub proof fn lemma_last_write_wins<T>(m: Map<Seq<u8>, T>, k: Seq<u8>, v1: T, v2: T)
    ensures
        m.insert(k, v1).insert(k, v2) == m.insert(k, v2),
        m.insert(k, v1).insert(k, v2)[k] == v2,
        forall|k2: Seq<u8>| k2 != k && m.contains_key(k2)
            ==> m.insert(k, v1).insert(k, v2)[k2] == m[k2],
{
    assert(m.insert(k, v1).insert(k, v2) =~= m.insert(k, v2));
}

/// Association list from owned byte-string keys to entries; its keys are
/// unique, and contracts see it as a `Map` from key bytes to entry
/// views.  Overwriting an existing key replaces the previous entry: the
/// last write wins.
pub struct Assoc<V> {
    keys: Vec<Vec<u8>>,
    vals: Vec<V>,
}

impl<V: View> Assoc<V> {
    pub closed spec fn wf(&self) -> bool {
        &&& self.keys@.len() == self.vals@.len()
        &&& unique_keys(keys_view(self.keys@))
    }

    pub closed spec fn view(&self) -> Map<Seq<u8>, V::V> {
        map_of(keys_view(self.keys@), vals_view(self.vals@))
    }

    pub fn empty() -> (r: Self)
        ensures
            r.wf(),
            r.view() == Map::<Seq<u8>, V::V>::empty(),
    {
        Assoc { keys: Vec::new(), vals: Vec::new() }
    }

    fn find(&self, key: &Vec<u8>) -> (r: Option<usize>)
        requires
            self.wf(),
        ensures
            match r {
                Some(i) => i < self.keys@.len() && keys_view(self.keys@)[i as int] == key@,
                None => forall|i: int| 0 <= i < self.keys@.len()
                    ==> keys_view(self.keys@)[i] != key@,
            },
    {
        let n = self.keys.len();
        let mut i: usize = 0;
        while i < n
            invariant
                n == self.keys@.len(),
                i <= n,
                forall|j: int| 0 <= j < i ==> keys_view(self.keys@)[j] != key@,
            decreases n - i,
        {
            if crate::bytes::vec_eq(&self.keys[i], key) {
                proof {
                    assert(keys_view(self.keys@)[i as int] == self.keys@[i as int]@);
                }
                return Some(i);
            }
            proof {
                assert(keys_view(self.keys@)[i as int] == self.keys@[i as int]@);
            }
            i += 1;
        }
        None
    }

    /// Binds `key` to `val`; a previous binding of the same key is
    /// overwritten.
    pub fn insert(&mut self, key: Vec<u8>, val: V)
        requires
            old(self).wf(),
        ensures
            final(self).wf(),
            final(self).view() == old(self).view().insert(key@, val@),
    {
        let ghost ks0 = keys_view(self.keys@);
        let ghost vs0 = vals_view(self.vals@);
        match self.find(&key) {
            Some(i) => {
                self.vals.remove(i);
                self.vals.insert(i, val);
                proof {
                    assert(vals_view(self.vals@) =~= vs0.update(i as int, val@));
                    lemma_map_of_update(ks0, vs0, i as int, val@);
                }
            },
            None => {
                self.keys.push(key);
                self.vals.push(val);
                proof {
                    assert(keys_view(self.keys@).drop_last() =~= ks0);
                    assert(vals_view(self.vals@).drop_last() =~= vs0);
                    assert(keys_view(self.keys@).last() == key@);
                    assert(vals_view(self.vals@).last() == val@);
                    assert(unique_keys(keys_view(self.keys@))) by {
                        let ks1 = keys_view(self.keys@);
                        assert forall|a: int, b: int| 0 <= a < b < ks1.len()
                            implies ks1[a] != ks1[b] by {
                            if b < ks1.len() - 1 {
                                assert(ks1[a] == ks0[a]);
                                assert(ks1[b] == ks0[b]);
                            } else {
                                assert(ks1[a] == ks0[a]);
                                assert(ks1[b] == key@);
                            }
                        }
                    }
                }
            },
        }
    }

    /// The entry bound to `key`, if any.
    pub fn get(&self, key: &Vec<u8>) -> (r: Option<&V>)
        requires
            self.wf(),
        ensures
            match r {
                Some(v) => self.view().contains_key(key@) && v@ == self.view()[key@],
                None => !self.view().contains_key(key@),
            },
    {
        match self.find(key) {
            Some(i) => {
                proof {
                    lemma_map_of_index(keys_view(self.keys@), vals_view(self.vals@), i as int);
                    assert(vals_view(self.vals@)[i as int] == self.vals@[i as int]@);
                }
                Some(&self.vals[i])
            },
            None => {
                proof {
                    lemma_map_of_dom(keys_view(self.keys@), vals_view(self.vals@), key@);
                }
                None
            },
        }
    }
}

/// The registry one reader exclusively owns: jump index, table schemas
/// and style entries, each keyed by its name or id.
pub struct Registry {
    jumps: Assoc<JumpEntry>,
    tables: Assoc<TableSchema>,
    styles: Assoc<StyleEntry>,
}

impl Registry {
    pub closed spec fn wf(&self) -> bool {
        self.jumps.wf() && self.tables.wf() && self.styles.wf()
    }

    pub closed spec fn jumps_map(&self) -> Map<Seq<u8>, JumpEntryV> {
        self.jumps.view()
    }

    pub closed spec fn tables_map(&self) -> Map<Seq<u8>, TableSchemaV> {
        self.tables.view()
    }

    pub closed spec fn styles_map(&self) -> Map<Seq<u8>, StyleEntryV> {
        self.styles.view()
    }

    /// An empty registry: no jumps, no tables, no styles.
    pub fn new() -> (r: Registry)
        ensures
            r.wf(),
            r.jumps_map() == Map::<Seq<u8>, JumpEntryV>::empty(),
            r.tables_map() == Map::<Seq<u8>, TableSchemaV>::empty(),
            r.styles_map() == Map::<Seq<u8>, StyleEntryV>::empty(),
    {
        Registry { jumps: Assoc::empty(), tables: Assoc::empty(), styles: Assoc::empty() }
    }

    /// Adds one jump entry under its name; a previous entry of the same
    /// name is overwritten.
    pub fn add_jump(&mut self, entry: JumpEntry)
        requires
            old(self).wf(),
        ensures
            final(self).wf(),
            final(self).jumps_map() == old(self).jumps_map().insert(entry.name@, entry@),
            final(self).tables_map() == old(self).tables_map(),
            final(self).styles_map() == old(self).styles_map(),
    {
        let key = copy_range(&entry.name, 0, entry.name.len());
        proof {
            assert(key@ =~= entry.name@);
        }
        self.jumps.insert(key, entry);
    }

    /// Registers a table schema under its id; a previous schema of the
    /// same id is overwritten — the last write wins.
    pub fn add_table(&mut self, schema: TableSchema)
        requires
            old(self).wf(),
        ensures
            final(self).wf(),
            final(self).tables_map() == old(self).tables_map().insert(schema.id@, schema@),
            final(self).jumps_map() == old(self).jumps_map(),
            final(self).styles_map() == old(self).styles_map(),
    {
        let key = copy_range(&schema.id, 0, schema.id.len());
        proof {
            assert(key@ =~= schema.id@);
        }
        self.tables.insert(key, schema);
    }

    /// Registers a style entry under its id; a previous entry of the
    /// same id is overwritten.
    pub fn add_style(&mut self, entry: StyleEntry)
        requires
            old(self).wf(),
        ensures
            final(self).wf(),
            final(self).styles_map() == old(self).styles_map().insert(entry.id@, entry@),
            final(self).jumps_map() == old(self).jumps_map(),
            final(self).tables_map() == old(self).tables_map(),
    {
        let key = copy_range(&entry.id, 0, entry.id.len());
        proof {
            assert(key@ =~= entry.id@);
        }
        self.styles.insert(key, entry);
    }

    /// The jump entry registered under `name`, if any.
    pub fn jump(&self, name: &Vec<u8>) -> (r: Option<&JumpEntry>)
        requires
            self.wf(),
        ensures
            match r {
                Some(e) => self.jumps_map().contains_key(name@)
                    && e@ == self.jumps_map()[name@],
                None => !self.jumps_map().contains_key(name@),
            },
    {
        self.jumps.get(name)
    }

    /// The table schema registered under `id`, if any.
    pub fn table(&self, id: &Vec<u8>) -> (r: Option<&TableSchema>)
        requires
            self.wf(),
        ensures
            match r {
                Some(t) => self.tables_map().contains_key(id@)
                    && t@ == self.tables_map()[id@],
                None => !self.tables_map().contains_key(id@),
            },
    {
        self.tables.get(id)
    }

    /// The style entry registered under `id`, if any.
    pub fn style(&self, id: &Vec<u8>) -> (r: Option<&StyleEntry>)
        requires
            self.wf(),
        ensures
            match r {
                Some(e) => self.styles_map().contains_key(id@)
                    && e@ == self.styles_map()[id@],
                None => !self.styles_map().contains_key(id@),
            },
    {
        self.styles.get(id)
    }
}

} // verus!
