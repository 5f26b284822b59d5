//! The metadata of a container: a map from byte strings to byte strings.
use vstd::prelude::*;
use crate::bytes::{bytes_eq, bytes_to_vec};

verus! {

/// One key with its value.
#[derive(Debug)]
struct MetaEntry {
    key: Vec<u8>,
    value: Vec<u8>,
}

/// Map of metadata keys to values.
///
/// The entries are kept in the order in which their keys were first
/// inserted; no key occurs twice.
#[derive(Debug)]
pub struct MetaMap {
    items: Vec<MetaEntry>,
}

/// The map that a list of entries stands for: a later entry replaces an
/// earlier one with the same key.
pub open spec fn entries_map(e: Seq<(Seq<u8>, Seq<u8>)>) -> Map<Seq<u8>, Seq<u8>>
    decreases e.len(),
{
    if e.len() == 0 {
        Map::empty()
    } else {
        entries_map(e.drop_last()).insert(e.last().0, e.last().1)
    }
}

/// No key occurs twice in the list.
pub open spec fn distinct_keys(e: Seq<(Seq<u8>, Seq<u8>)>) -> bool {
    forall|i: int, j: int| 0 <= i < j < e.len() ==> (#[trigger] e[i]).0 != (#[trigger] e[j]).0
}

/// A key is in the map of a list exactly when some entry has it.
pub proof fn lemma_entries_map_dom(e: Seq<(Seq<u8>, Seq<u8>)>, k: Seq<u8>)
    ensures
        entries_map(e).contains_key(k) <==> exists|i: int| 0 <= i < e.len() && (#[trigger] e[i]).0 == k,
    decreases e.len(),
{
    if e.len() > 0 {
        lemma_entries_map_dom(e.drop_last(), k);
        if entries_map(e).contains_key(k) {
            if e.last().0 == k {
                assert(e[e.len() - 1].0 == k);
            } else {
                let i = choose|i: int| 0 <= i < e.drop_last().len() && (#[trigger] e.drop_last()[i]).0 == k;
                assert(e[i].0 == k);
            }
        }
        if exists|i: int| 0 <= i < e.len() && (#[trigger] e[i]).0 == k {
            let i = choose|i: int| 0 <= i < e.len() && (#[trigger] e[i]).0 == k;
            if i < e.len() - 1 {
                assert(e.drop_last()[i].0 == k);
            }
        }
    }
}

/// In a list without repeated keys, the map gives each key the value of its
/// entry.
pub proof fn lemma_entries_map_value(e: Seq<(Seq<u8>, Seq<u8>)>, i: int)
    requires
        distinct_keys(e),
        0 <= i < e.len(),
    ensures
        entries_map(e).contains_key(e[i].0),
        entries_map(e)[e[i].0] == e[i].1,
    decreases e.len(),
{
    if i < e.len() - 1 {
        assert(distinct_keys(e.drop_last())) by {
            assert forall|a: int, b: int| 0 <= a < b < e.drop_last().len() implies (
            #[trigger] e.drop_last()[a]).0 != (#[trigger] e.drop_last()[b]).0 by {
                assert(e[a].0 != e[b].0);
            }
        }
        lemma_entries_map_value(e.drop_last(), i);
        assert(e[i].0 != e[e.len() - 1].0);
        assert(e.drop_last()[i] == e[i]);
    }
}

/// Replacing the value of an entry is inserting its key with the new value.
pub proof fn lemma_entries_map_update(e: Seq<(Seq<u8>, Seq<u8>)>, i: int, v: Seq<u8>)
    requires
        distinct_keys(e),
        0 <= i < e.len(),
    ensures
        entries_map(e.update(i, (e[i].0, v))) == entries_map(e).insert(e[i].0, v),
        distinct_keys(e.update(i, (e[i].0, v))),
    decreases e.len(),
{
    let k = e[i].0;
    let e2 = e.update(i, (k, v));
    assert(distinct_keys(e2)) by {
        assert forall|a: int, b: int| 0 <= a < b < e2.len() implies (#[trigger] e2[a]).0 != (
        #[trigger] e2[b]).0 by {
            assert(e[a].0 != e[b].0);
        }
    }
    if i == e.len() - 1 {
        assert(e2.drop_last() =~= e.drop_last());
        assert(entries_map(e2) =~= entries_map(e).insert(k, v));
    } else {
        assert(distinct_keys(e.drop_last())) by {
            assert forall|a: int, b: int| 0 <= a < b < e.drop_last().len() implies (
            #[trigger] e.drop_last()[a]).0 != (#[trigger] e.drop_last()[b]).0 by {
                assert(e[a].0 != e[b].0);
            }
        }
        lemma_entries_map_update(e.drop_last(), i, v);
        assert(e.drop_last()[i] == e[i]);
        assert(e2.drop_last() =~= e.drop_last().update(i, (k, v)));
        assert(e2.last() == e.last());
        assert(e[i].0 != e[e.len() - 1].0);
        assert(entries_map(e2) =~= entries_map(e).insert(k, v));
    }
}

impl MetaMap {
    /// The entries in their order, each as a pair of key and value.
    pub closed spec fn entries(&self) -> Seq<(Seq<u8>, Seq<u8>)> {
        Seq::new(self.items@.len(), |i: int| (self.items@[i].key@, self.items@[i].value@))
    }

    /// No key occurs twice.
    pub open spec fn inv(&self) -> bool {
        distinct_keys(self.entries())
    }

    /// An empty map.
    pub fn new() -> (m: MetaMap)
        ensures
            m.inv(),
            m.entries() == Seq::<(Seq<u8>, Seq<u8>)>::empty(),
            m@ == Map::<Seq<u8>, Seq<u8>>::empty(),
    {
        let m = MetaMap { items: Vec::new() };
        assert(m.entries() =~= Seq::<(Seq<u8>, Seq<u8>)>::empty());
        m
    }

    /// The number of entries.
    pub fn len(&self) -> (n: usize)
        ensures
            n == self.entries().len(),
    {
        self.items.len()
    }

    /// Whether the map has no entry.
    pub fn is_empty(&self) -> (b: bool)
        ensures
            b == (self.entries().len() == 0),
    {
        self.items.len() == 0
    }

    /// The key of the entry at index `i`.
    pub fn key_at(&self, i: usize) -> (k: &Vec<u8>)
        requires
            i < self.entries().len(),
        ensures
            k@ == self.entries()[i as int].0,
    {
        &self.items[i].key
    }

    /// The value of the entry at index `i`.
    pub fn value_at(&self, i: usize) -> (v: &Vec<u8>)
        requires
            i < self.entries().len(),
        ensures
            v@ == self.entries()[i as int].1,
    {
        &self.items[i].value
    }

    /// The index of the entry with the given key, if there is one.
    fn find(&self, key: &[u8]) -> (r: Option<usize>)
        ensures
            match r {
                Some(i) => i < self.entries().len() && self.entries()[i as int].0 == key@,
                None => forall|j: int| 0 <= j < self.entries().len() ==> (#[trigger] self.entries()[j]).0 != key@,
            },
    {
        let mut i: usize = 0;
        while i < self.items.len()
            invariant
                i <= self.items@.len(),
                self.entries().len() == self.items@.len(),
                forall|j: int| 0 <= j < i ==> (#[trigger] self.entries()[j]).0 != key@,
            decreases self.items.len() - i,
        {
            if bytes_eq(self.items[i].key.as_slice(), key) {
                return Some(i);
            }
            i += 1;
        }
        None
    }

    /// The value of a key, if the map has it.
    pub fn get(&self, key: &[u8]) -> (r: Option<&Vec<u8>>)
        requires
            self.inv(),
        ensures
            r is Some <==> self@.contains_key(key@),
            r matches Some(v) ==> v@ == self@[key@],
    {
        proof {
            lemma_entries_map_dom(self.entries(), key@);
        }
        match self.find(key) {
            Some(i) => {
                proof {
                    lemma_entries_map_value(self.entries(), i as int);
                }
                Some(&self.items[i].value)
            },
            None => None,
        }
    }

    /// Whether the map has the key.
    pub fn contains_key(&self, key: &[u8]) -> (b: bool)
        requires
            self.inv(),
        ensures
            b == self@.contains_key(key@),
    {
        self.get(key).is_some()
    }

    /// Gives `key` the value `value`; the last write wins. Returns the value
    /// that the key had before, if it had one. A new key goes to the end of
    /// the entries, a known key keeps its place.
    pub fn insert(&mut self, key: Vec<u8>, value: Vec<u8>) -> (r: Option<Vec<u8>>)
        requires
            old(self).inv(),
        ensures
            final(self).inv(),
            final(self)@ == old(self)@.insert(key@, value@),
            r is Some <==> old(self)@.contains_key(key@),
            r matches Some(v) ==> v@ == old(self)@[key@],
            r is None ==> final(self).entries() == old(self).entries().push((key@, value@)),
            r is Some ==> exists|i: int|
                0 <= i < old(self).entries().len() && old(self).entries()[i].0 == key@
                    && final(self).entries() == old(self).entries().update(i, (key@, value@)),
    {
        let ghost before = self.entries();
        proof {
            lemma_entries_map_dom(before, key@);
        }
        match self.find(key.as_slice()) {
            Some(i) => {
                proof {
                    lemma_entries_map_value(before, i as int);
                    lemma_entries_map_update(before, i as int, value@);
                }
                let mut slot = MetaEntry { key, value };
                let ghost k = slot.key@;
                let ghost v = slot.value@;
                core::mem::swap(&mut self.items[i], &mut slot);
                assert(self.entries() =~= before.update(i as int, (k, v)));
                Some(slot.value)
            },
            None => {
                let ghost k = key@;
                let ghost v = value@;
                self.items.push(MetaEntry { key, value });
                assert(self.entries() =~= before.push((k, v)));
                assert(before.push((k, v)).drop_last() =~= before);
                assert(distinct_keys(self.entries())) by {
                    assert forall|a: int, b: int| 0 <= a < b < self.entries().len() implies (
                    #[trigger] self.entries()[a]).0 != (#[trigger] self.entries()[b]).0 by {
                        if b < before.len() {
                            assert(before[a].0 != before[b].0);
                        } else {
                            assert(before[a].0 != k);
                        }
                    }
                }
                None
            },
        }
    }
}

impl Clone for MetaMap {
    /// A map with the same entries in the same order.
    fn clone(&self) -> (m: Self)
        ensures
            m.entries() == self.entries(),
            m@ == self@,
    {
        let mut items: Vec<MetaEntry> = Vec::new();
        let mut i: usize = 0;
        while i < self.items.len()
            invariant
                i <= self.items@.len(),
                items@.len() == i,
                forall|j: int|
                    0 <= j < i ==> (#[trigger] items@[j]).key@ == self.items@[j].key@
                        && items@[j].value@ == self.items@[j].value@,
            decreases self.items.len() - i,
        {
            let key = bytes_to_vec(self.items[i].key.as_slice());
            let value = bytes_to_vec(self.items[i].value.as_slice());
            items.push(MetaEntry { key, value });
            i += 1;
        }
        let m = MetaMap { items };
        assert(m.entries() =~= self.entries());
        m
    }
}

impl View for MetaMap {
    type V = Map<Seq<u8>, Seq<u8>>;

    open spec fn view(&self) -> Map<Seq<u8>, Seq<u8>> {
        entries_map(self.entries())
    }
}

} // verus!
