//! A map from string keys to values, backed by a vector of entries.
//!
//! The engine records step results and step errors in maps keyed by step
//! id. The ghost model is a `Map<Seq<char>, _>` over the entries' views;
//! well-formed maps hold each key at most once, and every operation
//! preserves that.

use vstd::prelude::*;

use crate::value::str_eq;
use crate::value::Value;

verus! {

/// The ghost map an entry sequence denotes: later entries override
/// earlier ones.
pub open spec fn map_of<V: View>(entries: Seq<(String, V)>) -> Map<Seq<char>, V::V>
    decreases entries,
{
    if entries.len() == 0 {
        Map::empty()
    } else {
        map_of(entries.drop_last()).insert(entries.last().0@, entries.last().1@)
    }
}

/// A string-keyed map with insertion-ordered entries.
#[derive(Debug, PartialEq)]
pub struct StrMap<V> {
    entries: Vec<(String, V)>,
}

impl<V: View> View for StrMap<V> {
    type V = Map<Seq<char>, V::V>;

    closed spec fn view(&self) -> Map<Seq<char>, V::V> {
        map_of(self.entries@)
    }
}

/// A key view occurs somewhere in the entry sequence.
pub open spec fn has_key<V: View>(entries: Seq<(String, V)>, key: Seq<char>) -> bool {
    exists|i: int| 0 <= i < entries.len() && entries[i].0@ == key
}

/// The map contains exactly the keys that occur in the entries.
pub proof fn lemma_map_of_contains<V: View>(entries: Seq<(String, V)>, key: Seq<char>)
    ensures
        map_of(entries).contains_key(key) == has_key(entries, key),
    decreases entries,
{
    if entries.len() > 0 {
        lemma_map_of_contains(entries.drop_last(), key);
        if has_key(entries.drop_last(), key) {
            assert(has_key(entries, key)) by {
                let i = choose|i: int|
                    0 <= i < entries.drop_last().len() && entries.drop_last()[i].0@ == key;
                assert(entries[i].0@ == key);
            }
        }
        if has_key(entries, key) && entries.last().0@ != key {
            let i = choose|i: int| 0 <= i < entries.len() && entries[i].0@ == key;
            assert(entries.drop_last()[i].0@ == key);
        }
    }
}

/// With unique keys, the entry holding a key settles the lookup.
pub proof fn lemma_map_of_at<V: View>(entries: Seq<(String, V)>, i: int)
    requires
        forall|p: int, q: int|
            0 <= p < q < entries.len() ==> entries[p].0@ != entries[q].0@,
        0 <= i < entries.len(),
    ensures
        map_of(entries).contains_key(entries[i].0@),
        map_of(entries)[entries[i].0@] == entries[i].1@,
    decreases entries,
{
    if i == entries.len() - 1 {
    } else {
        lemma_map_of_at(entries.drop_last(), i);
        assert(entries.drop_last()[i] == entries[i]);
    }
}

/// With unique keys, the map's domain is as large as the entry sequence.
pub proof fn lemma_map_of_dom_len<V: View>(entries: Seq<(String, V)>)
    requires
        forall|p: int, q: int|
            0 <= p < q < entries.len() ==> entries[p].0@ != entries[q].0@,
    ensures
        map_of(entries).dom().finite(),
        map_of(entries).dom().len() == entries.len(),
    decreases entries,
{
    if entries.len() > 0 {
        lemma_map_of_dom_len(entries.drop_last());
        lemma_map_of_contains(entries.drop_last(), entries.last().0@);
        assert(!has_key(entries.drop_last(), entries.last().0@)) by {
            if has_key(entries.drop_last(), entries.last().0@) {
                let i = choose|i: int|
                    0 <= i < entries.drop_last().len() && entries.drop_last()[i].0@
                        == entries.last().0@;
                assert(entries[i].0@ == entries[entries.len() - 1].0@);
            }
        }
    }
}

/// Entry sequences with equal key views and value views denote the same
/// map.
pub proof fn lemma_map_of_pointwise<V: View>(a: Seq<(String, V)>, b: Seq<(String, V)>)
    requires
        a.len() == b.len(),
        forall|i: int| 0 <= i < a.len() ==> a[i].0@ == b[i].0@ && a[i].1@ == b[i].1@,
    ensures
        map_of(a) == map_of(b),
    decreases a,
{
    if a.len() > 0 {
        lemma_map_of_pointwise(a.drop_last(), b.drop_last());
        assert(map_of(a) =~= map_of(b));
    }
}

/// Replacing the value of the one entry holding a key denotes the map
/// after an insert.
proof fn lemma_map_of_update<V: View>(entries: Seq<(String, V)>, i: int, entry: (String, V))
    requires
        forall|p: int, q: int|
            0 <= p < q < entries.len() ==> entries[p].0@ != entries[q].0@,
        0 <= i < entries.len(),
        entries[i].0@ == entry.0@,
    ensures
        map_of(entries.update(i, entry)) == map_of(entries).insert(entry.0@, entry.1@),
    decreases entries,
{
    let updated = entries.update(i, entry);
    if i == entries.len() - 1 {
        assert(updated.drop_last() =~= entries.drop_last());
        assert(map_of(updated) =~= map_of(entries).insert(entry.0@, entry.1@));
    } else {
        lemma_map_of_update(entries.drop_last(), i, entry);
        assert(updated.drop_last() =~= entries.drop_last().update(i, entry));
        assert(updated.last() == entries.last());
        assert(entries.drop_last()[i] == entries[i]);
        assert(map_of(updated) =~= map_of(entries).insert(entry.0@, entry.1@));
    }
}

impl<V: View> StrMap<V> {
    /// Each key occurs in at most one entry.
    pub closed spec fn wf(&self) -> bool {
        forall|p: int, q: int|
            0 <= p < q < self.entries@.len() ==> self.entries@[p].0@
                != self.entries@[q].0@
    }

    /// The number of entries, equal to the size of the map's domain when
    /// the map is well formed.
    pub closed spec fn spec_len(&self) -> nat {
        self.entries@.len()
    }

    /// A well-formed map's domain has exactly one element per entry.
    pub proof fn lemma_dom_len(&self)
        requires
            self.wf(),
        ensures
            self@.dom().finite(),
            self@.dom().len() == self.spec_len(),
    {
        lemma_map_of_dom_len(self.entries@);
    }

    /// An empty map.
    pub fn new() -> (r: Self)
        ensures
            r@ == Map::<Seq<char>, V::V>::empty(),
            r.wf(),
            r.spec_len() == 0,
    {
        StrMap { entries: Vec::new() }
    }

    /// The number of entries.
    pub fn len(&self) -> (r: usize)
        ensures
            r == self.spec_len(),
    {
        self.entries.len()
    }

    /// Whether the map has no entries.
    pub fn is_empty(&self) -> (r: bool)
        ensures
            r == (self.spec_len() == 0),
            r ==> self@ == Map::<Seq<char>, V::V>::empty(),
    {
        self.entries.len() == 0
    }

    /// The value under a key, if the key is present.
    pub fn get(&self, key: &str) -> (r: Option<&V>)
        requires
            self.wf(),
        ensures
            match r {
                Some(v) => self@.contains_key(key@) && v@ == self@[key@],
                None => !self@.contains_key(key@),
            },
    {
        let mut i: usize = 0;
        while i < self.entries.len()
            invariant
                self.wf(),
                0 <= i <= self.entries@.len(),
                forall|j: int| 0 <= j < i ==> self.entries@[j].0@ != key@,
            decreases self.entries@.len() - i,
        {
            if str_eq(self.entries[i].0.as_str(), key) {
                proof {
                    lemma_map_of_at(self.entries@, i as int);
                }
                return Some(&self.entries[i].1);
            }
            i += 1;
        }
        proof {
            lemma_map_of_contains(self.entries@, key@);
        }
        None
    }

    /// Whether a key is present.
    pub fn contains_key(&self, key: &str) -> (r: bool)
        requires
            self.wf(),
        ensures
            r == self@.contains_key(key@),
    {
        self.get(key).is_some()
    }

    /// The entries, in insertion order.
    pub fn entries(&self) -> (r: &Vec<(String, V)>)
        ensures
            r@.len() == self.spec_len(),
            self.wf() ==> forall|i: int|
                0 <= i < r@.len() ==> self@.contains_key((#[trigger] r@[i]).0@)
                    && self@[r@[i].0@] == r@[i].1@,
    {
        proof {
            if self.wf() {
                assert forall|i: int|
                    0 <= i < self.entries@.len() implies self@.contains_key(
                    (#[trigger] self.entries@[i]).0@,
                ) && self@[self.entries@[i].0@] == self.entries@[i].1@ by {
                    lemma_map_of_at(self.entries@, i);
                }
            }
        }
        &self.entries
    }

    /// Bind a key to a value, replacing any previous binding.
    pub fn insert(&mut self, key: String, val: V)
        requires
            old(self).wf(),
        ensures
            final(self).wf(),
            final(self)@ == old(self)@.insert(key@, val@),
            final(self).spec_len() == if old(self)@.contains_key(key@) {
                old(self).spec_len()
            } else {
                old(self).spec_len() + 1
            },
    {
        let ghost orig = self.entries@;
        let mut i: usize = 0;
        while i < self.entries.len()
            invariant
                *self == *old(self),
                old(self).wf(),
                orig == self.entries@,
                0 <= i <= self.entries@.len(),
                forall|j: int| 0 <= j < i ==> self.entries@[j].0@ != key@,
            decreases self.entries@.len() - i,
        {
            if str_eq(self.entries[i].0.as_str(), key.as_str()) {
                proof {
                    lemma_map_of_update(orig, i as int, (key, val));
                    lemma_map_of_contains(orig, key@);
                    assert(has_key(orig, key@));
                }
                self.entries.set(i, (key, val));
                proof {
                    assert(self.entries@ == orig.update(i as int, (key, val)));
                    assert forall|p: int, q: int|
                        0 <= p < q < self.entries@.len() implies self.entries@[p].0@
                        != self.entries@[q].0@ by {
                        assert(orig[p].0@ != orig[q].0@);
                        assert(self.entries@[p].0@ == orig[p].0@);
                        assert(self.entries@[q].0@ == orig[q].0@);
                    }
                }
                return ;
            }
            i += 1;
        }
        proof {
            lemma_map_of_contains(orig, key@);
            assert(!has_key(orig, key@));
            assert(orig.push((key, val)).drop_last() =~= orig);
        }
        self.entries.push((key, val));
        proof {
            assert forall|p: int, q: int|
                0 <= p < q < self.entries@.len() implies self.entries@[p].0@
                != self.entries@[q].0@ by {
                if q < orig.len() {
                    assert(orig[p].0@ != orig[q].0@);
                } else {
                    assert(self.entries@[p].0@ == orig[p].0@);
                    assert(self.entries@[q].0@ == key@);
                }
            }
        }
    }
}

impl Clone for StrMap<Value> {
    /// Cloning preserves the map's model, well-formedness and size.
    fn clone(&self) -> (res: Self)
        ensures
            res@ == self@,
            self.wf() ==> res.wf(),
            res.spec_len() == self.spec_len(),
    {
        let mut entries: Vec<(String, Value)> = Vec::new();
        let mut i: usize = 0;
        while i < self.entries.len()
            invariant
                0 <= i <= self.entries@.len(),
                entries@.len() == i,
                forall|j: int|
                    0 <= j < i ==> entries@[j].0 == (#[trigger] self.entries@[j]).0
                        && entries@[j].1@ == self.entries@[j].1@,
            decreases self.entries@.len() - i,
        {
            let entry = (self.entries[i].0.clone(), self.entries[i].1.deep_copy());
            entries.push(entry);
            i += 1;
        }
        proof {
            lemma_map_of_pointwise(entries@, self.entries@);
            if self.wf() {
                assert forall|p: int, q: int|
                    0 <= p < q < entries@.len() implies entries@[p].0@ != entries@[q].0@ by {
                    assert(self.entries@[p].0@ != self.entries@[q].0@);
                    assert(entries@[p].0 == self.entries@[p].0);
                    assert(entries@[q].0 == self.entries@[q].0);
                }
            }
        }
        StrMap { entries }
    }
}

impl Clone for StrMap<String> {
    /// Cloning preserves the map's model, well-formedness and size.
    fn clone(&self) -> (res: Self)
        ensures
            res@ == self@,
            self.wf() ==> res.wf(),
            res.spec_len() == self.spec_len(),
    {
        let mut entries: Vec<(String, String)> = Vec::new();
        let mut i: usize = 0;
        while i < self.entries.len()
            invariant
                0 <= i <= self.entries@.len(),
                entries@.len() == i,
                forall|j: int|
                    0 <= j < i ==> entries@[j].0 == (#[trigger] self.entries@[j]).0
                        && entries@[j].1 == self.entries@[j].1,
            decreases self.entries@.len() - i,
        {
            let entry = (self.entries[i].0.clone(), self.entries[i].1.clone());
            entries.push(entry);
            i += 1;
        }
        proof {
            lemma_map_of_pointwise(entries@, self.entries@);
            if self.wf() {
                assert forall|p: int, q: int|
                    0 <= p < q < entries@.len() implies entries@[p].0@ != entries@[q].0@ by {
                    assert(self.entries@[p].0@ != self.entries@[q].0@);
                    assert(entries@[p].0 == self.entries@[p].0);
                    assert(entries@[q].0 == self.entries@[q].0);
                }
            }
        }
        StrMap { entries }
    }
}

} // verus!
