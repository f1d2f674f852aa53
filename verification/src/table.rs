//! Maps keyed by text that record their changes in order: a later entry for a
//! key replaces the earlier one, as an insert into a map does, and an entry
//! without a value removes the key.
use vstd::prelude::*;

use crate::text::str_eq;

verus! {

/// The map of keys to entries that a list of changes leaves, later changes
/// replacing earlier ones.
pub open spec fn entries_map<V>(es: Seq<(String, Option<V>)>) -> Map<Seq<char>, Option<V>>
    decreases es.len(),
{
    if es.len() == 0 {
        Map::empty()
    } else {
        entries_map(es.drop_last()).insert(es.last().0@, es.last().1)
    }
}

proof fn lemma_entries_keys<V>(es: Seq<(String, Option<V>)>, k: Seq<char>)
    requires
        entries_map(es).dom().contains(k),
    ensures
        exists|j: int| 0 <= j < es.len() && (#[trigger] es[j]).0@ == k,
    decreases es.len(),
{
    if es.last().0@ != k {
        lemma_entries_keys(es.drop_last(), k);
        let j = choose|j: int| 0 <= j < es.drop_last().len() && (#[trigger] es.drop_last()[j]).0@ == k;
        assert(es[j] == es.drop_last()[j]);
    } else {
        assert(es[es.len() - 1].0@ == k);
    }
}

/// The keys that a list of changes leaves with a value, and their values.
pub open spec fn present<V>(m: Map<Seq<char>, Option<V>>) -> Map<Seq<char>, V> {
    Map::new(|k: Seq<char>| m.dom().contains(k) && m[k] is Some, |k: Seq<char>| m[k]->0)
}

/// A map from texts to values, kept as the list of its changes.
#[derive(Debug)]
pub struct TextMap<V> {
    entries: Vec<(String, Option<V>)>,
}

impl<V> TextMap<V> {
    pub closed spec fn view(&self) -> Map<Seq<char>, V> {
        present(entries_map(self.entries@))
    }

    /// The changes, oldest first; applying them in order to an empty map
    /// gives this map.
    pub closed spec fn changes(&self) -> Seq<(String, Option<V>)> {
        self.entries@
    }

    /// The empty map.
    pub fn new() -> (m: Self)
        ensures
            m.view() == Map::<Seq<char>, V>::empty(),
    {
        let m = TextMap { entries: Vec::new() };
        assert(m.view() =~= Map::<Seq<char>, V>::empty());
        m
    }

    /// Sets the value of a key.
    pub fn insert(&mut self, key: String, value: V)
        ensures
            final(self).view() == old(self).view().insert(key@, value),
    {
        let ghost k = key@;
        let ghost v = value;
        self.entries.push((key, Some(value)));
        assert(self.entries@.drop_last() =~= old(self).entries@);
        assert(self.view() =~= old(self).view().insert(k, v));
    }

    /// Removes a key.
    pub fn remove(&mut self, key: &str)
        ensures
            final(self).view() == old(self).view().remove(key@),
    {
        self.entries.push((key.to_string(), None));
        assert(self.entries@.drop_last() =~= old(self).entries@);
        assert(self.view() =~= old(self).view().remove(key@));
    }

    /// The value of a key.
    pub fn get(&self, key: &str) -> (r: Option<&V>)
        ensures
            r matches Some(v) ==> self.view().dom().contains(key@) && self.view()[key@] == *v,
            r is None ==> !self.view().dom().contains(key@),
    {
        let ghost es = self.entries@;
        let mut i: usize = self.entries.len();
        assert(es.subrange(0, i as int) =~= es);
        while i > 0
            invariant
                i <= es.len(),
                es == self.entries@,
                entries_map(es).dom().contains(key@) == entries_map(es.subrange(0, i as int)).dom().contains(key@),
                entries_map(es).dom().contains(key@) ==> entries_map(es)[key@] == entries_map(es.subrange(0, i as int))[key@],
            decreases i,
        {
            let ghost sub = es.subrange(0, i as int);
            assert(sub.last() == es[i - 1]);
            assert(sub.drop_last() =~= es.subrange(0, i - 1));
            if str_eq(self.entries[i - 1].0.as_str(), key) {
                return match &self.entries[i - 1].1 {
                    Some(v) => Some(v),
                    None => None,
                };
            }
            i = i - 1;
        }
        assert(es.subrange(0, 0) =~= Seq::<(String, Option<V>)>::empty());
        None
    }

    /// Whether no key has a value.
    pub fn is_empty(&self) -> (r: bool)
        ensures
            r == (self.view().dom() =~= Set::<Seq<char>>::empty()),
    {
        let mut i: usize = 0;
        while i < self.entries.len()
            invariant
                i <= self.entries@.len(),
                forall|j: int| 0 <= j < i ==> !self.view().dom().contains(#[trigger] self.entries@[j].0@),
            decreases self.entries@.len() - i,
        {
            if self.get(self.entries[i].0.as_str()).is_some() {
                assert(self.view().dom().contains(self.entries@[i as int].0@));
                return false;
            }
            i = i + 1;
        }
        assert forall|k: Seq<char>| !self.view().dom().contains(k) by {
            if self.view().dom().contains(k) {
                lemma_entries_keys(self.entries@, k);
            }
        }
        true
    }

    /// The changes, oldest first (see `changes`).
    pub fn entries(&self) -> (r: &Vec<(String, Option<V>)>)
        ensures
            r@ == self.changes(),
    {
        &self.entries
    }
}

} // verus!
