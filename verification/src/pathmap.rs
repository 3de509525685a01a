//! An association map from file paths (`String`) to values, with unique keys.
//!
//! Manifests, working trees and workspaces are all maps keyed by a path.
//! The map remembers insertion order, so callers can walk the entries.

use vstd::prelude::*;

verus! {

/// Mathematical content of an entry sequence: later entries win.
pub open spec fn map_of_entries<V: View>(entries: Seq<(String, V)>) -> Map<Seq<char>, V::V>
    decreases entries.len(),
{
    if entries.len() == 0 {
        Map::empty()
    } else {
        map_of_entries(entries.drop_last()).insert(entries.last().0@, entries.last().1@)
    }
}

/// A map from path strings to values, backed by a vector of entries
/// whose keys are pairwise distinct.
pub struct PathMap<V: View> {
    entries: Vec<(String, V)>,
}

impl<V: View> PathMap<V> {
    /// The keys, in insertion order.
    pub closed spec fn keys_in_order(&self) -> Seq<Seq<char>> {
        Seq::new(self.entries@.len(), |i: int| self.entries@[i].0@)
    }

    /// The values, in insertion order.
    pub closed spec fn values_in_order(&self) -> Seq<V::V> {
        Seq::new(self.entries@.len(), |i: int| self.entries@[i].1@)
    }

    #[verifier::type_invariant]
    spec fn inv(self) -> bool {
        forall|i: int, j: int|
            0 <= i < j < self.entries@.len() ==> self.entries@[i].0@ != self.entries@[j].0@
    }

    proof fn lemma_map_of_prefix_contains(entries: Seq<(String, V)>, k: Seq<char>)
        ensures
            map_of_entries(entries).contains_key(k) <==> exists|i: int|
                0 <= i < entries.len() && entries[i].0@ == k,
        decreases entries.len(),
    {
        if entries.len() > 0 {
            Self::lemma_map_of_prefix_contains(entries.drop_last(), k);
            if map_of_entries(entries).contains_key(k) {
                if entries.last().0@ != k {
                    let i = choose|i: int|
                        0 <= i < entries.len() - 1 && entries.drop_last()[i].0@ == k;
                    assert(entries[i].0@ == k);
                }
            } else {
                assert forall|i: int| 0 <= i < entries.len() implies entries[i].0@ != k by {
                    if i < entries.len() - 1 {
                        assert(entries.drop_last()[i].0@ != k);
                    }
                }
            }
        }
    }

    proof fn lemma_map_of_index(entries: Seq<(String, V)>, i: int)
        requires
            0 <= i < entries.len(),
            forall|a: int, b: int|
                0 <= a < b < entries.len() ==> entries[a].0@ != entries[b].0@,
        ensures
            map_of_entries(entries).contains_key(entries[i].0@),
            map_of_entries(entries)[entries[i].0@] == entries[i].1@,
        decreases entries.len(),
    {
        if i == entries.len() - 1 {
        } else {
            Self::lemma_map_of_index(entries.drop_last(), i);
            assert(entries.drop_last()[i] == entries[i]);
            assert(entries.last().0@ != entries[i].0@);
        }
    }

    /// Every key of the map stands somewhere in the key sequence, and the
    /// value there is the map's value. The body does nothing: the call is
    /// made for its postcondition.
    pub fn iteration_facts(&self)
        ensures
            forall|k: Seq<char>| #[trigger]
                self@.contains_key(k) <==> self.keys_in_order().contains(k),
            forall|i: int|
                0 <= i < self.keys_in_order().len() ==> #[trigger] self@.contains_key(
                    self.keys_in_order()[i],
                ) && self@[self.keys_in_order()[i]] == self.values_in_order()[i],
            forall|i: int, j: int|
                0 <= i < j < self.keys_in_order().len() ==> self.keys_in_order()[i]
                    != self.keys_in_order()[j],
    {
        proof {
            use_type_invariant(self);
            self.facts_proof();
        }
    }

    proof fn facts_proof(&self)
        requires
            self.inv(),
        ensures
            forall|k: Seq<char>| #[trigger]
                self@.contains_key(k) <==> self.keys_in_order().contains(k),
            forall|i: int|
                0 <= i < self.keys_in_order().len() ==> #[trigger] self@.contains_key(
                    self.keys_in_order()[i],
                ) && self@[self.keys_in_order()[i]] == self.values_in_order()[i],
            forall|i: int, j: int|
                0 <= i < j < self.keys_in_order().len() ==> self.keys_in_order()[i]
                    != self.keys_in_order()[j],
    {
        assert forall|k: Seq<char>| #[trigger]
            self@.contains_key(k) <==> self.keys_in_order().contains(k) by {
            Self::lemma_map_of_prefix_contains(self.entries@, k);
            if self.keys_in_order().contains(k) {
                let i = choose|i: int|
                    0 <= i < self.keys_in_order().len() && self.keys_in_order()[i] == k;
                assert(self.entries@[i].0@ == k);
                assert(self@.contains_key(k));
            }
            if self@.contains_key(k) {
                let i = choose|i: int| 0 <= i < self.entries@.len() && self.entries@[i].0@ == k;
                assert(self.keys_in_order()[i] == k);
                assert(self.keys_in_order().contains(k));
            }
        }
        assert forall|i: int| 0 <= i < self.keys_in_order().len() implies #[trigger] self
            @.contains_key(self.keys_in_order()[i]) && self@[self.keys_in_order()[i]]
            == self.values_in_order()[i] by {
            Self::lemma_map_of_index(self.entries@, i);
        }
    }

    /// The empty map.
    pub fn new() -> (r: PathMap<V>)
        ensures
            r@ == Map::<Seq<char>, V::V>::empty(),
            r.keys_in_order() == Seq::<Seq<char>>::empty(),
    {
        let r = PathMap { entries: Vec::new() };
        proof {
            assert(r.keys_in_order() =~= Seq::<Seq<char>>::empty());
        }
        r
    }

    /// How many paths are tracked.
    pub fn len(&self) -> (n: usize)
        ensures
            n == self.keys_in_order().len(),
    {
        self.entries.len()
    }

    /// The key at a position of the insertion order.
    pub fn key_at(&self, i: usize) -> (k: &String)
        requires
            i < self.keys_in_order().len(),
        ensures
            k@ == self.keys_in_order()[i as int],
            self@.contains_key(k@),
            self@[k@] == self.values_in_order()[i as int],
    {
        proof {
            use_type_invariant(self);
            self.facts_proof();
        }
        &self.entries[i].0
    }

    /// The value at a position of the insertion order.
    pub fn value_at(&self, i: usize) -> (v: &V)
        requires
            i < self.keys_in_order().len(),
        ensures
            v@ == self.values_in_order()[i as int],
            self@.contains_key(self.keys_in_order()[i as int]),
            v@ == self@[self.keys_in_order()[i as int]],
    {
        proof {
            use_type_invariant(self);
            self.facts_proof();
        }
        &self.entries[i].1
    }

    fn position(&self, key: &String) -> (r: Option<usize>)
        ensures
            match r {
                Some(i) => i < self.entries@.len() && self.entries@[i as int].0@ == key@
                    && self@.contains_key(key@) && self@[key@] == self.entries@[i as int].1@
                    && self.keys_in_order()[i as int] == key@,
                None => !self@.contains_key(key@),
            },
    {
        proof {
            use_type_invariant(self);
            Self::lemma_map_of_prefix_contains(self.entries@, key@);
        }
        let n = self.entries.len();
        for i in 0..n
            invariant
                n == self.entries@.len(),
                forall|j: int| 0 <= j < i ==> self.entries@[j].0@ != key@,
        {
            if self.entries[i].0.eq(key) {
                proof {
                    use_type_invariant(self);
                    Self::lemma_map_of_index(self.entries@, i as int);
                }
                return Some(i);
            }
        }
        None
    }

    /// Does the map hold this path?
    pub fn contains_key(&self, key: &String) -> (r: bool)
        ensures
            r == self@.contains_key(key@),
    {
        self.position(key).is_some()
    }

    /// The value at this path, if any.
    pub fn get(&self, key: &String) -> (r: Option<&V>)
        ensures
            match r {
                Some(v) => self@.contains_key(key@) && v@ == self@[key@],
                None => !self@.contains_key(key@),
            },
    {
        match self.position(key) {
            Some(i) => Some(&self.entries[i].1),
            None => None,
        }
    }

    /// Binds a path to a value; an existing binding for the path is replaced.
    pub fn insert(&mut self, key: String, value: V)
        ensures
            final(self)@ == old(self)@.insert(key@, value@),
            old(self)@.contains_key(key@) ==> final(self).keys_in_order() == old(
                self,
            ).keys_in_order(),
            !old(self)@.contains_key(key@) ==> final(self).keys_in_order() == old(
                self,
            ).keys_in_order().push(key@),
    {
        proof {
            use_type_invariant(&*self);
        }
        let pos = self.position(&key);
        let mut entries: Vec<(String, V)> = Vec::new();
        core::mem::swap(&mut self.entries, &mut entries);
        let ghost k = key@;
        match pos {
            Some(i) => {
                let ghost before = entries@;
                entries[i] = (key, value);
                proof {
                    Self::lemma_update_view(before, i as int, entries@[i as int]);
                }
            },
            None => {
                entries.push((key, value));
                proof {
                    Self::lemma_map_of_prefix_contains(old(self).entries@, k);
                    assert(entries@.drop_last() == old(self).entries@);
                }
            },
        }
        core::mem::swap(&mut self.entries, &mut entries);
        proof {
            match pos {
                Some(i) => {
                    assert(self.keys_in_order() =~= old(self).keys_in_order());
                    assert(self@ =~= old(self)@.insert(k, value@));
                },
                None => {
                    assert(self.entries@.drop_last() == old(self).entries@);
                    assert(self.keys_in_order() =~= old(self).keys_in_order().push(
                        self.entries@.last().0@,
                    ));
                },
            }
        }
    }

    proof fn lemma_update_view(entries: Seq<(String, V)>, i: int, e: (String, V))
        requires
            0 <= i < entries.len(),
            entries[i].0@ == e.0@,
            forall|a: int, b: int|
                0 <= a < b < entries.len() ==> entries[a].0@ != entries[b].0@,
        ensures
            map_of_entries(entries.update(i, e)) == map_of_entries(entries).insert(e.0@, e.1@),
        decreases entries.len(),
    {
        let updated = entries.update(i, e);
        if i == entries.len() - 1 {
            assert(updated.drop_last() =~= entries.drop_last());
            assert(map_of_entries(updated) =~= map_of_entries(entries).insert(e.0@, e.1@));
        } else {
            Self::lemma_update_view(entries.drop_last(), i, e);
            assert(updated.drop_last() =~= entries.drop_last().update(i, e));
            assert(entries.last().0@ != e.0@);
            assert(map_of_entries(updated) =~= map_of_entries(entries).insert(e.0@, e.1@));
        }
    }

    proof fn lemma_remove_view(entries: Seq<(String, V)>, i: int)
        requires
            0 <= i < entries.len(),
            forall|a: int, b: int|
                0 <= a < b < entries.len() ==> entries[a].0@ != entries[b].0@,
        ensures
            map_of_entries(entries.remove(i)) == map_of_entries(entries).remove(entries[i].0@),
        decreases entries.len(),
    {
        let removed = entries.remove(i);
        if i == entries.len() - 1 {
            assert(removed =~= entries.drop_last());
            Self::lemma_map_of_prefix_contains(entries.drop_last(), entries[i].0@);
            assert(map_of_entries(removed) =~= map_of_entries(entries).remove(entries[i].0@));
        } else {
            Self::lemma_remove_view(entries.drop_last(), i);
            assert(removed.drop_last() =~= entries.drop_last().remove(i));
            assert(removed.last() == entries.last());
            assert(map_of_entries(removed) =~= map_of_entries(entries).remove(entries[i].0@));
        }
    }

    /// Drops the binding for a path, if there is one.
    pub fn remove(&mut self, key: &String)
        ensures
            final(self)@ == old(self)@.remove(key@),
    {
        proof {
            use_type_invariant(&*self);
        }
        let pos = self.position(key);
        match pos {
            Some(i) => {
                let mut entries: Vec<(String, V)> = Vec::new();
                core::mem::swap(&mut self.entries, &mut entries);
                let ghost before = entries@;
                entries.remove(i);
                proof {
                    Self::lemma_remove_view(before, i as int);
                    assert forall|a: int, b: int|
                        0 <= a < b < entries@.len() implies entries@[a].0@ != entries@[b].0@ by {
                        assert(entries@[a] == before.remove(i as int)[a]);
                        assert(entries@[b] == before.remove(i as int)[b]);
                    }
                }
                core::mem::swap(&mut self.entries, &mut entries);
            },
            None => {
                proof {
                    assert(self@ =~= old(self)@.remove(key@));
                }
            },
        }
    }

    /// Gives the entries away, in insertion order.
    pub fn into_entries(self) -> (r: Vec<(String, V)>)
        ensures
            r@.len() == self.keys_in_order().len(),
            forall|i: int|
                0 <= i < r@.len() ==> #[trigger] r@[i].0@ == self.keys_in_order()[i] && r@[i].1@
                    == self.values_in_order()[i],
    {
        self.entries
    }
}

impl<V: View> View for PathMap<V> {
    type V = Map<Seq<char>, V::V>;

    closed spec fn view(&self) -> Map<Seq<char>, V::V> {
        map_of_entries(self.entries@)
    }
}

} // verus!
