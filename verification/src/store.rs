//! Content-addressed historical storage: one entry per `(path, version)`.
//!
//! Merges fetch ancestor and "theirs" content here, and clients are served
//! the history files they miss. A missing entry never hard-fails a merge;
//! it degrades to the binary-file fallback.

use vstd::prelude::*;

verus! {

/// Mathematical content of a store entry sequence: later entries win.
pub open spec fn store_map_of(entries: Seq<(String, i32, Vec<u8>)>) -> Map<
    (Seq<char>, int),
    Seq<u8>,
>
    decreases entries.len(),
{
    if entries.len() == 0 {
        Map::empty()
    } else {
        store_map_of(entries.drop_last()).insert(
            (entries.last().0@, entries.last().1 as int),
            entries.last().2@,
        )
    }
}

/// Does a version vector hold this version?
pub open spec fn holds_version(r: Seq<i32>, v: int) -> bool {
    exists|i: int| 0 <= i < r.len() && r[i] as int == v
}

/// Historical storage keyed by `(path, version)`. Once written, an entry
/// stands for the exact bytes of that version of the file.
pub struct VersionStore {
    entries: Vec<(String, i32, Vec<u8>)>,
}

impl View for VersionStore {
    type V = Map<(Seq<char>, int), Seq<u8>>;

    closed spec fn view(&self) -> Map<(Seq<char>, int), Seq<u8>> {
        store_map_of(self.entries@)
    }
}

impl VersionStore {
    #[verifier::type_invariant]
    spec fn inv(self) -> bool {
        forall|i: int, j: int|
            0 <= i < j < self.entries@.len() ==> (self.entries@[i].0@, self.entries@[i].1 as int)
                != (self.entries@[j].0@, self.entries@[j].1 as int)
    }

    proof fn lemma_contains(entries: Seq<(String, i32, Vec<u8>)>, k: (Seq<char>, int))
        ensures
            store_map_of(entries).contains_key(k) <==> exists|i: int|
                0 <= i < entries.len() && (entries[i].0@, entries[i].1 as int) == k,
        decreases entries.len(),
    {
        if entries.len() > 0 {
            Self::lemma_contains(entries.drop_last(), k);
            if store_map_of(entries).contains_key(k) {
                if (entries.last().0@, entries.last().1 as int) != k {
                    let i = choose|i: int|
                        0 <= i < entries.len() - 1 && (
                        entries.drop_last()[i].0@,
                        entries.drop_last()[i].1 as int,
                        ) == k;
                    assert((entries[i].0@, entries[i].1 as int) == k);
                }
            } else {
                assert forall|i: int| 0 <= i < entries.len() implies (
                entries[i].0@,
                entries[i].1 as int,
                ) != k by {
                    if i < entries.len() - 1 {
                        assert((entries.drop_last()[i].0@, entries.drop_last()[i].1 as int) != k);
                    }
                }
            }
        }
    }

    proof fn lemma_index(entries: Seq<(String, i32, Vec<u8>)>, i: int)
        requires
            0 <= i < entries.len(),
            forall|a: int, b: int|
                0 <= a < b < entries.len() ==> (entries[a].0@, entries[a].1 as int) != (
                entries[b].0@,
                entries[b].1 as int,
                ),
        ensures
            store_map_of(entries).contains_key((entries[i].0@, entries[i].1 as int)),
            store_map_of(entries)[(entries[i].0@, entries[i].1 as int)] == entries[i].2@,
        decreases entries.len(),
    {
        if i == entries.len() - 1 {
        } else {
            Self::lemma_index(entries.drop_last(), i);
            assert(entries.drop_last()[i] == entries[i]);
            assert((entries.last().0@, entries.last().1 as int) != (
            entries[i].0@,
            entries[i].1 as int,
            ));
        }
    }

    /// An empty store.
    pub fn new() -> (r: VersionStore)
        ensures
            r@ == Map::<(Seq<char>, int), Seq<u8>>::empty(),
    {
        VersionStore { entries: Vec::new() }
    }

    fn position(&self, path: &String, version: i32) -> (r: Option<usize>)
        ensures
            match r {
                Some(i) => i < self.entries@.len() && self.entries@[i as int].0@ == path@
                    && self.entries@[i as int].1 == version && self@.contains_key(
                    (path@, version as int),
                ) && self@[(path@, version as int)] == self.entries@[i as int].2@,
                None => !self@.contains_key((path@, version as int)),
            },
    {
        proof {
            use_type_invariant(self);
            Self::lemma_contains(self.entries@, (path@, version as int));
        }
        let n = self.entries.len();
        for i in 0..n
            invariant
                n == self.entries@.len(),
                forall|j: int|
                    0 <= j < i ==> (self.entries@[j].0@, self.entries@[j].1 as int) != (
                    path@,
                    version as int,
                    ),
        {
            if self.entries[i].0.eq(path) && self.entries[i].1 == version {
                proof {
                    use_type_invariant(self);
                    Self::lemma_index(self.entries@, i as int);
                }
                return Some(i);
            }
        }
        None
    }

    /// The bytes stored for this path at this version, if any.
    pub fn read(&self, path: &String, version: i32) -> (r: Option<&Vec<u8>>)
        ensures
            match r {
                Some(c) => self@.contains_key((path@, version as int)) && c@ == self@[
                    (path@, version as int)
                ],
                None => !self@.contains_key((path@, version as int)),
            },
    {
        match self.position(path, version) {
            Some(i) => Some(&self.entries[i].2),
            None => None,
        }
    }

    /// Stores the bytes of one version of a file.
    pub fn write(&mut self, path: String, version: i32, content: Vec<u8>)
        ensures
            final(self)@ == old(self)@.insert((path@, version as int), content@),
    {
        proof {
            use_type_invariant(&*self);
        }
        let pos = self.position(&path, version);
        let mut entries: Vec<(String, i32, Vec<u8>)> = Vec::new();
        core::mem::swap(&mut self.entries, &mut entries);
        let ghost k = (path@, version as int);
        match pos {
            Some(i) => {
                let ghost before = entries@;
                entries[i] = (path, version, content);
                proof {
                    Self::lemma_update(before, i as int, entries@[i as int]);
                }
            },
            None => {
                entries.push((path, version, content));
                proof {
                    Self::lemma_contains(old(self).entries@, k);
                    assert(entries@.drop_last() == old(self).entries@);
                }
            },
        }
        core::mem::swap(&mut self.entries, &mut entries);
        proof {
            match pos {
                Some(_) => {
                    assert(self@ =~= old(self)@.insert(k, content@));
                },
                None => {
                    assert(self@ =~= old(self)@.insert(k, content@));
                },
            }
        }
    }

    proof fn lemma_update(entries: Seq<(String, i32, Vec<u8>)>, i: int, e: (String, i32, Vec<u8>))
        requires
            0 <= i < entries.len(),
            (entries[i].0@, entries[i].1 as int) == (e.0@, e.1 as int),
            forall|a: int, b: int|
                0 <= a < b < entries.len() ==> (entries[a].0@, entries[a].1 as int) != (
                entries[b].0@,
                entries[b].1 as int,
                ),
        ensures
            store_map_of(entries.update(i, e)) == store_map_of(entries).insert(
                (e.0@, e.1 as int),
                e.2@,
            ),
        decreases entries.len(),
    {
        let updated = entries.update(i, e);
        if i == entries.len() - 1 {
            assert(updated.drop_last() =~= entries.drop_last());
            assert(store_map_of(updated) =~= store_map_of(entries).insert((e.0@, e.1 as int), e.2@));
        } else {
            Self::lemma_update(entries.drop_last(), i, e);
            assert(updated.drop_last() =~= entries.drop_last().update(i, e));
            assert((entries.last().0@, entries.last().1 as int) != (e.0@, e.1 as int));
            assert(store_map_of(updated) =~= store_map_of(entries).insert((e.0@, e.1 as int), e.2@));
        }
    }

    /// Every version this store holds for a path, in some order, each once.
    pub fn versions_of(&self, path: &String) -> (r: Vec<i32>)
        ensures
            forall|v: int| #[trigger] holds_version(r@, v) <==> self@.contains_key((path@, v)),
            forall|a: int, b: int| 0 <= a < b < r@.len() ==> r@[a] != r@[b],
    {
        proof {
            use_type_invariant(self);
        }
        let mut r: Vec<i32> = Vec::new();
        let n = self.entries.len();
        for i in 0..n
            invariant
                n == self.entries@.len(),
                forall|a: int, b: int|
                    0 <= a < b < self.entries@.len() ==> (self.entries@[a].0@, self.entries@[a].1 as int)
                        != (self.entries@[b].0@, self.entries@[b].1 as int),
                forall|v: int| #[trigger]
                    holds_version(r@, v) <==> exists|a: int|
                        0 <= a < i && self.entries@[a].0@ == path@ && self.entries@[a].1 as int == v,
                forall|a: int, b: int| 0 <= a < b < r@.len() ==> r@[a] != r@[b],
        {
            let ghost r_before = r@;
            if self.entries[i].0.eq(path) {
                r.push(self.entries[i].1);
            }
            proof {
                assert forall|v: int| #[trigger] holds_version(r@, v) <==> exists|a: int|
                    0 <= a < i + 1 && self.entries@[a].0@ == path@ && self.entries@[a].1 as int
                        == v by {
                    if self.entries@[i as int].0@ == path@ {
                        assert(r@ == r_before.push(self.entries@[i as int].1));
                        if holds_version(r@, v) {
                            let idx = choose|idx: int| 0 <= idx < r@.len() && r@[idx] as int == v;
                            if idx < r_before.len() {
                                assert(r_before[idx] as int == v);
                                assert(holds_version(r_before, v));
                            } else {
                                assert(self.entries@[i as int].1 as int == v);
                            }
                        }
                        if exists|a: int|
                            0 <= a < i + 1 && self.entries@[a].0@ == path@ && self.entries@[a].1
                                as int == v {
                            let a = choose|a: int|
                                0 <= a < i + 1 && self.entries@[a].0@ == path@ && self.entries@[
                                    a
                                ].1 as int == v;
                            if a < i {
                                assert(holds_version(r_before, v));
                                let idx = choose|idx: int|
                                    0 <= idx < r_before.len() && r_before[idx] as int == v;
                                assert(r@[idx] as int == v);
                            } else {
                                assert(r@[r@.len() - 1] as int == v);
                            }
                        }
                    } else {
                        assert(r@ == r_before);
                    }
                }
                if self.entries@[i as int].0@ == path@ {
                    assert forall|a: int, b: int| 0 <= a < b < r@.len() implies r@[a] != r@[b] by {
                        if b == r@.len() - 1 {
                            assert(r@[a] == r_before[a]);
                            assert(holds_version(r_before, r_before[a] as int));
                            let c = choose|c: int|
                                0 <= c < i && self.entries@[c].0@ == path@ && self.entries@[c].1
                                    as int == r_before[a] as int;
                            assert((self.entries@[c].0@, self.entries@[c].1 as int) != (
                            self.entries@[i as int].0@,
                            self.entries@[i as int].1 as int,
                            ));
                        } else {
                            assert(r@[a] == r_before[a] && r@[b] == r_before[b]);
                        }
                    }
                }
            }
        }
        proof {
            assert forall|v: int| #[trigger] holds_version(r@, v) <==> self@.contains_key(
                (path@, v),
            ) by {
                Self::lemma_contains(self.entries@, (path@, v));
            }
        }
        r
    }
}

} // verus!
