//! The append-only edit log and the manifests derived from it.
//!
//! Every file carries a linear history of edits; the log is the single
//! source of truth. A manifest maps each path to its latest edit; deriving
//! one never mutates the log.

use vstd::prelude::*;

use crate::pathmap::PathMap;

verus! {

/// What an edit did to its file.
#[derive(Debug, Clone, Copy, PartialEq, Eq, Structural)]
pub enum FileOperation {
    Added,
    Updated,
    Deleted,
}

impl View for FileOperation {
    type V = FileOperation;

    open spec fn view(&self) -> FileOperation {
        *self
    }
}

impl FileOperation {
    /// Is this a deletion?
    pub fn is_deleted(&self) -> (r: bool)
        ensures
            r == (*self is Deleted),
    {
        matches!(self, FileOperation::Deleted)
    }
}

/// The mathematical content of one recorded edit.
pub ghost struct FileEditView {
    pub version: int,
    pub operation: FileOperation,
    pub author: Option<Seq<char>>,
    pub message: Option<Seq<char>>,
    pub src_cr: Option<int>,
}

/// One recorded edit of a file: the version the remote assigned, what the
/// edit did, and optional provenance. Immutable once written.
#[derive(Debug, Clone)]
pub struct FileEdit {
    pub version: i32,
    pub operation: FileOperation,
    pub author: Option<String>,
    pub message: Option<String>,
    pub src_cr: Option<usize>,
}

impl View for FileEdit {
    type V = FileEditView;

    open spec fn view(&self) -> FileEditView {
        FileEditView {
            version: self.version as int,
            operation: self.operation,
            author: match self.author {
                Some(s) => Some(s@),
                None => None,
            },
            message: match self.message {
                Some(s) => Some(s@),
                None => None,
            },
            src_cr: match self.src_cr {
                Some(n) => Some(n as int),
                None => None,
            },
        }
    }
}

impl FileEdit {
    /// Is the file deleted as of this edit?
    pub fn is_deleted(&self) -> (r: bool)
        ensures
            r == (self@.operation is Deleted),
    {
        self.operation.is_deleted()
    }

    /// A copy whose view is the same.
    pub fn duplicate(&self) -> (r: FileEdit)
        ensures
            r@ == self@,
    {
        FileEdit {
            version: self.version,
            operation: self.operation,
            author: match &self.author {
                Some(s) => Some(s.clone()),
                None => None,
            },
            message: match &self.message {
                Some(s) => Some(s.clone()),
                None => None,
            },
            src_cr: match self.src_cr {
                Some(n) => Some(n),
                None => None,
            },
        }
    }
}

/// An edit a sync batch wants recorded; the version is assigned by the log.
#[derive(Debug, Clone)]
pub struct FileEditTemp {
    pub message: Option<String>,
    pub author: Option<String>,
    pub src_cr: Option<usize>,
    pub operation: FileOperation,
}

/// The mathematical content of a pending edit.
pub ghost struct FileEditTempView {
    pub message: Option<Seq<char>>,
    pub author: Option<Seq<char>>,
    pub src_cr: Option<int>,
    pub operation: FileOperation,
}

impl View for FileEditTemp {
    type V = FileEditTempView;

    open spec fn view(&self) -> FileEditTempView {
        FileEditTempView {
            message: match self.message {
                Some(s) => Some(s@),
                None => None,
            },
            author: match self.author {
                Some(s) => Some(s@),
                None => None,
            },
            src_cr: match self.src_cr {
                Some(n) => Some(n as int),
                None => None,
            },
            operation: self.operation,
        }
    }
}

impl FileEditTempView {
    /// The edit this pending entry records once the log assigns a version.
    pub open spec fn as_edit(self, version: int) -> FileEditView {
        FileEditView {
            version,
            operation: self.operation,
            author: self.author,
            message: self.message,
            src_cr: self.src_cr,
        }
    }
}

impl FileEditTemp {
    /// The recorded edit, once the log has assigned a version.
    pub fn to_file_edit(&self, version: i32) -> (r: FileEdit)
        ensures
            r@ == self@.as_edit(version as int),
    {
        FileEdit {
            version,
            operation: self.operation,
            author: match &self.author {
                Some(s) => Some(s.clone()),
                None => None,
            },
            message: match &self.message {
                Some(s) => Some(s.clone()),
                None => None,
            },
            src_cr: match self.src_cr {
                Some(n) => Some(n),
                None => None,
            },
        }
    }
}

/// The mathematical content of one log record.
pub ghost struct LogEntryView {
    pub path: Seq<char>,
    pub edit: FileEditView,
}

/// One record of the edit log: a path and the edit made to it.
#[derive(Debug, Clone)]
pub struct LogEntry {
    pub path: String,
    pub edit: FileEdit,
}

impl View for LogEntry {
    type V = LogEntryView;

    open spec fn view(&self) -> LogEntryView {
        LogEntryView { path: self.path@, edit: self.edit@ }
    }
}

/// Versions are assigned from 1 up and strictly increase per path along
/// the log.
pub open spec fn log_wf(log: Seq<LogEntryView>) -> bool {
    &&& forall|i: int, j: int|
        0 <= i < j < log.len() && log[i].path == log[j].path ==> log[i].edit.version
            < log[j].edit.version
    &&& forall|i: int| 0 <= i < log.len() ==> #[trigger] log[i].edit.version >= 1
}

/// The manifest derived from a log: for each path, the edit with the
/// greatest version wins; deleted entries are kept.
pub open spec fn manifest_of(log: Seq<LogEntryView>) -> Map<Seq<char>, FileEditView>
    decreases log.len(),
{
    if log.len() == 0 {
        Map::empty()
    } else {
        let m = manifest_of(log.drop_last());
        let e = log.last();
        if m.contains_key(e.path) && m[e.path].version >= e.edit.version {
            m
        } else {
            m.insert(e.path, e.edit)
        }
    }
}

/// The manifest without the paths whose latest edit deleted them.
pub open spec fn live_manifest_of(log: Seq<LogEntryView>) -> Map<Seq<char>, FileEditView> {
    Map::new(
        |k: Seq<char>| manifest_of(log).contains_key(k) && !(manifest_of(log)[k].operation
            is Deleted),
        |k: Seq<char>| manifest_of(log)[k],
    )
}

/// The version the log would assign next for a path: one past the
/// latest recorded version, starting from 1.
pub open spec fn next_version_of(log: Seq<LogEntryView>, path: Seq<char>) -> int {
    if manifest_of(log).contains_key(path) {
        manifest_of(log)[path].version + 1
    } else {
        1
    }
}

/// The authoritative, append-only edit log of one package.
pub struct EditLog {
    entries: Vec<LogEntry>,
}

impl View for EditLog {
    type V = Seq<LogEntryView>;

    closed spec fn view(&self) -> Seq<LogEntryView> {
        Seq::new(self.entries@.len(), |i: int| self.entries@[i]@)
    }
}

impl EditLog {
    #[verifier::type_invariant]
    spec fn inv(self) -> bool {
        log_wf(self@)
    }

    /// An empty log.
    pub fn new() -> (r: EditLog)
        ensures
            r@ == Seq::<LogEntryView>::empty(),
    {
        let r = EditLog { entries: Vec::new() };
        proof {
            assert(r@ =~= Seq::<LogEntryView>::empty());
        }
        r
    }

    /// The log is well formed; the body does nothing and the call is made
    /// for its postcondition.
    pub fn wf_facts(&self)
        ensures
            log_wf(self@),
    {
        proof {
            use_type_invariant(self);
        }
    }

    /// How many records the log holds.
    pub fn len(&self) -> (n: usize)
        ensures
            n == self@.len(),
    {
        self.entries.len()
    }

    /// The record at an index.
    pub fn entry_at(&self, i: usize) -> (e: &LogEntry)
        requires
            i < self@.len(),
        ensures
            e@ == self@[i as int],
    {
        &self.entries[i]
    }

    /// Appends one batch of pending edits, assigning each path the next
    /// version of its history. One batch is appended as a whole: nothing
    /// else interleaves with it.
    pub fn append_batch(&mut self, batch: &PathMap<FileEditTemp>)
        requires
            forall|k: Seq<char>| #[trigger]
                old(self).manifest().contains_key(k) ==> old(self).manifest()[k].version
                    < i32::MAX as int,
        ensures
            final(self)@.len() == old(self)@.len() + batch.keys_in_order().len(),
            final(self)@.take(old(self)@.len() as int) == old(self)@,
            forall|i: int|
                0 <= i < batch.keys_in_order().len() ==> final(self)@[old(self)@.len() + i]
                    == (LogEntryView {
                    path: batch.keys_in_order()[i],
                    edit: batch.values_in_order()[i].as_edit(
                        next_version_of(old(self)@, batch.keys_in_order()[i]),
                    ),
                }),
    {
        proof {
            use_type_invariant(&*self);
            lemma_manifest_max(self@);
        }
        let manifest = derive_manifest(self, true);
        batch.iteration_facts();
        let mut entries: Vec<LogEntry> = Vec::new();
        core::mem::swap(&mut self.entries, &mut entries);
        let ghost base = Seq::new(entries@.len(), |j: int| entries@[j]@);
        proof {
            assert(base =~= old(self)@);
            assert forall|k: Seq<char>| #[trigger]
                manifest_of(base).contains_key(k) implies manifest_of(base)[k].version
                < i32::MAX as int && manifest_of(base)[k].version >= 1 by {
                assert(old(self).manifest().contains_key(k));
                let i = choose|i: int|
                    0 <= i < base.len() && base[i].path == k && base[i].edit == manifest_of(base)[k];
                assert(base[i].edit.version >= 1);
            }
        }
        let n = batch.len();
        for i in 0..n
            invariant
                n == batch.keys_in_order().len(),
                entries@.len() == base.len() + i,
                Seq::new(entries@.len(), |j: int| entries@[j]@).take(base.len() as int) =~= base,
                forall|j: int|
                    0 <= j < i ==> entries@[base.len() + j]@ == (LogEntryView {
                        path: batch.keys_in_order()[j],
                        edit: batch.values_in_order()[j].as_edit(
                            next_version_of(base, batch.keys_in_order()[j]),
                        ),
                    }),
                log_wf(Seq::new(entries@.len(), |j: int| entries@[j]@)),
                log_wf(base),
                manifest@ == manifest_of(base),
                forall|j: int, l: int|
                    0 <= j < l < batch.keys_in_order().len() ==> batch.keys_in_order()[j]
                        != batch.keys_in_order()[l],
                forall|k: Seq<char>| #[trigger]
                    manifest_of(base).contains_key(k) ==> manifest_of(base)[k].version
                        < i32::MAX as int && manifest_of(base)[k].version >= 1,
                forall|j: int|
                    0 <= j < base.len() ==> #[trigger] manifest_of(base).contains_key(base[j].path)
                        && manifest_of(base)[base[j].path].version >= base[j].edit.version,
        {
            let path = batch.key_at(i);
            let temp = batch.value_at(i);
            let version: i32 = match manifest.get(path) {
                Some(edit) => edit.version + 1,
                None => 1,
            };
            let entry = LogEntry { path: path.clone(), edit: temp.to_file_edit(version) };
            let ghost before = Seq::new(entries@.len(), |j: int| entries@[j]@);
            entries.push(entry);
            proof {
                let cur = Seq::new(entries@.len(), |j: int| entries@[j]@);
                assert(cur.drop_last() =~= before);
                assert(cur.take(base.len() as int) =~= before.take(base.len() as int));
                assert(version as int == next_version_of(base, path@));
                assert(cur.last() == entry@);
                assert forall|a: int, b: int|
                    0 <= a < b < cur.len() && cur[a].path == cur[b].path implies cur[a].edit.version
                    < cur[b].edit.version by {
                    if b == cur.len() - 1 {
                        assert(cur[b] == entry@);
                        if a < base.len() {
                            assert(cur[a] == before[a]);
                            assert(before.take(base.len() as int) == base);
                            assert(base[a] == before.take(base.len() as int)[a]);
                            assert(cur[a] == base[a]);
                            assert(manifest_of(base).contains_key(base[a].path));
                            assert(manifest_of(base)[base[a].path].version
                                >= base[a].edit.version);
                        } else {
                            assert(cur[a] == before[a]);
                            assert(cur[a].path == batch.keys_in_order()[a - base.len()]);
                            assert(cur[b].path == batch.keys_in_order()[i as int]);
                            assert(false);
                        }
                    } else {
                        assert(cur[a] == before[a]);
                        assert(cur[b] == before[b]);
                    }
                }
                assert forall|a: int| 0 <= a < cur.len() implies #[trigger] cur[a].edit.version
                    >= 1 by {
                    if a < cur.len() - 1 {
                        assert(cur[a] == before[a]);
                    } else {
                        assert(cur[a] == entry@);
                        if manifest_of(base).contains_key(path@) {
                            assert(manifest_of(base)[path@].version >= 1);
                        }
                    }
                }
            }
        }
        let ghost done = Seq::new(entries@.len(), |j: int| entries@[j]@);
        core::mem::swap(&mut self.entries, &mut entries);
        proof {
            assert(self@ =~= done);
            assert(self@.take(old(self)@.len() as int) =~= base);
            assert forall|i: int| 0 <= i < batch.keys_in_order().len() implies self@[old(self)@.len()
                + i] == (LogEntryView {
                path: batch.keys_in_order()[i],
                edit: batch.values_in_order()[i].as_edit(
                    next_version_of(old(self)@, batch.keys_in_order()[i]),
                ),
            }) by {
                assert(done[base.len() + i] == (LogEntryView {
                    path: batch.keys_in_order()[i],
                    edit: batch.values_in_order()[i].as_edit(
                        next_version_of(base, batch.keys_in_order()[i]),
                    ),
                }));
            }
        }
    }

    /// Appends one already-versioned record, as when a ledger is read
    /// back: the version must move strictly forward for its path.
    pub fn push_entry(&mut self, entry: LogEntry)
        requires
            entry@.edit.version >= 1,
            forall|i: int|
                0 <= i < old(self)@.len() && (#[trigger] old(self)@[i]).path == entry@.path ==> old(
                    self,
                )@[i].edit.version < entry@.edit.version,
        ensures
            final(self)@ == old(self)@.push(entry@),
    {
        proof {
            use_type_invariant(&*self);
        }
        let mut entries: Vec<LogEntry> = Vec::new();
        core::mem::swap(&mut self.entries, &mut entries);
        entries.push(entry);
        proof {
            let cur = Seq::new(entries@.len(), |j: int| entries@[j]@);
            assert(cur.drop_last() =~= old(self)@);
            assert(cur.last() == entries@.last()@);
            assert forall|a: int, b: int|
                0 <= a < b < cur.len() && cur[a].path == cur[b].path implies cur[a].edit.version
                < cur[b].edit.version by {
                if b == cur.len() - 1 {
                    assert(cur[a] == old(self)@[a]);
                } else {
                    assert(cur[a] == old(self)@[a]);
                    assert(cur[b] == old(self)@[b]);
                }
            }
            assert forall|a: int| 0 <= a < cur.len() implies #[trigger] cur[a].edit.version
                >= 1 by {
                if a < cur.len() - 1 {
                    assert(cur[a] == old(self)@[a]);
                }
            }
        }
        core::mem::swap(&mut self.entries, &mut entries);
        proof {
            assert(self@ =~= old(self)@.push(entry@));
        }
    }

    /// The manifest the log currently derives, with deleted paths kept.
    pub open spec fn manifest(&self) -> Map<Seq<char>, FileEditView> {
        manifest_of(self@)
    }
}

/// A manifest: each tracked path bound to its latest edit.
pub type Manifest = PathMap<FileEdit>;

/// Derives the manifest of a log. With `include_deleted` the result keeps
/// paths whose latest edit deleted them; without it those paths are absent.
pub fn derive_manifest(log: &EditLog, include_deleted: bool) -> (m: Manifest)
    ensures
        include_deleted ==> m@ == manifest_of(log@),
        !include_deleted ==> m@ == live_manifest_of(log@),
        m@.dom().subset_of(manifest_of(log@).dom()),
{
    let mut full: Manifest = PathMap::new();
    let n = log.len();
    proof {
        assert(log@.take(0) =~= Seq::<LogEntryView>::empty());
    }
    for i in 0..n
        invariant
            n == log@.len(),
            full@ == manifest_of(log@.take(i as int)),
    {
        let e = log.entry_at(i);
        let replace = match full.get(&e.path) {
            None => true,
            Some(cur) => cur.version < e.edit.version,
        };
        if replace {
            full.insert(e.path.clone(), e.edit.duplicate());
        }
        proof {
            assert(log@.take(i + 1).drop_last() =~= log@.take(i as int));
            assert(log@.take(i + 1).last() == log@[i as int]);
        }
    }
    proof {
        assert(log@.take(n as int) =~= log@);
    }
    if include_deleted {
        return full;
    }
    let mut live: Manifest = PathMap::new();
    let m = full.len();
    for i in 0..m
        invariant
            m == full.keys_in_order().len(),
            full@ == manifest_of(log@),
            forall|k: Seq<char>| #[trigger]
                live@.contains_key(k) <==> exists|j: int|
                    0 <= j < i && full.keys_in_order()[j] == k && !(full@[k].operation is Deleted),
            forall|k: Seq<char>| #[trigger] live@.contains_key(k) ==> live@[k] == full@[k],
    {
        full.iteration_facts();
        let ghost live_before = live@;
        let key = full.key_at(i);
        let value = full.value_at(i);
        if !value.is_deleted() {
            live.insert(key.clone(), value.duplicate());
        }
        proof {
            assert forall|k: Seq<char>| #[trigger]
                live@.contains_key(k) <==> exists|j: int|
                    0 <= j < i + 1 && full.keys_in_order()[j] == k && !(full@[k].operation
                        is Deleted) by {
                if live@.contains_key(k) {
                    if live_before.contains_key(k) {
                        let j = choose|j: int|
                            0 <= j < i && full.keys_in_order()[j] == k && !(full@[k].operation
                                is Deleted);
                        assert(0 <= j < i + 1 && full.keys_in_order()[j] == k);
                    } else {
                        assert(k == key@ && !(full@[k].operation is Deleted));
                        assert(full.keys_in_order()[i as int] == k);
                    }
                } else {
                    if exists|j: int|
                        0 <= j < i + 1 && full.keys_in_order()[j] == k && !(full@[k].operation
                            is Deleted) {
                        let j = choose|j: int|
                            0 <= j < i + 1 && full.keys_in_order()[j] == k && !(full@[k].operation
                                is Deleted);
                        if j < i {
                            assert(live_before.contains_key(k));
                            assert(live@.contains_key(k));
                        } else {
                            assert(k == key@);
                            assert(!(value@.operation is Deleted));
                            assert(false);
                        }
                    }
                }
            }
        }
    }
    full.iteration_facts();
    proof {
        assert forall|k: Seq<char>| #[trigger]
            live@.contains_key(k) <==> live_manifest_of(log@).contains_key(k) by {
            if live_manifest_of(log@).contains_key(k) {
                let j = choose|j: int|
                    0 <= j < full.keys_in_order().len() && full.keys_in_order()[j] == k;
                assert(full.keys_in_order()[j] == k && !(full@[k].operation is Deleted));
            }
            if live@.contains_key(k) {
                assert(full@.contains_key(k));
            }
        }
        assert(live@ =~= live_manifest_of(log@));
    }
    live
}

/// Law: along any well-formed log, the versions recorded for one path
/// strictly increase; in particular no two edits of one path share a
/// version. `EditLog::append_batch` keeps every log it touches well formed.
pub proof fn lemma_version_monotonicity(log: Seq<LogEntryView>, i: int, j: int)
    requires
        log_wf(log),
        0 <= i < j < log.len(),
        log[i].path == log[j].path,
    ensures
        log[i].edit.version < log[j].edit.version,
        log[i].edit.version != log[j].edit.version,
{
}

/// Law: deriving a manifest is deterministic in the log's records alone.
/// Two well-formed logs holding the same records, in whatever order,
/// derive one and the same manifest.
pub proof fn lemma_manifest_determinism(l1: Seq<LogEntryView>, l2: Seq<LogEntryView>)
    requires
        log_wf(l1),
        log_wf(l2),
        l1.to_multiset() == l2.to_multiset(),
    ensures
        manifest_of(l1) == manifest_of(l2),
{
    broadcast use vstd::seq_lib::group_to_multiset_ensures;

    lemma_manifest_max(l1);
    lemma_manifest_max(l2);
    let m1 = manifest_of(l1);
    let m2 = manifest_of(l2);
    assert forall|k: Seq<char>| #[trigger] m1.contains_key(k) implies m2.contains_key(k) && m2[k]
        == m1[k] by {
        lemma_manifest_value_transfers(l1, l2, k);
    }
    assert forall|k: Seq<char>| #[trigger] m2.contains_key(k) implies m1.contains_key(k) by {
        lemma_manifest_value_transfers(l2, l1, k);
    }
    assert(m1 =~= m2);
}

proof fn lemma_manifest_value_transfers(l1: Seq<LogEntryView>, l2: Seq<LogEntryView>, k: Seq<char>)
    requires
        log_wf(l1),
        log_wf(l2),
        l1.to_multiset() == l2.to_multiset(),
        manifest_of(l1).contains_key(k),
    ensures
        manifest_of(l2).contains_key(k),
        manifest_of(l2)[k] == manifest_of(l1)[k],
{
    broadcast use vstd::seq_lib::group_to_multiset_ensures;

    lemma_manifest_max(l1);
    lemma_manifest_max(l2);
    let m1 = manifest_of(l1);
    let m2 = manifest_of(l2);
    let i1 = choose|i: int| 0 <= i < l1.len() && l1[i].path == k && l1[i].edit == m1[k];
    assert(l1.contains(l1[i1]));
    assert(l1.to_multiset().count(l1[i1]) > 0);
    assert(l2.to_multiset().count(l1[i1]) > 0);
    assert(l2.contains(l1[i1]));
    let a = choose|a: int| 0 <= a < l2.len() && l2[a] == l1[i1];
    assert(m2.contains_key(k));
    assert(m2[k].version >= l1[i1].edit.version);
    let i2 = choose|i: int| 0 <= i < l2.len() && l2[i].path == k && l2[i].edit == m2[k];
    assert(l2.contains(l2[i2]));
    assert(l2.to_multiset().count(l2[i2]) > 0);
    assert(l1.to_multiset().count(l2[i2]) > 0);
    assert(l1.contains(l2[i2]));
    let b = choose|b: int| 0 <= b < l1.len() && l1[b] == l2[i2];
    assert(m1[k].version >= l1[b].edit.version);
    assert(m1[k].version == m2[k].version);
    if a != i2 {
        assert(l2[a].path == l2[i2].path);
        assert(l2[a].edit.version != l2[i2].edit.version);
        assert(false);
    }
    assert(m2[k] == l2[a].edit);
    assert(m2[k] == m1[k]);
}

/// After appending records whose paths are pairwise distinct and whose
/// versions are each the next for their path, the manifest binds every
/// appended path to its appended edit and keeps every other binding.
pub proof fn lemma_manifest_extend(log: Seq<LogEntryView>, base_len: int)
    requires
        0 <= base_len <= log.len(),
        forall|a: int, b: int| base_len <= a < b < log.len() ==> log[a].path != log[b].path,
        forall|j: int|
            base_len <= j < log.len() ==> #[trigger] log[j].edit.version == next_version_of(
                log.take(base_len),
                log[j].path,
            ),
    ensures
        forall|j: int|
            base_len <= j < log.len() ==> #[trigger] manifest_of(log).contains_key(log[j].path)
                && manifest_of(log)[log[j].path] == log[j].edit,
        forall|k: Seq<char>|
            (forall|j: int| base_len <= j < log.len() ==> (#[trigger] log[j]).path != k) ==> ((
            #[trigger] manifest_of(log).contains_key(k) <==> manifest_of(
                log.take(base_len),
            ).contains_key(k)) && (manifest_of(log).contains_key(k) ==> manifest_of(log)[k]
                == manifest_of(log.take(base_len))[k])),
    decreases log.len() - base_len,
{
    let base = log.take(base_len);
    if log.len() == base_len {
        assert(base =~= log);
    } else {
        let shorter = log.drop_last();
        assert(shorter.take(base_len) =~= base);
        lemma_manifest_extend(shorter, base_len);
        let e = log.last();
        let prev = manifest_of(shorter);
        assert forall|j: int| base_len <= j < shorter.len() implies (#[trigger] shorter[j]).path
            != e.path by {
            assert(log[j].path != log[log.len() - 1].path);
        }
        assert(prev.contains_key(e.path) <==> manifest_of(base).contains_key(e.path));
        if manifest_of(base).contains_key(e.path) {
            assert(prev[e.path] == manifest_of(base)[e.path]);
            assert(e.edit.version == manifest_of(base)[e.path].version + 1);
        } else {
            assert(e.edit.version == 1);
        }
        assert(manifest_of(log) == prev.insert(e.path, e.edit));
        assert forall|j: int| base_len <= j < log.len() implies #[trigger] manifest_of(
            log,
        ).contains_key(log[j].path) && manifest_of(log)[log[j].path] == log[j].edit by {
            if j < log.len() - 1 {
                assert(shorter[j] == log[j]);
                assert(log[j].path != e.path);
            }
        }
    }
}

/// Every recorded edit's path stands in the manifest, with a version at
/// least the edit's own; and every manifest value is one of the records.
pub proof fn lemma_manifest_max(log: Seq<LogEntryView>)
    ensures
        forall|i: int|
            0 <= i < log.len() ==> #[trigger] manifest_of(log).contains_key(log[i].path)
                && manifest_of(log)[log[i].path].version >= log[i].edit.version,
        forall|k: Seq<char>| #[trigger]
            manifest_of(log).contains_key(k) ==> exists|i: int|
                0 <= i < log.len() && log[i].path == k && log[i].edit == manifest_of(log)[k],
    decreases log.len(),
{
    if log.len() > 0 {
        lemma_manifest_max(log.drop_last());
        let prev = manifest_of(log.drop_last());
        let e = log.last();
        assert forall|i: int|
            0 <= i < log.len() implies #[trigger] manifest_of(log).contains_key(log[i].path)
            && manifest_of(log)[log[i].path].version >= log[i].edit.version by {
            if i < log.len() - 1 {
                assert(log.drop_last()[i] == log[i]);
            }
        }
        assert forall|k: Seq<char>| #[trigger] manifest_of(log).contains_key(k) implies exists|
            i: int,
        | 0 <= i < log.len() && log[i].path == k && log[i].edit == manifest_of(log)[k] by {
            if k == e.path && manifest_of(log)[k] == e.edit {
                assert(log[log.len() - 1].path == k);
            } else {
                assert(prev.contains_key(k) && prev[k] == manifest_of(log)[k]);
                let i = choose|i: int|
                    0 <= i < log.drop_last().len() && log.drop_last()[i].path == k
                        && log.drop_last()[i].edit == prev[k];
                assert(log[i].path == k);
            }
        }
    }
}

} // verus!

