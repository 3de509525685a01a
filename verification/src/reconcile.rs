//! The merge reconciler: the remote side of one sync batch.
//!
//! Given a batch of proposed file operations and the remote state, each
//! file is resolved independently: applied cleanly, merged, or classified
//! as a conflict. All applied edits are then appended to the log as one
//! batch.

use vstd::prelude::*;

use crate::error::Error;
use crate::history::{
    derive_manifest, live_manifest_of, manifest_of, next_version_of, EditLog, FileEditTemp,
    FileEditTempView, FileEditView, FileOperation,
};
use crate::merge::{
    bytes_to_text, merge_texts, text_to_bytes, three_way_merge, utf8_decode, utf8_encode,
};
use crate::pathmap::PathMap;
use crate::protocol::{SyncRequestFile, SyncRequestFileView, SyncResponseFile, SyncResponseFileView, SyncStatus};
use crate::store::VersionStore;

verus! {

/// The remote state one package's syncs run against: the working tree,
/// the historical version store, and the authoritative edit log.
pub struct SyncState {
    pub tree: PathMap<Vec<u8>>,
    pub store: VersionStore,
    pub log: EditLog,
}

/// The remote state is consistent: the tree holds exactly the paths whose
/// latest edit is not a deletion, and the store holds each such path's
/// latest version with the very bytes the tree holds.
pub open spec fn sync_state_wf(s: &SyncState) -> bool {
    &&& forall|p: Seq<char>| #[trigger]
        s.tree@.contains_key(p) <==> live_manifest_of(s.log@).contains_key(p)
    &&& forall|p: Seq<char>| #[trigger]
        live_manifest_of(s.log@).contains_key(p) ==> s.store@.contains_key(
            (p, live_manifest_of(s.log@)[p].version),
        ) && s.store@[(p, live_manifest_of(s.log@)[p].version)] == s.tree@[p]
}

/// What one request does to the working tree.
pub ghost enum TreeChange {
    Keep,
    Write(Seq<u8>),
    Remove,
}

/// Everything one request effects: the response entry (if one is owed),
/// the edit queued for the log (if the operation applied), the tree
/// change, and whether processing aborts the batch.
pub ghost struct StepEffect {
    pub response: Option<SyncResponseFileView>,
    pub queued: Option<FileEditTempView>,
    pub tree: TreeChange,
    pub fails: bool,
}

/// A pending edit carrying only an operation and the request's provenance.
pub open spec fn queued_edit(operation: FileOperation, src_cr: Option<int>) -> FileEditTempView {
    FileEditTempView { message: None, author: None, src_cr, operation }
}

/// The ancestor text for a merge: the stored bytes of the client's
/// baseline version, if stored and valid text.
pub open spec fn stored_text(
    store: Map<(Seq<char>, int), Seq<u8>>,
    path: Seq<char>,
    version: int,
) -> Option<Seq<char>> {
    if store.contains_key((path, version)) {
        utf8_decode(store[(path, version)])
    } else {
        None
    }
}

/// How the reconciler resolves one proposed operation against the remote
/// manifest `m` (deleted paths absent) and the version store. This is the
/// whole case table of the engine.
pub open spec fn step_effect(
    m: Map<Seq<char>, FileEditView>,
    store: Map<(Seq<char>, int), Seq<u8>>,
    req: SyncRequestFileView,
) -> StepEffect {
    match req {
        SyncRequestFileView::Add { path, content, src_cr } => {
            if m.contains_key(path) {
                StepEffect {
                    response: Some(
                        SyncResponseFileView::Add {
                            path,
                            status: SyncStatus::CloneAddedRemoteAdded,
                            content,
                        },
                    ),
                    queued: None,
                    tree: TreeChange::Keep,
                    fails: false,
                }
            } else {
                StepEffect {
                    response: None,
                    queued: Some(queued_edit(FileOperation::Added, src_cr)),
                    tree: TreeChange::Write(content),
                    fails: false,
                }
            }
        },
        SyncRequestFileView::Update { path, content, version, src_cr } => {
            if !m.contains_key(path) {
                StepEffect {
                    response: Some(
                        SyncResponseFileView::Update {
                            path,
                            status: SyncStatus::CloneEditedRemoteDeleted,
                            content,
                        },
                    ),
                    queued: None,
                    tree: TreeChange::Keep,
                    fails: false,
                }
            } else if m[path].version == version {
                StepEffect {
                    response: None,
                    queued: Some(queued_edit(FileOperation::Updated, src_cr)),
                    tree: TreeChange::Write(content),
                    fails: false,
                }
            } else {
                match stored_text(store, path, version) {
                    None => StepEffect {
                        response: Some(
                            SyncResponseFileView::Update {
                                path,
                                status: SyncStatus::RegularConflict,
                                content,
                            },
                        ),
                        queued: None,
                        tree: TreeChange::Keep,
                        fails: false,
                    },
                    Some(ancestor) => {
                        let theirs = stored_text(store, path, m[path].version);
                        let ours = utf8_decode(content);
                        if ours is None {
                            StepEffect {
                                response: None,
                                queued: None,
                                tree: TreeChange::Keep,
                                fails: true,
                            }
                        } else if theirs is None {
                            StepEffect {
                                response: Some(
                                    SyncResponseFileView::Update {
                                        path,
                                        status: SyncStatus::RegularConflict,
                                        content,
                                    },
                                ),
                                queued: None,
                                tree: TreeChange::Keep,
                                fails: false,
                            }
                        } else {
                            match three_way_merge(ancestor, ours->Some_0, theirs->Some_0) {
                                Ok(data) => StepEffect {
                                    response: Some(
                                        SyncResponseFileView::Update {
                                            path,
                                            status: SyncStatus::NoConflict,
                                            content: utf8_encode(data),
                                        },
                                    ),
                                    queued: Some(queued_edit(FileOperation::Updated, src_cr)),
                                    tree: TreeChange::Write(utf8_encode(data)),
                                    fails: false,
                                },
                                Err(data) => StepEffect {
                                    response: Some(
                                        SyncResponseFileView::Update {
                                            path,
                                            status: SyncStatus::RegularConflict,
                                            content: utf8_encode(data),
                                        },
                                    ),
                                    queued: None,
                                    tree: TreeChange::Keep,
                                    fails: false,
                                },
                            }
                        }
                    },
                }
            }
        },
        SyncRequestFileView::Delete { path, version, src_cr } => {
            if !m.contains_key(path) {
                StepEffect { response: None, queued: None, tree: TreeChange::Keep, fails: false }
            } else if !store.contains_key((path, m[path].version)) {
                StepEffect { response: None, queued: None, tree: TreeChange::Keep, fails: true }
            } else if m[path].version > version {
                StepEffect {
                    response: Some(
                        SyncResponseFileView::Update {
                            path,
                            status: SyncStatus::CloneDeletedRemoteEdited,
                            content: store[(path, m[path].version)],
                        },
                    ),
                    queued: None,
                    tree: TreeChange::Keep,
                    fails: false,
                }
            } else {
                StepEffect {
                    response: None,
                    queued: Some(queued_edit(FileOperation::Deleted, src_cr)),
                    tree: TreeChange::Remove,
                    fails: false,
                }
            }
        },
    }
}

/// The mathematical content of a request batch.
pub open spec fn views_of(files: Seq<SyncRequestFile>) -> Seq<SyncRequestFileView> {
    files.map_values(|f: SyncRequestFile| f@)
}

/// The folded outcome of a whole batch.
pub ghost struct BatchState {
    pub responses: Map<Seq<char>, SyncResponseFileView>,
    pub queue: Map<Seq<char>, FileEditTempView>,
    pub tree: Map<Seq<char>, Seq<u8>>,
    pub fails: bool,
}

/// Folds a batch over the fixed pre-batch manifest and store: responses
/// and queued edits accumulate per path (later requests for a path win),
/// the tree takes every write and removal in order.
pub open spec fn batch_fold(
    m: Map<Seq<char>, FileEditView>,
    store: Map<(Seq<char>, int), Seq<u8>>,
    tree0: Map<Seq<char>, Seq<u8>>,
    reqs: Seq<SyncRequestFileView>,
) -> BatchState
    decreases reqs.len(),
{
    if reqs.len() == 0 {
        BatchState { responses: Map::empty(), queue: Map::empty(), tree: tree0, fails: false }
    } else {
        let prev = batch_fold(m, store, tree0, reqs.drop_last());
        let req = reqs.last();
        let eff = step_effect(m, store, req);
        BatchState {
            responses: match eff.response {
                Some(resp) => prev.responses.insert(req.path(), resp),
                None => prev.responses,
            },
            queue: match eff.queued {
                Some(temp) => prev.queue.insert(req.path(), temp),
                None => prev.queue,
            },
            tree: match eff.tree {
                TreeChange::Keep => prev.tree,
                TreeChange::Write(bytes) => prev.tree.insert(req.path(), bytes),
                TreeChange::Remove => prev.tree.remove(req.path()),
            },
            fails: prev.fails || eff.fails,
        }
    }
}

/// A batch fails exactly when one of its requests fails on its own: the
/// requests are judged against the fixed pre-batch manifest and store.
pub proof fn lemma_batch_fails(
    m: Map<Seq<char>, FileEditView>,
    store: Map<(Seq<char>, int), Seq<u8>>,
    tree0: Map<Seq<char>, Seq<u8>>,
    reqs: Seq<SyncRequestFileView>,
)
    ensures
        batch_fold(m, store, tree0, reqs).fails <==> exists|i: int|
            0 <= i < reqs.len() && step_effect(m, store, #[trigger] reqs[i]).fails,
    decreases reqs.len(),
{
    if reqs.len() > 0 {
        lemma_batch_fails(m, store, tree0, reqs.drop_last());
        if batch_fold(m, store, tree0, reqs.drop_last()).fails {
            let i = choose|i: int|
                0 <= i < reqs.drop_last().len() && step_effect(
                    m,
                    store,
                    #[trigger] reqs.drop_last()[i],
                ).fails;
            assert(step_effect(m, store, reqs[i]).fails);
        }
        if step_effect(m, store, reqs.last()).fails {
            assert(step_effect(m, store, reqs[reqs.len() - 1]).fails);
        }
        if !batch_fold(m, store, tree0, reqs).fails {
            assert forall|i: int| 0 <= i < reqs.len() implies !step_effect(
                m,
                store,
                #[trigger] reqs[i],
            ).fails by {
                if i < reqs.len() - 1 {
                    assert(reqs.drop_last()[i] == reqs[i]);
                }
            }
        }
    }
}

/// In one step, the queued edit and the tree change are coupled: nothing
/// queued means the tree keeps, a queued deletion removes, and any other
/// queued edit writes.
pub proof fn lemma_step_coupling(
    m: Map<Seq<char>, FileEditView>,
    store: Map<(Seq<char>, int), Seq<u8>>,
    req: SyncRequestFileView,
)
    ensures
        step_effect(m, store, req).queued is None <==> step_effect(m, store, req).tree is Keep,
        step_effect(m, store, req).queued matches Some(t) ==> ((t.operation is Deleted)
            <==> step_effect(m, store, req).tree is Remove),
{
}

/// After a batch, the tree and the queue agree: a path with a queued
/// deletion is out of the tree, a path with any other queued edit is in
/// it, and a path nothing was queued for is as the batch found it.
pub proof fn lemma_batch_coherence(
    m: Map<Seq<char>, FileEditView>,
    store: Map<(Seq<char>, int), Seq<u8>>,
    tree0: Map<Seq<char>, Seq<u8>>,
    reqs: Seq<SyncRequestFileView>,
)
    ensures
        ({
            let b = batch_fold(m, store, tree0, reqs);
            &&& forall|p: Seq<char>| #[trigger]
                b.queue.contains_key(p) ==> if b.queue[p].operation is Deleted {
                    !b.tree.contains_key(p)
                } else {
                    b.tree.contains_key(p)
                }
            &&& forall|p: Seq<char>|
                !b.queue.contains_key(p) ==> ((#[trigger] b.tree.contains_key(p)
                    <==> tree0.contains_key(p)) && (tree0.contains_key(p) ==> b.tree[p]
                    == tree0[p]))
        }),
    decreases reqs.len(),
{
    if reqs.len() > 0 {
        lemma_batch_coherence(m, store, tree0, reqs.drop_last());
        lemma_step_coupling(m, store, reqs.last());
        let prev = batch_fold(m, store, tree0, reqs.drop_last());
        let b = batch_fold(m, store, tree0, reqs);
        let req = reqs.last();
        let eff = step_effect(m, store, req);
        assert forall|p: Seq<char>| #[trigger] b.queue.contains_key(p) implies if b.queue[
            p
        ].operation is Deleted {
            !b.tree.contains_key(p)
        } else {
            b.tree.contains_key(p)
        } by {
            if p == req.path() && eff.queued is Some {
            } else {
                assert(prev.queue.contains_key(p) && b.queue[p] == prev.queue[p]);
                if p == req.path() {
                    assert(eff.queued is None && eff.tree is Keep);
                }
            }
        }
        assert forall|p: Seq<char>| !b.queue.contains_key(p) implies ((#[trigger] b.tree.contains_key(
            p,
        ) <==> tree0.contains_key(p)) && (tree0.contains_key(p) ==> b.tree[p] == tree0[p])) by {
            assert(!prev.queue.contains_key(p));
            if p == req.path() {
                assert(eff.queued is None && eff.tree is Keep);
            }
        }
    }
}

/// A copy of a byte vector holding the same bytes.
pub(crate) fn clone_bytes(v: &Vec<u8>) -> (r: Vec<u8>)
    ensures
        r@ == v@,
{
    let mut r: Vec<u8> = Vec::new();
    let n = v.len();
    for i in 0..n
        invariant
            n == v@.len(),
            r@ == v@.take(i as int),
    {
        r.push(v[i]);
        proof {
            assert(r@ =~= v@.take(i + 1));
        }
    }
    proof {
        assert(v@.take(n as int) =~= v@);
    }
    r
}

impl SyncState {
    /// A fresh remote state: empty tree, empty store, empty log.
    pub fn new() -> (r: SyncState)
        ensures
            r.tree@ == Map::<Seq<char>, Seq<u8>>::empty(),
            r.store@ == Map::<(Seq<char>, int), Seq<u8>>::empty(),
            r.log@ == Seq::<crate::history::LogEntryView>::empty(),
            sync_state_wf(&r),
    {
        let r = SyncState { tree: PathMap::new(), store: VersionStore::new(), log: EditLog::new() };
        proof {
            assert(manifest_of(r.log@) =~= Map::<Seq<char>, FileEditView>::empty());
            assert forall|p: Seq<char>| #[trigger]
                r.tree@.contains_key(p) <==> live_manifest_of(r.log@).contains_key(p) by {}
        }
        r
    }
}

/// Every response entry stands under its own path.
pub proof fn lemma_batch_response_paths(
    m: Map<Seq<char>, FileEditView>,
    store: Map<(Seq<char>, int), Seq<u8>>,
    tree0: Map<Seq<char>, Seq<u8>>,
    reqs: Seq<SyncRequestFileView>,
)
    ensures
        forall|p: Seq<char>| #[trigger]
            batch_fold(m, store, tree0, reqs).responses.contains_key(p) ==> batch_fold(
                m,
                store,
                tree0,
                reqs,
            ).responses[p].path() == p,
    decreases reqs.len(),
{
    if reqs.len() > 0 {
        lemma_batch_response_paths(m, store, tree0, reqs.drop_last());
        lemma_conflict_completeness(m, store, reqs.last());
        let prev = batch_fold(m, store, tree0, reqs.drop_last());
        let b = batch_fold(m, store, tree0, reqs);
        let eff = step_effect(m, store, reqs.last());
        assert forall|p: Seq<char>| #[trigger] b.responses.contains_key(p) implies b.responses[
            p
        ].path() == p by {
            if eff.response is Some && p == reqs.last().path() {
            } else {
                assert(prev.responses.contains_key(p) && b.responses[p] == prev.responses[p]);
            }
        }
    }
}

/// Every queued edit is one request's own: its path and provenance come
/// from a request of the batch.
pub proof fn lemma_batch_queue_paths(
    m: Map<Seq<char>, FileEditView>,
    store: Map<(Seq<char>, int), Seq<u8>>,
    tree0: Map<Seq<char>, Seq<u8>>,
    reqs: Seq<SyncRequestFileView>,
)
    ensures
        forall|p: Seq<char>| #[trigger]
            batch_fold(m, store, tree0, reqs).queue.contains_key(p) ==> exists|i: int|
                0 <= i < reqs.len() && (#[trigger] reqs[i]).path() == p && step_effect(
                    m,
                    store,
                    reqs[i],
                ).queued == Some(batch_fold(m, store, tree0, reqs).queue[p]),
    decreases reqs.len(),
{
    if reqs.len() > 0 {
        lemma_batch_queue_paths(m, store, tree0, reqs.drop_last());
        let prev = batch_fold(m, store, tree0, reqs.drop_last());
        let b = batch_fold(m, store, tree0, reqs);
        assert forall|p: Seq<char>| #[trigger] b.queue.contains_key(p) implies exists|i: int|
            0 <= i < reqs.len() && (#[trigger] reqs[i]).path() == p && step_effect(
                m,
                store,
                reqs[i],
            ).queued == Some(b.queue[p]) by {
            let eff = step_effect(m, store, reqs.last());
            if eff.queued is Some && p == reqs.last().path() {
                assert(reqs[reqs.len() - 1].path() == p);
            } else {
                assert(prev.queue.contains_key(p) && b.queue[p] == prev.queue[p]);
                let i = choose|i: int|
                    0 <= i < reqs.drop_last().len() && (#[trigger] reqs.drop_last()[i]).path() == p
                        && step_effect(m, store, reqs.drop_last()[i]).queued == Some(
                        prev.queue[p],
                    );
                assert(reqs[i].path() == p);
                assert(step_effect(m, store, reqs[i]).queued == Some(b.queue[p]));
            }
        }
    }
}

/// The store once a committed batch's fresh versions are written: every
/// queued non-deletion gains an entry at its newly assigned version,
/// holding the bytes the batch left in the tree.
pub open spec fn store_after_batch(
    store0: Map<(Seq<char>, int), Seq<u8>>,
    log0: Seq<crate::history::LogEntryView>,
    b: BatchState,
) -> Map<(Seq<char>, int), Seq<u8>> {
    Map::new(
        |k: (Seq<char>, int)|
            store0.contains_key(k) || (b.queue.contains_key(k.0) && !(b.queue[k.0].operation
                is Deleted) && k.1 == next_version_of(log0, k.0)),
        |k: (Seq<char>, int)|
            if b.queue.contains_key(k.0) && !(b.queue[k.0].operation is Deleted) && k.1
                == next_version_of(log0, k.0) {
                b.tree[k.0]
            } else {
                store0[k]
            },
    )
}

/// Processes one sync batch against the remote state: per file, apply
/// cleanly, merge, or classify the divergence; then append every applied
/// edit to the log as one batch and store the fresh versions.
///
/// The whole case table is `step_effect`; the batch's outcome is its fold.
/// `Ok` is owed whenever no update in the batch proposes undecodable
/// content for a merge; undecodable stored text downgrades to a regular
/// conflict. A batch that fails leaves log and store untouched, though
/// files already resolved may have reached the tree, as the caller is
/// told to discard such a state.
pub fn do_sync(state: &mut SyncState, files: &Vec<SyncRequestFile>) -> (r: Result<
    PathMap<SyncResponseFile>,
    Error,
>)
    requires
        sync_state_wf(old(state)),
        forall|k: Seq<char>| #[trigger]
            manifest_of(old(state).log@).contains_key(k) ==> manifest_of(old(state).log@)[k].version
                < i32::MAX as int,
    ensures
        ({
            let b = batch_fold(
                live_manifest_of(old(state).log@),
                old(state).store@,
                old(state).tree@,
                views_of(files@),
            );
            &&& (r is Ok <==> !b.fails)
            &&& (r matches Ok(resp) ==> {
                &&& resp@ == b.responses
                &&& final(state).tree@ == b.tree
                &&& sync_state_wf(final(state))
                &&& final(state).log@.len() == old(state).log@.len() + queued_order(
                    live_manifest_of(old(state).log@),
                    old(state).store@,
                    old(state).tree@,
                    views_of(files@),
                ).len()
                &&& forall|j: int|
                    0 <= j < queued_order(
                        live_manifest_of(old(state).log@),
                        old(state).store@,
                        old(state).tree@,
                        views_of(files@),
                    ).len() ==> (#[trigger] final(state).log@[old(state).log@.len() + j]).path
                        == queued_order(
                        live_manifest_of(old(state).log@),
                        old(state).store@,
                        old(state).tree@,
                        views_of(files@),
                    )[j]
                &&& final(state).log@.take(old(state).log@.len() as int) == old(state).log@
                &&& forall|j: int|
                    old(state).log@.len() <= j < final(state).log@.len() ==> b.queue.contains_key(
                        (#[trigger] final(state).log@[j]).path,
                    ) && final(state).log@[j].edit == b.queue[final(state).log@[j].path].as_edit(
                        next_version_of(old(state).log@, final(state).log@[j].path),
                    )
                &&& final(state).store@ == store_after_batch(old(state).store@, old(state).log@, b)
                &&& forall|p: Seq<char>| #[trigger]
                    b.queue.contains_key(p) ==> manifest_of(final(state).log@).contains_key(p)
                        && manifest_of(final(state).log@)[p] == b.queue[p].as_edit(
                        next_version_of(old(state).log@, p),
                    )
                &&& forall|p: Seq<char>|
                    !b.queue.contains_key(p) ==> ((#[trigger] manifest_of(
                        final(state).log@,
                    ).contains_key(p) <==> manifest_of(old(state).log@).contains_key(p))
                        && (manifest_of(old(state).log@).contains_key(p) ==> manifest_of(
                        final(state).log@,
                    )[p] == manifest_of(old(state).log@)[p]))
                &&& (b.queue =~= Map::<Seq<char>, FileEditTempView>::empty() ==> final(state).log@
                    == old(state).log@)
            })
            &&& (r is Err ==> final(state).log@ == old(state).log@ && final(state).store@ == old(
                state,
            ).store@)
        }),
{
    let ghost m = live_manifest_of(old(state).log@);
    let ghost store0 = old(state).store@;
    let ghost tree0 = old(state).tree@;
    let ghost reqs = views_of(files@);
    let manifest = derive_manifest(&state.log, false);
    let mut synced: PathMap<SyncResponseFile> = PathMap::new();
    let mut queue: PathMap<FileEditTemp> = PathMap::new();
    let n = files.len();
    proof {
        assert(reqs.take(0) =~= Seq::<SyncRequestFileView>::empty());
    }
    for i in 0..n
        invariant
            n == files@.len(),
            reqs == views_of(files@),
            manifest@ == m,
            state.log == old(state).log,
            state.store == old(state).store,
            m == live_manifest_of(old(state).log@),
            store0 == old(state).store@,
            tree0 == old(state).tree@,
            ({
                let b = batch_fold(m, store0, tree0, reqs.take(i as int));
                &&& !b.fails
                &&& synced@ == b.responses
                &&& queue@ == b.queue
                &&& queue.keys_in_order() == queued_order(m, store0, tree0, reqs.take(i as int))
                &&& state.tree@ == b.tree
            }),
    {
        proof {
            assert(reqs.take(i + 1).drop_last() =~= reqs.take(i as int));
            assert(reqs.take(i + 1).last() == reqs[i as int]);
            assert(reqs[i as int] == files@[i as int]@);
        }
        let ghost eff = step_effect(m, store0, reqs[i as int]);
        let file = &files[i];
        match file {
            SyncRequestFile::Add { path, content, src_cr } => {
                if manifest.contains_key(path) {
                    synced.insert(
                        path.clone(),
                        SyncResponseFile::Add {
                            path: path.clone(),
                            status: SyncStatus::CloneAddedRemoteAdded,
                            content: clone_bytes(content),
                        },
                    );
                } else {
                    state.tree.insert(path.clone(), clone_bytes(content));
                    queue.insert(
                        path.clone(),
                        FileEditTemp {
                            message: None,
                            author: None,
                            src_cr: *src_cr,
                            operation: FileOperation::Added,
                        },
                    );
                }
            },
            SyncRequestFile::Update { path, content, version, src_cr } => {
                let found = manifest.get(path);
                match found {
                    None => {
                        synced.insert(
                            path.clone(),
                            SyncResponseFile::Update {
                                path: path.clone(),
                                status: SyncStatus::CloneEditedRemoteDeleted,
                                content: clone_bytes(content),
                            },
                        );
                    },
                    Some(file_edit) => {
                        if file_edit.version == *version {
                            state.tree.insert(path.clone(), clone_bytes(content));
                            queue.insert(
                                path.clone(),
                                FileEditTemp {
                                    message: None,
                                    author: None,
                                    src_cr: *src_cr,
                                    operation: FileOperation::Updated,
                                },
                            );
                        } else {
                            let ancestor_opt = match state.store.read(path, *version) {
                                Some(bytes) => bytes_to_text(bytes),
                                None => None,
                            };
                            match ancestor_opt {
                                None => {
                                    synced.insert(
                                        path.clone(),
                                        SyncResponseFile::Update {
                                            path: path.clone(),
                                            status: SyncStatus::RegularConflict,
                                            content: clone_bytes(content),
                                        },
                                    );
                                },
                                Some(ancestor) => {
                                    let ours = match bytes_to_text(content) {
                                        Some(o) => o,
                                        None => {
                                            proof {
                                                assert((*file)@ == reqs[i as int]);
                                                assert(m.contains_key(path@));
                                                assert(m[path@].version != *version as int);
                                                assert(stored_text(store0, path@, *version as int)
                                                    is Some);
                                                assert(utf8_decode(content@) is None);
                                                assert(step_effect(m, store0, reqs[i as int]).fails);
                                                lemma_batch_fails(m, store0, tree0, reqs);
                                                assert(exists|ii: int|
                                                    0 <= ii < reqs.len() && step_effect(
                                                        m,
                                                        store0,
                                                        #[trigger] reqs[ii],
                                                    ).fails);
                                                assert(batch_fold(m, store0, tree0, reqs).fails);
                                            }
                                            return Err(
                                                Error::APIResponseError(
                                                    String::from_str(
                                                        "proposed content is not valid text",
                                                    ),
                                                ),
                                            );
                                        },
                                    };
                                    let remote_version = file_edit.version;
                                    let theirs_opt = match state.store.read(path, remote_version) {
                                        Some(bytes) => bytes_to_text(bytes),
                                        None => None,
                                    };
                                    match theirs_opt {
                                        None => {
                                            // the remote's own text cannot be read back as
                                            // text: an encoding fault, downgraded to a
                                            // conflict rather than an error
                                            synced.insert(
                                                path.clone(),
                                                SyncResponseFile::Update {
                                                    path: path.clone(),
                                                    status: SyncStatus::RegularConflict,
                                                    content: clone_bytes(content),
                                                },
                                            );
                                        },
                                        Some(theirs) => {
                                        match merge_texts(&ancestor, &ours, &theirs) {
                                            Ok(data) => {
                                                let bytes = text_to_bytes(data.as_str());
                                                state.tree.insert(path.clone(), clone_bytes(&bytes));
                                                queue.insert(
                                                    path.clone(),
                                                    FileEditTemp {
                                                        message: None,
                                                        author: None,
                                                        src_cr: *src_cr,
                                                        operation: FileOperation::Updated,
                                                    },
                                                );
                                                synced.insert(
                                                    path.clone(),
                                                    SyncResponseFile::Update {
                                                        path: path.clone(),
                                                        status: SyncStatus::NoConflict,
                                                        content: bytes,
                                                    },
                                                );
                                            },
                                            Err(data) => {
                                                let bytes = text_to_bytes(data.as_str());
                                                synced.insert(
                                                    path.clone(),
                                                    SyncResponseFile::Update {
                                                        path: path.clone(),
                                                        status: SyncStatus::RegularConflict,
                                                        content: bytes,
                                                    },
                                                );
                                            },
                                        }
                                        },
                                    }
                                },
                            }
                        }
                    },
                }
            },
            SyncRequestFile::Delete { path, version, src_cr } => {
                let found = manifest.get(path);
                match found {
                    None => {},
                    Some(file_edit) => {
                        let server_content = match state.store.read(path, file_edit.version) {
                            Some(c) => clone_bytes(c),
                            None => {
                                proof {
                                    assert((*file)@ == reqs[i as int]);
                                    assert(m.contains_key(path@));
                                    assert(!store0.contains_key((path@, m[path@].version)));
                                    assert(step_effect(m, store0, reqs[i as int]).fails);
                                    lemma_batch_fails(m, store0, tree0, reqs);
                                    assert(exists|ii: int|
                                        0 <= ii < reqs.len() && step_effect(
                                            m,
                                            store0,
                                            #[trigger] reqs[ii],
                                        ).fails);
                                    assert(batch_fold(m, store0, tree0, reqs).fails);
                                }
                                return Err(
                                    Error::UsageError {
                                        message: String::from_str(
                                            "history is missing the remote version",
                                        ),
                                    },
                                );
                            },
                        };
                        if file_edit.version > *version {
                            synced.insert(
                                path.clone(),
                                SyncResponseFile::Update {
                                    path: path.clone(),
                                    status: SyncStatus::CloneDeletedRemoteEdited,
                                    content: server_content,
                                },
                            );
                        } else {
                            state.tree.remove(path);
                            queue.insert(
                                path.clone(),
                                FileEditTemp {
                                    message: None,
                                    author: None,
                                    src_cr: *src_cr,
                                    operation: FileOperation::Deleted,
                                },
                            );
                        }
                    },
                }
            },
        }
        proof {
            let b_prev = batch_fold(m, store0, tree0, reqs.take(i as int));
            let b_now = batch_fold(m, store0, tree0, reqs.take(i + 1));
            assert(b_now.responses == match eff.response {
                Some(resp) => b_prev.responses.insert(reqs[i as int].path(), resp),
                None => b_prev.responses,
            });
            assert(queue.keys_in_order() =~= queued_order(m, store0, tree0, reqs.take(i + 1)));
            if state.tree@ != b_now.tree {
                assert(state.tree@ =~= b_now.tree);
            }
        }
    }
    proof {
        assert(reqs.take(n as int) =~= reqs);
        lemma_batch_fails(m, store0, tree0, reqs);
    }
    let ghost b = batch_fold(m, store0, tree0, reqs);
    proof {
        lemma_batch_coherence(m, store0, tree0, reqs);
    }
    commit_batch(state, &queue, Ghost(b), Ghost(tree0), Ghost(store0));
    Ok(synced)
}

/// Have the first `j` queued entries written the store key `k`? They have
/// when one of them is a non-deletion of `k`'s path and `k`'s version is
/// the one the log assigned.
spec fn written_upto(
    queue: &PathMap<FileEditTemp>,
    log0: Seq<crate::history::LogEntryView>,
    k: (Seq<char>, int),
    j: int,
) -> bool {
    exists|jj: int|
        0 <= jj < j && queue.keys_in_order()[jj] == k.0 && !(queue.values_in_order()[jj].operation
            is Deleted) && k.1 == next_version_of(log0, k.0)
}

/// The store after the first `j` queued entries wrote their fresh
/// versions: each non-deletion adds its path's bytes at the newly
/// assigned version.
spec fn store_after_writes(
    store0: Map<(Seq<char>, int), Seq<u8>>,
    queue: &PathMap<FileEditTemp>,
    log0: Seq<crate::history::LogEntryView>,
    tree: Map<Seq<char>, Seq<u8>>,
    j: int,
) -> Map<(Seq<char>, int), Seq<u8>>
    decreases j,
{
    if j <= 0 {
        store0
    } else {
        let prev = store_after_writes(store0, queue, log0, tree, j - 1);
        let p = queue.keys_in_order()[j - 1];
        let t = queue.values_in_order()[j - 1];
        if t.operation is Deleted {
            prev
        } else {
            prev.insert((p, next_version_of(log0, p)), tree[p])
        }
    }
}

/// What the write loop leaves in the store: every key one of the first
/// `j` queued non-deletions wrote, with the tree's bytes; all else as it
/// was.
proof fn lemma_store_after_writes(
    store0: Map<(Seq<char>, int), Seq<u8>>,
    queue: &PathMap<FileEditTemp>,
    log0: Seq<crate::history::LogEntryView>,
    tree: Map<Seq<char>, Seq<u8>>,
    j: int,
)
    requires
        0 <= j <= queue.keys_in_order().len(),
    ensures
        forall|k: (Seq<char>, int)| #[trigger]
            store_after_writes(store0, queue, log0, tree, j).contains_key(k) <==> (
            store0.contains_key(k) || written_upto(queue, log0, k, j)),
        forall|k: (Seq<char>, int)| #[trigger]
            store_after_writes(store0, queue, log0, tree, j).contains_key(k) ==> if written_upto(
                queue,
                log0,
                k,
                j,
            ) {
                store_after_writes(store0, queue, log0, tree, j)[k] == tree[k.0]
            } else {
                store_after_writes(store0, queue, log0, tree, j)[k] == store0[k]
            },
    decreases j,
{
    if j > 0 {
        lemma_store_after_writes(store0, queue, log0, tree, j - 1);
        let cur = store_after_writes(store0, queue, log0, tree, j);
        let prev = store_after_writes(store0, queue, log0, tree, j - 1);
        let p = queue.keys_in_order()[j - 1];
        let t = queue.values_in_order()[j - 1];
        assert forall|k: (Seq<char>, int)| #[trigger] cur.contains_key(k) <==> (
        store0.contains_key(k) || written_upto(queue, log0, k, j)) by {
            if written_upto(queue, log0, k, j - 1) {
                assert(written_upto(queue, log0, k, j));
            }
            if !(t.operation is Deleted) && k == (p, next_version_of(log0, p)) {
                assert(written_upto(queue, log0, k, j));
            }
            if written_upto(queue, log0, k, j) && !written_upto(queue, log0, k, j - 1) {
                let jj = choose|jj: int|
                    0 <= jj < j && queue.keys_in_order()[jj] == k.0 && !(queue.values_in_order()[
                        jj
                    ].operation is Deleted) && k.1 == next_version_of(log0, k.0);
                assert(jj == j - 1);
                assert(k == (p, next_version_of(log0, p)));
            }
        }
        assert forall|k: (Seq<char>, int)| #[trigger] cur.contains_key(k) implies if written_upto(
            queue,
            log0,
            k,
            j,
        ) {
            cur[k] == tree[k.0]
        } else {
            cur[k] == store0[k]
        } by {
            if written_upto(queue, log0, k, j) {
                let jj = choose|jj: int|
                    0 <= jj < j && queue.keys_in_order()[jj] == k.0 && !(queue.values_in_order()[
                        jj
                    ].operation is Deleted) && k.1 == next_version_of(log0, k.0);
                if jj == j - 1 {
                    if !(t.operation is Deleted) && k == (p, next_version_of(log0, p)) {
                    } else {
                        assert(k.0 == p && k.1 == next_version_of(log0, p));
                        assert(false);
                    }
                } else {
                    assert(written_upto(queue, log0, k, j - 1));
                    if !(t.operation is Deleted) && k == (p, next_version_of(log0, p)) {
                        assert(cur[k] == tree[k.0]);
                    } else {
                        assert(cur[k] == prev[k]);
                    }
                }
            } else {
                assert(!written_upto(queue, log0, k, j - 1)) by {
                    if written_upto(queue, log0, k, j - 1) {
                        assert(written_upto(queue, log0, k, j));
                    }
                }
                assert(k != (p, next_version_of(log0, p)) || t.operation is Deleted) by {
                    if !(t.operation is Deleted) && k == (p, next_version_of(log0, p)) {
                        assert(written_upto(queue, log0, k, j));
                    }
                }
                assert(cur[k] == prev[k]);
            }
        }
    }
}

/// Appends the queued edits as one batch and stores each fresh version's
/// bytes, restoring the state's consistency.
/// After one batch's records are appended, the manifest binds each queued
/// path to its queued edit at its fresh version and keeps every other
/// binding; and an empty queue leaves the log as it was.
#[verifier::rlimit(100)]
proof fn lemma_committed_manifest(
    queue: &PathMap<FileEditTemp>,
    b: BatchState,
    log0: Seq<crate::history::LogEntryView>,
    logf: Seq<crate::history::LogEntryView>,
)
    requires
        queue@ == b.queue,
        logf.take(log0.len() as int) == log0,
        logf.len() == log0.len() + queue.keys_in_order().len(),
        forall|i: int|
            0 <= i < queue.keys_in_order().len() ==> logf[log0.len() + i]
                == (crate::history::LogEntryView {
                path: queue.keys_in_order()[i],
                edit: queue.values_in_order()[i].as_edit(
                    next_version_of(log0, queue.keys_in_order()[i]),
                ),
            }),
        forall|k: Seq<char>| #[trigger] queue@.contains_key(k) <==> queue.keys_in_order().contains(
            k,
        ),
        forall|i: int|
            0 <= i < queue.keys_in_order().len() ==> #[trigger] queue@.contains_key(
                queue.keys_in_order()[i],
            ) && queue@[queue.keys_in_order()[i]] == queue.values_in_order()[i],
        forall|i: int, j: int|
            0 <= i < j < queue.keys_in_order().len() ==> queue.keys_in_order()[i]
                != queue.keys_in_order()[j],
    ensures
        forall|p: Seq<char>| #[trigger]
            b.queue.contains_key(p) ==> manifest_of(logf).contains_key(p) && manifest_of(logf)[p]
                == b.queue[p].as_edit(next_version_of(log0, p)),
        forall|p: Seq<char>|
            !b.queue.contains_key(p) ==> ((#[trigger] manifest_of(logf).contains_key(p)
                <==> manifest_of(log0).contains_key(p)) && (manifest_of(log0).contains_key(p)
                ==> manifest_of(logf)[p] == manifest_of(log0)[p])),
        forall|j: int|
            log0.len() <= j < logf.len() ==> b.queue.contains_key((#[trigger] logf[j]).path)
                && logf[j].edit == b.queue[logf[j].path].as_edit(
                next_version_of(log0, logf[j].path),
            ),
        b.queue =~= Map::<Seq<char>, FileEditTempView>::empty() ==> logf == log0,
{
    let base_len = log0.len() as int;
    assert forall|a: int, c: int| base_len <= a < c < logf.len() implies logf[a].path
        != logf[c].path by {
        assert(logf[a].path == queue.keys_in_order()[a - base_len]);
        assert(logf[c].path == queue.keys_in_order()[c - base_len]);
    }
    assert forall|j: int| base_len <= j < logf.len() implies #[trigger] logf[j].edit.version
        == next_version_of(logf.take(base_len), logf[j].path) by {
        assert(logf[j] == (crate::history::LogEntryView {
            path: queue.keys_in_order()[j - base_len],
            edit: queue.values_in_order()[j - base_len].as_edit(
                next_version_of(log0, queue.keys_in_order()[j - base_len]),
            ),
        }));
    }
    crate::history::lemma_manifest_extend(logf, base_len);
    assert forall|p: Seq<char>| #[trigger] b.queue.contains_key(p) implies manifest_of(
        logf,
    ).contains_key(p) && manifest_of(logf)[p] == b.queue[p].as_edit(
        next_version_of(log0, p),
    ) by {
        assert(queue.keys_in_order().contains(p));
        let jj = choose|jj: int|
            0 <= jj < queue.keys_in_order().len() && queue.keys_in_order()[jj] == p;
        assert(logf[base_len + jj].path == p);
        assert(queue@.contains_key(queue.keys_in_order()[jj]));
        assert(queue@[p] == queue.values_in_order()[jj]);
        assert(manifest_of(logf).contains_key(logf[base_len + jj].path));
        assert(manifest_of(logf)[logf[base_len + jj].path] == logf[base_len + jj].edit);
        assert(manifest_of(logf)[p] == logf[base_len + jj].edit);
    }
    assert forall|p: Seq<char>| !b.queue.contains_key(p) implies ((#[trigger] manifest_of(
        logf,
    ).contains_key(p) <==> manifest_of(log0).contains_key(p)) && (manifest_of(
        log0,
    ).contains_key(p) ==> manifest_of(logf)[p] == manifest_of(log0)[p])) by {
        assert forall|j: int| base_len <= j < logf.len() implies (#[trigger] logf[j]).path
            != p by {
            assert(logf[j].path == queue.keys_in_order()[j - base_len]);
            if logf[j].path == p {
                assert(queue.keys_in_order().contains(p));
                assert(queue@.contains_key(p));
            }
        }
    }
    assert forall|j: int|
        base_len <= j < logf.len() implies b.queue.contains_key((#[trigger] logf[j]).path)
        && logf[j].edit == b.queue[logf[j].path].as_edit(next_version_of(log0, logf[j].path)) by {
        assert(logf[j].path == queue.keys_in_order()[j - base_len]);
        assert(queue@.contains_key(queue.keys_in_order()[j - base_len]));
        assert(queue@[queue.keys_in_order()[j - base_len]] == queue.values_in_order()[j
            - base_len]);
    }
    if b.queue =~= Map::<Seq<char>, FileEditTempView>::empty() {
        assert(queue.keys_in_order().len() == 0) by {
            if queue.keys_in_order().len() > 0 {
                assert(queue@.contains_key(queue.keys_in_order()[0]));
            }
        }
        assert(logf =~= log0);
    }
}

#[verifier::rlimit(100)]
fn commit_batch(
    state: &mut SyncState,
    queue: &PathMap<FileEditTemp>,
    Ghost(b): Ghost<BatchState>,
    Ghost(tree0): Ghost<Map<Seq<char>, Seq<u8>>>,
    Ghost(store0): Ghost<Map<(Seq<char>, int), Seq<u8>>>,
)
    requires
        queue@ == b.queue,
        old(state).store@ == store0,
        old(state).tree@ == b.tree,
        forall|p: Seq<char>| #[trigger]
            b.queue.contains_key(p) ==> if b.queue[p].operation is Deleted {
                !b.tree.contains_key(p)
            } else {
                b.tree.contains_key(p)
            },
        forall|p: Seq<char>|
            !b.queue.contains_key(p) ==> ((#[trigger] b.tree.contains_key(p)
                <==> tree0.contains_key(p)) && (tree0.contains_key(p) ==> b.tree[p] == tree0[p])),
        sync_state_wf_base(old(state).log@, tree0, store0),
        forall|k: Seq<char>| #[trigger]
            manifest_of(old(state).log@).contains_key(k) ==> manifest_of(old(state).log@)[k].version
                < i32::MAX as int,
    ensures
        final(state).tree == old(state).tree,
        final(state).log@.len() == old(state).log@.len() + queue.keys_in_order().len(),
        forall|j: int|
            0 <= j < queue.keys_in_order().len() ==> (#[trigger] final(state).log@[old(
                state,
            ).log@.len() + j]).path == queue.keys_in_order()[j],
        final(state).log@.take(old(state).log@.len() as int) == old(state).log@,
        forall|j: int|
            old(state).log@.len() <= j < final(state).log@.len() ==> b.queue.contains_key(
                (#[trigger] final(state).log@[j]).path,
            ) && final(state).log@[j].edit == b.queue[final(state).log@[j].path].as_edit(
                next_version_of(old(state).log@, final(state).log@[j].path),
            ),
        final(state).store@ == store_after_batch(store0, old(state).log@, b),
        sync_state_wf(final(state)),
        forall|p: Seq<char>| #[trigger]
            b.queue.contains_key(p) ==> manifest_of(final(state).log@).contains_key(p)
                && manifest_of(final(state).log@)[p] == b.queue[p].as_edit(
                next_version_of(old(state).log@, p),
            ),
        forall|p: Seq<char>|
            !b.queue.contains_key(p) ==> ((#[trigger] manifest_of(final(state).log@).contains_key(p)
                <==> manifest_of(old(state).log@).contains_key(p)) && (manifest_of(
                old(state).log@,
            ).contains_key(p) ==> manifest_of(final(state).log@)[p] == manifest_of(
                old(state).log@,
            )[p])),
        b.queue =~= Map::<Seq<char>, FileEditTempView>::empty() ==> final(state).log@ == old(
            state,
        ).log@,
{
    let ghost log0 = old(state).log@;
    let full0 = derive_manifest(&state.log, true);
    queue.iteration_facts();
    state.log.append_batch(queue);
    state.log.wf_facts();
    let ghost logf = state.log@;
    let ghost base_len = log0.len() as int;
    proof {
        lemma_committed_manifest(queue, b, log0, logf);
    }
    let qn = queue.len();
    for j in 0..qn
        invariant
            qn == queue.keys_in_order().len(),
            queue@ == b.queue,
            state.log@ == logf,
            state.tree == old(state).tree,
            state.tree@ == b.tree,
            forall|p: Seq<char>| #[trigger]
                b.queue.contains_key(p) ==> if b.queue[p].operation is Deleted {
                    !b.tree.contains_key(p)
                } else {
                    b.tree.contains_key(p)
                },
            full0@ == manifest_of(log0),
            forall|k: Seq<char>| #[trigger]
                manifest_of(log0).contains_key(k) ==> manifest_of(log0)[k].version
                    < i32::MAX as int,
            state.store@ == store_after_writes(store0, queue, log0, b.tree, j as int),
    {
        queue.iteration_facts();
        let path = queue.key_at(j);
        let temp = queue.value_at(j);
        if !temp.operation.is_deleted() {
            let content = match state.tree.get(path) {
                Some(c) => clone_bytes(c),
                None => {
                    proof {
                        assert(b.queue.contains_key(path@));
                        assert(false);
                    }
                    unreached()
                },
            };
            let version: i32 = match full0.get(path) {
                Some(e) => e.version + 1,
                None => 1,
            };
            proof {
                assert(version as int == next_version_of(log0, path@));
            }
            state.store.write(path.clone(), version, content);
        }
        proof {
            assert(state.store@ == store_after_writes(store0, queue, log0, b.tree, j + 1));
        }
    }
    queue.iteration_facts();
    proof {
        let live0 = live_manifest_of(log0);
        let livef = live_manifest_of(logf);
        let mf = manifest_of(logf);
        assert(state.log@ == logf);
        assert forall|p: Seq<char>|
            !b.queue.contains_key(p) implies ((#[trigger] manifest_of(logf).contains_key(p)
            <==> manifest_of(log0).contains_key(p)) && (manifest_of(log0).contains_key(p)
            ==> manifest_of(logf)[p] == manifest_of(log0)[p])) by {}
        lemma_store_after_writes(store0, queue, log0, b.tree, qn as int);
        // the store is exactly the batch's outcome
        assert forall|k: (Seq<char>, int)| #[trigger]
            written_upto(queue, log0, k, qn as int) <==> (b.queue.contains_key(k.0) && !(b.queue[
                k.0
            ].operation is Deleted) && k.1 == next_version_of(log0, k.0)) by {
            if written_upto(queue, log0, k, qn as int) {
                let jj = choose|jj: int|
                    0 <= jj < qn && queue.keys_in_order()[jj] == k.0 && !(queue.values_in_order()[
                        jj
                    ].operation is Deleted) && k.1 == next_version_of(log0, k.0);
                assert(b.queue.contains_key(k.0));
                assert(b.queue[k.0] == queue.values_in_order()[jj]);
            }
            if b.queue.contains_key(k.0) && !(b.queue[k.0].operation is Deleted) && k.1
                == next_version_of(log0, k.0) {
                assert(queue.keys_in_order().contains(k.0));
                let jj = choose|jj: int|
                    0 <= jj < qn && queue.keys_in_order()[jj] == k.0;
                assert(queue.values_in_order()[jj] == b.queue[k.0]);
                assert(written_upto(queue, log0, k, qn as int));
            }
        }
        assert forall|k: (Seq<char>, int)|
            state.store@.contains_key(k) <==> #[trigger] store_after_batch(
                store0,
                log0,
                b,
            ).contains_key(k) by {
            assert(state.store@.contains_key(k) <==> store_after_writes(
                store0,
                queue,
                log0,
                b.tree,
                qn as int,
            ).contains_key(k));
            assert(written_upto(queue, log0, k, qn as int) <==> (b.queue.contains_key(k.0) && !(
            b.queue[k.0].operation is Deleted) && k.1 == next_version_of(log0, k.0)));
        }
        assert forall|k: (Seq<char>, int)| #[trigger]
            state.store@.contains_key(k) implies state.store@[k] == store_after_batch(
            store0,
            log0,
            b,
        )[k] by {
            assert(store_after_writes(store0, queue, log0, b.tree, qn as int).contains_key(k));
            assert(written_upto(queue, log0, k, qn as int) <==> (b.queue.contains_key(k.0) && !(
            b.queue[k.0].operation is Deleted) && k.1 == next_version_of(log0, k.0)));
            if written_upto(queue, log0, k, qn as int) {
                assert(state.store@[k] == b.tree[k.0]);
                assert(b.queue.contains_key(k.0) && !(b.queue[k.0].operation is Deleted) && k.1
                    == next_version_of(log0, k.0));
                assert(store_after_batch(store0, log0, b)[k] == b.tree[k.0]);
            } else {
                assert(state.store@[k] == store0[k]);
                assert(!(b.queue.contains_key(k.0) && !(b.queue[k.0].operation is Deleted) && k.1
                    == next_version_of(log0, k.0)));
            }
        }
        assert(state.store@ =~= store_after_batch(store0, log0, b));
        // the state is consistent again
        assert forall|p: Seq<char>| #[trigger]
            state.tree@.contains_key(p) <==> livef.contains_key(p) by {
            if b.queue.contains_key(p) {
                assert(mf.contains_key(p));
                assert(mf[p] == b.queue[p].as_edit(next_version_of(log0, p)));
                assert(mf[p].operation == b.queue[p].operation);
            } else {
                assert(b.tree.contains_key(p) <==> tree0.contains_key(p));
                assert(tree0.contains_key(p) <==> live0.contains_key(p));
                assert(mf.contains_key(p) <==> manifest_of(log0).contains_key(p));
                if manifest_of(log0).contains_key(p) {
                    assert(mf[p] == manifest_of(log0)[p]);
                }
            }
        }
        assert forall|p: Seq<char>| #[trigger] livef.contains_key(p) implies state.store
            @.contains_key((p, livef[p].version)) && state.store@[(p, livef[p].version)]
            == state.tree@[p] by {
            if b.queue.contains_key(p) {
                assert(mf[p] == b.queue[p].as_edit(next_version_of(log0, p)));
                assert(!(b.queue[p].operation is Deleted));
                assert(livef[p].version == next_version_of(log0, p));
                assert(written_upto(queue, log0, (p, livef[p].version), qn as int));
            } else {
                assert(manifest_of(log0).contains_key(p));
                assert(livef[p] == manifest_of(log0)[p]);
                assert(live0.contains_key(p));
                assert(store0.contains_key((p, live0[p].version)));
                assert(store0[(p, live0[p].version)] == tree0[p]);
                assert(!written_upto(queue, log0, (p, livef[p].version), qn as int)) by {
                    if written_upto(queue, log0, (p, livef[p].version), qn as int) {
                        let jj = choose|jj: int|
                            0 <= jj < qn && queue.keys_in_order()[jj] == p && !(
                            queue.values_in_order()[jj].operation is Deleted) && livef[p].version
                                == next_version_of(log0, p);
                        assert(b.queue.contains_key(p));
                    }
                }
                assert(tree0.contains_key(p));
                assert(b.tree.contains_key(p));
                assert(b.tree[p] == tree0[p]);
            }
        }
    }
}

/// The old tree and store are consistent with a log's live manifest.
pub open spec fn sync_state_wf_base(
    log: Seq<crate::history::LogEntryView>,
    tree: Map<Seq<char>, Seq<u8>>,
    store: Map<(Seq<char>, int), Seq<u8>>,
) -> bool {
    &&& forall|p: Seq<char>| #[trigger]
        tree.contains_key(p) <==> live_manifest_of(log).contains_key(p)
    &&& forall|p: Seq<char>| #[trigger]
        live_manifest_of(log).contains_key(p) ==> store.contains_key(
            (p, live_manifest_of(log)[p].version),
        ) && store[(p, live_manifest_of(log)[p].version)] == tree[p]
}

/// The queued paths in the order the log records them: the order of each
/// path's first applying request in the batch.
pub open spec fn queued_order(
    m: Map<Seq<char>, FileEditView>,
    store: Map<(Seq<char>, int), Seq<u8>>,
    tree0: Map<Seq<char>, Seq<u8>>,
    reqs: Seq<SyncRequestFileView>,
) -> Seq<Seq<char>>
    decreases reqs.len(),
{
    if reqs.len() == 0 {
        Seq::empty()
    } else {
        let prev = queued_order(m, store, tree0, reqs.drop_last());
        let eff = step_effect(m, store, reqs.last());
        if eff.queued is Some && !batch_fold(m, store, tree0, reqs.drop_last()).queue.contains_key(
            reqs.last().path(),
        ) {
            prev.push(reqs.last().path())
        } else {
            prev
        }
    }
}

/// Law: a delete of a path absent from the remote manifest is a complete
/// no-op — no response entry, no queued edit, no tree change, no failure
/// — so deleting such a path twice does nothing twice.
pub proof fn lemma_idempotent_delete(
    m: Map<Seq<char>, FileEditView>,
    store: Map<(Seq<char>, int), Seq<u8>>,
    path: Seq<char>,
    version: int,
    src_cr: Option<int>,
)
    requires
        !m.contains_key(path),
    ensures
        step_effect(m, store, SyncRequestFileView::Delete { path, version, src_cr })
            == (StepEffect {
            response: None,
            queued: None,
            tree: TreeChange::Keep,
            fails: false,
        }),
{
}

/// Law: the conflict classification is complete. For every proposed
/// operation and every remote state of its path — absent, at the client's
/// baseline, or moved past it — the resolution carries exactly one of the
/// five statuses, as the case table gives it; requests that apply or are
/// dropped carry no response entry at all.
pub proof fn lemma_conflict_completeness(
    m: Map<Seq<char>, FileEditView>,
    store: Map<(Seq<char>, int), Seq<u8>>,
    req: SyncRequestFileView,
)
    ensures
        step_effect(m, store, req).response matches Some(resp) ==> resp.path() == req.path(),
        req matches SyncRequestFileView::Add { path, content, .. } ==> (if m.contains_key(path) {
            step_effect(m, store, req).response == Some(
                SyncResponseFileView::Add {
                    path,
                    status: SyncStatus::CloneAddedRemoteAdded,
                    content,
                },
            )
        } else {
            step_effect(m, store, req).response is None && step_effect(m, store, req).queued
                is Some
        }),
        req matches SyncRequestFileView::Update { path, content, version, .. } ==> (
        if !m.contains_key(path) {
            step_effect(m, store, req).response matches Some(resp) && resp.status()
                == SyncStatus::CloneEditedRemoteDeleted
        } else if m[path].version == version {
            step_effect(m, store, req).response is None && step_effect(m, store, req).queued
                is Some
        } else {
            step_effect(m, store, req).fails || (step_effect(m, store, req).response matches Some(
                resp,
            ) && (resp.status() == SyncStatus::RegularConflict || resp.status()
                == SyncStatus::NoConflict))
        }),
        req matches SyncRequestFileView::Delete { path, version, .. } ==> (if !m.contains_key(
            path,
        ) {
            step_effect(m, store, req) == (StepEffect {
                response: None,
                queued: None,
                tree: TreeChange::Keep,
                fails: false,
            })
        } else if m[path].version > version {
            step_effect(m, store, req).fails || (step_effect(m, store, req).response matches Some(
                resp,
            ) && resp.status() == SyncStatus::CloneDeletedRemoteEdited)
        } else {
            step_effect(m, store, req).fails || (step_effect(m, store, req).response is None
                && step_effect(m, store, req).queued is Some)
        }),
{
}

/// Law: a proposed add of a path the remote manifest already holds — with
/// whatever operation — answers `CloneAddedRemoteAdded` carrying the
/// client's own content, queues nothing, and leaves the tree alone.
pub proof fn lemma_add_add_conflict(
    m: Map<Seq<char>, FileEditView>,
    store: Map<(Seq<char>, int), Seq<u8>>,
    path: Seq<char>,
    content: Seq<u8>,
    src_cr: Option<int>,
)
    requires
        m.contains_key(path),
    ensures
        step_effect(m, store, SyncRequestFileView::Add { path, content, src_cr })
            == (StepEffect {
            response: Some(
                SyncResponseFileView::Add {
                    path,
                    status: SyncStatus::CloneAddedRemoteAdded,
                    content,
                },
            ),
            queued: None,
            tree: TreeChange::Keep,
            fails: false,
        }),
{
}

/// Law: a stale delete — the remote moved past the client's baseline —
/// recovers content: the response carries exactly the bytes stored for
/// the remote's current version, and neither tree nor log change.
pub proof fn lemma_stale_delete_recovers(
    m: Map<Seq<char>, FileEditView>,
    store: Map<(Seq<char>, int), Seq<u8>>,
    path: Seq<char>,
    version: int,
    src_cr: Option<int>,
)
    requires
        m.contains_key(path),
        m[path].version > version,
        store.contains_key((path, m[path].version)),
    ensures
        step_effect(m, store, SyncRequestFileView::Delete { path, version, src_cr })
            == (StepEffect {
            response: Some(
                SyncResponseFileView::Update {
                    path,
                    status: SyncStatus::CloneDeletedRemoteEdited,
                    content: store[(path, m[path].version)],
                },
            ),
            queued: None,
            tree: TreeChange::Keep,
            fails: false,
        }),
{
}

} // verus!
