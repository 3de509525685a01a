//! The client side of a sync: applying a response to the local tree and
//! moving the workspace baselines forward, skipping conflicted files.

use vstd::prelude::*;

use crate::history::{FileEdit, FileEditView, Manifest};
use crate::pathmap::PathMap;
use crate::protocol::{SyncResponseFile, SyncResponseFileView};

verus! {

/// The mathematical content of one workspace record.
pub ghost struct WorkspaceEntryView {
    pub filename: Seq<char>,
    pub version: Option<int>,
    pub deleted: Option<bool>,
}

/// The client's belief about one path: the version it last synchronized,
/// or none for a path added locally and never yet round-tripped.
#[derive(Debug, Clone)]
pub struct WorkspaceEntry {
    pub filename: String,
    pub version: Option<i32>,
    pub deleted: Option<bool>,
}

impl View for WorkspaceEntry {
    type V = WorkspaceEntryView;

    open spec fn view(&self) -> WorkspaceEntryView {
        WorkspaceEntryView {
            filename: self.filename@,
            version: match self.version {
                Some(v) => Some(v as int),
                None => None,
            },
            deleted: self.deleted,
        }
    }
}

/// The workspace record a manifest entry gives a path.
pub open spec fn workspace_entry_of(edit: FileEditView, file: Seq<char>) -> WorkspaceEntryView {
    WorkspaceEntryView {
        filename: file,
        version: Some(edit.version),
        deleted: Some(edit.operation is Deleted),
    }
}

impl FileEdit {
    /// The workspace record this edit leaves for its file.
    pub fn into_workspace(&self, file: &String) -> (r: WorkspaceEntry)
        ensures
            r@ == workspace_entry_of(self@, file@),
    {
        WorkspaceEntry {
            filename: file.clone(),
            version: Some(self.version),
            deleted: Some(self.is_deleted()),
        }
    }
}

/// Did some response entry for this path end in a conflict?
pub open spec fn conflicted_in(files: Seq<SyncResponseFileView>, p: Seq<char>) -> bool {
    exists|i: int| 0 <= i < files.len() && (#[trigger] files[i]).path() == p && !(files[i].status()
        is NoConflict)
}

/// Did some response entry delete this path without conflict?
pub open spec fn delete_responded(files: Seq<SyncResponseFileView>, p: Seq<char>) -> bool {
    exists|i: int| 0 <= i < files.len() && (#[trigger] files[i]) is Delete && files[i].path() == p
        && files[i].status() is NoConflict
}

/// The workspace after a response: every non-conflicted, non-deleted
/// manifest entry moves the baseline forward — also for files other
/// clients changed — and confirmed deletions drop their records.
pub open spec fn updated_workspace(
    ws0: Map<Seq<char>, WorkspaceEntryView>,
    remote: Map<Seq<char>, FileEditView>,
    files: Seq<SyncResponseFileView>,
) -> Map<Seq<char>, WorkspaceEntryView> {
    Map::new(
        |p: Seq<char>|
            (ws0.contains_key(p) || (remote.contains_key(p) && !(remote[p].operation is Deleted)
                && !conflicted_in(files, p))) && !delete_responded(files, p),
        |p: Seq<char>|
            if remote.contains_key(p) && !(remote[p].operation is Deleted) && !conflicted_in(
                files,
                p,
            ) {
                workspace_entry_of(remote[p], p)
            } else {
                ws0[p]
            },
    )
}

/// Applies a response to the client's workspace baselines: baselines are
/// updated from the post-sync remote manifest for every non-conflicted,
/// non-deleted path, and records of confirmed deletions are removed.
pub fn update_workspace(
    response_files: &Vec<SyncResponseFile>,
    remote_manifest: &Manifest,
    workspace: &mut PathMap<WorkspaceEntry>,
)
    ensures
        final(workspace)@ == updated_workspace(
            old(workspace)@,
            remote_manifest@,
            response_files@.map_values(|f: SyncResponseFile| f@),
        ),
{
    let ghost files = response_files@.map_values(|f: SyncResponseFile| f@);
    let ghost target = updated_workspace(old(workspace)@, remote_manifest@, files);
    // which paths came back conflicted
    let mut conflicted: PathMap<bool> = PathMap::new();
    let rn = response_files.len();
    for i in 0..rn
        invariant
            rn == response_files@.len(),
            files == response_files@.map_values(|f: SyncResponseFile| f@),
            forall|p: Seq<char>| #[trigger]
                conflicted@.contains_key(p) <==> exists|j: int|
                    0 <= j < i && (#[trigger] files[j]).path() == p && !(files[j].status()
                        is NoConflict),
    {
        let ghost before = conflicted@;
        let f = &response_files[i];
        if f.is_conflicted() {
            conflicted.insert(f.path(), true);
        }
        proof {
            assert forall|p: Seq<char>| #[trigger] conflicted@.contains_key(p) <==> exists|j: int|
                0 <= j < i + 1 && (#[trigger] files[j]).path() == p && !(files[j].status()
                    is NoConflict) by {
                if conflicted@.contains_key(p) {
                    if before.contains_key(p) {
                        let j = choose|j: int|
                            0 <= j < i && (#[trigger] files[j]).path() == p && !(files[j].status()
                                is NoConflict);
                        assert(0 <= j < i + 1 && files[j].path() == p && !(files[j].status()
                            is NoConflict));
                    } else {
                        assert(files[i as int].path() == p && !(files[i as int].status()
                            is NoConflict));
                    }
                } else {
                    if exists|j: int|
                        0 <= j < i + 1 && (#[trigger] files[j]).path() == p && !(files[j].status()
                            is NoConflict) {
                        let j = choose|j: int|
                            0 <= j < i + 1 && (#[trigger] files[j]).path() == p && !(
                            files[j].status() is NoConflict);
                        if j < i {
                            assert(before.contains_key(p));
                        } else {
                            assert(false);
                        }
                    }
                }
            }
        }
    }
    proof {
        assert forall|p: Seq<char>| #[trigger]
            conflicted@.contains_key(p) <==> conflicted_in(files, p) by {}
    }
    // move baselines forward from the post-sync manifest
    let mn = remote_manifest.len();
    for i in 0..mn
        invariant
            mn == remote_manifest.keys_in_order().len(),
            files == response_files@.map_values(|f: SyncResponseFile| f@),
            forall|p: Seq<char>| #[trigger] conflicted@.contains_key(p) <==> conflicted_in(files, p),
            target == updated_workspace(old(workspace)@, remote_manifest@, files),
            forall|p: Seq<char>| #[trigger]
                workspace@.contains_key(p) <==> (old(workspace)@.contains_key(p) || exists|j: int|
                    0 <= j < i && remote_manifest.keys_in_order()[j] == p
                        && remote_manifest@.contains_key(p) && !(remote_manifest@[p].operation
                        is Deleted) && !conflicted_in(files, p)),
            forall|p: Seq<char>| #[trigger]
                workspace@.contains_key(p) ==> workspace@[p] == (if exists|j: int|
                    0 <= j < i && remote_manifest.keys_in_order()[j] == p && !(
                    remote_manifest@[p].operation is Deleted) && !conflicted_in(files, p) {
                    workspace_entry_of(remote_manifest@[p], p)
                } else {
                    old(workspace)@[p]
                }),
    {
        remote_manifest.iteration_facts();
        let ghost before = workspace@;
        let file = remote_manifest.key_at(i);
        let file_edit = remote_manifest.value_at(i);
        if !conflicted.contains_key(file) && !file_edit.is_deleted() {
            workspace.insert(file.clone(), file_edit.into_workspace(file));
        }
        proof {
            assert forall|p: Seq<char>| #[trigger]
                workspace@.contains_key(p) <==> (old(workspace)@.contains_key(p) || exists|j: int|
                    0 <= j < i + 1 && remote_manifest.keys_in_order()[j] == p
                        && remote_manifest@.contains_key(p) && !(remote_manifest@[p].operation
                        is Deleted) && !conflicted_in(files, p)) by {
                if workspace@.contains_key(p) && !before.contains_key(p) {
                    assert(p == file@);
                    assert(remote_manifest.keys_in_order()[i as int] == p);
                }
                if before.contains_key(p) {
                    if !old(workspace)@.contains_key(p) {
                        let j = choose|j: int|
                            0 <= j < i && remote_manifest.keys_in_order()[j] == p
                                && remote_manifest@.contains_key(p) && !(
                            remote_manifest@[p].operation is Deleted) && !conflicted_in(files, p);
                        assert(0 <= j < i + 1 && remote_manifest.keys_in_order()[j] == p
                            && remote_manifest@.contains_key(p) && !(remote_manifest@[p].operation
                            is Deleted) && !conflicted_in(files, p));
                    }
                }
                if exists|j: int|
                    0 <= j < i + 1 && remote_manifest.keys_in_order()[j] == p
                        && remote_manifest@.contains_key(p) && !(remote_manifest@[p].operation
                        is Deleted) && !conflicted_in(files, p) {
                    let j = choose|j: int|
                        0 <= j < i + 1 && remote_manifest.keys_in_order()[j] == p
                            && remote_manifest@.contains_key(p) && !(remote_manifest@[p].operation
                            is Deleted) && !conflicted_in(files, p);
                    if j < i {
                        assert(before.contains_key(p));
                    } else {
                        assert(p == file@);
                        assert(workspace@.contains_key(p));
                    }
                }
            }
            assert forall|p: Seq<char>| #[trigger] workspace@.contains_key(p) implies workspace@[p]
                == (if exists|j: int|
                0 <= j < i + 1 && remote_manifest.keys_in_order()[j] == p && !(
                remote_manifest@[p].operation is Deleted) && !conflicted_in(files, p) {
                workspace_entry_of(remote_manifest@[p], p)
            } else {
                old(workspace)@[p]
            }) by {
                if exists|j: int|
                    0 <= j < i + 1 && remote_manifest.keys_in_order()[j] == p && !(
                    remote_manifest@[p].operation is Deleted) && !conflicted_in(files, p) {
                    let j = choose|j: int|
                        0 <= j < i + 1 && remote_manifest.keys_in_order()[j] == p && !(
                        remote_manifest@[p].operation is Deleted) && !conflicted_in(files, p);
                    if j == i {
                        assert(p == file@);
                        assert(workspace@[p] == workspace_entry_of(remote_manifest@[p], p));
                    } else {
                        assert(before.contains_key(p) ==> before[p] == workspace_entry_of(
                            remote_manifest@[p],
                            p,
                        ));
                        if p != file@ {
                            assert(workspace@[p] == before[p]);
                            assert(before.contains_key(p));
                        }
                    }
                } else {
                    assert(p != file@ || !(!(remote_manifest@[p].operation is Deleted)
                        && !conflicted_in(files, p)));
                    if p == file@ {
                        assert(workspace@[p] == before[p]);
                        assert(!(exists|j: int|
                            0 <= j < i && remote_manifest.keys_in_order()[j] == p && !(
                            remote_manifest@[p].operation is Deleted) && !conflicted_in(
                                files,
                                p,
                            )));
                    } else {
                        assert(workspace@[p] == before[p]);
                        assert(!(exists|j: int|
                            0 <= j < i && remote_manifest.keys_in_order()[j] == p && !(
                            remote_manifest@[p].operation is Deleted) && !conflicted_in(
                                files,
                                p,
                            ))) by {
                            if exists|j: int|
                                0 <= j < i && remote_manifest.keys_in_order()[j] == p && !(
                                remote_manifest@[p].operation is Deleted) && !conflicted_in(
                                    files,
                                    p,
                                ) {
                                let j = choose|j: int|
                                    0 <= j < i && remote_manifest.keys_in_order()[j] == p && !(
                                    remote_manifest@[p].operation is Deleted) && !conflicted_in(
                                        files,
                                        p,
                                    );
                                assert(0 <= j < i + 1 && remote_manifest.keys_in_order()[j] == p);
                            }
                        }
                    }
                }
            }
        }
    }
    remote_manifest.iteration_facts();
    proof {
        assert forall|p: Seq<char>| #[trigger] workspace@.contains_key(p) implies workspace@[p] == (
        if remote_manifest@.contains_key(p) && !(remote_manifest@[p].operation is Deleted)
            && !conflicted_in(files, p) {
            workspace_entry_of(remote_manifest@[p], p)
        } else {
            old(workspace)@[p]
        }) by {
            if remote_manifest@.contains_key(p) && !(remote_manifest@[p].operation is Deleted)
                && !conflicted_in(files, p) {
                let j = choose|j: int|
                    0 <= j < remote_manifest.keys_in_order().len()
                        && remote_manifest.keys_in_order()[j] == p;
                assert(0 <= j < mn && remote_manifest.keys_in_order()[j] == p && !(
                remote_manifest@[p].operation is Deleted) && !conflicted_in(files, p));
            } else {
                if exists|j: int|
                    0 <= j < mn && remote_manifest.keys_in_order()[j] == p && !(
                    remote_manifest@[p].operation is Deleted) && !conflicted_in(files, p) {
                    let j = choose|j: int|
                        0 <= j < mn && remote_manifest.keys_in_order()[j] == p && !(
                        remote_manifest@[p].operation is Deleted) && !conflicted_in(files, p);
                    assert(remote_manifest@.contains_key(p));
                }
            }
        }
    }
    // drop the records of confirmed deletions
    for i in 0..rn
        invariant
            rn == response_files@.len(),
            files == response_files@.map_values(|f: SyncResponseFile| f@),
            target == updated_workspace(old(workspace)@, remote_manifest@, files),
            forall|j: int, l: int|
                0 <= j < l < remote_manifest.keys_in_order().len()
                    ==> remote_manifest.keys_in_order()[j] != remote_manifest.keys_in_order()[l],
            forall|p: Seq<char>| #[trigger]
                remote_manifest@.contains_key(p) <==> remote_manifest.keys_in_order().contains(p),
            forall|p: Seq<char>| #[trigger]
                workspace@.contains_key(p) <==> ((old(workspace)@.contains_key(p) || (
                remote_manifest@.contains_key(p) && !(remote_manifest@[p].operation is Deleted)
                    && !conflicted_in(files, p))) && !(exists|j: int|
                    0 <= j < i && (#[trigger] files[j]) is Delete && files[j].path() == p && files[
                        j
                    ].status() is NoConflict)),
            forall|p: Seq<char>| #[trigger]
                workspace@.contains_key(p) ==> workspace@[p] == (if remote_manifest@.contains_key(p)
                    && !(remote_manifest@[p].operation is Deleted) && !conflicted_in(files, p) {
                    workspace_entry_of(remote_manifest@[p], p)
                } else {
                    old(workspace)@[p]
                }),
    {
        let ghost before = workspace@;
        let f = &response_files[i];
        if !f.is_conflicted() && f.is_deleted() {
            let path = f.path();
            workspace.remove(&path);
        }
        proof {
            assert forall|p: Seq<char>| #[trigger]
                workspace@.contains_key(p) <==> ((old(workspace)@.contains_key(p) || (
                remote_manifest@.contains_key(p) && !(remote_manifest@[p].operation is Deleted)
                    && !conflicted_in(files, p))) && !(exists|j: int|
                    0 <= j < i + 1 && (#[trigger] files[j]) is Delete && files[j].path() == p
                        && files[j].status() is NoConflict)) by {
                if exists|j: int|
                    0 <= j < i + 1 && (#[trigger] files[j]) is Delete && files[j].path() == p
                        && files[j].status() is NoConflict {
                    let j = choose|j: int|
                        0 <= j < i + 1 && (#[trigger] files[j]) is Delete && files[j].path() == p
                            && files[j].status() is NoConflict;
                    if j < i {
                        assert(!before.contains_key(p));
                        assert(!workspace@.contains_key(p));
                    } else {
                        assert(files[i as int] is Delete && files[i as int].path() == p && files[
                            i as int
                        ].status() is NoConflict);
                        assert(!workspace@.contains_key(p));
                    }
                }
                if workspace@.contains_key(p) {
                    assert(before.contains_key(p));
                }
                if before.contains_key(p) && !workspace@.contains_key(p) {
                    assert(files[i as int].path() == p);
                }
            }
        }
    }
    proof {
        assert(workspace@ =~= target);
    }
}

/// The client tree after one response entry: non-conflicting additions
/// and updates overwrite, deletions remove, and every conflict shape
/// leaves the tree alone.
pub open spec fn tree_after_entry(
    tree: Map<Seq<char>, Seq<u8>>,
    f: SyncResponseFileView,
) -> Map<Seq<char>, Seq<u8>> {
    match f {
        SyncResponseFileView::Add { path, status, content } => {
            if status is CloneAddedRemoteAdded {
                tree
            } else {
                tree.insert(path, content)
            }
        },
        SyncResponseFileView::Update { path, status, content } => {
            if status is CloneEditedRemoteDeleted || status is CloneDeletedRemoteEdited || status
                is RegularConflict {
                tree
            } else {
                tree.insert(path, content)
            }
        },
        SyncResponseFileView::Delete { path, .. } => tree.remove(path),
    }
}

/// The client tree after a whole response, entry by entry.
pub open spec fn tree_after_response(
    tree: Map<Seq<char>, Seq<u8>>,
    files: Seq<SyncResponseFileView>,
) -> Map<Seq<char>, Seq<u8>>
    decreases files.len(),
{
    if files.len() == 0 {
        tree
    } else {
        tree_after_entry(tree_after_response(tree, files.drop_last()), files.last())
    }
}

/// Applies a response to the client's working tree: conflicted files are
/// left alone for the user to resolve, everything else is written or
/// removed as the remote resolved it.
pub fn update_current_directory(tree: &mut PathMap<Vec<u8>>, response_files: &Vec<SyncResponseFile>)
    ensures
        final(tree)@ == tree_after_response(
            old(tree)@,
            response_files@.map_values(|f: SyncResponseFile| f@),
        ),
{
    let ghost files = response_files@.map_values(|f: SyncResponseFile| f@);
    let n = response_files.len();
    proof {
        assert(files.take(0) =~= Seq::<SyncResponseFileView>::empty());
    }
    for i in 0..n
        invariant
            n == response_files@.len(),
            files == response_files@.map_values(|f: SyncResponseFile| f@),
            tree@ == tree_after_response(old(tree)@, files.take(i as int)),
    {
        proof {
            assert(files.take(i + 1).drop_last() =~= files.take(i as int));
            assert(files.take(i + 1).last() == files[i as int]);
        }
        let f = &response_files[i];
        match f {
            SyncResponseFile::Add { path, content, status } => {
                if !status.add_add_conflict() {
                    tree.insert(path.clone(), crate::reconcile::clone_bytes(content));
                }
            },
            SyncResponseFile::Update { path, content, status } => {
                let skip = status.edit_delete_conflict() || status.delete_edit_conflict()
                    || status.edit_edit_conflict();
                if !skip {
                    tree.insert(path.clone(), crate::reconcile::clone_bytes(content));
                }
            },
            SyncResponseFile::Delete { path, .. } => {
                tree.remove(path);
            },
        }
    }
    proof {
        assert(files.take(n as int) =~= files);
    }
}

} // verus!
