//! The snapshot differ and the response assembler: what of the remote's
//! state the client has not seen yet, and the full answer built from it.

use vstd::prelude::*;

use crate::history::{manifest_of, FileEdit, FileEditView, FileOperation, Manifest};
use crate::pathmap::PathMap;
use crate::protocol::{File, SyncResponseFile, SyncResponseFileView, SyncStatus};
use crate::reconcile::SyncState;
use crate::store::holds_version;
use crate::textutil::{snapshot_id, snapshot_name};

verus! {

/// The paths of the remote manifest the client has not caught up with:
/// unknown to the client, or moved past the client's version; each mapped
/// to the remote's operation.
pub open spec fn snapshot_diff_of(
    remote: Map<Seq<char>, FileEditView>,
    client: Map<Seq<char>, FileEditView>,
) -> Map<Seq<char>, FileOperation> {
    Map::new(
        |p: Seq<char>|
            remote.contains_key(p) && (!client.contains_key(p) || client[p].version
                < remote[p].version),
        |p: Seq<char>| remote[p].operation,
    )
}

/// Compares the remote manifest with the client's last-known manifest and
/// yields every remote-side change the client has not seen: a pure,
/// order-independent comparison.
pub fn snapshot_diff(remote_manifest: &Manifest, client_latest: &Manifest) -> (diff: PathMap<
    FileOperation,
>)
    ensures
        diff@ == snapshot_diff_of(remote_manifest@, client_latest@),
{
    let mut diff: PathMap<FileOperation> = PathMap::new();
    let n = remote_manifest.len();
    for i in 0..n
        invariant
            n == remote_manifest.keys_in_order().len(),
            forall|p: Seq<char>| #[trigger]
                diff@.contains_key(p) <==> exists|j: int|
                    0 <= j < i && remote_manifest.keys_in_order()[j] == p && snapshot_diff_of(
                        remote_manifest@,
                        client_latest@,
                    ).contains_key(p),
            forall|p: Seq<char>| #[trigger]
                diff@.contains_key(p) ==> diff@[p] == remote_manifest@[p].operation,
    {
        remote_manifest.iteration_facts();
        let ghost diff_before = diff@;
        let path = remote_manifest.key_at(i);
        let edit = remote_manifest.value_at(i);
        let wanted = match client_latest.get(path) {
            Some(client_edit) => client_edit.version < edit.version,
            None => true,
        };
        if wanted {
            diff.insert(path.clone(), edit.operation);
        }
        proof {
            assert forall|p: Seq<char>| #[trigger] diff@.contains_key(p) <==> exists|j: int|
                0 <= j < i + 1 && remote_manifest.keys_in_order()[j] == p && snapshot_diff_of(
                    remote_manifest@,
                    client_latest@,
                ).contains_key(p) by {
                if diff@.contains_key(p) {
                    if diff_before.contains_key(p) {
                        let j = choose|j: int|
                            0 <= j < i && remote_manifest.keys_in_order()[j] == p
                                && snapshot_diff_of(
                                remote_manifest@,
                                client_latest@,
                            ).contains_key(p);
                        assert(0 <= j < i + 1 && remote_manifest.keys_in_order()[j] == p);
                    } else {
                        assert(p == path@);
                        assert(remote_manifest.keys_in_order()[i as int] == p);
                    }
                } else {
                    if exists|j: int|
                        0 <= j < i + 1 && remote_manifest.keys_in_order()[j] == p
                            && snapshot_diff_of(remote_manifest@, client_latest@).contains_key(p) {
                        let j = choose|j: int|
                            0 <= j < i + 1 && remote_manifest.keys_in_order()[j] == p
                                && snapshot_diff_of(
                                remote_manifest@,
                                client_latest@,
                            ).contains_key(p);
                        if j < i {
                            assert(diff_before.contains_key(p));
                        } else {
                            assert(p == path@ && wanted);
                            assert(false);
                        }
                    }
                }
            }
        }
    }
    remote_manifest.iteration_facts();
    proof {
        assert forall|p: Seq<char>| #[trigger]
            diff@.contains_key(p) <==> snapshot_diff_of(
                remote_manifest@,
                client_latest@,
            ).contains_key(p) by {
            if snapshot_diff_of(remote_manifest@, client_latest@).contains_key(p) {
                assert(remote_manifest@.contains_key(p));
                let j = choose|j: int|
                    0 <= j < remote_manifest.keys_in_order().len()
                        && remote_manifest.keys_in_order()[j] == p;
                assert(0 <= j < n && remote_manifest.keys_in_order()[j] == p);
            }
        }
        assert(diff@ =~= snapshot_diff_of(remote_manifest@, client_latest@));
    }
    diff
}

/// What the assembler adds for one differing path the reconciler did not
/// already resolve: a plain deletion notice, or the remote tree's current
/// content as an addition.
pub open spec fn diff_entry(
    remote: Map<Seq<char>, FileEditView>,
    tree: Map<Seq<char>, Seq<u8>>,
    p: Seq<char>,
) -> SyncResponseFileView {
    if remote[p].operation is Deleted {
        SyncResponseFileView::Delete {
            path: p,
            status: SyncStatus::NoConflict,
            content: Seq::empty(),
        }
    } else {
        SyncResponseFileView::Add { path: p, status: SyncStatus::NoConflict, content: tree[p] }
    }
}

/// The full response file map: the reconciler's entries first, then one
/// entry per remote-side change the client has not seen, then a deletion
/// notice per path only the client still knows.
pub open spec fn assembled_responses(
    resolved: Map<Seq<char>, SyncResponseFileView>,
    remote: Map<Seq<char>, FileEditView>,
    client: Map<Seq<char>, FileEditView>,
    tree: Map<Seq<char>, Seq<u8>>,
) -> Map<Seq<char>, SyncResponseFileView> {
    Map::new(
        |p: Seq<char>|
            resolved.contains_key(p) || snapshot_diff_of(remote, client).contains_key(p) || (
            client.contains_key(p) && !remote.contains_key(p)),
        |p: Seq<char>|
            if resolved.contains_key(p) {
                resolved[p]
            } else if snapshot_diff_of(remote, client).contains_key(p) {
                diff_entry(remote, tree, p)
            } else {
                SyncResponseFileView::Delete {
                    path: p,
                    status: SyncStatus::NoConflict,
                    content: Seq::empty(),
                }
            },
    )
}

/// Extends the reconciler's resolutions with every change the client's
/// batch never mentioned: remote-side edits and deletions found by the
/// differ, and deletion notices for paths the remote no longer has.
/// Entries the reconciler resolved are never overwritten.
pub fn client_current_files(
    remote_manifest: &Manifest,
    client_latest: &Manifest,
    tree: &PathMap<Vec<u8>>,
    synced_files: &mut PathMap<SyncResponseFile>,
)
    requires
        forall|p: Seq<char>| #[trigger]
            remote_manifest@.contains_key(p) && !(remote_manifest@[p].operation is Deleted)
                ==> tree@.contains_key(p),
    ensures
        final(synced_files)@ == assembled_responses(
            old(synced_files)@,
            remote_manifest@,
            client_latest@,
            tree@,
        ),
{
    let ghost target = assembled_responses(
        old(synced_files)@,
        remote_manifest@,
        client_latest@,
        tree@,
    );
    let diff = snapshot_diff(remote_manifest, client_latest);
    let dn = diff.len();
    for i in 0..dn
        invariant
            dn == diff.keys_in_order().len(),
            diff@ == snapshot_diff_of(remote_manifest@, client_latest@),
            forall|p: Seq<char>| #[trigger]
                remote_manifest@.contains_key(p) && !(remote_manifest@[p].operation is Deleted)
                    ==> tree@.contains_key(p),
            target == assembled_responses(
                old(synced_files)@,
                remote_manifest@,
                client_latest@,
                tree@,
            ),
            forall|p: Seq<char>| #[trigger]
                synced_files@.contains_key(p) <==> (old(synced_files)@.contains_key(p) || exists|
                    j: int,
                |
                    0 <= j < i && diff.keys_in_order()[j] == p),
            forall|p: Seq<char>| #[trigger]
                synced_files@.contains_key(p) ==> synced_files@[p] == target[p],
    {
        diff.iteration_facts();
        let ghost before = synced_files@;
        let path = diff.key_at(i);
        let operation = diff.value_at(i);
        if !synced_files.contains_key(path) {
            if operation.is_deleted() {
                synced_files.insert(
                    path.clone(),
                    SyncResponseFile::Delete {
                        path: path.clone(),
                        status: SyncStatus::NoConflict,
                        content: Vec::new(),
                    },
                );
            } else {
                let content = match tree.get(path) {
                    Some(c) => crate::reconcile::clone_bytes(c),
                    None => {
                        proof {
                            assert(remote_manifest@.contains_key(path@));
                            assert(false);
                        }
                        unreached()
                    },
                };
                synced_files.insert(
                    path.clone(),
                    SyncResponseFile::Add {
                        path: path.clone(),
                        status: SyncStatus::NoConflict,
                        content,
                    },
                );
            }
            proof {
                assert(target.contains_key(path@));
                assert(!old(synced_files)@.contains_key(path@)) by {
                    if old(synced_files)@.contains_key(path@) {
                        assert(before.contains_key(path@));
                    }
                }
                assert(target[path@] == diff_entry(remote_manifest@, tree@, path@));
                assert(synced_files@[path@] == target[path@]);
            }
        }
        proof {
            assert forall|p: Seq<char>| #[trigger]
                synced_files@.contains_key(p) <==> (old(synced_files)@.contains_key(p) || exists|
                    j: int,
                |
                    0 <= j < i + 1 && diff.keys_in_order()[j] == p) by {
                if synced_files@.contains_key(p) && !before.contains_key(p) {
                    assert(p == path@);
                    assert(diff.keys_in_order()[i as int] == p);
                }
                if before.contains_key(p) {
                    if !old(synced_files)@.contains_key(p) {
                        let j = choose|j: int| 0 <= j < i && diff.keys_in_order()[j] == p;
                        assert(0 <= j < i + 1 && diff.keys_in_order()[j] == p);
                    }
                }
                if exists|j: int| 0 <= j < i + 1 && diff.keys_in_order()[j] == p {
                    let j = choose|j: int| 0 <= j < i + 1 && diff.keys_in_order()[j] == p;
                    if j < i {
                        assert(before.contains_key(p));
                    } else {
                        assert(p == path@);
                        assert(synced_files@.contains_key(p));
                    }
                }
            }
        }
    }
    // paths only the client still knows are deletions to send
    let cn = client_latest.len();
    for i in 0..cn
        invariant
            cn == client_latest.keys_in_order().len(),
            target == assembled_responses(
                old(synced_files)@,
                remote_manifest@,
                client_latest@,
                tree@,
            ),
            diff@ == snapshot_diff_of(remote_manifest@, client_latest@),
            dn == diff.keys_in_order().len(),
            forall|p: Seq<char>| #[trigger]
                synced_files@.contains_key(p) <==> (old(synced_files)@.contains_key(p) || (exists|
                    j: int,
                |
                    0 <= j < dn && diff.keys_in_order()[j] == p) || exists|j: int|
                    0 <= j < i && client_latest.keys_in_order()[j] == p
                        && !remote_manifest@.contains_key(p)),
            forall|p: Seq<char>| #[trigger]
                synced_files@.contains_key(p) ==> synced_files@[p] == target[p],
    {
        client_latest.iteration_facts();
        diff.iteration_facts();
        let ghost before = synced_files@;
        let path = client_latest.key_at(i);
        if !remote_manifest.contains_key(path) && !synced_files.contains_key(path) {
            synced_files.insert(
                path.clone(),
                SyncResponseFile::Delete {
                    path: path.clone(),
                    status: SyncStatus::NoConflict,
                    content: Vec::new(),
                },
            );
            proof {
                assert(target.contains_key(path@));
                assert(!old(synced_files)@.contains_key(path@)) by {
                    if old(synced_files)@.contains_key(path@) {
                        assert(before.contains_key(path@));
                    }
                }
                assert(!snapshot_diff_of(remote_manifest@, client_latest@).contains_key(path@));
                assert(synced_files@[path@] == target[path@]);
            }
        }
        proof {
            assert forall|p: Seq<char>| #[trigger]
                synced_files@.contains_key(p) <==> (old(synced_files)@.contains_key(p) || (exists|
                    j: int,
                |
                    0 <= j < dn && diff.keys_in_order()[j] == p) || exists|j: int|
                    0 <= j < i + 1 && client_latest.keys_in_order()[j] == p
                        && !remote_manifest@.contains_key(p)) by {
                if synced_files@.contains_key(p) && !before.contains_key(p) {
                    assert(p == path@);
                    assert(client_latest.keys_in_order()[i as int] == p);
                }
                if before.contains_key(p) {
                    assert(synced_files@.contains_key(p));
                }
                if exists|j: int|
                    0 <= j < i + 1 && client_latest.keys_in_order()[j] == p
                        && !remote_manifest@.contains_key(p) {
                    let j = choose|j: int|
                        0 <= j < i + 1 && client_latest.keys_in_order()[j] == p
                            && !remote_manifest@.contains_key(p);
                    if j < i {
                        assert(before.contains_key(p));
                    } else {
                        assert(p == path@);
                        if !before.contains_key(p) {
                            assert(synced_files@.contains_key(p));
                        }
                    }
                }
            }
        }
    }
    client_latest.iteration_facts();
    diff.iteration_facts();
    proof {
        assert forall|p: Seq<char>| #[trigger]
            synced_files@.contains_key(p) <==> target.contains_key(p) by {
            if target.contains_key(p) && !old(synced_files)@.contains_key(p) {
                if snapshot_diff_of(remote_manifest@, client_latest@).contains_key(p) {
                    assert(diff@.contains_key(p));
                    let j = choose|j: int|
                        0 <= j < diff.keys_in_order().len() && diff.keys_in_order()[j] == p;
                    assert(0 <= j < dn && diff.keys_in_order()[j] == p);
                } else {
                    assert(client_latest@.contains_key(p) && !remote_manifest@.contains_key(p));
                    let j = choose|j: int|
                        0 <= j < client_latest.keys_in_order().len()
                            && client_latest.keys_in_order()[j] == p;
                    assert(0 <= j < cn && client_latest.keys_in_order()[j] == p
                        && !remote_manifest@.contains_key(p));
                }
            }
            if synced_files@.contains_key(p) && !old(synced_files)@.contains_key(p) {
                if exists|j: int| 0 <= j < dn && diff.keys_in_order()[j] == p {
                    assert(diff@.contains_key(p));
                }
            }
        }
        assert(synced_files@ =~= target);
    }
}

/// The names and bytes of every stored version of a differing path that
/// lies past what the client has: what `history_files` returns, as a set
/// of conditions each returned file meets.
pub open spec fn history_file_ok(
    s: &SyncState,
    remote: Map<Seq<char>, FileEditView>,
    client: Map<Seq<char>, FileEditView>,
    f: crate::protocol::FileView,
) -> bool {
    exists|p: Seq<char>, v: int|
        {
            &&& snapshot_diff_of(remote, client).contains_key(p)
            &&& #[trigger] s.store@.contains_key((p, v))
            &&& (client.contains_key(p) ==> v > client[p].version)
            &&& f.path == snapshot_name(p, v)
            &&& f.content == s.store@[(p, v)]
        }
}

/// One stored version already stands in the result, under its storage
/// name and with its exact bytes.
pub open spec fn served(
    r: Seq<File>,
    store: Map<(Seq<char>, int), Seq<u8>>,
    p: Seq<char>,
    v: int,
) -> bool {
    exists|i: int|
        0 <= i < r.len() && (#[trigger] r[i])@.path == snapshot_name(p, v) && r[i]@.content
            == store[(p, v)]
}

/// Collects, for every differing path, the stored versions the client
/// lacks: each strictly past the client's last-known version, under its
/// storage name, with its exact bytes — and every such version is
/// collected.
pub fn history_files(
    state: &SyncState,
    remote_manifest: &Manifest,
    client_latest: &Manifest,
) -> (r: Vec<File>)
    requires
        forall|p: Seq<char>, v: int| #[trigger]
            state.store@.contains_key((p, v)) ==> 0 <= v,
    ensures
        forall|i: int|
            0 <= i < r@.len() ==> history_file_ok(
                state,
                remote_manifest@,
                client_latest@,
                #[trigger] r@[i]@,
            ),
        forall|p: Seq<char>, v: int|
            snapshot_diff_of(remote_manifest@, client_latest@).contains_key(p) && #[trigger] state.store@.contains_key(
                (p, v),
            ) && (client_latest@.contains_key(p) ==> v > client_latest@[p].version) ==> served(
                r@,
                state.store@,
                p,
                v,
            ),
{
    let mut r: Vec<File> = Vec::new();
    let diff = snapshot_diff(remote_manifest, client_latest);
    let dn = diff.len();
    for i in 0..dn
        invariant
            dn == diff.keys_in_order().len(),
            diff@ == snapshot_diff_of(remote_manifest@, client_latest@),
            forall|p: Seq<char>, v: int| #[trigger]
                state.store@.contains_key((p, v)) ==> 0 <= v,
            forall|j: int|
                0 <= j < r@.len() ==> history_file_ok(
                    state,
                    remote_manifest@,
                    client_latest@,
                    #[trigger] r@[j]@,
                ),
            forall|p: Seq<char>, v: int|
                (exists|jj: int| 0 <= jj < i && diff.keys_in_order()[jj] == p)
                    && #[trigger] state.store@.contains_key((p, v)) && (
                client_latest@.contains_key(p) ==> v > client_latest@[p].version) ==> served(
                    r@,
                    state.store@,
                    p,
                    v,
                ),
    {
        diff.iteration_facts();
        let ghost r_outer = r@;
        let path = diff.key_at(i);
        let client_version: Option<i32> = match client_latest.get(path) {
            Some(edit) => Some(edit.version),
            None => None,
        };
        let versions = state.store.versions_of(path);
        let vn = versions.len();
        for k in 0..vn
            invariant
                vn == versions@.len(),
                diff@ == snapshot_diff_of(remote_manifest@, client_latest@),
                diff@.contains_key(path@),
                forall|v: int| #[trigger]
                    holds_version(versions@, v) <==> state.store@.contains_key((path@, v)),
                forall|p: Seq<char>, v: int| #[trigger]
                    state.store@.contains_key((p, v)) ==> 0 <= v,
                match client_version {
                    Some(cv) => client_latest@.contains_key(path@) && cv as int
                        == client_latest@[path@].version,
                    None => !client_latest@.contains_key(path@),
                },
                forall|j: int|
                    0 <= j < r@.len() ==> history_file_ok(
                        state,
                        remote_manifest@,
                        client_latest@,
                        #[trigger] r@[j]@,
                    ),
                forall|p: Seq<char>, v: int|
                    served(r_outer, state.store@, p, v) ==> #[trigger] served(
                        r@,
                        state.store@,
                        p,
                        v,
                    ),
                forall|v: int|
                    (exists|kk: int| 0 <= kk < k && versions@[kk] as int == v)
                        && #[trigger] state.store@.contains_key((path@, v)) && (
                    client_latest@.contains_key(path@) ==> v > client_latest@[path@].version)
                        ==> served(r@, state.store@, path@, v),
        {
            let v = versions[k];
            let wanted = match client_version {
                Some(cv) => v > cv,
                None => true,
            };
            let ghost r_before = r@;
            if wanted {
                proof {
                    assert(holds_version(versions@, v as int)) by {
                        assert(versions@[k as int] as int == v as int);
                    }
                }
                let content = match state.store.read(path, v) {
                    Some(c) => crate::reconcile::clone_bytes(c),
                    None => {
                        proof {
                            assert(false);
                        }
                        unreached()
                    },
                };
                let name = snapshot_id(path, v);
                r.push(File { path: name, content });
                proof {
                    let f = r@[r@.len() - 1]@;
                    assert(f.path == snapshot_name(path@, v as int));
                    assert(f.content == state.store@[(path@, v as int)]);
                    assert(history_file_ok(state, remote_manifest@, client_latest@, f)) by {
                        assert(snapshot_diff_of(remote_manifest@, client_latest@).contains_key(
                            path@,
                        ) && state.store@.contains_key((path@, v as int)) && (
                        client_latest@.contains_key(path@) ==> v as int
                            > client_latest@[path@].version) && f.path == snapshot_name(
                            path@,
                            v as int,
                        ) && f.content == state.store@[(path@, v as int)]);
                    }
                    assert forall|j: int| 0 <= j < r@.len() implies history_file_ok(
                        state,
                        remote_manifest@,
                        client_latest@,
                        #[trigger] r@[j]@,
                    ) by {
                        if j < r@.len() - 1 {
                            assert(r@[j] == r_before[j]);
                        }
                    }
                }
            }
            proof {
                assert forall|p: Seq<char>, vv: int|
                    served(r_before, state.store@, p, vv) implies #[trigger] served(
                    r@,
                    state.store@,
                    p,
                    vv,
                ) by {
                    let idx = choose|idx: int|
                        0 <= idx < r_before.len() && (#[trigger] r_before[idx])@.path
                            == snapshot_name(p, vv) && r_before[idx]@.content == state.store@[
                            (p, vv)
                        ];
                    assert(r@[idx] == r_before[idx]);
                }
                assert forall|vv: int|
                    (exists|kk: int| 0 <= kk < k + 1 && versions@[kk] as int == vv)
                        && #[trigger] state.store@.contains_key((path@, vv)) && (
                    client_latest@.contains_key(path@) ==> vv > client_latest@[path@].version)
                        implies served(r@, state.store@, path@, vv) by {
                    let kk = choose|kk: int| 0 <= kk < k + 1 && versions@[kk] as int == vv;
                    if kk < k {
                        assert(served(r_before, state.store@, path@, vv));
                    } else {
                        assert(vv == v as int);
                        assert(wanted);
                        assert(r@[r@.len() - 1]@.path == snapshot_name(path@, vv));
                        assert(served(r@, state.store@, path@, vv));
                    }
                }
            }
        }
        proof {
            assert forall|p: Seq<char>, v: int|
                (exists|jj: int| 0 <= jj < i + 1 && diff.keys_in_order()[jj] == p)
                    && #[trigger] state.store@.contains_key((p, v)) && (
                client_latest@.contains_key(p) ==> v > client_latest@[p].version) implies served(
                r@,
                state.store@,
                p,
                v,
            ) by {
                let jj = choose|jj: int| 0 <= jj < i + 1 && diff.keys_in_order()[jj] == p;
                if jj < i {
                    assert(served(r_outer, state.store@, p, v));
                } else {
                    assert(p == path@);
                    assert(holds_version(versions@, v));
                    let kk = choose|kk: int| 0 <= kk < versions@.len() && versions@[kk] as int == v;
                    assert(exists|kk2: int| 0 <= kk2 < vn && versions@[kk2] as int == v);
                }
            }
        }
    }
    diff.iteration_facts();
    proof {
        assert forall|p: Seq<char>, v: int|
            snapshot_diff_of(remote_manifest@, client_latest@).contains_key(p)
                && #[trigger] state.store@.contains_key((p, v)) && (client_latest@.contains_key(p)
                ==> v > client_latest@[p].version) implies served(r@, state.store@, p, v) by {
            assert(diff@.contains_key(p));
            let jj = choose|jj: int|
                0 <= jj < diff.keys_in_order().len() && diff.keys_in_order()[jj] == p;
            assert(exists|jj2: int| 0 <= jj2 < dn && diff.keys_in_order()[jj2] == p);
        }
    }
    r
}

} // verus!
