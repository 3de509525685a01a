use fastn::history::derive_manifest;
use fastn::merge::merge_texts;
use fastn::protocol::{SyncRequest, SyncRequestFile, SyncResponseFile, SyncStatus};
use fastn::reconcile::{do_sync, SyncState};
use fastn::worker::sync_worker;

fn add(path: &str, content: &str) -> SyncRequestFile {
    SyncRequestFile::Add {
        path: path.to_string(),
        content: content.as_bytes().to_vec(),
        src_cr: None,
    }
}

fn update(path: &str, content: &[u8], version: i32) -> SyncRequestFile {
    SyncRequestFile::Update {
        path: path.to_string(),
        content: content.to_vec(),
        version,
        src_cr: None,
    }
}

fn delete(path: &str, version: i32) -> SyncRequestFile {
    SyncRequestFile::Delete { path: path.to_string(), version, src_cr: None }
}

#[test]
fn clean_three_way_merge_round_trip() {
    // ours edits one line, theirs another, with untouched text between:
    // the merge succeeds and carries both edits
    let merged = merge_texts(
        "a\nb\nc\nd\ne\n",
        "a\nB\nc\nd\ne\n",
        "a\nb\nc\nD\ne\n",
    );
    assert_eq!(merged, Ok("a\nB\nc\nD\ne\n".to_string()));
}

#[test]
fn adjacent_line_edits_conflict() {
    // edits to neighbouring lines fall in one hunk and conflict
    let merged = merge_texts("a\nb\nc\n", "a\nB\nc\n", "a\nb\nC\n");
    let conflicted = merged.expect_err("neighbouring edits conflict");
    assert!(conflicted.contains("B"));
    assert!(conflicted.contains("C"));
}

#[test]
fn conflicting_three_way_merge() {
    let merged = merge_texts("a\n", "x\n", "y\n");
    let conflicted = merged.expect_err("same-line edits must conflict");
    assert!(conflicted.contains("x"));
    assert!(conflicted.contains("y"));
    assert!(conflicted.contains("<<<<<<<"));
    assert!(conflicted.contains(">>>>>>>"));
}

#[test]
fn clean_merge_applies_and_bumps_version() {
    let mut state = SyncState::new();
    do_sync(&mut state, &vec![add("p.ftd", "a\nb\nc\nd\ne\n")]).unwrap();
    do_sync(&mut state, &vec![update("p.ftd", b"a\nB\nc\nd\ne\n", 1)]).unwrap();
    // a second client still at version 1 sends a disjoint edit
    let synced = do_sync(&mut state, &vec![update("p.ftd", b"a\nb\nc\nD\ne\n", 1)]).unwrap();
    let resolved = synced.get(&"p.ftd".to_string()).unwrap();
    match resolved {
        SyncResponseFile::Update { status, content, .. } => {
            assert_eq!(*status, SyncStatus::NoConflict);
            assert_eq!(content.as_slice(), b"a\nB\nc\nD\ne\n");
        }
        _ => panic!("expected an update resolution"),
    }
    let manifest = derive_manifest(&state.log, true);
    let edit = manifest.get(&"p.ftd".to_string()).unwrap();
    assert_eq!(edit.version, 3);
}

#[test]
fn add_add_conflict_leaves_remote_untouched() {
    let mut state = SyncState::new();
    do_sync(&mut state, &vec![add("p", "remote")]).unwrap();
    let log_len = state.log.len();
    let synced = do_sync(&mut state, &vec![add("p", "client-content")]).unwrap();
    let resolved = synced.get(&"p".to_string()).unwrap();
    match resolved {
        SyncResponseFile::Add { status, content, .. } => {
            assert_eq!(*status, SyncStatus::CloneAddedRemoteAdded);
            assert_eq!(content.as_slice(), b"client-content");
        }
        _ => panic!("expected an add resolution"),
    }
    assert_eq!(state.log.len(), log_len);
    let tree = state.tree.get(&"p".to_string()).unwrap();
    assert_eq!(tree.as_slice(), b"remote");
}

#[test]
fn stale_delete_recovers_content() {
    let mut state = SyncState::new();
    do_sync(&mut state, &vec![add("p", "v1")]).unwrap();
    do_sync(&mut state, &vec![update("p", b"v2", 1)]).unwrap();
    do_sync(&mut state, &vec![update("p", b"v3", 2)]).unwrap();
    do_sync(&mut state, &vec![update("p", b"v4", 3)]).unwrap();
    do_sync(&mut state, &vec![update("p", b"v5", 4)]).unwrap();
    let log_len = state.log.len();
    let synced = do_sync(&mut state, &vec![delete("p", 3)]).unwrap();
    let resolved = synced.get(&"p".to_string()).unwrap();
    match resolved {
        SyncResponseFile::Update { status, content, .. } => {
            assert_eq!(*status, SyncStatus::CloneDeletedRemoteEdited);
            assert_eq!(content.as_slice(), b"v5");
        }
        _ => panic!("expected an update resolution carrying the remote bytes"),
    }
    assert_eq!(state.log.len(), log_len);
    assert!(state.tree.get(&"p".to_string()).is_some());
}

#[test]
fn idempotent_delete_of_absent_path() {
    let mut state = SyncState::new();
    do_sync(&mut state, &vec![add("kept", "k")]).unwrap();
    let log_len = state.log.len();
    let first = do_sync(&mut state, &vec![delete("ghost", 1)]).unwrap();
    assert_eq!(first.len(), 0);
    assert_eq!(state.log.len(), log_len);
    let second = do_sync(&mut state, &vec![delete("ghost", 1)]).unwrap();
    assert_eq!(second.len(), 0);
    assert_eq!(state.log.len(), log_len);
}

#[test]
fn applied_delete_removes_and_logs() {
    let mut state = SyncState::new();
    do_sync(&mut state, &vec![add("p", "v1")]).unwrap();
    let synced = do_sync(&mut state, &vec![delete("p", 1)]).unwrap();
    assert_eq!(synced.len(), 0);
    assert!(state.tree.get(&"p".to_string()).is_none());
    let full = derive_manifest(&state.log, true);
    assert!(full.get(&"p".to_string()).unwrap().is_deleted());
    let live = derive_manifest(&state.log, false);
    assert!(live.get(&"p".to_string()).is_none());
}

#[test]
fn undecodable_update_aborts_the_batch() {
    let mut state = SyncState::new();
    do_sync(&mut state, &vec![add("p", "v1")]).unwrap();
    do_sync(&mut state, &vec![update("p", b"v2", 1)]).unwrap();
    let log_len = state.log.len();
    let result = do_sync(&mut state, &vec![update("p", &[0xff, 0xfe], 1)]);
    assert!(result.is_err());
    assert_eq!(state.log.len(), log_len);
}

#[test]
fn undecodable_stored_text_downgrades_to_conflict() {
    let mut state = SyncState::new();
    do_sync(&mut state, &vec![add("p", "v1 text")]).unwrap();
    // the remote's latest version is raw bytes, not text
    do_sync(&mut state, &vec![update("p", &[0xff, 0xfe], 1)]).unwrap();
    let log_len = state.log.len();
    // a stale client update needs "theirs", which cannot be read as text:
    // an encoding fault, downgraded to a conflict rather than an error
    let synced = do_sync(&mut state, &vec![update("p", b"mine", 1)]).unwrap();
    let resolved = synced.get(&"p".to_string()).unwrap();
    match resolved {
        SyncResponseFile::Update { status, content, .. } => {
            assert_eq!(*status, SyncStatus::RegularConflict);
            assert_eq!(content.as_slice(), b"mine");
        }
        _ => panic!("expected a conflict resolution"),
    }
    assert_eq!(state.log.len(), log_len);
}

#[test]
fn end_to_end_two_clients() {
    let mut remote = SyncState::new();

    // client A adds the file
    let first = sync_worker(
        &mut remote,
        &SyncRequest {
            package_name: "demo".to_string(),
            files: vec![add("p", "a\nb\nc\nd\ne\n")],
            history: String::new(),
        },
    )
    .unwrap();
    let history_v1 = first.latest_ftd.clone();

    // client A updates p from baseline 1; remote moves to version 2
    let second = sync_worker(
        &mut remote,
        &SyncRequest {
            package_name: "demo".to_string(),
            files: vec![update("p", b"a\nB\nc\nd\ne\n", 1)],
            history: history_v1.clone(),
        },
    )
    .unwrap();
    let history_a = second.latest_ftd.clone();

    // client B, still at baseline 1, sends a disjoint edit: three-way merge
    let third = sync_worker(
        &mut remote,
        &SyncRequest {
            package_name: "demo".to_string(),
            files: vec![update("p", b"a\nb\nc\nD\ne\n", 1)],
            history: history_v1,
        },
    )
    .unwrap();
    let merged = third
        .files
        .iter()
        .find(|f| f.path() == "p")
        .expect("the merged file is in the response");
    match merged {
        SyncResponseFile::Update { status, content, .. } => {
            assert_eq!(*status, SyncStatus::NoConflict);
            assert_eq!(content.as_slice(), b"a\nB\nc\nD\ne\n");
        }
        _ => panic!("expected an update resolution"),
    }
    let manifest = derive_manifest(&remote.log, true);
    assert_eq!(manifest.get(&"p".to_string()).unwrap().version, 3);

    // B's workspace baseline moves to version 3
    let mut workspace = fastn::pathmap::PathMap::new();
    fastn::workspace::update_workspace(&third.files, &manifest, &mut workspace);
    let entry = workspace.get(&"p".to_string()).unwrap();
    assert_eq!(entry.version, Some(3));
    assert_eq!(entry.deleted, Some(false));

    // A syncs with no request files: the differ reports p as changed
    let fourth = sync_worker(
        &mut remote,
        &SyncRequest {
            package_name: "demo".to_string(),
            files: vec![],
            history: history_a,
        },
    )
    .unwrap();
    let seen = fourth
        .files
        .iter()
        .find(|f| f.path() == "p")
        .expect("the remote-side change reaches client A");
    match seen {
        SyncResponseFile::Add { status, content, .. } => {
            assert_eq!(*status, SyncStatus::NoConflict);
            assert_eq!(content.as_slice(), b"a\nB\nc\nD\ne\n");
        }
        _ => panic!("expected the differ to hand back the current content"),
    }
}

#[test]
fn history_files_are_served_with_version_names() {
    let mut remote = SyncState::new();
    let first = sync_worker(
        &mut remote,
        &SyncRequest {
            package_name: "demo".to_string(),
            files: vec![add("doc.ftd", "one")],
            history: String::new(),
        },
    )
    .unwrap();
    let history_v1 = first.latest_ftd.clone();
    sync_worker(
        &mut remote,
        &SyncRequest {
            package_name: "demo".to_string(),
            files: vec![update("doc.ftd", b"two", 1)],
            history: history_v1.clone(),
        },
    )
    .unwrap();
    // a client still at version 1 asks with an empty batch
    let catchup = sync_worker(
        &mut remote,
        &SyncRequest {
            package_name: "demo".to_string(),
            files: vec![],
            history: history_v1,
        },
    )
    .unwrap();
    let wanted = catchup
        .dot_history
        .iter()
        .find(|f| f.path == "doc.2.ftd")
        .expect("the missing version is served under its storage name");
    assert_eq!(wanted.content.as_slice(), b"two");
}

#[test]
fn envelope_unwrapping() {
    let ok = fastn::worker::unwrap_envelope(
        true,
        None,
        Some(fastn::protocol::SyncResponse {
            files: vec![],
            dot_history: vec![],
            latest_ftd: String::new(),
        }),
    );
    assert!(ok.is_ok());
    let failed = fastn::worker::unwrap_envelope(false, Some("boom".to_string()), None);
    match failed {
        Err(e) => assert_eq!(e.message(), "boom"),
        Ok(_) => panic!("a failed envelope must not unwrap"),
    }
    let empty = fastn::worker::unwrap_envelope(true, None, None);
    match empty {
        Err(e) => assert_eq!(e.message(), "Unexpected API behaviour"),
        Ok(_) => panic!("an empty envelope must not unwrap"),
    }
}

#[test]
fn client_tree_application_skips_conflicts() {
    let mut tree = fastn::pathmap::PathMap::new();
    tree.insert("local".to_string(), b"mine".to_vec());
    let files = vec![
        SyncResponseFile::Add {
            path: "new".to_string(),
            status: SyncStatus::NoConflict,
            content: b"fresh".to_vec(),
        },
        SyncResponseFile::Update {
            path: "local".to_string(),
            status: SyncStatus::RegularConflict,
            content: b"conflicted".to_vec(),
        },
        SyncResponseFile::Delete {
            path: "gone".to_string(),
            status: SyncStatus::NoConflict,
            content: vec![],
        },
    ];
    fastn::workspace::update_current_directory(&mut tree, &files);
    assert_eq!(tree.get(&"new".to_string()).unwrap().as_slice(), b"fresh");
    assert_eq!(tree.get(&"local".to_string()).unwrap().as_slice(), b"mine");
    assert!(tree.get(&"gone".to_string()).is_none());
}
