//! One whole server-side sync transaction: reconcile the batch, find what
//! else the client missed, and assemble the full response.

use vstd::prelude::*;

use crate::differ::{assembled_responses, client_current_files, history_file_ok, history_files};
use crate::error::Error;
use crate::history::{derive_manifest, live_manifest_of, log_wf, manifest_of, LogEntryView};
use crate::logtext::{entries_line_safe, entry_line_safe, log_text, log_to_text, text_to_log};
use crate::pathmap::PathMap;
use crate::protocol::{SyncRequest, SyncRequestFileView, SyncResponse, SyncResponseFile};
use crate::reconcile::{batch_fold, do_sync, sync_state_wf, views_of, SyncState};

verus! {

/// A request file the ledger can carry: its path has no newline and its
/// provenance number fits a version.
pub open spec fn request_file_safe(f: SyncRequestFileView) -> bool {
    &&& !f.path().contains('\n')
    &&& match f {
        SyncRequestFileView::Add { src_cr, .. } => match src_cr {
            Some(n) => 0 <= n <= i32::MAX as int,
            None => true,
        },
        SyncRequestFileView::Update { src_cr, .. } => match src_cr {
            Some(n) => 0 <= n <= i32::MAX as int,
            None => true,
        },
        SyncRequestFileView::Delete { src_cr, .. } => match src_cr {
            Some(n) => 0 <= n <= i32::MAX as int,
            None => true,
        },
    }
}

/// Every version the store holds is positive, as the log assigns them.
pub open spec fn store_versions_ok(store: Map<(Seq<char>, int), Seq<u8>>) -> bool {
    forall|p: Seq<char>, v: int| #[trigger] store.contains_key((p, v)) ==> 1 <= v
}

/// The response files are exactly the assembled map's entries: each file
/// is the entry under its own path, and every entry appears.
pub open spec fn response_files_match(
    files: Seq<SyncResponseFile>,
    assembled: Map<Seq<char>, crate::protocol::SyncResponseFileView>,
) -> bool {
    &&& forall|i: int|
        0 <= i < files.len() ==> assembled.contains_key((#[trigger] files[i])@.path()) && files[i]@
            == assembled[files[i]@.path()]
    &&& forall|p: Seq<char>| #[trigger]
        assembled.contains_key(p) ==> exists|i: int|
            0 <= i < files.len() && (#[trigger] files[i])@.path() == p
    &&& forall|i: int, j: int|
        0 <= i < j < files.len() ==> (#[trigger] files[i])@.path() != (#[trigger] files[j])@.path()
}

/// Every carried history file is one the client lacks, correctly named
/// and with its exact stored bytes; and every stored version past the
/// client's baseline of a differing path is carried.
pub open spec fn history_files_match(
    s: &SyncState,
    remote: Map<Seq<char>, crate::history::FileEditView>,
    client: Map<Seq<char>, crate::history::FileEditView>,
    files: Seq<crate::protocol::File>,
) -> bool {
    &&& forall|i: int|
        0 <= i < files.len() ==> history_file_ok(s, remote, client, (#[trigger] files[i])@)
    &&& forall|p: Seq<char>, v: int|
        crate::differ::snapshot_diff_of(remote, client).contains_key(p)
            && #[trigger] s.store@.contains_key((p, v)) && (client.contains_key(p) ==> v
            > client[p].version) ==> crate::differ::served(files, s.store@, p, v)
}

/// Processes one sync request against the remote state, as one serialized
/// transaction: reconcile every proposed file, then answer with the
/// resolutions, every other change the client has not seen, the history
/// files it lacks, and the full ledger text.
///
/// `Ok` is owed whenever the client's history text is a well-formed
/// ledger and no update in the batch proposes undecodable content for a
/// merge; on `Err` the log and the store stand untouched.
pub fn sync_worker(state: &mut SyncState, request: &SyncRequest) -> (r: Result<SyncResponse, Error>)
    requires
        sync_state_wf(old(state)),
        store_versions_ok(old(state).store@),
        forall|k: Seq<char>| #[trigger]
            manifest_of(old(state).log@).contains_key(k) ==> manifest_of(old(state).log@)[k].version
                < i32::MAX as int,
        forall|i: int| 0 <= i < old(state).log@.len() ==> entry_line_safe(#[trigger] old(state).log@[i]),
        forall|i: int|
            0 <= i < request.files@.len() ==> request_file_safe(#[trigger] request.files@[i]@),
    ensures
        ({
            let b = batch_fold(
                live_manifest_of(old(state).log@),
                old(state).store@,
                old(state).tree@,
                views_of(request.files@),
            );
            &&& (b.fails ==> r is Err)
            &&& (!b.fails && (exists|cl: Seq<LogEntryView>|
                log_wf(cl) && entries_line_safe(cl) && #[trigger] log_text(cl)
                    == request.history@) ==> r is Ok)
            &&& (r is Err ==> final(state).log@ == old(state).log@ && final(state).store@ == old(
                state,
            ).store@)
            &&& (r is Ok ==> !b.fails && sync_state_wf(final(state)) && store_versions_ok(
                final(state).store@,
            ) && final(state).log@.take(old(state).log@.len() as int) == old(state).log@ && (
            forall|i: int|
                0 <= i < final(state).log@.len() ==> entry_line_safe(
                    #[trigger] final(state).log@[i],
                )))
            &&& (r matches Ok(resp) ==> resp.latest_ftd@ == log_text(final(state).log@) && exists|
                client_log: Seq<LogEntryView>,
            |
                {
                    &&& #[trigger] log_text(client_log) == request.history@
                    &&& response_files_match(
                        resp.files@,
                        assembled_responses(
                            b.responses,
                            manifest_of(final(state).log@),
                            manifest_of(client_log),
                            final(state).tree@,
                        ),
                    )
                    &&& history_files_match(
                        final(state),
                        manifest_of(final(state).log@),
                        manifest_of(client_log),
                        resp.dot_history@,
                    )
                })
        }),
{
    let ghost b = batch_fold(
        live_manifest_of(old(state).log@),
        old(state).store@,
        old(state).tree@,
        views_of(request.files@),
    );
    let client_log = match text_to_log(&request.history) {
        Some(log) => log,
        None => {
            proof {
                assert forall|cl: Seq<LogEntryView>|
                    log_wf(cl) && entries_line_safe(cl) implies #[trigger] log_text(cl)
                    != request.history@ by {}
            }
            return Err(
                Error::APIResponseError(String::from_str("history is not a well-formed ledger")),
            );
        },
    };
    state.log.wf_facts();
    let mut synced = do_sync(state, &request.files)?;
    proof {
        crate::reconcile::lemma_batch_queue_paths(
            live_manifest_of(old(state).log@),
            old(state).store@,
            old(state).tree@,
            views_of(request.files@),
        );
        assert forall|i: int| 0 <= i < state.log@.len() implies entry_line_safe(
            #[trigger] state.log@[i],
        ) by {
            if i < old(state).log@.len() {
                assert(state.log@[i] == state.log@.take(old(state).log@.len() as int)[i]);
            } else {
                assert(b.queue.contains_key(state.log@[i].path));
                let j = choose|j: int|
                    0 <= j < views_of(request.files@).len() && (#[trigger] views_of(
                        request.files@,
                    )[j]).path() == state.log@[i].path && crate::reconcile::step_effect(
                        live_manifest_of(old(state).log@),
                        old(state).store@,
                        views_of(request.files@)[j],
                    ).queued == Some(b.queue[state.log@[i].path]);
                assert(request_file_safe(request.files@[j]@));
                assert(views_of(request.files@)[j] == request.files@[j]@);
            }
        }
        assert(store_versions_ok(state.store@)) by {
            assert forall|p: Seq<char>, v: int| #[trigger]
                state.store@.contains_key((p, v)) implies 1 <= v by {
                if !old(state).store@.contains_key((p, v)) {
                    assert(v == crate::history::next_version_of(old(state).log@, p));
                    if manifest_of(old(state).log@).contains_key(p) {
                        crate::history::lemma_manifest_max(old(state).log@);
                        let i = choose|i: int|
                            0 <= i < old(state).log@.len() && old(state).log@[i].path == p && old(
                                state,
                            ).log@[i].edit == manifest_of(old(state).log@)[p];
                        assert(old(state).log@[i].edit.version >= 1);
                    }
                }
            }
        }
    }
    let remote_manifest = derive_manifest(&state.log, true);
    let client_latest = derive_manifest(&client_log, true);
    client_current_files(&remote_manifest, &client_latest, &state.tree, &mut synced);
    let dot_history = history_files(state, &remote_manifest, &client_latest);
    let latest_ftd = log_to_text(&state.log);
    synced.iteration_facts();
    proof {
        crate::reconcile::lemma_batch_response_paths(
            live_manifest_of(old(state).log@),
            old(state).store@,
            old(state).tree@,
            views_of(request.files@),
        );
    }
    let ghost assembled = assembled_responses(
        b.responses,
        manifest_of(state.log@),
        manifest_of(client_log@),
        state.tree@,
    );
    proof {
        assert(synced@ == assembled);
        assert forall|p: Seq<char>| #[trigger] assembled.contains_key(p) implies assembled[
            p
        ].path() == p by {
            if b.responses.contains_key(p) {
                assert(b.responses[p].path() == p);
            }
        }
    }
    let mut entries = synced.into_entries();
    proof {
        assert forall|p: Seq<char>| #[trigger] assembled.contains_key(p) implies exists|i: int|
            0 <= i < entries@.len() && (#[trigger] entries@[i]).0@ == p by {
            let j = choose|j: int|
                0 <= j < synced.keys_in_order().len() && synced.keys_in_order()[j] == p;
            assert(entries@[j].0@ == p);
        }
        assert forall|i: int, j: int|
            0 <= i < j < entries@.len() implies (#[trigger] entries@[i]).0@ != (
            #[trigger] entries@[j]).0@ by {
            assert(entries@[i].0@ == synced.keys_in_order()[i]);
            assert(entries@[j].0@ == synced.keys_in_order()[j]);
        }
    }
    let mut files: Vec<SyncResponseFile> = Vec::new();
    loop
        invariant
            forall|p: Seq<char>| #[trigger]
                assembled.contains_key(p) ==> assembled[p].path() == p,
            forall|i: int|
                0 <= i < entries@.len() ==> assembled.contains_key(#[trigger] entries@[i].0@)
                    && entries@[i].1@ == assembled[entries@[i].0@],
            forall|i: int|
                0 <= i < files@.len() ==> assembled.contains_key(
                    (#[trigger] files@[i])@.path(),
                ) && files@[i]@ == assembled[files@[i]@.path()],
            forall|p: Seq<char>| #[trigger]
                assembled.contains_key(p) ==> (exists|i: int|
                    0 <= i < files@.len() && (#[trigger] files@[i])@.path() == p) || (exists|i: int|
                    0 <= i < entries@.len() && (#[trigger] entries@[i]).0@ == p),
            forall|i: int, j: int|
                0 <= i < j < entries@.len() ==> (#[trigger] entries@[i]).0@ != (
                #[trigger] entries@[j]).0@,
            forall|i: int, j: int|
                0 <= i < j < files@.len() ==> (#[trigger] files@[i])@.path() != (
                #[trigger] files@[j])@.path(),
            forall|i: int, j: int|
                0 <= i < files@.len() && 0 <= j < entries@.len() ==> (#[trigger] files@[i])@.path()
                    != (#[trigger] entries@[j]).0@,
        ensures
            entries@.len() == 0,
            forall|i: int, j: int|
                0 <= i < j < files@.len() ==> (#[trigger] files@[i])@.path() != (
                #[trigger] files@[j])@.path(),
        decreases entries@.len(),
    {
        let ghost entries0 = entries@;
        let ghost files0 = files@;
        let next = entries.pop();
        match next {
            Some((path, f)) => {
                proof {
                    assert(assembled.contains_key(entries0.last().0@));
                    assert(assembled[entries0.last().0@].path() == entries0.last().0@);
                    assert(entries0.last().1@ == assembled[entries0.last().0@]);
                    assert(entries0.last().1@.path() == entries0.last().0@);
                }
                files.push(f);
                proof {
                    assert forall|i: int, j: int|
                        0 <= i < j < files@.len() implies (#[trigger] files@[i])@.path() != (
                    #[trigger] files@[j])@.path() by {
                        if j == files@.len() - 1 {
                            assert(files@[i] == files0[i]);
                            assert(files@[j]@.path() == entries0.last().0@);
                        } else {
                            assert(files@[i] == files0[i]);
                            assert(files@[j] == files0[j]);
                        }
                    }
                    assert forall|i: int, j: int|
                        0 <= i < files@.len() && 0 <= j < entries@.len() implies (
                    #[trigger] files@[i])@.path() != (#[trigger] entries@[j]).0@ by {
                        assert(entries@[j] == entries0[j]);
                        if i < files@.len() - 1 {
                            assert(files@[i] == files0[i]);
                        } else {
                            assert(files@[i]@.path() == entries0.last().0@);
                            assert(entries0[j].0@ != entries0[entries0.len() - 1].0@);
                        }
                    }
                    assert forall|p: Seq<char>| #[trigger] assembled.contains_key(p) implies (
                    exists|i: int|
                        0 <= i < files@.len() && (#[trigger] files@[i])@.path() == p) || (exists|
                        i: int,
                    |
                        0 <= i < entries@.len() && (#[trigger] entries@[i]).0@ == p) by {
                        if exists|i: int|
                            0 <= i < entries0.len() && (#[trigger] entries0[i]).0@ == p {
                            let i = choose|i: int|
                                0 <= i < entries0.len() && (#[trigger] entries0[i]).0@ == p;
                            if i < entries0.len() - 1 {
                                assert(entries@[i].0@ == p);
                            } else {
                                assert(files@[files@.len() - 1]@.path() == p);
                            }
                        } else if exists|i: int|
                            0 <= i < files0.len() && (#[trigger] files0[i])@.path() == p {
                            let i = choose|i: int|
                                0 <= i < files0.len() && (#[trigger] files0[i])@.path() == p;
                            assert(files@[i]@.path() == p);
                        }
                    }
                }
            },
            None => {
                break ;
            },
        }
    }
    let resp = SyncResponse { files, dot_history, latest_ftd };
    proof {
        let cl = client_log@;
        assert(log_text(cl) == request.history@);
        assert(response_files_match(resp.files@, assembled));
        assert(response_files_match(
            resp.files@,
            assembled_responses(
                b.responses,
                manifest_of(state.log@),
                manifest_of(cl),
                state.tree@,
            ),
        ));
        assert(history_files_match(
            state,
            manifest_of(state.log@),
            manifest_of(cl),
            resp.dot_history@,
        ));
    }
    Ok(resp)
}

/// Unwraps the generic response envelope a remote answers with: the data
/// exactly when the call succeeded and carried some, the server's message
/// (or a fixed fallback) otherwise.
pub fn unwrap_envelope(success: bool, message: Option<String>, data: Option<SyncResponse>) -> (r:
    Result<SyncResponse, Error>)
    ensures
        r is Ok <==> success && data is Some,
        !success ==> (r matches Err(Error::APIResponseError(m)) && (match message {
            Some(s) => m@ == s@,
            None => m@ == "Some Error occurred"@,
        })),
        success && data is None ==> (r matches Err(Error::APIResponseError(m)) && m@
            == "Unexpected API behaviour"@),
        r matches Ok(resp) ==> data matches Some(d) && resp == d,
{
    if !success {
        let m = match message {
            Some(s) => s,
            None => String::from_str("Some Error occurred"),
        };
        return Err(Error::APIResponseError(m));
    }
    match data {
        Some(d) => Ok(d),
        None => Err(Error::APIResponseError(String::from_str("Unexpected API behaviour"))),
    }
}

} // verus!
