//! The sync protocol: what a client proposes, and what the remote answers.

use vstd::prelude::*;

verus! {

/// How one file of a sync request was resolved. A closed classification:
/// every divergence of client and remote falls in exactly one variant.
#[derive(Debug, Clone, Copy, PartialEq, Eq, Structural)]
pub enum SyncStatus {
    RegularConflict,
    NoConflict,
    CloneEditedRemoteDeleted,
    CloneDeletedRemoteEdited,
    CloneAddedRemoteAdded,
}

impl View for SyncStatus {
    type V = SyncStatus;

    open spec fn view(&self) -> SyncStatus {
        *self
    }
}

impl SyncStatus {
    /// The client edited what the remote had deleted.
    pub fn delete_edit_conflict(&self) -> (r: bool)
        ensures
            r == (*self is CloneEditedRemoteDeleted),
    {
        matches!(self, SyncStatus::CloneEditedRemoteDeleted)
    }

    /// The client deleted what the remote had edited.
    pub fn edit_delete_conflict(&self) -> (r: bool)
        ensures
            r == (*self is CloneDeletedRemoteEdited),
    {
        matches!(self, SyncStatus::CloneDeletedRemoteEdited)
    }

    /// Both sides added the same path.
    pub fn add_add_conflict(&self) -> (r: bool)
        ensures
            r == (*self is CloneAddedRemoteAdded),
    {
        matches!(self, SyncStatus::CloneAddedRemoteAdded)
    }

    /// Both sides edited the same lines.
    pub fn edit_edit_conflict(&self) -> (r: bool)
        ensures
            r == (*self is RegularConflict),
    {
        matches!(self, SyncStatus::RegularConflict)
    }
}

/// The mathematical content of one proposed file operation.
pub ghost enum SyncRequestFileView {
    Add { path: Seq<char>, content: Seq<u8>, src_cr: Option<int> },
    Update { path: Seq<char>, content: Seq<u8>, version: int, src_cr: Option<int> },
    Delete { path: Seq<char>, version: int, src_cr: Option<int> },
}

impl SyncRequestFileView {
    /// The path the operation is about.
    pub open spec fn path(self) -> Seq<char> {
        match self {
            SyncRequestFileView::Add { path, .. } => path,
            SyncRequestFileView::Update { path, .. } => path,
            SyncRequestFileView::Delete { path, .. } => path,
        }
    }
}

/// One file operation a client proposes: add new content, update from the
/// version the client last saw, or delete what it last saw.
#[derive(Debug, Clone)]
pub enum SyncRequestFile {
    Add { path: String, content: Vec<u8>, src_cr: Option<usize> },
    Update { path: String, content: Vec<u8>, version: i32, src_cr: Option<usize> },
    Delete { path: String, version: i32, src_cr: Option<usize> },
}

impl View for SyncRequestFile {
    type V = SyncRequestFileView;

    open spec fn view(&self) -> SyncRequestFileView {
        match self {
            SyncRequestFile::Add { path, content, src_cr } => SyncRequestFileView::Add {
                path: path@,
                content: content@,
                src_cr: match src_cr {
                    Some(n) => Some(*n as int),
                    None => None,
                },
            },
            SyncRequestFile::Update { path, content, version, src_cr } => SyncRequestFileView::Update {
                path: path@,
                content: content@,
                version: *version as int,
                src_cr: match src_cr {
                    Some(n) => Some(*n as int),
                    None => None,
                },
            },
            SyncRequestFile::Delete { path, version, src_cr } => SyncRequestFileView::Delete {
                path: path@,
                version: *version as int,
                src_cr: match src_cr {
                    Some(n) => Some(*n as int),
                    None => None,
                },
            },
        }
    }
}

/// A whole sync request: the package, the proposed operations, and the
/// serialized history the client holds.
#[derive(Debug)]
pub struct SyncRequest {
    pub package_name: String,
    pub files: Vec<SyncRequestFile>,
    pub history: String,
}

/// The mathematical content of one resolved file.
pub ghost enum SyncResponseFileView {
    Add { path: Seq<char>, status: SyncStatus, content: Seq<u8> },
    Update { path: Seq<char>, status: SyncStatus, content: Seq<u8> },
    Delete { path: Seq<char>, status: SyncStatus, content: Seq<u8> },
}

impl SyncResponseFileView {
    /// The path the resolution is about.
    pub open spec fn path(self) -> Seq<char> {
        match self {
            SyncResponseFileView::Add { path, .. } => path,
            SyncResponseFileView::Update { path, .. } => path,
            SyncResponseFileView::Delete { path, .. } => path,
        }
    }

    /// How the file was resolved.
    pub open spec fn status(self) -> SyncStatus {
        match self {
            SyncResponseFileView::Add { status, .. } => status,
            SyncResponseFileView::Update { status, .. } => status,
            SyncResponseFileView::Delete { status, .. } => status,
        }
    }

    /// The resolved or conflicted content carried back to the client.
    pub open spec fn content(self) -> Seq<u8> {
        match self {
            SyncResponseFileView::Add { content, .. } => content,
            SyncResponseFileView::Update { content, .. } => content,
            SyncResponseFileView::Delete { content, .. } => content,
        }
    }
}

/// One file of the remote's answer: the same tagged shape as the request,
/// with the resolution status and the content the client should see.
#[derive(Debug)]
pub enum SyncResponseFile {
    Add { path: String, status: SyncStatus, content: Vec<u8> },
    Update { path: String, status: SyncStatus, content: Vec<u8> },
    Delete { path: String, status: SyncStatus, content: Vec<u8> },
}

impl View for SyncResponseFile {
    type V = SyncResponseFileView;

    open spec fn view(&self) -> SyncResponseFileView {
        match self {
            SyncResponseFile::Add { path, status, content } => SyncResponseFileView::Add {
                path: path@,
                status: *status,
                content: content@,
            },
            SyncResponseFile::Update { path, status, content } => SyncResponseFileView::Update {
                path: path@,
                status: *status,
                content: content@,
            },
            SyncResponseFile::Delete { path, status, content } => SyncResponseFileView::Delete {
                path: path@,
                status: *status,
                content: content@,
            },
        }
    }
}

impl SyncResponseFile {
    /// Did the resolution end in any conflict shape?
    pub fn is_conflicted(&self) -> (r: bool)
        ensures
            r == !(self@.status() is NoConflict),
    {
        let status = match self {
            SyncResponseFile::Add { status, .. } => status,
            SyncResponseFile::Update { status, .. } => status,
            SyncResponseFile::Delete { status, .. } => status,
        };
        if matches!(status, SyncStatus::NoConflict) {
            return false;
        }
        true
    }

    /// Is this a delete resolution?
    pub fn is_deleted(&self) -> (r: bool)
        ensures
            r == (self@ is Delete),
    {
        matches!(self, SyncResponseFile::Delete { .. })
    }

    /// The path the resolution is about.
    pub fn path(&self) -> (r: String)
        ensures
            r@ == self@.path(),
    {
        match self {
            SyncResponseFile::Add { path, .. } => path.clone(),
            SyncResponseFile::Update { path, .. } => path.clone(),
            SyncResponseFile::Delete { path, .. } => path.clone(),
        }
    }
}

/// The mathematical content of one carried file.
pub ghost struct FileView {
    pub path: Seq<char>,
    pub content: Seq<u8>,
}

/// A raw file carried inside a response: a history file the client lacks.
#[derive(Debug)]
pub struct File {
    pub path: String,
    pub content: Vec<u8>,
}

impl View for File {
    type V = FileView;

    open spec fn view(&self) -> FileView {
        FileView { path: self.path@, content: self.content@ }
    }
}

/// The remote's whole answer: the resolved files, the history files the
/// client misses, and the full serialized log.
#[derive(Debug)]
pub struct SyncResponse {
    pub files: Vec<SyncResponseFile>,
    pub dot_history: Vec<File>,
    pub latest_ftd: String,
}

} // verus!
