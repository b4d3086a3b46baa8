//! The messages of the sync interview.
use crate::text::opt_text;
use vstd::prelude::*;

verus! {

/// The views of the items of a list.
pub open spec fn views<T: View>(items: Seq<T>) -> Seq<T::V> {
    items.map_values(|item: T| item@)
}

/// A request to the sync engine.
#[derive(Debug, Clone)]
pub enum SyncRequest {
    /// Return the full file listing at `rev` (default `HEAD`).
    Manifest { rev: Option<String> },
    /// Compare the client's held versions against the repo.
    Status {
        rev: Option<String>,
        /// The files the client currently holds, with their git blob ids.
        files: Vec<ClientFile>,
        /// Also report repo files the client didn't list (i.e. new files to fetch).
        new_files: bool,
    },
    /// Generate patches bringing the client's held versions up to the repo's current ones.
    /// `oid` on each file is the client's base version.
    Patch { rev: Option<String>, files: Vec<ClientFile> },
    /// Upload a new version of a file. `base_oid` is the version the edit was based on; the push
    /// is rejected as a conflict if the repo's version has moved on since.
    Push { path: String, base_oid: Option<String>, content: String },
}

/// What a request asks.
pub enum SyncRequestView {
    Manifest { rev: Option<Seq<char>> },
    Status { rev: Option<Seq<char>>, files: Seq<FileRef>, new_files: bool },
    Patch { rev: Option<Seq<char>>, files: Seq<FileRef> },
    Push { path: Seq<char>, base_oid: Option<Seq<char>>, content: Seq<char> },
}

impl View for SyncRequest {
    type V = SyncRequestView;

    open spec fn view(&self) -> SyncRequestView {
        match *self {
            SyncRequest::Manifest { rev } => SyncRequestView::Manifest { rev: opt_text(rev) },
            SyncRequest::Status { rev, files, new_files } => SyncRequestView::Status {
                rev: opt_text(rev),
                files: views(files@),
                new_files,
            },
            SyncRequest::Patch { rev, files } => SyncRequestView::Patch {
                rev: opt_text(rev),
                files: views(files@),
            },
            SyncRequest::Push { path, base_oid, content } => SyncRequestView::Push {
                path: path@,
                base_oid: opt_text(base_oid),
                content: content@,
            },
        }
    }
}

/// A file the client holds: its repo-relative path and the git blob id of its content.
#[derive(Debug, Clone)]
pub struct ClientFile {
    pub path: String,
    pub oid: String,
}

/// A path with the blob id of its content.
pub struct FileRef {
    pub path: Seq<char>,
    pub oid: Seq<char>,
}

impl View for ClientFile {
    type V = FileRef;

    open spec fn view(&self) -> FileRef {
        FileRef { path: self.path@, oid: self.oid@ }
    }
}

/// A file present in the repo.
#[derive(Debug, Clone)]
pub struct ManifestFile {
    pub path: String,
    pub oid: String,
    pub size: u64,
}

/// A file of the repo: its path, its blob id and its size in bytes.
pub struct Listed {
    pub path: Seq<char>,
    pub oid: Seq<char>,
    pub size: u64,
}

impl View for ManifestFile {
    type V = Listed;

    open spec fn view(&self) -> Listed {
        Listed { path: self.path@, oid: self.oid@, size: self.size }
    }
}

/// The verdict for one client-held file.
#[derive(Debug, Clone)]
pub enum FileState {
    /// The client's version matches the repo.
    UpToDate,
    /// The repo has a different version; re-fetch `current_oid`.
    OutOfDate { current_oid: String },
    /// The path no longer exists in the repo (deleted upstream).
    NotInRepo,
}

/// A verdict.
pub enum FileStateView {
    UpToDate,
    OutOfDate { current_oid: Seq<char> },
    NotInRepo,
}

impl View for FileState {
    type V = FileStateView;

    open spec fn view(&self) -> FileStateView {
        match *self {
            FileState::UpToDate => FileStateView::UpToDate,
            FileState::OutOfDate { current_oid } => FileStateView::OutOfDate {
                current_oid: current_oid@,
            },
            FileState::NotInRepo => FileStateView::NotInRepo,
        }
    }
}

/// The verdict on the file at `path`.
#[derive(Debug, Clone)]
pub struct FileStatus {
    pub path: String,
    pub state: FileState,
}

/// A path with its verdict.
pub struct FileStatusView {
    pub path: Seq<char>,
    pub state: FileStateView,
}

impl View for FileStatus {
    type V = FileStatusView;

    open spec fn view(&self) -> FileStatusView {
        FileStatusView { path: self.path@, state: self.state@ }
    }
}

/// The patch (or fallback) for one client-held file.
#[derive(Debug, Clone)]
pub enum PatchResult {
    /// The client's version already matches the repo.
    UpToDate,
    /// The path no longer exists in the repo.
    NotInRepo,
    /// A unified text diff from `from` (the client's version) to `to` (current).
    Patch { from: String, to: String, diff: String },
    /// Can't produce a text diff (binary content, or the client's base isn't in the repo):
    /// the client should re-fetch the whole file at `to`.
    Replace { to: String, reason: String },
}

/// A patch or its fallback.
pub enum PatchResultView {
    UpToDate,
    NotInRepo,
    Patch { from: Seq<char>, to: Seq<char>, diff: Seq<char> },
    Replace { to: Seq<char>, reason: Seq<char> },
}

impl View for PatchResult {
    type V = PatchResultView;

    open spec fn view(&self) -> PatchResultView {
        match *self {
            PatchResult::UpToDate => PatchResultView::UpToDate,
            PatchResult::NotInRepo => PatchResultView::NotInRepo,
            PatchResult::Patch { from, to, diff } => PatchResultView::Patch {
                from: from@,
                to: to@,
                diff: diff@,
            },
            PatchResult::Replace { to, reason } => PatchResultView::Replace {
                to: to@,
                reason: reason@,
            },
        }
    }
}

/// The patch for the file at `path`.
#[derive(Debug, Clone)]
pub struct FilePatch {
    pub path: String,
    pub result: PatchResult,
}

/// A path with its patch.
pub struct FilePatchView {
    pub path: Seq<char>,
    pub result: PatchResultView,
}

impl View for FilePatch {
    type V = FilePatchView;

    open spec fn view(&self) -> FilePatchView {
        FilePatchView { path: self.path@, result: self.result@ }
    }
}

/// The outcome of a [`SyncRequest::Push`].
#[derive(Debug, Clone)]
pub enum PushResult {
    /// The new version was committed; `oid` is its blob id in the repo now.
    Committed { oid: String },
    /// The pushed content already matched the repo; nothing to do.
    Unchanged { oid: String },
    /// The repo's version moved on since `base_oid`; the client must pull and reconcile.
    /// `current_oid` is the repo's version now (absent if the path was deleted upstream).
    Conflict { current_oid: Option<String> },
}

/// The outcome of a push.
pub enum PushResultView {
    Committed { oid: Seq<char> },
    Unchanged { oid: Seq<char> },
    Conflict { current_oid: Option<Seq<char>> },
}

impl View for PushResult {
    type V = PushResultView;

    open spec fn view(&self) -> PushResultView {
        match *self {
            PushResult::Committed { oid } => PushResultView::Committed { oid: oid@ },
            PushResult::Unchanged { oid } => PushResultView::Unchanged { oid: oid@ },
            PushResult::Conflict { current_oid } => PushResultView::Conflict {
                current_oid: opt_text(current_oid),
            },
        }
    }
}

/// The engine's reply.
#[derive(Debug, Clone)]
pub enum SyncResponse {
    Manifest { rev: Option<String>, files: Vec<ManifestFile> },
    Status {
        rev: Option<String>,
        /// One verdict per file the client reported.
        files: Vec<FileStatus>,
        /// Repo files the client did not report (only when `new_files` was set).
        missing: Vec<ManifestFile>,
    },
    Patch { rev: Option<String>, files: Vec<FilePatch> },
    Push { path: String, result: PushResult },
    Error { message: String },
}

/// What a reply says.
pub enum SyncResponseView {
    Manifest { rev: Option<Seq<char>>, files: Seq<Listed> },
    Status { rev: Option<Seq<char>>, files: Seq<FileStatusView>, missing: Seq<Listed> },
    Patch { rev: Option<Seq<char>>, files: Seq<FilePatchView> },
    Push { path: Seq<char>, result: PushResultView },
    Error { message: Seq<char> },
}

impl View for SyncResponse {
    type V = SyncResponseView;

    open spec fn view(&self) -> SyncResponseView {
        match *self {
            SyncResponse::Manifest { rev, files } => SyncResponseView::Manifest {
                rev: opt_text(rev),
                files: views(files@),
            },
            SyncResponse::Status { rev, files, missing } => SyncResponseView::Status {
                rev: opt_text(rev),
                files: views(files@),
                missing: views(missing@),
            },
            SyncResponse::Patch { rev, files } => SyncResponseView::Patch {
                rev: opt_text(rev),
                files: views(files@),
            },
            SyncResponse::Push { path, result } => SyncResponseView::Push {
                path: path@,
                result: result@,
            },
            SyncResponse::Error { message } => SyncResponseView::Error { message: message@ },
        }
    }
}

/// A request is read as it was sent: nothing of it is left out or changed.
pub proof fn law_requests_are_read_as_sent(request: SyncRequest, i: int)
    ensures
        match (request, request@) {
            (SyncRequest::Manifest { rev }, SyncRequestView::Manifest { rev: r }) => match rev {
                Some(t) => r == Some(t@),
                None => r is None,
            },
            (
                SyncRequest::Status { rev, files, new_files },
                SyncRequestView::Status { rev: r, files: f, new_files: n },
            ) => {
                &&& match rev {
                    Some(t) => r == Some(t@),
                    None => r is None,
                }
                &&& n == new_files
                &&& f.len() == files@.len()
                &&& 0 <= i < f.len() ==> f[i].path == files@[i].path@ && f[i].oid
                    == files@[i].oid@
            },
            (
                SyncRequest::Patch { rev, files },
                SyncRequestView::Patch { rev: r, files: f },
            ) => {
                &&& match rev {
                    Some(t) => r == Some(t@),
                    None => r is None,
                }
                &&& f.len() == files@.len()
                &&& 0 <= i < f.len() ==> f[i].path == files@[i].path@ && f[i].oid
                    == files@[i].oid@
            },
            (
                SyncRequest::Push { path, base_oid, content },
                SyncRequestView::Push { path: p, base_oid: b, content: c },
            ) => p == path@ && c == content@ && match base_oid {
                Some(t) => b == Some(t@),
                None => b is None,
            },
            _ => false,
        },
{
}

/// A verdict, a patch and the outcome of a push say what they hold.
pub proof fn law_verdicts_say_what_they_hold(
    status: FileStatus,
    patch: FilePatch,
    push: PushResult,
    file: ManifestFile,
)
    ensures
        status@.path == status.path@,
        match status.state {
            FileState::UpToDate => status@.state is UpToDate,
            FileState::OutOfDate { current_oid } => status@.state == (FileStateView::OutOfDate {
                current_oid: current_oid@,
            }),
            FileState::NotInRepo => status@.state is NotInRepo,
        },
        patch@.path == patch.path@,
        match patch.result {
            PatchResult::UpToDate => patch@.result is UpToDate,
            PatchResult::NotInRepo => patch@.result is NotInRepo,
            PatchResult::Patch { from, to, diff } => patch@.result == (PatchResultView::Patch {
                from: from@,
                to: to@,
                diff: diff@,
            }),
            PatchResult::Replace { to, reason } => patch@.result == (PatchResultView::Replace {
                to: to@,
                reason: reason@,
            }),
        },
        match push {
            PushResult::Committed { oid } => push@ == (PushResultView::Committed { oid: oid@ }),
            PushResult::Unchanged { oid } => push@ == (PushResultView::Unchanged { oid: oid@ }),
            PushResult::Conflict { current_oid: Some(oid) } => push@ == (
            PushResultView::Conflict { current_oid: Some(oid@) }),
            PushResult::Conflict { current_oid: None } => push@ == (PushResultView::Conflict {
                current_oid: None,
            }),
        },
        file@ == (Listed { path: file.path@, oid: file.oid@, size: file.size }),
{
}

/// A reply says what it holds: every line of it, in its order.
pub proof fn law_replies_say_what_they_hold(response: SyncResponse, i: int)
    ensures
        match (response, response@) {
            (
                SyncResponse::Manifest { rev, files },
                SyncResponseView::Manifest { rev: r, files: f },
            ) => {
                &&& match rev {
                    Some(t) => r == Some(t@),
                    None => r is None,
                }
                &&& f.len() == files@.len()
                &&& 0 <= i < f.len() ==> f[i] == files@[i]@
            },
            (
                SyncResponse::Status { rev, files, missing },
                SyncResponseView::Status { rev: r, files: f, missing: m },
            ) => {
                &&& match rev {
                    Some(t) => r == Some(t@),
                    None => r is None,
                }
                &&& f.len() == files@.len()
                &&& 0 <= i < f.len() ==> f[i] == files@[i]@
                &&& m.len() == missing@.len()
                &&& 0 <= i < m.len() ==> m[i] == missing@[i]@
            },
            (
                SyncResponse::Patch { rev, files },
                SyncResponseView::Patch { rev: r, files: f },
            ) => {
                &&& match rev {
                    Some(t) => r == Some(t@),
                    None => r is None,
                }
                &&& f.len() == files@.len()
                &&& 0 <= i < f.len() ==> f[i] == files@[i]@
            },
            (
                SyncResponse::Push { path, result },
                SyncResponseView::Push { path: p, result: r },
            ) => p == path@ && r == result@,
            (SyncResponse::Error { message }, SyncResponseView::Error { message: m }) => m
                == message@,
            _ => false,
        },
{
}

} // verus!
