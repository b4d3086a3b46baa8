//! The sync interview: a client that holds files asks whether its versions match the repository.
//!
//! The engine never touches the repository itself. [`handle`] takes a request and returns a
//! [`Turn`]: either the reply, or an [`Interview`] that waits for the answer to one [`Query`].
//! Whoever runs the interview answers the query from the repository and resumes it, until the
//! reply comes.
use crate::objects::{content_oid, hash_blob, oid_bytes, parse_oid, path_spec, spec_of};
use crate::protocol::{
    views, ClientFile, FilePatch, FilePatchView, FileRef, FileState, FileStateView, FileStatus,
    FileStatusView, Listed, ManifestFile, PatchResult, PatchResultView, PushResult, PushResultView,
    SyncRequest, SyncRequestView, SyncResponse, SyncResponseView,
};
use crate::text::{concat, opt_text};
use crate::trusted::{
    blob_digest, diff_header, hex, is_hex_id, line_diff, opt_bytes, unhex, unified_diff, utf8_text,
};
use vstd::hash_map::StringHashMap;
use vstd::prelude::*;
use vstd::utf8::{decode_utf8, encode_utf8, valid_utf8};

verus! {

/// What a repository answers to the queries of one interview.
pub struct Repo {
    /// The id (hex) of the object that a revision names, if there is one.
    pub resolve: spec_fn(Seq<char>) -> Option<Seq<char>>,
    /// The bytes of the object with the given id, if there is one.
    pub object: spec_fn(Seq<u8>) -> Option<Seq<u8>>,
    /// Every file of the tree that a revision names, or why it cannot be listed.
    pub listing: spec_fn(Seq<char>) -> Result<Seq<Listed>, Seq<char>>,
    /// What comes of committing the given content at the given path under the given message.
    pub commit: spec_fn(Seq<char>, Seq<u8>, Seq<char>) -> Result<(), Seq<char>>,
    /// The id (hex) of the object that a revision names once that commit is made.
    pub resolve_after_commit: spec_fn(Seq<char>) -> Option<Seq<char>>,
}

/// A question to the repository.
#[derive(Debug)]
pub enum Query {
    /// The id (hex) of the object that `spec` names.
    Resolve { spec: String },
    /// The bytes of the object with the id `id`.
    Object { id: Vec<u8> },
    /// Every file of the tree that `rev` names, as path, blob id (hex) and size.
    Walk { rev: String },
    /// Commit `content` at `path` under `message`.
    Commit { path: String, content: String, message: String },
    /// As `Resolve`, once the commit is made.
    ResolveAfterCommit { spec: String },
}

/// The answer to a [`Query`].
#[derive(Debug)]
pub enum Answer {
    /// To `Resolve` and `ResolveAfterCommit`.
    Resolved(Option<String>),
    /// To `Object`.
    Object(Option<Vec<u8>>),
    /// To `Walk`; a failure comes with its message.
    Walked(Result<Vec<(String, String, u64)>, String>),
    /// To `Commit`; a failure comes with its message.
    Committed(Result<(), String>),
}

/// One line of a walk.
pub open spec fn listed(entry: (String, String, u64)) -> Listed {
    Listed { path: entry.0@, oid: entry.1@, size: entry.2 }
}

/// The lines of a walk.
pub open spec fn all_listed(entries: Seq<(String, String, u64)>) -> Seq<Listed> {
    entries.map_values(|e: (String, String, u64)| listed(e))
}

/// A walk or its failure.
pub open spec fn walked(r: Result<Vec<(String, String, u64)>, String>) -> Result<
    Seq<Listed>,
    Seq<char>,
> {
    match r {
        Ok(list) => Ok(all_listed(list@)),
        Err(message) => Err(message@),
    }
}

/// A commit or its failure.
pub open spec fn committed(r: Result<(), String>) -> Result<(), Seq<char>> {
    match r {
        Ok(_) => Ok(()),
        Err(message) => Err(message@),
    }
}

/// What a query asks.
pub enum QueryView {
    Resolve { spec: Seq<char> },
    Object { id: Seq<u8> },
    Walk { rev: Seq<char> },
    Commit { path: Seq<char>, content: Seq<char>, message: Seq<char> },
    ResolveAfterCommit { spec: Seq<char> },
}

impl View for Query {
    type V = QueryView;

    open spec fn view(&self) -> QueryView {
        match *self {
            Query::Resolve { spec } => QueryView::Resolve { spec: spec@ },
            Query::Object { id } => QueryView::Object { id: id@ },
            Query::Walk { rev } => QueryView::Walk { rev: rev@ },
            Query::Commit { path, content, message } => QueryView::Commit {
                path: path@,
                content: content@,
                message: message@,
            },
            Query::ResolveAfterCommit { spec } => QueryView::ResolveAfterCommit { spec: spec@ },
        }
    }
}

impl QueryView {
    /// Whether `answer` is of the kind that this query asks for.
    pub open spec fn fits(self, answer: Answer) -> bool {
        match self {
            QueryView::Resolve { .. } => answer is Resolved,
            QueryView::Object { .. } => answer is Object,
            QueryView::Walk { .. } => answer is Walked,
            QueryView::Commit { .. } => answer is Committed,
            QueryView::ResolveAfterCommit { .. } => answer is Resolved,
        }
    }

    /// Whether `answer` is what `repo` answers to this query.
    pub open spec fn answered(self, repo: Repo, answer: Answer) -> bool {
        match (self, answer) {
            (QueryView::Resolve { spec }, Answer::Resolved(r)) => opt_text(r) == (repo.resolve)(
                spec,
            ),
            (QueryView::Object { id }, Answer::Object(r)) => opt_bytes(r) == (repo.object)(id),
            (QueryView::Walk { rev }, Answer::Walked(r)) => walked(r) == (repo.listing)(rev),
            (QueryView::Commit { path, content, message }, Answer::Committed(r)) => committed(r)
                == (repo.commit)(path, encode_utf8(content), message),
            (QueryView::ResolveAfterCommit { spec }, Answer::Resolved(r)) => opt_text(r)
                == (repo.resolve_after_commit)(spec),
            _ => false,
        }
    }
}

/// The revision that a request speaks of.
pub open spec fn rev_or_head(rev: Option<Seq<char>>) -> Seq<char> {
    match rev {
        Some(r) => r,
        None => "HEAD"@,
    }
}

/// The blob id of `path` at `rev`.
pub open spec fn path_oid(repo: Repo, rev: Seq<char>, path: Seq<char>) -> Option<Seq<char>> {
    (repo.resolve)(path_spec(rev, path))
}

/// The bytes of the object whose id is written as `oid`.
pub open spec fn read_oid(repo: Repo, oid: Seq<char>) -> Option<Seq<u8>> {
    match oid_bytes(oid) {
        Some(id) => (repo.object)(id),
        None => None,
    }
}

/// The verdict on a version `held` of a file whose version in the repository is `current`.
pub open spec fn state_of(current: Option<Seq<char>>, held: Seq<char>) -> FileStateView {
    match current {
        Some(oid) => if oid == held {
            FileStateView::UpToDate
        } else {
            FileStateView::OutOfDate { current_oid: oid }
        },
        None => FileStateView::NotInRepo,
    }
}

/// The verdicts on `files`.
pub open spec fn statuses(repo: Repo, rev: Seq<char>, files: Seq<FileRef>) -> Seq<FileStatusView> {
    files.map_values(
        |f: FileRef|
            FileStatusView { path: f.path, state: state_of(path_oid(repo, rev, f.path), f.oid) },
    )
}

/// Whether one of `files` has the path `path`.
pub open spec fn holds(files: Seq<FileRef>, path: Seq<char>) -> bool {
    exists|i: int| 0 <= i < files.len() && (#[trigger] files[i]).path == path
}

/// The files of `listing` whose paths are not among `files`.
pub open spec fn not_held(listing: Seq<Listed>, files: Seq<FileRef>) -> Seq<Listed> {
    listing.filter(|l: Listed| !holds(files, l.path))
}

/// The patch from the version `base_oid` with the content `base` to the version `current` with
/// the content `now`.
pub open spec fn content_patch(
    path: Seq<char>,
    base_oid: Seq<char>,
    current: Seq<char>,
    base: Seq<u8>,
    now: Seq<u8>,
) -> PatchResultView {
    if valid_utf8(base) && valid_utf8(now) {
        PatchResultView::Patch {
            from: base_oid,
            to: current,
            diff: line_diff(
                decode_utf8(base),
                decode_utf8(now),
                seq!['a', '/'] + path,
                seq!['b', '/'] + path,
            ),
        }
    } else {
        PatchResultView::Replace { to: current, reason: "binary"@ }
    }
}

/// The patch that brings the version `base_oid` of `path` up to the version at `rev`.
pub open spec fn patch_of(
    repo: Repo,
    rev: Seq<char>,
    path: Seq<char>,
    base_oid: Seq<char>,
) -> PatchResultView {
    match path_oid(repo, rev, path) {
        None => PatchResultView::NotInRepo,
        Some(current) => if current == base_oid {
            PatchResultView::UpToDate
        } else {
            match read_oid(repo, current) {
                None => PatchResultView::Replace { to: current, reason: "current_unavailable"@ },
                Some(now) => match read_oid(repo, base_oid) {
                    None => PatchResultView::Replace { to: current, reason: "base_unavailable"@ },
                    Some(base) => content_patch(path, base_oid, current, base, now),
                },
            }
        },
    }
}

/// The patches for `files`.
pub open spec fn patches(repo: Repo, rev: Seq<char>, files: Seq<FileRef>) -> Seq<FilePatchView> {
    files.map_values(
        |f: FileRef| FilePatchView { path: f.path, result: patch_of(repo, rev, f.path, f.oid) },
    )
}

/// The message under which a push of `path` is committed.
pub open spec fn push_message(path: Seq<char>) -> Seq<char> {
    "Push "@ + path
}

/// The reply to a push once it is known that there is no conflict and that the content differs.
pub open spec fn commit_reply(repo: Repo, path: Seq<char>, content: Seq<char>) -> SyncResponseView {
    match (repo.commit)(path, encode_utf8(content), push_message(path)) {
        Ok(_) => committed_reply(
            path,
            content,
            (repo.resolve_after_commit)(path_spec("HEAD"@, path)),
        ),
        Err(message) => SyncResponseView::Error { message },
    }
}

/// The id of the version that a push of `content` has committed: what its path resolves to
/// afterwards, or else the id of the content (the empty text for content that has none).
pub open spec fn committed_oid(content: Seq<char>, resolved: Option<Seq<char>>) -> Seq<char> {
    match resolved {
        Some(oid) => oid,
        None => match content_oid(encode_utf8(content)) {
            Some(oid) => oid,
            None => seq![],
        },
    }
}

/// The reply to a push of `content` that was committed, after which `path` resolves to `resolved`.
pub open spec fn committed_reply(
    path: Seq<char>,
    content: Seq<char>,
    resolved: Option<Seq<char>>,
) -> SyncResponseView {
    SyncResponseView::Push {
        path,
        result: PushResultView::Committed { oid: committed_oid(content, resolved) },
    }
}

/// The reply to a push of `content` to `path` that was based on the version `base_oid`.
pub open spec fn push_reply(
    repo: Repo,
    path: Seq<char>,
    base_oid: Option<Seq<char>>,
    content: Seq<char>,
) -> SyncResponseView {
    let current = path_oid(repo, "HEAD"@, path);
    if base_oid != current {
        SyncResponseView::Push { path, result: PushResultView::Conflict { current_oid: current } }
    } else if current is Some && current == content_oid(encode_utf8(content)) {
        SyncResponseView::Push { path, result: PushResultView::Unchanged { oid: current->0 } }
    } else {
        commit_reply(repo, path, content)
    }
}

/// The message for a revision that nothing is known of.
pub open spec fn unknown_revision(rev: Seq<char>) -> Seq<char> {
    "unknown revision "@ + rev
}

/// Whether a revision that resolves to `at` names nothing. Before the first commit nothing
/// resolves, the name of the branch that `HEAD` is on included: what does not resolve is unknown
/// only where `HEAD` does.
pub open spec fn unknown(repo: Repo, at: Option<Seq<char>>) -> bool {
    at is None && (repo.resolve)("HEAD"@) is Some
}

/// The manifest of `rev`, which resolves to `at`; a branch without a commit has no files.
pub open spec fn manifest_reply(repo: Repo, rev: Seq<char>, at: Option<Seq<char>>) ->
    SyncResponseView {
    if at is None {
        SyncResponseView::Manifest { rev: at, files: seq![] }
    } else {
        match (repo.listing)(rev) {
            Ok(files) => SyncResponseView::Manifest { rev: at, files },
            Err(message) => SyncResponseView::Error { message },
        }
    }
}

/// The reply to `request` against `repo`. A revision that names nothing is a failure.
pub open spec fn reply(repo: Repo, request: SyncRequestView) -> SyncResponseView {
    match request {
        SyncRequestView::Manifest { rev } => manifest_from(repo, rev_or_head(rev)),
        SyncRequestView::Status { rev, files, new_files } => status_from(
            repo,
            rev_or_head(rev),
            files,
            new_files,
        ),
        SyncRequestView::Patch { rev, files } => patch_from(repo, rev_or_head(rev), files),
        SyncRequestView::Push { path, base_oid, content } => push_reply(
            repo,
            path,
            base_oid,
            content,
        ),
    }
}

/// The reply to a manifest request for `rev`.
pub open spec fn manifest_from(repo: Repo, rev: Seq<char>) -> SyncResponseView {
    manifest_at(repo, rev, (repo.resolve)(rev))
}

/// The reply to a manifest request for `rev`, which resolves to `at`.
pub open spec fn manifest_at(repo: Repo, rev: Seq<char>, at: Option<Seq<char>>) ->
    SyncResponseView {
    if unknown(repo, at) {
        SyncResponseView::Error { message: unknown_revision(rev) }
    } else {
        manifest_reply(repo, rev, at)
    }
}

/// The reply to a status request for `rev`.
pub open spec fn status_from(
    repo: Repo,
    rev: Seq<char>,
    files: Seq<FileRef>,
    new_files: bool,
) -> SyncResponseView {
    status_at(repo, rev, (repo.resolve)(rev), files, new_files)
}

/// The reply to a status request for `rev`, which resolves to `at`.
pub open spec fn status_at(
    repo: Repo,
    rev: Seq<char>,
    at: Option<Seq<char>>,
    files: Seq<FileRef>,
    new_files: bool,
) -> SyncResponseView {
    if unknown(repo, at) {
        SyncResponseView::Error { message: unknown_revision(rev) }
    } else {
        status_reply(repo, rev, at, statuses(repo, rev, files), files, new_files)
    }
}

/// The reply to a patch request for `rev`.
pub open spec fn patch_from(repo: Repo, rev: Seq<char>, files: Seq<FileRef>) -> SyncResponseView {
    patch_at(repo, rev, (repo.resolve)(rev), files)
}

/// The reply to a patch request for `rev`, which resolves to `at`.
pub open spec fn patch_at(
    repo: Repo,
    rev: Seq<char>,
    at: Option<Seq<char>>,
    files: Seq<FileRef>,
) -> SyncResponseView {
    if unknown(repo, at) {
        SyncResponseView::Error { message: unknown_revision(rev) }
    } else {
        SyncResponseView::Patch { rev: at, files: patches(repo, rev, files) }
    }
}

/// The reply that carries the verdicts `verdicts` on `files` at `rev`, which resolves to `at`.
pub open spec fn status_reply(
    repo: Repo,
    rev: Seq<char>,
    at: Option<Seq<char>>,
    verdicts: Seq<FileStatusView>,
    files: Seq<FileRef>,
    new_files: bool,
) -> SyncResponseView {
    if new_files && at is Some {
        match (repo.listing)(rev) {
            Ok(listing) => SyncResponseView::Status {
                rev: at,
                files: verdicts,
                missing: not_held(listing, files),
            },
            Err(message) => SyncResponseView::Error { message },
        }
    } else {
        SyncResponseView::Status { rev: at, files: verdicts, missing: seq![] }
    }
}

/// `done`, then what is left of `all` behind as many items.
pub open spec fn resumed<A>(done: Seq<A>, all: Seq<A>) -> Seq<A> {
    done + all.skip(done.len() as int)
}

/// What a request asks for.
#[derive(Debug, Clone, Copy, PartialEq, Eq, Structural)]
pub enum Op {
    Manifest,
    Status,
    Patch,
    Push,
}

/// An interview that waits for the answer to its query.
#[derive(Debug)]
pub enum Interview {
    /// Waits for the id of the revision.
    ManifestRev { rev: String },
    /// Waits for the id of `HEAD`; the revision does not resolve.
    ManifestHead { rev: String },
    /// Waits for the listing.
    ManifestWalk { rev: String, at: String },
    /// Waits for the id of the revision.
    StatusRev { rev: String, files: Vec<ClientFile>, new_files: bool },
    /// Waits for the id of `HEAD`; the revision does not resolve.
    StatusHead { rev: String, files: Vec<ClientFile>, new_files: bool },
    /// Waits for the version of the first file that has no verdict.
    StatusFile {
        rev: String,
        at: Option<String>,
        files: Vec<ClientFile>,
        new_files: bool,
        done: Vec<FileStatus>,
    },
    /// Waits for the listing.
    StatusWalk { rev: String, at: String, files: Vec<ClientFile>, done: Vec<FileStatus> },
    /// Waits for the id of the revision.
    PatchRev { rev: String, files: Vec<ClientFile> },
    /// Waits for the id of `HEAD`; the revision does not resolve.
    PatchHead { rev: String, files: Vec<ClientFile> },
    /// Waits for the version of the first file that has no patch.
    PatchFile {
        rev: String,
        at: Option<String>,
        files: Vec<ClientFile>,
        done: Vec<FilePatch>,
    },
    /// Waits for the content of that version.
    PatchCurrent {
        rev: String,
        at: Option<String>,
        files: Vec<ClientFile>,
        done: Vec<FilePatch>,
        current: String,
        id: Vec<u8>,
    },
    /// Waits for the content of the client's version.
    PatchBase {
        rev: String,
        at: Option<String>,
        files: Vec<ClientFile>,
        done: Vec<FilePatch>,
        current: String,
        now: Vec<u8>,
        id: Vec<u8>,
    },
    /// Waits for the version in the repository.
    PushCurrent { path: String, base_oid: Option<String>, content: String },
    /// Waits for the commit.
    PushCommit { path: String, content: String },
    /// Waits for the id of the committed version.
    PushCommitted { path: String, content: String },
}

/// What an interview comes to next.
#[derive(Debug)]
pub enum Turn {
    /// The interview waits for an answer.
    Ask(Interview),
    /// The interview is over.
    Reply(SyncResponse),
}

impl Interview {
    /// What the request that started the interview asks for.
    pub open spec fn op(self) -> Op {
        match self {
            Interview::ManifestWalk { .. } => Op::Manifest,
            Interview::ManifestRev { .. } => Op::Manifest,
            Interview::ManifestHead { .. } => Op::Manifest,
            Interview::StatusFile { .. } => Op::Status,
            Interview::StatusWalk { .. } => Op::Status,
            Interview::StatusRev { .. } => Op::Status,
            Interview::StatusHead { .. } => Op::Status,
            Interview::PatchFile { .. } => Op::Patch,
            Interview::PatchCurrent { .. } => Op::Patch,
            Interview::PatchBase { .. } => Op::Patch,
            Interview::PatchRev { .. } => Op::Patch,
            Interview::PatchHead { .. } => Op::Patch,
            Interview::PushCurrent { .. } => Op::Push,
            Interview::PushCommit { .. } => Op::Push,
            Interview::PushCommitted { .. } => Op::Push,
        }
    }

    /// The verdicts and patches that the interview has collected are fewer than its files, and
    /// the ids that it asks for are those that the texts stand for.
    pub open spec fn wf(self) -> bool {
        match self {
            Interview::StatusFile { files, done, .. } => done@.len() < files@.len(),
            Interview::PatchFile { files, done, .. } => done@.len() < files@.len(),
            Interview::PatchCurrent { files, done, current, id, .. } => {
                &&& done@.len() < files@.len()
                &&& oid_bytes(current@) == Some(id@)
                &&& current@ != files@[done@.len() as int].oid@
            },
            Interview::PatchBase { files, done, current, id, .. } => {
                &&& done@.len() < files@.len()
                &&& oid_bytes(files@[done@.len() as int].oid@) == Some(id@)
                &&& current@ != files@[done@.len() as int].oid@
            },
            _ => true,
        }
    }

    /// A bound on the number of answers that the interview still needs.
    pub open spec fn remaining(self) -> nat {
        match self {
            Interview::ManifestRev { .. } => 2,
            Interview::ManifestHead { .. } => 1,
            Interview::ManifestWalk { .. } => 1,
            Interview::StatusRev { files, .. } => files@.len() + 3,
            Interview::StatusHead { files, .. } => files@.len() + 2,
            Interview::StatusFile { files, done, .. } => (files@.len() - done@.len() + 1) as nat,
            Interview::StatusWalk { .. } => 1,
            Interview::PatchRev { files, .. } => 3 * files@.len() + 2,
            Interview::PatchHead { files, .. } => 3 * files@.len() + 1,
            Interview::PatchFile { files, done, .. } => (3 * (files@.len() - done@.len())) as nat,
            Interview::PatchCurrent { files, done, .. } => (3 * (files@.len() - done@.len())
                - 1) as nat,
            Interview::PatchBase { files, done, .. } => (3 * (files@.len() - done@.len())
                - 2) as nat,
            Interview::PushCurrent { .. } => 3,
            Interview::PushCommit { .. } => 2,
            Interview::PushCommitted { .. } => 1,
        }
    }

    /// The reply to which the interview leads against `repo`.
    pub open spec fn outcome(self, repo: Repo) -> SyncResponseView {
        match self {
            Interview::ManifestRev { rev } => manifest_from(repo, rev@),
            Interview::ManifestHead { rev } => manifest_at(repo, rev@, None),
            Interview::ManifestWalk { rev, at } => manifest_reply(repo, rev@, Some(at@)),
            Interview::StatusRev { rev, files, new_files } => status_from(
                repo,
                rev@,
                views(files@),
                new_files,
            ),
            Interview::StatusHead { rev, files, new_files } => status_at(
                repo,
                rev@,
                None,
                views(files@),
                new_files,
            ),
            Interview::StatusFile { rev, at, files, new_files, done } => status_reply(
                repo,
                rev@,
                opt_text(at),
                resumed(views(done@), statuses(repo, rev@, views(files@))),
                views(files@),
                new_files,
            ),
            Interview::StatusWalk { rev, at, files, done } => status_reply(
                repo,
                rev@,
                Some(at@),
                views(done@),
                views(files@),
                true,
            ),
            Interview::PatchRev { rev, files } => patch_from(repo, rev@, views(files@)),
            Interview::PatchHead { rev, files } => patch_at(repo, rev@, None, views(files@)),
            Interview::PatchFile { rev, at, files, done } => SyncResponseView::Patch {
                rev: opt_text(at),
                files: resumed(views(done@), patches(repo, rev@, views(files@))),
            },
            Interview::PatchCurrent { rev, at, files, done, current, id } => {
                let file = files@[done@.len() as int];
                SyncResponseView::Patch {
                    rev: opt_text(at),
                    files: resumed(
                        views(done@).push(
                            FilePatchView {
                                path: file.path@,
                                result: match (repo.object)(id@) {
                                    None => PatchResultView::Replace {
                                        to: current@,
                                        reason: "current_unavailable"@,
                                    },
                                    Some(now) => match read_oid(repo, file.oid@) {
                                        None => PatchResultView::Replace {
                                            to: current@,
                                            reason: "base_unavailable"@,
                                        },
                                        Some(base) => content_patch(
                                            file.path@,
                                            file.oid@,
                                            current@,
                                            base,
                                            now,
                                        ),
                                    },
                                },
                            },
                        ),
                        patches(repo, rev@, views(files@)),
                    ),
                }
            },
            Interview::PatchBase { rev, at, files, done, current, now, id } => {
                let file = files@[done@.len() as int];
                SyncResponseView::Patch {
                    rev: opt_text(at),
                    files: resumed(
                        views(done@).push(
                            FilePatchView {
                                path: file.path@,
                                result: match (repo.object)(id@) {
                                    None => PatchResultView::Replace {
                                        to: current@,
                                        reason: "base_unavailable"@,
                                    },
                                    Some(base) => content_patch(
                                        file.path@,
                                        file.oid@,
                                        current@,
                                        base,
                                        now@,
                                    ),
                                },
                            },
                        ),
                        patches(repo, rev@, views(files@)),
                    ),
                }
            },
            Interview::PushCurrent { path, base_oid, content } => push_reply(
                repo,
                path@,
                opt_text(base_oid),
                content@,
            ),
            Interview::PushCommit { path, content } => commit_reply(repo, path@, content@),
            Interview::PushCommitted { path, content } => committed_reply(
                path@,
                content@,
                (repo.resolve_after_commit)(path_spec("HEAD"@, path@)),
            ),
        }
    }

    /// What the interview asks.
    pub open spec fn asked(self) -> QueryView {
        match self {
            Interview::ManifestWalk { rev, .. } => QueryView::Walk { rev: rev@ },
            Interview::ManifestRev { rev } => QueryView::Resolve { spec: rev@ },
            Interview::ManifestHead { .. } => QueryView::Resolve { spec: "HEAD"@ },
            Interview::StatusFile { rev, files, done, .. } => QueryView::Resolve {
                spec: path_spec(rev@, files@[done@.len() as int].path@),
            },
            Interview::StatusWalk { rev, .. } => QueryView::Walk { rev: rev@ },
            Interview::StatusRev { rev, .. } => QueryView::Resolve { spec: rev@ },
            Interview::StatusHead { .. } => QueryView::Resolve { spec: "HEAD"@ },
            Interview::PatchFile { rev, files, done, .. } => QueryView::Resolve {
                spec: path_spec(rev@, files@[done@.len() as int].path@),
            },
            Interview::PatchCurrent { id, .. } => QueryView::Object { id: id@ },
            Interview::PatchBase { id, .. } => QueryView::Object { id: id@ },
            Interview::PatchRev { rev, .. } => QueryView::Resolve { spec: rev@ },
            Interview::PatchHead { .. } => QueryView::Resolve { spec: "HEAD"@ },
            Interview::PushCurrent { path, .. } => QueryView::Resolve {
                spec: path_spec("HEAD"@, path@),
            },
            Interview::PushCommit { path, content } => QueryView::Commit {
                path: path@,
                content: content@,
                message: push_message(path@),
            },
            Interview::PushCommitted { path, .. } => QueryView::ResolveAfterCommit {
                spec: path_spec("HEAD"@, path@),
            },
        }
    }

    /// The query whose answer the interview waits for.
    pub fn query(&self) -> (query: Query)
        requires
            self.wf(),
        ensures
            query@ == self.asked(),
    {
        match self {
            Interview::ManifestWalk { rev, .. } => Query::Walk { rev: rev.clone() },
            Interview::ManifestRev { rev } => Query::Resolve { spec: rev.clone() },
            Interview::ManifestHead { .. } => Query::Resolve { spec: "HEAD".to_owned() },
            Interview::StatusFile { rev, files, done, .. } => Query::Resolve {
                spec: spec_of(rev.as_str(), files[done.len()].path.as_str()),
            },
            Interview::StatusWalk { rev, .. } => Query::Walk { rev: rev.clone() },
            Interview::StatusRev { rev, .. } => Query::Resolve { spec: rev.clone() },
            Interview::StatusHead { .. } => Query::Resolve { spec: "HEAD".to_owned() },
            Interview::PatchFile { rev, files, done, .. } => Query::Resolve {
                spec: spec_of(rev.as_str(), files[done.len()].path.as_str()),
            },
            Interview::PatchCurrent { id, .. } => Query::Object { id: id.clone() },
            Interview::PatchBase { id, .. } => Query::Object { id: id.clone() },
            Interview::PatchRev { rev, .. } => Query::Resolve { spec: rev.clone() },
            Interview::PatchHead { .. } => Query::Resolve { spec: "HEAD".to_owned() },
            Interview::PushCurrent { path, .. } => Query::Resolve {
                spec: spec_of("HEAD", path.as_str()),
            },
            Interview::PushCommit { path, content } => Query::Commit {
                path: path.clone(),
                content: content.clone(),
                message: concat("Push ", path.as_str()),
            },
            Interview::PushCommitted { path, .. } => Query::ResolveAfterCommit {
                spec: spec_of("HEAD", path.as_str()),
            },
        }
    }
}

impl Turn {
    /// Whether the interview, if it goes on, is valid.
    pub open spec fn wf(self) -> bool {
        self matches Turn::Ask(interview) ==> interview.wf()
    }

    /// The reply to which the turn leads against `repo`.
    pub open spec fn outcome(self, repo: Repo) -> SyncResponseView {
        match self {
            Turn::Ask(interview) => interview.outcome(repo),
            Turn::Reply(response) => response@,
        }
    }

    /// Whether the turn asks for something of the request `op`, with at most `n` answers to come.
    pub open spec fn stays(self, op: Op, n: nat) -> bool {
        self matches Turn::Ask(interview) ==> interview.op() == op && interview.remaining() <= n
    }
}

/// What `request` asks for.
pub open spec fn op_of(request: SyncRequestView) -> Op {
    match request {
        SyncRequestView::Manifest { .. } => Op::Manifest,
        SyncRequestView::Status { .. } => Op::Status,
        SyncRequestView::Patch { .. } => Op::Patch,
        SyncRequestView::Push { .. } => Op::Push,
    }
}

fn rev_of(rev: Option<String>) -> (r: String)
    ensures
        r@ == rev_or_head(opt_text(rev)),
{
    match rev {
        Some(r) => r,
        None => "HEAD".to_owned(),
    }
}

/// The reply about a revision that names nothing.
fn unknown_reply(rev: String) -> (turn: Turn)
    ensures
        turn == Turn::Reply(turn->Reply_0),
        turn->Reply_0@ == (SyncResponseView::Error { message: unknown_revision(rev@) }),
{
    Turn::Reply(SyncResponse::Error { message: concat("unknown revision ", rev.as_str()) })
}

/// Goes on with the verdicts on `files` behind those in `done`.
fn next_status(
    rev: String,
    at: Option<String>,
    files: Vec<ClientFile>,
    new_files: bool,
    done: Vec<FileStatus>,
) -> (turn: Turn)
    requires
        done@.len() <= files@.len(),
    ensures
        turn.wf(),
        turn.stays(Op::Status, (files@.len() - done@.len() + 1) as nat),
        forall|repo: Repo| #[trigger]
            turn.outcome(repo) == status_reply(
                repo,
                rev@,
                opt_text(at),
                resumed(views(done@), statuses(repo, rev@, views(files@))),
                views(files@),
                new_files,
            ),
{
    if done.len() < files.len() {
        return Turn::Ask(Interview::StatusFile { rev, at, files, new_files, done });
    }
    assert forall|repo: Repo| true implies #[trigger] resumed(
        views(done@),
        statuses(repo, rev@, views(files@)),
    ) == views(done@) by {
        assert(resumed(views(done@), statuses(repo, rev@, views(files@))) =~= views(done@));
    }
    match at {
        Some(at) if new_files => Turn::Ask(Interview::StatusWalk { rev, at, files, done }),
        at => {
            let missing: Vec<ManifestFile> = Vec::new();
            assert(views(missing@) =~= seq![]);
            Turn::Reply(SyncResponse::Status { rev: at, files: done, missing })
        },
    }
}

/// Goes on with the patches for `files` behind those in `done`.
fn next_patch(
    rev: String,
    at: Option<String>,
    files: Vec<ClientFile>,
    done: Vec<FilePatch>,
) -> (turn: Turn)
    requires
        done@.len() <= files@.len(),
    ensures
        turn.wf(),
        turn.stays(Op::Patch, (3 * (files@.len() - done@.len())) as nat),
        forall|repo: Repo| #[trigger]
            turn.outcome(repo) == (SyncResponseView::Patch {
                rev: opt_text(at),
                files: resumed(views(done@), patches(repo, rev@, views(files@))),
            }),
{
    if done.len() < files.len() {
        return Turn::Ask(Interview::PatchFile { rev, at, files, done });
    }
    assert forall|repo: Repo| true implies #[trigger] resumed(
        views(done@),
        patches(repo, rev@, views(files@)),
    ) == views(done@) by {
        assert(resumed(views(done@), patches(repo, rev@, views(files@))) =~= views(done@));
    }
    Turn::Reply(SyncResponse::Patch { rev: at, files: done })
}

/// Starts the interview that answers `request`.
///
/// Whatever repository answers the queries, the interview ends in the one reply that `reply`
/// gives for it: a revision that names nothing, and every failure to list or to commit, becomes
/// [`SyncResponse::Error`].
pub fn handle(request: SyncRequest) -> (turn: Turn)
    ensures
        turn.wf(),
        turn matches Turn::Ask(interview) && interview.op() == op_of(request@),
        forall|repo: Repo| #[trigger] turn.outcome(repo) == reply(repo, request@),
{
    match request {
        SyncRequest::Manifest { rev } => Turn::Ask(Interview::ManifestRev { rev: rev_of(rev) }),
        SyncRequest::Status { rev, files, new_files } => Turn::Ask(
            Interview::StatusRev { rev: rev_of(rev), files, new_files },
        ),
        SyncRequest::Patch { rev, files } => Turn::Ask(
            Interview::PatchRev { rev: rev_of(rev), files },
        ),
        SyncRequest::Push { path, base_oid, content } => Turn::Ask(
            Interview::PushCurrent { path, base_oid, content },
        ),
    }
}

/// The verdict on a version `held` of a file whose version in the repository is `current`.
pub fn file_state(current: Option<String>, held: &String) -> (r: FileState)
    ensures
        r@ == state_of(opt_text(current), held@),
{
    match current {
        Some(oid) => if oid == *held {
            FileState::UpToDate
        } else {
            FileState::OutOfDate { current_oid: oid }
        },
        None => FileState::NotInRepo,
    }
}

/// The manifest line for one line of a walk.
pub fn into_manifest(entry: (String, String, u64)) -> (r: ManifestFile)
    ensures
        r@ == listed(entry),
{
    ManifestFile { path: entry.0, oid: entry.1, size: entry.2 }
}

/// The manifest lines for a walk.
fn into_manifests(entries: Vec<(String, String, u64)>) -> (r: Vec<ManifestFile>)
    ensures
        views(r@) == all_listed(entries@),
{
    let mut r: Vec<ManifestFile> = Vec::new();
    for entry in it: entries
        invariant
            it.seq() == entries@,
            views(r@) == all_listed(entries@).take(it.index() as int),
    {
        let ghost before = views(r@);
        r.push(into_manifest(entry));
        assert(views(r@) =~= before.push(listed(entry)));
        assert(views(r@) =~= all_listed(entries@).take(it.index() as int + 1));
    }
    r
}

/// The lines of `entries` for paths that are not among those of `files`.
pub fn missing_files(entries: Vec<(String, String, u64)>, files: &Vec<ClientFile>) -> (r: Vec<
    ManifestFile,
>)
    ensures
        views(r@) == not_held(all_listed(entries@), views(files@)),
{
    let mut held: StringHashMap<()> = StringHashMap::new();
    let n: usize = files.len();
    for i in 0..n
        invariant
            n == files@.len(),
            forall|p: Seq<char>| #[trigger]
                held@.contains_key(p) <==> holds(views(files@).take(i as int), p),
    {
        let ghost before = views(files@).take(i as int);
        let ghost after = views(files@).take(i + 1);
        held.insert(files[i].path.clone(), ());
        assert forall|p: Seq<char>| #[trigger] held@.contains_key(p) implies holds(after, p) by {
            if p == files@[i as int].path@ {
                assert(after[i as int].path == p);
            } else {
                let k = choose|k: int| 0 <= k < before.len() && (#[trigger] before[k]).path == p;
                assert(after[k].path == p);
            }
        }
        assert forall|p: Seq<char>| holds(after, p) implies #[trigger] held@.contains_key(p) by {
            let k = choose|k: int| 0 <= k < after.len() && (#[trigger] after[k]).path == p;
            if k < i {
                assert(before[k].path == p);
            }
        }
    }
    assert(views(files@).take(n as int) =~= views(files@));
    let ghost wanted = |l: Listed| !holds(views(files@), l.path);
    let ghost all = all_listed(entries@);
    let mut r: Vec<ManifestFile> = Vec::new();
    proof {
        reveal(Seq::filter);
        assert(views(r@) =~= all.take(0).filter(wanted));
    }
    for entry in it: entries
        invariant
            it.seq() == entries@,
            all == all_listed(entries@),
            wanted == (|l: Listed| !holds(views(files@), l.path)),
            forall|p: Seq<char>| #[trigger]
                held@.contains_key(p) <==> holds(views(files@), p),
            views(r@) == all.take(it.index() as int).filter(wanted),
    {
        let ghost before = views(r@);
        proof {
            reveal(Seq::filter);
            assert(all.take(it.index() as int + 1).drop_last() =~= all.take(it.index() as int));
            assert(all.take(it.index() as int + 1).last() == listed(entry));
        }
        if !held.contains_key(entry.0.as_str()) {
            r.push(into_manifest(entry));
            assert(views(r@) =~= before.push(listed(entry)));
        }
    }
    assert(all.take(all.len() as int) =~= all);
    r
}

/// The patch for a file whose two versions differ by `diff`; `None` where there is no text diff.
pub fn patch_with(base_oid: &str, current: String, diff: Option<String>) -> (r: PatchResult)
    ensures
        r@ == match diff {
            Some(d) => PatchResultView::Patch { from: base_oid@, to: current@, diff: d@ },
            None => PatchResultView::Replace { to: current@, reason: "binary"@ },
        },
{
    match diff {
        Some(d) => PatchResult::Patch { from: base_oid.to_owned(), to: current, diff: d },
        None => PatchResult::Replace { to: current, reason: "binary".to_owned() },
    }
}

/// The patch from the version `base_oid` of `path` with the content `base` to the version
/// `current` with the content `now`: a unified diff if both are text, headed by the path on both
/// sides.
pub fn patch_contents(
    path: &str,
    base_oid: &str,
    current: String,
    base: &[u8],
    now: &[u8],
) -> (r: PatchResult)
    ensures
        r@ == content_patch(path@, base_oid@, current@, base@, now@),
        r@ matches PatchResultView::Patch { diff, .. } ==> (diff.len() > 0 ==> diff_header(
            seq!['a', '/'] + path@,
            seq!['b', '/'] + path@,
        ).is_prefix_of(diff)) && (decode_utf8(base@) != decode_utf8(now@) ==> diff.len() > 0),
        r@ matches PatchResultView::Patch { from, to, diff } ==> from == base_oid@ && to
            == current@ && diff == line_diff(
            decode_utf8(base@),
            decode_utf8(now@),
            seq!['a', '/'] + path@,
            seq!['b', '/'] + path@,
        ),
        r@ is Patch <==> valid_utf8(base@) && valid_utf8(now@),
{
    let diff: Option<String> = match (utf8_text(base), utf8_text(now)) {
        (Some(old_text), Some(new_text)) => {
            let old_name: String = concat("a/", path);
            let new_name: String = concat("b/", path);
            proof {
                reveal_strlit("a/");
                reveal_strlit("b/");
                assert("a/"@ =~= seq!['a', '/']);
                assert("b/"@ =~= seq!['b', '/']);
            }
            Some(unified_diff(old_text, new_text, old_name.as_str(), new_name.as_str()))
        },
        _ => None,
    };
    patch_with(base_oid, current, diff)
}

/// Whether a push that was based on `base_oid` conflicts with the version `current`.
pub fn push_conflicts(base_oid: &Option<String>, current: &Option<String>) -> (r: bool)
    ensures
        r == (opt_text(*base_oid) != opt_text(*current)),
{
    match (base_oid, current) {
        (Some(base), Some(cur)) => *base != *cur,
        (Some(_), None) => true,
        (None, Some(_)) => true,
        (None, None) => false,
    }
}

/// Whether `oid` is the id of the content `content`.
fn is_content_oid(oid: &String, content: &str) -> (r: bool)
    ensures
        r == (content_oid(encode_utf8(content@)) == Some(oid@)),
{
    match hash_blob(content.as_bytes()) {
        Some(new_oid) => new_oid == *oid,
        None => false,
    }
}

proof fn lemma_resumed<A>(done: Seq<A>, all: Seq<A>)
    requires
        done.len() < all.len(),
    ensures
        resumed(done.push(all[done.len() as int]), all) == resumed(done, all),
{
    assert(resumed(done.push(all[done.len() as int]), all) =~= resumed(done, all));
}

/// Starts on the verdicts once it is known what the revision resolves to.
fn start_status(rev: String, at: Option<String>, files: Vec<ClientFile>, new_files: bool) -> (turn:
    Turn)
    ensures
        turn.wf(),
        turn.stays(Op::Status, files@.len() + 1),
        forall|repo: Repo| #[trigger]
            turn.outcome(repo) == status_reply(
                repo,
                rev@,
                opt_text(at),
                statuses(repo, rev@, views(files@)),
                views(files@),
                new_files,
            ),
{
    let done: Vec<FileStatus> = Vec::new();
    assert forall|repo: Repo| true implies #[trigger] resumed(
        views(done@),
        statuses(repo, rev@, views(files@)),
    ) == statuses(repo, rev@, views(files@)) by {
        assert(resumed(views(done@), statuses(repo, rev@, views(files@))) =~= statuses(
            repo,
            rev@,
            views(files@),
        ));
    }
    next_status(rev, at, files, new_files, done)
}

/// Starts on the patches once it is known what the revision resolves to.
fn start_patch(rev: String, at: Option<String>, files: Vec<ClientFile>) -> (turn: Turn)
    ensures
        turn.wf(),
        turn.stays(Op::Patch, 3 * files@.len()),
        forall|repo: Repo| #[trigger]
            turn.outcome(repo) == (SyncResponseView::Patch {
                rev: opt_text(at),
                files: patches(repo, rev@, views(files@)),
            }),
{
    let done: Vec<FilePatch> = Vec::new();
    assert forall|repo: Repo| true implies #[trigger] resumed(
        views(done@),
        patches(repo, rev@, views(files@)),
    ) == patches(repo, rev@, views(files@)) by {
        assert(resumed(views(done@), patches(repo, rev@, views(files@))) =~= patches(
            repo,
            rev@,
            views(files@),
        ));
    }
    next_patch(rev, at, files, done)
}

/// Records the verdict on the next file and goes on.
fn add_status(
    rev: String,
    at: Option<String>,
    files: Vec<ClientFile>,
    new_files: bool,
    done: Vec<FileStatus>,
    current: Option<String>,
) -> (turn: Turn)
    requires
        done@.len() < files@.len(),
    ensures
        turn.wf(),
        turn.stays(Op::Status, (files@.len() - done@.len()) as nat),
        forall|repo: Repo|
            path_oid(repo, rev@, files@[done@.len() as int].path@) == opt_text(current) ==> (
            #[trigger] turn.outcome(repo)) == status_reply(
                repo,
                rev@,
                opt_text(at),
                resumed(views(done@), statuses(repo, rev@, views(files@))),
                views(files@),
                new_files,
            ),
{
    let mut done: Vec<FileStatus> = done;
    let ghost before = views(done@);
    let ghost seen = opt_text(current);
    let k: usize = done.len();
    let state: FileState = file_state(current, &files[k].oid);
    done.push(FileStatus { path: files[k].path.clone(), state });
    assert forall|repo: Repo| path_oid(repo, rev@, files@[k as int].path@) == seen implies
        #[trigger] resumed(views(done@), statuses(repo, rev@, views(files@))) == resumed(
        before,
        statuses(repo, rev@, views(files@)),
    ) by {
        let all = statuses(repo, rev@, views(files@));
        lemma_resumed(before, all);
        assert(views(done@) =~= before.push(all[k as int]));
    }
    next_status(rev, at, files, new_files, done)
}

/// Records the patch for the next file and goes on.
fn add_patch(
    rev: String,
    at: Option<String>,
    files: Vec<ClientFile>,
    done: Vec<FilePatch>,
    result: PatchResult,
) -> (turn: Turn)
    requires
        done@.len() < files@.len(),
    ensures
        turn.wf(),
        turn.stays(Op::Patch, (3 * (files@.len() - done@.len()) - 3) as nat),
        forall|repo: Repo| #[trigger]
            turn.outcome(repo) == (SyncResponseView::Patch {
                rev: opt_text(at),
                files: resumed(
                    views(done@).push(
                        FilePatchView {
                            path: files@[done@.len() as int].path@,
                            result: result@,
                        },
                    ),
                    patches(repo, rev@, views(files@)),
                ),
            }),
{
    let mut done: Vec<FilePatch> = done;
    let ghost before = views(done@);
    let k: usize = done.len();
    let ghost item = FilePatchView { path: files@[k as int].path@, result: result@ };
    done.push(FilePatch { path: files[k].path.clone(), result });
    assert(views(done@) =~= before.push(item));
    next_patch(rev, at, files, done)
}

/// Goes on with the next patch once the version `current` of its file is known.
fn patch_current(
    rev: String,
    at: Option<String>,
    files: Vec<ClientFile>,
    done: Vec<FilePatch>,
    current: Option<String>,
) -> (turn: Turn)
    requires
        done@.len() < files@.len(),
    ensures
        turn.wf(),
        turn.stays(Op::Patch, (3 * (files@.len() - done@.len()) - 1) as nat),
        forall|repo: Repo|
            path_oid(repo, rev@, files@[done@.len() as int].path@) == opt_text(current) ==> (
            #[trigger] turn.outcome(repo)) == (SyncResponseView::Patch {
                rev: opt_text(at),
                files: resumed(views(done@), patches(repo, rev@, views(files@))),
            }),
{
    let ghost before = views(done@);
    let ghost seen = opt_text(current);
    let ghost k = done@.len() as int;
    assert forall|repo: Repo| true implies #[trigger] resumed(
        before,
        patches(repo, rev@, views(files@)),
    ) == resumed(
        before.push(
            FilePatchView {
                path: files@[k].path@,
                result: patch_of(repo, rev@, files@[k].path@, files@[k].oid@),
            },
        ),
        patches(repo, rev@, views(files@)),
    ) by {
        lemma_resumed(before, patches(repo, rev@, views(files@)));
    }
    match current {
        None => add_patch(rev, at, files, done, PatchResult::NotInRepo),
        Some(current) => {
            if current == files[done.len()].oid {
                add_patch(rev, at, files, done, PatchResult::UpToDate)
            } else {
                match parse_oid(current.as_str()) {
                    Some(id) => Turn::Ask(
                        Interview::PatchCurrent { rev, at, files, done, current, id },
                    ),
                    None => add_patch(
                        rev,
                        at,
                        files,
                        done,
                        PatchResult::Replace {
                            to: current,
                            reason: "current_unavailable".to_owned(),
                        },
                    ),
                }
            }
        },
    }
}

/// Goes on with a push once the version `current` of its path is known.
fn push_current(
    path: String,
    base_oid: Option<String>,
    content: String,
    current: Option<String>,
) -> (turn: Turn)
    ensures
        turn.wf(),
        turn.stays(Op::Push, 2),
        forall|repo: Repo|
            path_oid(repo, "HEAD"@, path@) == opt_text(current) ==> (#[trigger] turn.outcome(repo))
                == push_reply(repo, path@, opt_text(base_oid), content@),
        turn is Ask <==> opt_text(base_oid) == opt_text(current) && !(current is Some && opt_text(
            current,
        ) == content_oid(encode_utf8(content@))),
{
    if push_conflicts(&base_oid, &current) {
        return Turn::Reply(
            SyncResponse::Push { path, result: PushResult::Conflict { current_oid: current } },
        );
    }
    match current {
        Some(oid) => {
            if is_content_oid(&oid, content.as_str()) {
                Turn::Reply(SyncResponse::Push { path, result: PushResult::Unchanged { oid } })
            } else {
                Turn::Ask(Interview::PushCommit { path, content })
            }
        },
        None => Turn::Ask(Interview::PushCommit { path, content }),
    }
}

impl Interview {
    /// Goes on with the answer to the query.
    ///
    /// A right answer does not change to which reply the interview leads, and with every answer
    /// fewer are left to come. A commit is asked for only when a push meets the version that it
    /// was based on and brings other content.
    pub fn resume(self, answer: Answer) -> (turn: Turn)
        requires
            self.wf(),
            self.asked().fits(answer),
        ensures
            turn.wf(),
            forall|repo: Repo|
                self.asked().answered(repo, answer) ==> (#[trigger] turn.outcome(repo))
                    == self.outcome(repo),
            turn matches Turn::Ask(next) ==> next.op() == self.op() && next.remaining()
                < self.remaining(),
            turn matches Turn::Ask(next) && next.asked() is Commit ==> (self matches
                Interview::PushCurrent { path, base_oid, content } && answer matches
                Answer::Resolved(current) && opt_text(base_oid) == opt_text(current) && !(
            current is Some && opt_text(current) == content_oid(encode_utf8(content@)))),
    {
        match (self, answer) {
            (Interview::ManifestRev { rev }, Answer::Resolved(Some(at))) => Turn::Ask(
                Interview::ManifestWalk { rev, at },
            ),
            (Interview::ManifestRev { rev }, Answer::Resolved(None)) => Turn::Ask(
                Interview::ManifestHead { rev },
            ),
            (Interview::ManifestHead { rev }, Answer::Resolved(Some(_))) => unknown_reply(rev),
            (Interview::ManifestHead { .. }, Answer::Resolved(None)) => {
                let files: Vec<ManifestFile> = Vec::new();
                assert(views(files@) =~= seq![]);
                Turn::Reply(SyncResponse::Manifest { rev: None, files })
            },
            (Interview::ManifestWalk { at, .. }, Answer::Walked(Ok(list))) => Turn::Reply(
                SyncResponse::Manifest { rev: Some(at), files: into_manifests(list) },
            ),
            (Interview::ManifestWalk { .. }, Answer::Walked(Err(message))) => Turn::Reply(
                SyncResponse::Error { message },
            ),
            (
                Interview::StatusRev { rev, files, new_files },
                Answer::Resolved(Some(at)),
            ) => start_status(rev, Some(at), files, new_files),
            (
                Interview::StatusRev { rev, files, new_files },
                Answer::Resolved(None),
            ) => Turn::Ask(Interview::StatusHead { rev, files, new_files }),
            (Interview::StatusHead { rev, .. }, Answer::Resolved(Some(_))) => unknown_reply(rev),
            (
                Interview::StatusHead { rev, files, new_files },
                Answer::Resolved(None),
            ) => start_status(rev, None, files, new_files),
            (
                Interview::StatusFile { rev, at, files, new_files, done },
                Answer::Resolved(current),
            ) => add_status(rev, at, files, new_files, done, current),
            (Interview::StatusWalk { at, files, done, .. }, Answer::Walked(Ok(list))) => {
                let missing: Vec<ManifestFile> = missing_files(list, &files);
                Turn::Reply(SyncResponse::Status { rev: Some(at), files: done, missing })
            },
            (Interview::StatusWalk { .. }, Answer::Walked(Err(message))) => Turn::Reply(
                SyncResponse::Error { message },
            ),
            (Interview::PatchRev { rev, files }, Answer::Resolved(Some(at))) => start_patch(
                rev,
                Some(at),
                files,
            ),
            (Interview::PatchRev { rev, files }, Answer::Resolved(None)) => Turn::Ask(
                Interview::PatchHead { rev, files },
            ),
            (Interview::PatchHead { rev, .. }, Answer::Resolved(Some(_))) => unknown_reply(rev),
            (Interview::PatchHead { rev, files }, Answer::Resolved(None)) => start_patch(
                rev,
                None,
                files,
            ),
            (
                Interview::PatchFile { rev, at, files, done },
                Answer::Resolved(current),
            ) => patch_current(rev, at, files, done, current),
            (
                Interview::PatchCurrent { rev, at, files, done, current, .. },
                Answer::Object(None),
            ) => add_patch(
                rev,
                at,
                files,
                done,
                PatchResult::Replace { to: current, reason: "current_unavailable".to_owned() },
            ),
            (
                Interview::PatchCurrent { rev, at, files, done, current, .. },
                Answer::Object(Some(now)),
            ) => {
                match parse_oid(files[done.len()].oid.as_str()) {
                    Some(id) => Turn::Ask(
                        Interview::PatchBase { rev, at, files, done, current, now, id },
                    ),
                    None => add_patch(
                        rev,
                        at,
                        files,
                        done,
                        PatchResult::Replace { to: current, reason: "base_unavailable".to_owned() },
                    ),
                }
            },
            (
                Interview::PatchBase { rev, at, files, done, current, .. },
                Answer::Object(None),
            ) => add_patch(
                rev,
                at,
                files,
                done,
                PatchResult::Replace { to: current, reason: "base_unavailable".to_owned() },
            ),
            (
                Interview::PatchBase { rev, at, files, done, current, now, .. },
                Answer::Object(Some(base)),
            ) => {
                let k: usize = done.len();
                let result: PatchResult = patch_contents(
                    files[k].path.as_str(),
                    files[k].oid.as_str(),
                    current,
                    base.as_slice(),
                    now.as_slice(),
                );
                add_patch(rev, at, files, done, result)
            },
            (
                Interview::PushCurrent { path, base_oid, content },
                Answer::Resolved(current),
            ) => push_current(path, base_oid, content, current),
            (Interview::PushCommit { path, content }, Answer::Committed(Ok(_))) => Turn::Ask(
                Interview::PushCommitted { path, content },
            ),
            (Interview::PushCommit { .. }, Answer::Committed(Err(message))) => Turn::Reply(
                SyncResponse::Error { message },
            ),
            (Interview::PushCommitted { path, content }, Answer::Resolved(resolved)) => {
                let oid: String = match resolved {
                    Some(oid) => oid,
                    None => match hash_blob(content.as_str().as_bytes()) {
                        Some(oid) => oid,
                        None => String::new(),
                    },
                };
                Turn::Reply(SyncResponse::Push { path, result: PushResult::Committed { oid } })
            },
            _ => Turn::Reply(SyncResponse::Error { message: String::new() }),
        }
    }
}

/// The reply to a request that cannot be read, for the reason `reason`.
pub fn invalid_request(reason: &str) -> (r: SyncResponse)
    ensures
        r@ == (SyncResponseView::Error { message: "invalid request: "@ + reason@ }),
{
    SyncResponse::Error { message: concat("invalid request: ", reason) }
}

/// The reply, as JSON, that stands in for one that cannot be written, for the reason `reason`.
pub fn serialize_failed(reason: &str) -> (r: String)
    ensures
        r@ == "{\"op\":\"error\",\"message\":\"serialize failed: "@ + reason@ + "\"}"@,
{
    let mut r: String = concat("{\"op\":\"error\",\"message\":\"serialize failed: ", reason);
    r.append("\"}");
    r
}

/// Whether a status request that does not say so asks for new files too.
pub fn default_true() -> (r: bool)
    ensures
        r,
{
    true
}

/// The mark of a verdict in a printed report.
pub open spec fn state_mark(state: FileStateView) -> Seq<char> {
    match state {
        FileStateView::UpToDate => "[ok   ] "@,
        FileStateView::OutOfDate { .. } => "[stale] "@,
        FileStateView::NotInRepo => "[gone ] "@,
    }
}

/// The line of a printed report for the verdict on one file.
pub fn status_line(status: &FileStatus) -> (r: String)
    ensures
        r@ == state_mark(status.state@) + status.path@,
{
    let mark: &str = match &status.state {
        FileState::UpToDate => "[ok   ] ",
        FileState::OutOfDate { .. } => "[stale] ",
        FileState::NotInRepo => "[gone ] ",
    };
    concat(mark, status.path.as_str())
}

/// The line of a printed report for a file that the client does not hold.
pub fn missing_line(file: &ManifestFile) -> (r: String)
    ensures
        r@ == "[new   ] "@ + file.path@,
{
    concat("[new   ] ", file.path.as_str())
}

/// An interview about versions never reads the content of a file and never commits.
pub proof fn law_status_reads_no_content(interview: Interview)
    requires
        interview.op() == Op::Manifest || interview.op() == Op::Status,
    ensures
        interview.asked() is Resolve || interview.asked() is Walk,
{
}

/// A status and a patch agree on which files are current and which are gone.
pub proof fn law_status_and_patch_agree(
    repo: Repo,
    rev: Seq<char>,
    files: Seq<FileRef>,
    i: int,
)
    requires
        0 <= i < files.len(),
    ensures
        statuses(repo, rev, files)[i].path == files[i].path,
        patches(repo, rev, files)[i].path == files[i].path,
        statuses(repo, rev, files)[i].state is UpToDate <==> patches(
            repo,
            rev,
            files,
        )[i].result is UpToDate,
        statuses(repo, rev, files)[i].state is NotInRepo <==> patches(
            repo,
            rev,
            files,
        )[i].result is NotInRepo,
{
}

/// A file that is neither current nor gone is out of date, and its patch or its replacement leads
/// to the version that the verdict names.
pub proof fn law_patch_leads_to_the_current_version(
    repo: Repo,
    rev: Seq<char>,
    files: Seq<FileRef>,
    i: int,
)
    requires
        0 <= i < files.len(),
        statuses(repo, rev, files)[i].state is OutOfDate,
    ensures
        match patches(repo, rev, files)[i].result {
            PatchResultView::Patch { from, to, .. } => from == files[i].oid && to == statuses(
                repo,
                rev,
                files,
            )[i].state->current_oid,
            PatchResultView::Replace { to, .. } => to == statuses(
                repo,
                rev,
                files,
            )[i].state->current_oid,
            _ => false,
        },
{
}

/// The version that a push has committed is current for the client that pushed it: `after` is the
/// repository once the commit is made.
pub proof fn law_pushed_version_is_current(
    repo: Repo,
    after: Repo,
    path: Seq<char>,
    base_oid: Option<Seq<char>>,
    content: Seq<char>,
    oid: Seq<char>,
)
    requires
        reply(repo, SyncRequestView::Push { path, base_oid, content }) == (SyncResponseView::Push {
            path,
            result: PushResultView::Committed { oid },
        }),
        (repo.resolve_after_commit)(path_spec("HEAD"@, path)) is Some,
        after.resolve == repo.resolve_after_commit,
    ensures
        statuses(after, "HEAD"@, seq![FileRef { path, oid }])[0].state is UpToDate,
        patches(after, "HEAD"@, seq![FileRef { path, oid }])[0].result is UpToDate,
{
}

/// The version that a conflict names is one on which the push can be based: pushing again on top
/// of it does not conflict.
pub proof fn law_conflict_names_the_base_to_use(
    repo: Repo,
    path: Seq<char>,
    base_oid: Option<Seq<char>>,
    content: Seq<char>,
    current_oid: Option<Seq<char>>,
)
    requires
        reply(repo, SyncRequestView::Push { path, base_oid, content }) == (SyncResponseView::Push {
            path,
            result: PushResultView::Conflict { current_oid },
        }),
    ensures
        match reply(repo, SyncRequestView::Push { path, base_oid: current_oid, content }) {
            SyncResponseView::Push { result, .. } => !(result is Conflict),
            _ => true,
        },
{
}

/// With `new_files`, every file of the repository is one that the client reported or one that
/// the reply reports as missing, and no file is both.
pub proof fn law_status_covers_the_listing(
    repo: Repo,
    rev: Option<Seq<char>>,
    files: Seq<FileRef>,
    i: int,
)
    requires
        (repo.resolve)(rev_or_head(rev)) is Some,
        (repo.listing)(rev_or_head(rev)) is Ok,
        0 <= i < (repo.listing)(rev_or_head(rev))->Ok_0.len(),
    ensures
        ({
            let file = (repo.listing)(rev_or_head(rev))->Ok_0[i];
            let answer = reply(repo, SyncRequestView::Status { rev, files, new_files: true });
            &&& answer is Status
            &&& answer->Status_missing.contains(file) <==> !holds(files, file.path)
        }),
{
    broadcast use vstd::seq_lib::group_filter_ensures;

    let listing = (repo.listing)(rev_or_head(rev))->Ok_0;
    let wanted = |l: Listed| !holds(files, l.path);
    assert(listing.contains(listing[i]));
}

/// Where there is a commit, a revision that names nothing is a failure, whatever is asked about
/// it.
pub proof fn law_unknown_revision_is_an_error(
    repo: Repo,
    rev: Seq<char>,
    files: Seq<FileRef>,
    new_files: bool,
)
    requires
        (repo.resolve)("HEAD"@) is Some,
        (repo.resolve)(rev) is None,
    ensures
        ({
            let failure = SyncResponseView::Error { message: unknown_revision(rev) };
            &&& reply(repo, SyncRequestView::Manifest { rev: Some(rev) }) == failure
            &&& reply(repo, SyncRequestView::Status { rev: Some(rev), files, new_files })
                == failure
            &&& reply(repo, SyncRequestView::Patch { rev: Some(rev), files }) == failure
        }),
{
}

/// Before the first commit there is nothing to list, and that is no failure, whether the request
/// names no revision, `HEAD` or the branch that `HEAD` is on: every file is told to be gone.
pub proof fn law_unborn_branch_lists_nothing(
    repo: Repo,
    rev: Option<Seq<char>>,
    files: Seq<FileRef>,
    new_files: bool,
)
    requires
        (repo.resolve)("HEAD"@) is None,
        (repo.resolve)(rev_or_head(rev)) is None,
        forall|path: Seq<char>| #[trigger] path_oid(repo, rev_or_head(rev), path) is None,
    ensures
        reply(repo, SyncRequestView::Manifest { rev }) == (SyncResponseView::Manifest {
            rev: None,
            files: seq![],
        }),
        reply(repo, SyncRequestView::Status { rev, files, new_files }) == (
        SyncResponseView::Status {
            rev: None,
            files: files.map_values(
                |f: FileRef| FileStatusView { path: f.path, state: FileStateView::NotInRepo },
            ),
            missing: seq![],
        }),
        reply(repo, SyncRequestView::Patch { rev, files }) == (SyncResponseView::Patch {
            rev: None,
            files: files.map_values(
                |f: FileRef| FilePatchView { path: f.path, result: PatchResultView::NotInRepo },
            ),
        }),
{
    let r = rev_or_head(rev);
    assert(statuses(repo, r, files) =~= files.map_values(
        |f: FileRef| FileStatusView { path: f.path, state: FileStateView::NotInRepo },
    ));
    assert(patches(repo, r, files) =~= files.map_values(
        |f: FileRef| FilePatchView { path: f.path, result: PatchResultView::NotInRepo },
    ));
}

/// A client that holds the versions that a listing names is told that all of them are current, by a
/// status and by a patch, and that nothing is missing. `repo` is one in which the paths that it
/// lists resolve to the ids that it lists.
pub proof fn law_manifest_is_current(repo: Repo, rev: Option<Seq<char>>, files: Seq<FileRef>)
    requires
        (repo.resolve)(rev_or_head(rev)) is Some,
        (repo.listing)(rev_or_head(rev)) is Ok,
        files == held_from((repo.listing)(rev_or_head(rev))->Ok_0),
        listing_resolves(repo, rev_or_head(rev)),
    ensures
        ({
            let r = rev_or_head(rev);
            let answer = reply(repo, SyncRequestView::Status { rev, files, new_files: true });
            &&& answer is Status
            &&& answer->Status_missing.len() == 0
            &&& forall|i: int|
                0 <= i < files.len() ==> (#[trigger] statuses(repo, r, files)[i]).state is UpToDate
            &&& forall|i: int|
                0 <= i < files.len() ==> (#[trigger] patches(repo, r, files)[i]).result is UpToDate
            &&& answer->Status_files == statuses(repo, r, files)
        }),
{
    let listing = (repo.listing)(rev_or_head(rev))->Ok_0;
    let wanted = |l: Listed| !holds(files, l.path);
    let missing = listing.filter(wanted);
    broadcast use vstd::seq_lib::group_filter_ensures;

    if missing.len() > 0 {
        let l = missing[0];
        assert(missing.contains(l));
        listing.lemma_filter_contains_rev(wanted, l);
        let k = choose|k: int| 0 <= k < listing.len() && listing[k] == l;
        assert(files[k].path == l.path);
        assert(wanted(l));
    }
    assert forall|i: int| 0 <= i < files.len() implies (#[trigger] statuses(
        repo,
        rev_or_head(rev),
        files,
    )[i]).state is UpToDate by {
        assert(listing[i].path == files[i].path);
    }
    assert forall|i: int| 0 <= i < files.len() implies (#[trigger] patches(
        repo,
        rev_or_head(rev),
        files,
    )[i]).result is UpToDate by {
        assert(listing[i].path == files[i].path);
    }
}

/// The versions that a listing names, as a client holds them.
pub open spec fn held_from(listing: Seq<Listed>) -> Seq<FileRef> {
    listing.map_values(|l: Listed| FileRef { path: l.path, oid: l.oid })
}

/// Whether the paths that `repo` lists at `rev` resolve to the ids that it lists.
pub open spec fn listing_resolves(repo: Repo, rev: Seq<char>) -> bool {
    let listing = (repo.listing)(rev)->Ok_0;
    forall|i: int|
        0 <= i < listing.len() ==> path_oid(repo, rev, (#[trigger] listing[i]).path) == Some(
            listing[i].oid,
        )
}

/// Once the repository has the pushed content, pushing it again on top of that version changes
/// nothing.
pub proof fn law_repeated_push_is_unchanged(repo: Repo, path: Seq<char>, content: Seq<char>)
    requires
        path_oid(repo, "HEAD"@, path) is Some,
        path_oid(repo, "HEAD"@, path) == content_oid(encode_utf8(content)),
    ensures
        reply(
            repo,
            SyncRequestView::Push { path, base_oid: path_oid(repo, "HEAD"@, path), content },
        ) == (SyncResponseView::Push {
            path,
            result: PushResultView::Unchanged { oid: path_oid(repo, "HEAD"@, path)->0 },
        }),
{
}

/// A push that was based on another version than the repository's is a conflict, and the reply
/// names the repository's version.
pub proof fn law_stale_push_conflicts(
    repo: Repo,
    path: Seq<char>,
    base_oid: Option<Seq<char>>,
    content: Seq<char>,
)
    requires
        base_oid != path_oid(repo, "HEAD"@, path),
    ensures
        reply(repo, SyncRequestView::Push { path, base_oid, content }) == (SyncResponseView::Push {
            path,
            result: PushResultView::Conflict { current_oid: path_oid(repo, "HEAD"@, path) },
        }),
{
}

/// A manifest is what the repository lists at the revision that was asked for, every line of it and
/// in its order, with the id of that revision; a listing that fails is reported with its message.
pub proof fn law_manifest_tells_the_listing(
    repo: Repo,
    rev: Option<Seq<char>>,
    r: Seq<char>,
    id: Seq<char>,
)
    requires
        rev == Some(r) || (rev is None && r == "HEAD"@),
        (repo.resolve)(r) == Some(id),
    ensures
        match (repo.listing)(r) {
            Ok(files) => reply(repo, SyncRequestView::Manifest { rev }) == (
            SyncResponseView::Manifest { rev: Some(id), files }),
            Err(message) => reply(repo, SyncRequestView::Manifest { rev }) == (
            SyncResponseView::Error { message }),
        },
{
}

/// A file is judged against what its path is at the revision that was asked for: it is current
/// exactly if the path resolves there to the id that is held, gone exactly if it resolves to
/// nothing, and otherwise stale, with the id that it resolves to. The verdicts come one for each
/// file, in the order of the request.
pub proof fn law_status_judges_by_the_revision(
    repo: Repo,
    rev: Option<Seq<char>>,
    r: Seq<char>,
    id: Seq<char>,
    files: Seq<FileRef>,
    new_files: bool,
    i: int,
)
    requires
        rev == Some(r) || (rev is None && r == "HEAD"@),
        (repo.resolve)(r) == Some(id),
        new_files ==> (repo.listing)(r) is Ok,
        0 <= i < files.len(),
    ensures
        match reply(repo, SyncRequestView::Status { rev, files, new_files }) {
            SyncResponseView::Status { rev: at, files: verdicts, missing } => {
                let current = (repo.resolve)(r + seq![':'] + files[i].path);
                &&& at == Some(id)
                &&& verdicts.len() == files.len()
                &&& verdicts[i].path == files[i].path
                &&& verdicts[i].state is UpToDate <==> current == Some(files[i].oid)
                &&& verdicts[i].state is NotInRepo <==> current is None
                &&& verdicts[i].state is OutOfDate ==> current == Some(
                    verdicts[i].state->current_oid,
                ) && verdicts[i].state->current_oid != files[i].oid
            },
            _ => false,
        },
{
}

/// What a status reports as missing are the files of the revision whose paths the client does not
/// hold, in whatever version: all of them and no others, in the order of the listing. Where new
/// files were not asked for, nothing is. A listing that fails is reported with its message.
pub proof fn law_missing_files_are_those_not_held(
    repo: Repo,
    rev: Option<Seq<char>>,
    r: Seq<char>,
    id: Seq<char>,
    files: Seq<FileRef>,
)
    requires
        rev == Some(r) || (rev is None && r == "HEAD"@),
        (repo.resolve)(r) == Some(id),
    ensures
        match reply(repo, SyncRequestView::Status { rev, files, new_files: false }) {
            SyncResponseView::Status { missing, .. } => missing.len() == 0,
            _ => false,
        },
        match (repo.listing)(r) {
            Ok(listing) => match reply(
                repo,
                SyncRequestView::Status { rev, files, new_files: true },
            ) {
                SyncResponseView::Status { missing, .. } => missing == listing.filter(
                    |l: Listed|
                        forall|k: int|
                            0 <= k < files.len() ==> (#[trigger] files[k]).path != l.path,
                ),
                _ => false,
            },
            Err(message) => reply(repo, SyncRequestView::Status { rev, files, new_files: true })
                == (SyncResponseView::Error { message }),
        },
{
    if let Ok(listing) = (repo.listing)(r) {
        let a = |l: Listed| !holds(files, l.path);
        let b = |l: Listed|
            forall|k: int| 0 <= k < files.len() ==> (#[trigger] files[k]).path != l.path;
        lemma_same_filter(listing, a, b);
    }
}

proof fn lemma_same_filter<A>(s: Seq<A>, a: spec_fn(A) -> bool, b: spec_fn(A) -> bool)
    requires
        forall|x: A| #[trigger] a(x) == b(x),
    ensures
        s.filter(a) == s.filter(b),
    decreases s.len(),
{
    reveal(Seq::filter);
    if s.len() > 0 {
        lemma_same_filter(s.drop_last(), a, b);
        assert(a(s.last()) == b(s.last()));
    }
}

/// A patch leads from the version that the client holds to the current one: it names the held
/// version as the one it is from and what the path resolves to at the revision as the one it is to,
/// and its diff is the one from the text of the first to the text of the second, whichever of them
/// is the longer one.
pub proof fn law_patch_leads_from_held_to_current(
    repo: Repo,
    rev: Option<Seq<char>>,
    r: Seq<char>,
    id: Seq<char>,
    files: Seq<FileRef>,
    i: int,
)
    requires
        rev == Some(r) || (rev is None && r == "HEAD"@),
        (repo.resolve)(r) == Some(id),
        0 <= i < files.len(),
    ensures
        match reply(repo, SyncRequestView::Patch { rev, files }) {
            SyncResponseView::Patch { rev: at, files: patched } => {
                &&& at == Some(id)
                &&& patched.len() == files.len()
                &&& patched[i].path == files[i].path
                &&& match patched[i].result {
                    PatchResultView::Patch { from, to, diff } => {
                        let before = (repo.object)(unhex(encode_utf8(from)));
                        let after = (repo.object)(unhex(encode_utf8(to)));
                        &&& from == files[i].oid
                        &&& Some(to) == (repo.resolve)(r + seq![':'] + files[i].path)
                        &&& from != to
                        &&& before is Some && valid_utf8(before->0)
                        &&& after is Some && valid_utf8(after->0)
                        &&& diff == line_diff(
                            decode_utf8(before->0),
                            decode_utf8(after->0),
                            "a/"@ + files[i].path,
                            "b/"@ + files[i].path,
                        )
                    },
                    PatchResultView::Replace { to, reason } => Some(to) == (repo.resolve)(
                        r + seq![':'] + files[i].path,
                    ) && to != files[i].oid,
                    PatchResultView::UpToDate => (repo.resolve)(r + seq![':'] + files[i].path)
                        == Some(files[i].oid),
                    PatchResultView::NotInRepo => (repo.resolve)(
                        r + seq![':'] + files[i].path,
                    ) is None,
                }
            },
            _ => false,
        },
{
    reveal_strlit("a/");
    reveal_strlit("b/");
    assert("a/"@ =~= seq!['a', '/']);
    assert("b/"@ =~= seq!['b', '/']);
}

/// A stale file gets a patch exactly if both versions are at hand and are text; otherwise it is to
/// be replaced, and the reason tells which of the two is not at hand, or that one is binary.
pub proof fn law_stale_text_gets_a_patch(
    repo: Repo,
    rev: Option<Seq<char>>,
    r: Seq<char>,
    id: Seq<char>,
    files: Seq<FileRef>,
    i: int,
    current: Seq<char>,
)
    requires
        rev == Some(r) || (rev is None && r == "HEAD"@),
        (repo.resolve)(r) == Some(id),
        0 <= i < files.len(),
        (repo.resolve)(r + seq![':'] + files[i].path) == Some(current),
        current != files[i].oid,
    ensures
        match reply(repo, SyncRequestView::Patch { rev, files }) {
            SyncResponseView::Patch { files: patched, .. } => {
                let result = patched[i].result;
                let held = if is_hex_id(encode_utf8(files[i].oid)) {
                    (repo.object)(unhex(encode_utf8(files[i].oid)))
                } else {
                    None
                };
                let now = if is_hex_id(encode_utf8(current)) {
                    (repo.object)(unhex(encode_utf8(current)))
                } else {
                    None
                };
                &&& now is None ==> result == (PatchResultView::Replace {
                    to: current,
                    reason: "current_unavailable"@,
                })
                &&& now is Some && held is None ==> result == (PatchResultView::Replace {
                    to: current,
                    reason: "base_unavailable"@,
                })
                &&& now is Some && held is Some ==> (result is Patch <==> valid_utf8(now->0)
                    && valid_utf8(held->0))
                &&& now is Some && held is Some && !(result is Patch) ==> result == (
                PatchResultView::Replace { to: current, reason: "binary"@ })
            },
            _ => false,
        },
{
}

/// The patch between two contents is the diff from the base text to the current text, under the
/// path on both sides, for all texts; a swap of the two contents swaps the sides of the diff.
pub proof fn law_content_patch_goes_from_base_to_now(
    path: Seq<char>,
    base_oid: Seq<char>,
    current: Seq<char>,
    base: Seq<char>,
    now: Seq<char>,
)
    ensures
        content_patch(path, base_oid, current, encode_utf8(base), encode_utf8(now)) == (
        PatchResultView::Patch {
            from: base_oid,
            to: current,
            diff: line_diff(base, now, "a/"@ + path, "b/"@ + path),
        }),
        content_patch(path, current, base_oid, encode_utf8(now), encode_utf8(base)) == (
        PatchResultView::Patch {
            from: current,
            to: base_oid,
            diff: line_diff(now, base, "a/"@ + path, "b/"@ + path),
        }),
{
    broadcast use vstd::utf8::encode_utf8_valid_utf8;
    broadcast use vstd::utf8::encode_utf8_decode_utf8;

    reveal_strlit("a/");
    reveal_strlit("b/");
    assert("a/"@ =~= seq!['a', '/']);
    assert("b/"@ =~= seq!['b', '/']);
}

/// A push is decided by what its path is in `HEAD`: on another version it conflicts, and the reply
/// names the version that is there; content that is there already changes nothing; anything else is
/// committed, the pushed content in full and at the pushed path, and what that commit comes to is
/// reported.
pub proof fn law_push_commits_the_pushed_content(
    repo: Repo,
    path: Seq<char>,
    base_oid: Option<Seq<char>>,
    content: Seq<char>,
)
    ensures
        ({
            let current = (repo.resolve)("HEAD"@ + seq![':'] + path);
            let digest = blob_digest(encode_utf8(content));
            let answer = reply(repo, SyncRequestView::Push { path, base_oid, content });
            let same = current is Some && digest is Some && current->0 == hex(digest->0);
            &&& base_oid != current <==> answer == (SyncResponseView::Push {
                path,
                result: PushResultView::Conflict { current_oid: current },
            })
            &&& base_oid == current && same <==> answer == (SyncResponseView::Push {
                path,
                result: PushResultView::Unchanged { oid: current->0 },
            })
            &&& base_oid == current && !same ==> match (repo.commit)(
                path,
                encode_utf8(content),
                "Push "@ + path,
            ) {
                Ok(_) => answer matches SyncResponseView::Push { path: p, result } && p == path
                    && result is Committed,
                Err(message) => answer == (SyncResponseView::Error { message }),
            }
        }),
{
}

/// The id that a committed push reports is the blob id of the pushed content: in a repository in
/// which a commit that succeeds leaves its content at its path, and a path resolves to the id of
/// what is there, nothing of the content is lost or changed on the way. `left` is what is at the
/// path afterwards.
pub proof fn law_committed_id_is_that_of_the_content(
    repo: Repo,
    path: Seq<char>,
    base_oid: Option<Seq<char>>,
    content: Seq<char>,
    oid: Seq<char>,
    left: Seq<u8>,
)
    requires
        reply(repo, SyncRequestView::Push { path, base_oid, content }) == (SyncResponseView::Push {
            path,
            result: PushResultView::Committed { oid },
        }),
        forall|p: Seq<char>, data: Seq<u8>, message: Seq<char>| #[trigger]
            (repo.commit)(p, data, message) is Ok ==> p == path && data == left,
        (repo.resolve_after_commit)("HEAD"@ + seq![':'] + path) == content_oid(left),
        blob_digest(left) is Some,
    ensures
        left == encode_utf8(content),
        Some(oid) == content_oid(encode_utf8(content)),
{
}

/// What is asked of the repository for a push is a commit of exactly the pushed content, at exactly
/// its path.
pub proof fn law_push_hands_over_the_content(path: String, content: String)
    ensures
        (Interview::PushCommit { path, content }).asked() == (QueryView::Commit {
            path: path@,
            content: content@,
            message: "Push "@ + path@,
        }),
{
}

/// A reply about a revision depends on that revision alone: two repositories that agree on what it
/// resolves to, on what its paths resolve to, on its listing and on the objects give the same
/// reply, whatever their other revisions hold.
pub proof fn law_reply_depends_on_its_revision_alone(
    repo: Repo,
    other: Repo,
    r: Seq<char>,
    id: Seq<char>,
    files: Seq<FileRef>,
    new_files: bool,
)
    requires
        (repo.resolve)(r) == Some(id),
        (other.resolve)(r) == Some(id),
        forall|path: Seq<char>|
            (repo.resolve)(r + seq![':'] + path) == #[trigger] (other.resolve)(
                r + seq![':'] + path,
            ),
        (repo.listing)(r) == (other.listing)(r),
        forall|oid: Seq<u8>| (repo.object)(oid) == #[trigger] (other.object)(oid),
    ensures
        reply(repo, SyncRequestView::Manifest { rev: Some(r) }) == reply(
            other,
            SyncRequestView::Manifest { rev: Some(r) },
        ),
        reply(repo, SyncRequestView::Status { rev: Some(r), files, new_files }) == reply(
            other,
            SyncRequestView::Status { rev: Some(r), files, new_files },
        ),
        reply(repo, SyncRequestView::Patch { rev: Some(r), files }) == reply(
            other,
            SyncRequestView::Patch { rev: Some(r), files },
        ),
{
    assert forall|i: int| 0 <= i < files.len() implies (#[trigger] statuses(repo, r, files)[i])
        == statuses(other, r, files)[i] && patches(repo, r, files)[i] == patches(
        other,
        r,
        files,
    )[i] by {
        assert((repo.resolve)(r + seq![':'] + files[i].path) == (other.resolve)(
            r + seq![':'] + files[i].path,
        ));
        assert forall|text: Seq<char>| #[trigger] read_oid(repo, text) == read_oid(
            other,
            text,
        ) by {
            assert((repo.object)(unhex(encode_utf8(text))) == (other.object)(
                unhex(encode_utf8(text)),
            ));
        }
    }
    assert(statuses(repo, r, files) =~= statuses(other, r, files));
    assert(patches(repo, r, files) =~= patches(other, r, files)) by {
        assert forall|i: int| 0 <= i < files.len() implies #[trigger] patches(repo, r, files)[i]
            == patches(other, r, files)[i] by {
            assert(statuses(repo, r, files)[i] == statuses(other, r, files)[i]);
        }
    }
}

/// A request that gives no revision is about `HEAD`.
pub proof fn law_no_revision_means_head(repo: Repo, files: Seq<FileRef>, new_files: bool)
    ensures
        reply(repo, SyncRequestView::Manifest { rev: None }) == reply(
            repo,
            SyncRequestView::Manifest { rev: Some("HEAD"@) },
        ),
        reply(repo, SyncRequestView::Status { rev: None, files, new_files }) == reply(
            repo,
            SyncRequestView::Status { rev: Some("HEAD"@), files, new_files },
        ),
        reply(repo, SyncRequestView::Patch { rev: None, files }) == reply(
            repo,
            SyncRequestView::Patch { rev: Some("HEAD"@), files },
        ),
{
}

/// An answer is taken for what it says: it is right exactly for the repositories that give it.
pub proof fn law_repository_answers_are_taken_as_they_are(
    repo: Repo,
    spec: Seq<char>,
    id: Seq<u8>,
    path: Seq<char>,
    content: Seq<char>,
    message: Seq<char>,
    text: String,
    data: Vec<u8>,
    lines: Vec<(String, String, u64)>,
)
    ensures
        (QueryView::Resolve { spec }).answered(repo, Answer::Resolved(Some(text))) <==> (
        repo.resolve)(spec) == Some(text@),
        (QueryView::Resolve { spec }).answered(repo, Answer::Resolved(None)) <==> (repo.resolve)(
            spec,
        ) is None,
        (QueryView::ResolveAfterCommit { spec }).answered(repo, Answer::Resolved(Some(text)))
            <==> (repo.resolve_after_commit)(spec) == Some(text@),
        (QueryView::ResolveAfterCommit { spec }).answered(repo, Answer::Resolved(None)) <==> (
        repo.resolve_after_commit)(spec) is None,
        (QueryView::Object { id }).answered(repo, Answer::Object(Some(data))) <==> (repo.object)(id)
            == Some(data@),
        (QueryView::Object { id }).answered(repo, Answer::Object(None)) <==> (repo.object)(
            id,
        ) is None,
        (QueryView::Walk { rev: spec }).answered(repo, Answer::Walked(Err(text))) <==> (
        repo.listing)(spec) == Err::<Seq<Listed>, Seq<char>>(text@),
        (QueryView::Walk { rev: spec }).answered(repo, Answer::Walked(Ok(lines))) <==> {
            &&& (repo.listing)(spec) is Ok
            &&& (repo.listing)(spec)->Ok_0.len() == lines@.len()
            &&& forall|i: int|
                0 <= i < lines@.len() ==> (#[trigger] (repo.listing)(spec)->Ok_0[i]) == (Listed {
                    path: lines@[i].0@,
                    oid: lines@[i].1@,
                    size: lines@[i].2,
                })
        },
        (QueryView::Commit { path, content, message }).answered(repo, Answer::Committed(Ok(())))
            <==> (repo.commit)(path, encode_utf8(content), message) is Ok,
        (QueryView::Commit { path, content, message }).answered(
            repo,
            Answer::Committed(Err(text)),
        ) <==> (repo.commit)(path, encode_utf8(content), message) == Err::<(), Seq<char>>(text@),
{
    if let Ok(done) = (repo.commit)(path, encode_utf8(content), message) {
        assert(done == ());
    }
    if let Ok(listing) = (repo.listing)(spec) {
        if listing.len() == lines@.len() && forall|i: int|
            0 <= i < lines@.len() ==> (#[trigger] (repo.listing)(spec)->Ok_0[i]) == (Listed {
                path: lines@[i].0@,
                oid: lines@[i].1@,
                size: lines@[i].2,
            }) {
            assert(listing =~= all_listed(lines@));
        }
    }
}

/// A revision that names nothing is told by its name, and the marks of a report tell the verdicts
/// apart.
pub proof fn law_messages_of_a_report(rev: Seq<char>, oid: Seq<char>)
    ensures
        unknown_revision(rev) == "unknown revision "@ + rev,
        state_mark(FileStateView::UpToDate) == "[ok   ] "@,
        state_mark(FileStateView::OutOfDate { current_oid: oid }) == "[stale] "@,
        state_mark(FileStateView::NotInRepo) == "[gone ] "@,
{
}

/// What an interview ends with is what it replies.
pub proof fn law_interview_ends_with_its_reply(repo: Repo, response: SyncResponse)
    ensures
        Turn::Reply(response).outcome(repo) == response@,
{
}

} // verus!
