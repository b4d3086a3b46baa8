//! Write-back: turning a local change under the proxy into a commit.
//!
//! [`reconcile_path`] and [`flush_to_remote`] decide what to look at and what to commit; whoever
//! runs them looks at the disk and at git, and hands back what was found.
use crate::commit::Change;
use crate::objects::same_bytes;
use crate::paths::{git_path, to_git_path};
use crate::text::{concat, opt_text, texts};
use crate::trusted::opt_bytes;
use vstd::prelude::*;

verus! {

/// What a [`reconcile_path`] call did, so the caller can drive the right state transition.
#[derive(Debug, Clone, Copy, PartialEq, Eq, Structural)]
pub enum Reconciled {
    /// A file was added or updated on disk and that change was committed.
    Committed,
    /// A file was removed on disk and the removal was committed.
    Removed,
    /// Nothing to do: unchanged content, a directory, or a cloud-only placeholder.
    Unchanged,
}

/// What stands at a path on disk.
#[derive(Debug)]
pub enum OnDisk {
    Directory,
    File,
    /// There is nothing.
    Gone,
    /// It cannot be told; the message says why.
    Failed(String),
}

/// What stands at a path on disk.
pub enum OnDiskView {
    Directory,
    File,
    Gone,
    Failed(Seq<char>),
}

impl View for OnDisk {
    type V = OnDiskView;

    open spec fn view(&self) -> OnDiskView {
        match *self {
            OnDisk::Directory => OnDiskView::Directory,
            OnDisk::File => OnDiskView::File,
            OnDisk::Gone => OnDiskView::Gone,
            OnDisk::Failed(message) => OnDiskView::Failed(message@),
        }
    }
}

/// What there is to find about one path.
pub struct Site {
    /// What stands there on disk.
    pub on_disk: OnDiskView,
    /// Whether it is a cloud-only placeholder.
    pub dehydrated: bool,
    /// What reading the file gives.
    pub content: Result<Seq<u8>, Seq<char>>,
    /// What `HEAD` holds at a git path.
    pub blob: spec_fn(Seq<char>) -> Option<Seq<u8>>,
    /// What comes of committing a change under a message.
    pub commit: spec_fn(Change, Seq<char>) -> Result<(), Seq<char>>,
}

/// A question about the path.
#[derive(Debug)]
pub enum Look {
    /// What stands there on disk?
    Disk,
    /// Is it a cloud-only placeholder?
    Placeholder,
    /// What does the file hold?
    Content,
    /// What does `HEAD` hold at the git path?
    Blob { path: String },
    /// Commit this content at the git path.
    CommitUpsert { path: String, data: Vec<u8>, message: String },
    /// Commit the removal of the git path.
    CommitRemove { path: String, message: String },
}

/// A question about the path.
pub enum LookView {
    Disk,
    Placeholder,
    Content,
    Blob { path: Seq<char> },
    Commit { change: Change, message: Seq<char> },
}

impl View for Look {
    type V = LookView;

    open spec fn view(&self) -> LookView {
        match *self {
            Look::Disk => LookView::Disk,
            Look::Placeholder => LookView::Placeholder,
            Look::Content => LookView::Content,
            Look::Blob { path } => LookView::Blob { path: path@ },
            Look::CommitUpsert { path, data, message } => LookView::Commit {
                change: Change::Upsert(path@, data@),
                message: message@,
            },
            Look::CommitRemove { path, message } => LookView::Commit {
                change: Change::Remove(path@),
                message: message@,
            },
        }
    }
}

/// What was found.
#[derive(Debug)]
pub enum Found {
    /// To `Disk`.
    Disk(OnDisk),
    /// To `Placeholder`.
    Placeholder(bool),
    /// To `Content`; a failure comes with its message.
    Content(Result<Vec<u8>, String>),
    /// To `Blob`.
    Blob(Option<Vec<u8>>),
    /// To the commits; a failure comes with its message.
    Committed(Result<(), String>),
}

/// A content or its failure.
pub open spec fn content_view(r: Result<Vec<u8>, String>) -> Result<Seq<u8>, Seq<char>> {
    match r {
        Ok(data) => Ok(data@),
        Err(message) => Err(message@),
    }
}

/// A commit or its failure.
pub open spec fn commit_view(r: Result<(), String>) -> Result<(), Seq<char>> {
    match r {
        Ok(_) => Ok(()),
        Err(message) => Err(message@),
    }
}

impl LookView {
    /// Whether `found` is of the kind that is asked for.
    pub open spec fn fits(self, found: Found) -> bool {
        match self {
            LookView::Disk => found is Disk,
            LookView::Placeholder => found is Placeholder,
            LookView::Content => found is Content,
            LookView::Blob { .. } => found is Blob,
            LookView::Commit { .. } => found is Committed,
        }
    }

    /// Whether `found` is what there is to find at `site`.
    pub open spec fn answered(self, site: Site, found: Found) -> bool {
        match (self, found) {
            (LookView::Disk, Found::Disk(d)) => d@ == site.on_disk,
            (LookView::Placeholder, Found::Placeholder(b)) => b == site.dehydrated,
            (LookView::Content, Found::Content(r)) => content_view(r) == site.content,
            (LookView::Blob { path }, Found::Blob(b)) => opt_bytes(b) == (site.blob)(path),
            (LookView::Commit { change, message }, Found::Committed(r)) => commit_view(r) == (
            site.commit)(change, message),
            _ => false,
        }
    }
}

/// What committing `change` under `message` comes to, if it is `done` where it succeeds.
pub open spec fn commit_outcome(
    site: Site,
    change: Change,
    message: Seq<char>,
    done: Reconciled,
) -> Result<Reconciled, Seq<char>> {
    match (site.commit)(change, message) {
        Ok(_) => Ok(done),
        Err(e) => Err(e),
    }
}

/// What reconciling a file whose content is `disk` comes to.
pub open spec fn content_outcome(site: Site, path: Seq<char>, disk: Seq<u8>) -> Result<
    Reconciled,
    Seq<char>,
> {
    match (site.blob)(path) {
        Some(existing) => if existing == disk {
            Ok(Reconciled::Unchanged)
        } else {
            commit_outcome(
                site,
                Change::Upsert(path, disk),
                "Update "@ + path,
                Reconciled::Committed,
            )
        },
        None => commit_outcome(
            site,
            Change::Upsert(path, disk),
            "Add "@ + path,
            Reconciled::Committed,
        ),
    }
}

/// What reconciling a path that is gone from disk comes to.
pub open spec fn gone_outcome(site: Site, path: Seq<char>) -> Result<Reconciled, Seq<char>> {
    match (site.blob)(path) {
        Some(_) => commit_outcome(
            site,
            Change::Remove(path),
            "Delete "@ + path,
            Reconciled::Removed,
        ),
        None => Ok(Reconciled::Unchanged),
    }
}

/// What reconciling a file comes to.
pub open spec fn file_outcome(site: Site, path: Seq<char>) -> Result<Reconciled, Seq<char>> {
    if site.dehydrated {
        Ok(Reconciled::Unchanged)
    } else {
        match site.content {
            Ok(disk) => content_outcome(site, path, disk),
            Err(e) => Err(e),
        }
    }
}

/// What reconciling the git path `path` comes to; `None` is a path outside the proxy.
pub open spec fn outcome(site: Site, path: Option<Seq<char>>) -> Result<Reconciled, Seq<char>> {
    match path {
        None => Ok(Reconciled::Unchanged),
        Some(p) => if p.len() == 0 {
            Ok(Reconciled::Unchanged)
        } else {
            match site.on_disk {
                OnDiskView::Directory => Ok(Reconciled::Unchanged),
                OnDiskView::File => file_outcome(site, p),
                OnDiskView::Gone => gone_outcome(site, p),
                OnDiskView::Failed(e) => Err(e),
            }
        },
    }
}

/// A reconciliation that waits for what is found.
#[derive(Debug)]
pub enum Reconcile {
    /// Waits for what stands on disk.
    Disk { path: String },
    /// A file: waits for whether it is a placeholder.
    Placeholder { path: String },
    /// A file with local data: waits for its content.
    Content { path: String },
    /// Waits for what `HEAD` holds, to compare.
    Compare { path: String, disk: Vec<u8> },
    /// Gone from disk: waits for whether `HEAD` holds it.
    Lost { path: String },
    /// Waits for the commit of new content.
    Upserting { path: String, disk: Vec<u8>, known: bool },
    /// Waits for the commit of the removal.
    Removing { path: String },
}

/// What a reconciliation comes to next.
#[derive(Debug)]
pub enum ReconcileTurn {
    /// It waits.
    Ask(Reconcile),
    /// It is over; a failure comes with its message.
    Done(Result<Reconciled, String>),
}

/// How a reconciliation ended.
pub open spec fn done_view(r: Result<Reconciled, String>) -> Result<Reconciled, Seq<char>> {
    match r {
        Ok(done) => Ok(done),
        Err(message) => Err(message@),
    }
}

/// The message for new content at `path`.
pub open spec fn upsert_message(path: Seq<char>, known: bool) -> Seq<char> {
    if known {
        "Update "@ + path
    } else {
        "Add "@ + path
    }
}

impl ReconcileTurn {
    /// What the turn leads to at `site`.
    pub open spec fn outcome(self, site: Site) -> Result<Reconciled, Seq<char>> {
        match self {
            ReconcileTurn::Ask(next) => next.outcome(site),
            ReconcileTurn::Done(r) => done_view(r),
        }
    }
}

impl Reconcile {
    /// What the reconciliation leads to at `site`.
    pub open spec fn outcome(self, site: Site) -> Result<Reconciled, Seq<char>> {
        match self {
            Reconcile::Disk { path } => match site.on_disk {
                OnDiskView::Directory => Ok(Reconciled::Unchanged),
                OnDiskView::File => file_outcome(site, path@),
                OnDiskView::Gone => gone_outcome(site, path@),
                OnDiskView::Failed(e) => Err(e),
            },
            Reconcile::Placeholder { path } => file_outcome(site, path@),
            Reconcile::Content { path } => match site.content {
                Ok(disk) => content_outcome(site, path@, disk),
                Err(e) => Err(e),
            },
            Reconcile::Compare { path, disk } => content_outcome(site, path@, disk@),
            Reconcile::Lost { path } => gone_outcome(site, path@),
            Reconcile::Upserting { path, disk, known } => commit_outcome(
                site,
                Change::Upsert(path@, disk@),
                upsert_message(path@, known),
                Reconciled::Committed,
            ),
            Reconcile::Removing { path } => commit_outcome(
                site,
                Change::Remove(path@),
                "Delete "@ + path@,
                Reconciled::Removed,
            ),
        }
    }

    /// What the reconciliation asks.
    pub open spec fn asked(self) -> LookView {
        match self {
            Reconcile::Disk { .. } => LookView::Disk,
            Reconcile::Placeholder { .. } => LookView::Placeholder,
            Reconcile::Content { .. } => LookView::Content,
            Reconcile::Compare { path, .. } => LookView::Blob { path: path@ },
            Reconcile::Lost { path } => LookView::Blob { path: path@ },
            Reconcile::Upserting { path, disk, known } => LookView::Commit {
                change: Change::Upsert(path@, disk@),
                message: upsert_message(path@, known),
            },
            Reconcile::Removing { path } => LookView::Commit {
                change: Change::Remove(path@),
                message: "Delete "@ + path@,
            },
        }
    }

    /// How many answers it can still take.
    pub open spec fn remaining(self) -> nat {
        match self {
            Reconcile::Disk { .. } => 5,
            Reconcile::Placeholder { .. } => 4,
            Reconcile::Content { .. } => 3,
            Reconcile::Compare { .. } => 2,
            Reconcile::Lost { .. } => 2,
            Reconcile::Upserting { .. } => 1,
            Reconcile::Removing { .. } => 1,
        }
    }

    /// What to look at, or to commit, next.
    pub fn look(&self) -> (r: Look)
        ensures
            r@ == self.asked(),
    {
        match self {
            Reconcile::Disk { .. } => Look::Disk,
            Reconcile::Placeholder { .. } => Look::Placeholder,
            Reconcile::Content { .. } => Look::Content,
            Reconcile::Compare { path, .. } => Look::Blob { path: path.clone() },
            Reconcile::Lost { path } => Look::Blob { path: path.clone() },
            Reconcile::Upserting { path, disk, known } => {
                let verb: &str = if *known {
                    "Update "
                } else {
                    "Add "
                };
                Look::CommitUpsert {
                    path: path.clone(),
                    data: disk.clone(),
                    message: concat(verb, path.as_str()),
                }
            },
            Reconcile::Removing { path } => Look::CommitRemove {
                path: path.clone(),
                message: concat("Delete ", path.as_str()),
            },
        }
    }

    /// Goes on with what was found. What is really there does not change what the reconciliation
    /// leads to. The content of a file is asked for only when it is no placeholder, and a commit
    /// only when `HEAD` does not hold what is on disk.
    pub fn resume(self, found: Found) -> (turn: ReconcileTurn)
        requires
            self.asked().fits(found),
        ensures
            forall|site: Site|
                self.asked().answered(site, found) ==> (#[trigger] turn.outcome(site))
                    == self.outcome(site),
            turn matches ReconcileTurn::Ask(next) ==> next.remaining() < self.remaining(),
            turn matches ReconcileTurn::Ask(next) && next.asked() is Content ==> found
                == Found::Placeholder(false),
            turn matches ReconcileTurn::Ask(next) && next is Upserting ==> (self matches
                Reconcile::Compare { disk, .. } && (found matches Found::Blob(blob) && opt_bytes(
                blob,
            ) != Some(disk@))),
            turn matches ReconcileTurn::Ask(next) && next is Removing ==> self is Lost && (
            found matches Found::Blob(Some(_))),
    {
        match (self, found) {
            (Reconcile::Disk { path }, Found::Disk(d)) => match d {
                OnDisk::Directory => ReconcileTurn::Done(Ok(Reconciled::Unchanged)),
                OnDisk::File => ReconcileTurn::Ask(Reconcile::Placeholder { path }),
                OnDisk::Gone => ReconcileTurn::Ask(Reconcile::Lost { path }),
                OnDisk::Failed(message) => ReconcileTurn::Done(Err(message)),
            },
            (Reconcile::Placeholder { path }, Found::Placeholder(dehydrated)) => {
                if dehydrated {
                    ReconcileTurn::Done(Ok(Reconciled::Unchanged))
                } else {
                    ReconcileTurn::Ask(Reconcile::Content { path })
                }
            },
            (Reconcile::Content { path }, Found::Content(Ok(disk))) => ReconcileTurn::Ask(
                Reconcile::Compare { path, disk },
            ),
            (Reconcile::Content { .. }, Found::Content(Err(message))) => ReconcileTurn::Done(
                Err(message),
            ),
            (Reconcile::Compare { path, disk }, Found::Blob(Some(existing))) => {
                if same_bytes(&existing, &disk) {
                    ReconcileTurn::Done(Ok(Reconciled::Unchanged))
                } else {
                    ReconcileTurn::Ask(Reconcile::Upserting { path, disk, known: true })
                }
            },
            (Reconcile::Compare { path, disk }, Found::Blob(None)) => ReconcileTurn::Ask(
                Reconcile::Upserting { path, disk, known: false },
            ),
            (Reconcile::Lost { path }, Found::Blob(Some(_))) => ReconcileTurn::Ask(
                Reconcile::Removing { path },
            ),
            (Reconcile::Lost { .. }, Found::Blob(None)) => ReconcileTurn::Done(
                Ok(Reconciled::Unchanged),
            ),
            (Reconcile::Upserting { .. }, Found::Committed(Ok(_))) => ReconcileTurn::Done(
                Ok(Reconciled::Committed),
            ),
            (Reconcile::Removing { .. }, Found::Committed(Ok(_))) => ReconcileTurn::Done(
                Ok(Reconciled::Removed),
            ),
            (_, Found::Committed(Err(message))) => ReconcileTurn::Done(Err(message)),
            _ => ReconcileTurn::Done(Ok(Reconciled::Unchanged)),
        }
    }
}

/// Starts reconciling the path `abs` under the proxy `root` with git, both as components.
///
/// A file that is missing on disk but held by `HEAD` comes to a commit of its removal; one that
/// differs from what `HEAD` holds comes to a commit of its content; a path outside the proxy, a
/// directory, a placeholder and an unchanged file come to nothing.
pub fn reconcile_path(root: &[String], abs: &[String]) -> (turn: ReconcileTurn)
    ensures
        forall|site: Site| #[trigger]
            turn.outcome(site) == outcome(site, git_path(texts(root@), texts(abs@))),
{
    match to_git_path(root, abs) {
        Some(path) => {
            if path.as_str().is_empty() {
                ReconcileTurn::Done(Ok(Reconciled::Unchanged))
            } else {
                ReconcileTurn::Ask(Reconcile::Disk { path })
            }
        },
        None => ReconcileTurn::Done(Ok(Reconciled::Unchanged)),
    }
}

/// A placeholder is left alone, whatever reading it would give and whatever `HEAD` holds.
pub proof fn law_placeholder_is_never_committed(site: Site, path: Option<Seq<char>>)
    requires
        site.on_disk is File,
        site.dehydrated,
    ensures
        outcome(site, path) == Ok::<Reconciled, Seq<char>>(Reconciled::Unchanged),
{
}

/// A file that holds what `HEAD` holds is left alone, so that hydration never leads to a commit.
pub proof fn law_hydrated_content_is_unchanged(site: Site, path: Seq<char>)
    requires
        site.on_disk is File,
        site.content is Ok,
        (site.blob)(path) == Some(site.content->Ok_0),
    ensures
        outcome(site, Some(path)) == Ok::<Reconciled, Seq<char>>(Reconciled::Unchanged),
{
}

/// After a commit, reconciling again finds nothing to do: `after` is the same site where `HEAD`
/// holds what the commit made.
pub proof fn law_reconciling_twice_commits_once(site: Site, after: Site, path: Seq<char>)
    requires
        path.len() > 0,
        after.on_disk == site.on_disk,
        after.dehydrated == site.dehydrated,
        after.content == site.content,
        outcome(site, Some(path)) == Ok::<Reconciled, Seq<char>>(Reconciled::Committed) ==> (
        after.blob)(path) == Some(site.content->Ok_0),
        outcome(site, Some(path)) == Ok::<Reconciled, Seq<char>>(Reconciled::Removed) ==> (
        after.blob)(path) is None,
        outcome(site, Some(path)) == Ok::<Reconciled, Seq<char>>(Reconciled::Unchanged) ==> (
        after.blob)(path) == (site.blob)(path),
        outcome(site, Some(path)) is Ok,
    ensures
        outcome(after, Some(path)) == Ok::<Reconciled, Seq<char>>(Reconciled::Unchanged),
{
}

/// A flush of outstanding local changes to the remote.
#[derive(Debug)]
pub enum Flush {
    /// Reconcile the pending path with this number; a failure is no reason to stop.
    Reconcile { next: usize, total: usize, pushed_head: Option<String> },
    /// Find out which commit `HEAD` is at.
    Head { pushed_head: Option<String> },
    /// Push.
    Push { head: Option<String> },
    /// It is over: the published commit, or `None` if nothing was outstanding; a failure to push
    /// comes with its message.
    Done(Result<Option<String>, String>),
}

/// How a flush ended.
pub open spec fn flushed(r: Result<Option<String>, String>) -> Result<
    Option<Seq<char>>,
    Seq<char>,
> {
    match r {
        Ok(head) => Ok(opt_text(head)),
        Err(message) => Err(message@),
    }
}

/// What a flush comes to: `head` is where `HEAD` is once the pending paths are reconciled, and
/// `push` what comes of pushing.
pub open spec fn flush_outcome(
    pushed_head: Option<Seq<char>>,
    head: Option<Seq<char>>,
    push: Result<(), Seq<char>>,
) -> Result<Option<Seq<char>>, Seq<char>> {
    if head == pushed_head {
        Ok(None)
    } else {
        match push {
            Ok(_) => Ok(head),
            Err(e) => Err(e),
        }
    }
}

impl Flush {
    /// What the flush leads to.
    pub open spec fn outcome(self, head: Option<Seq<char>>, push: Result<(), Seq<char>>) -> Result<
        Option<Seq<char>>,
        Seq<char>,
    > {
        match self {
            Flush::Reconcile { pushed_head, .. } => flush_outcome(
                opt_text(pushed_head),
                head,
                push,
            ),
            Flush::Head { pushed_head } => flush_outcome(opt_text(pushed_head), head, push),
            Flush::Push { head: h } => match push {
                Ok(_) => Ok(opt_text(h)),
                Err(e) => Err(e),
            },
            Flush::Done(r) => flushed(r),
        }
    }

    /// Goes on behind the pending path that was just reconciled, whether that succeeded or not.
    pub fn reconciled(self) -> (r: Self)
        requires
            self matches Flush::Reconcile { next, total, .. } && next < total,
        ensures
            match (self, r) {
                (
                    Flush::Reconcile { next, total, pushed_head },
                    Flush::Reconcile { next: n, total: t, pushed_head: p },
                ) => n == next + 1 && n < total && t == total && p == pushed_head,
                (
                    Flush::Reconcile { next, total, pushed_head },
                    Flush::Head { pushed_head: p },
                ) => next + 1 == total && p == pushed_head,
                _ => false,
            },
            forall|head: Option<Seq<char>>, push: Result<(), Seq<char>>| #[trigger]
                r.outcome(head, push) == self.outcome(head, push),
    {
        match self {
            Flush::Reconcile { next, total, pushed_head } => {
                if next + 1 < total {
                    Flush::Reconcile { next: next + 1, total, pushed_head }
                } else {
                    Flush::Head { pushed_head }
                }
            },
            other => other,
        }
    }

    /// Goes on with the commit that `HEAD` is at.
    pub fn head_is(self, head: Option<String>) -> (r: Self)
        requires
            self is Head,
        ensures
            forall|push: Result<(), Seq<char>>| #[trigger]
                r.outcome(opt_text(head), push) == self.outcome(opt_text(head), push),
            r is Push <==> opt_text(self->Head_pushed_head) != opt_text(head),
            r is Done <==> opt_text(self->Head_pushed_head) == opt_text(head),
    {
        match self {
            Flush::Head { pushed_head } => {
                let same: bool = match (&head, &pushed_head) {
                    (Some(a), Some(b)) => *a == *b,
                    (None, None) => true,
                    _ => false,
                };
                if same {
                    Flush::Done(Ok(None))
                } else {
                    Flush::Push { head }
                }
            },
            other => other,
        }
    }

    /// Goes on with what came of the push.
    pub fn pushed(self, push: Result<(), String>) -> (r: Self)
        requires
            self is Push,
        ensures
            r is Done,
            forall|head: Option<Seq<char>>| #[trigger]
                r.outcome(head, commit_view(push)) == self.outcome(head, commit_view(push)),
    {
        match (self, push) {
            (Flush::Push { head }, Ok(_)) => Flush::Done(Ok(head)),
            (_, Err(message)) => Flush::Done(Err(message)),
            (other, _) => other,
        }
    }
}

/// Starts flushing `pending` changed paths: reconcile each, in turn, and then push once if `HEAD`
/// is not at `pushed_head`.
pub fn flush_to_remote(pending: usize, pushed_head: Option<String>) -> (r: Flush)
    ensures
        pending == 0 ==> r == (Flush::Head { pushed_head }),
        pending > 0 ==> r == (Flush::Reconcile { next: 0, total: pending, pushed_head }),
        forall|head: Option<Seq<char>>, push: Result<(), Seq<char>>| #[trigger]
            r.outcome(head, push) == flush_outcome(opt_text(pushed_head), head, push),
{
    if pending == 0 {
        Flush::Head { pushed_head }
    } else {
        Flush::Reconcile { next: 0, total: pending, pushed_head }
    }
}

/// A flush pushes exactly when `HEAD` is not at the published commit, and then reports the commit
/// that was published; a failed push is reported and nothing else is.
pub proof fn law_flush_reports_what_was_published(
    pushed_head: Option<Seq<char>>,
    head: Seq<char>,
    push: Result<(), Seq<char>>,
)
    ensures
        flush_outcome(pushed_head, Some(head), push) == Ok::<Option<Seq<char>>, Seq<char>>(
            Some(head),
        ) <==> pushed_head != Some(head) && push is Ok,
        flush_outcome(pushed_head, Some(head), push) == Ok::<Option<Seq<char>>, Seq<char>>(None)
            <==> pushed_head == Some(head),
        flush_outcome(pushed_head, Some(head), push) is Err <==> pushed_head != Some(head)
            && push is Err,
{
}

/// A file that has local data, can be read and does not hold what `HEAD` holds at its path, in any
/// byte or because `HEAD` holds nothing there, is committed at that path with exactly the content
/// that it has on disk: what that commit comes to decides what the reconciliation comes to.
pub proof fn law_edited_file_is_committed(site: Site, path: Seq<char>, disk: Seq<u8>)
    requires
        path.len() > 0,
        site.on_disk is File,
        !site.dehydrated,
        site.content == Ok::<Seq<u8>, Seq<char>>(disk),
        (site.blob)(path) != Some(disk),
    ensures
        ({
            let verb = if (site.blob)(path) is Some {
                "Update "@
            } else {
                "Add "@
            };
            match (site.commit)(Change::Upsert(path, disk), verb + path) {
                Ok(_) => outcome(site, Some(path)) == Ok::<Reconciled, Seq<char>>(
                    Reconciled::Committed,
                ),
                Err(e) => outcome(site, Some(path)) == Err::<Reconciled, Seq<char>>(e),
            }
        }),
{
}

/// A file with local data is left alone only if `HEAD` holds the same bytes: as many of them, and
/// each the same.
pub proof fn law_unchanged_file_is_what_head_holds(site: Site, path: Seq<char>, disk: Seq<u8>)
    requires
        path.len() > 0,
        site.on_disk is File,
        !site.dehydrated,
        site.content == Ok::<Seq<u8>, Seq<char>>(disk),
        outcome(site, Some(path)) == Ok::<Reconciled, Seq<char>>(Reconciled::Unchanged),
    ensures
        (site.blob)(path) is Some,
        (site.blob)(path)->0.len() == disk.len(),
        forall|i: int| 0 <= i < disk.len() ==> (site.blob)(path)->0[i] == #[trigger] disk[i],
{
}

/// A path that is gone from disk is removed from git exactly if `HEAD` holds it, by a commit of
/// that removal and of nothing else.
pub proof fn law_deleted_file_is_removed(site: Site, path: Seq<char>)
    requires
        path.len() > 0,
        site.on_disk is Gone,
    ensures
        (site.blob)(path) is None ==> outcome(site, Some(path)) == Ok::<Reconciled, Seq<char>>(
            Reconciled::Unchanged,
        ),
        (site.blob)(path) is Some ==> match (site.commit)(
            Change::Remove(path),
            "Delete "@ + path,
        ) {
            Ok(_) => outcome(site, Some(path)) == Ok::<Reconciled, Seq<char>>(
                Reconciled::Removed,
            ),
            Err(e) => outcome(site, Some(path)) == Err::<Reconciled, Seq<char>>(e),
        },
{
}

/// What cannot be looked at or read is reported with its message, and is no reason for a commit; a
/// directory, the drive itself and what lies outside it come to nothing.
pub proof fn law_nothing_else_is_committed(site: Site, path: Seq<char>, message: Seq<char>)
    requires
        path.len() > 0,
    ensures
        site.on_disk == OnDiskView::Failed(message) ==> outcome(site, Some(path)) == Err::<
            Reconciled,
            Seq<char>,
        >(message),
        site.on_disk is File && !site.dehydrated && site.content == Err::<Seq<u8>, Seq<char>>(
            message,
        ) ==> outcome(site, Some(path)) == Err::<Reconciled, Seq<char>>(message),
        site.on_disk is Directory ==> outcome(site, Some(path)) == Ok::<Reconciled, Seq<char>>(
            Reconciled::Unchanged,
        ),
        outcome(site, None) == Ok::<Reconciled, Seq<char>>(Reconciled::Unchanged),
        outcome(site, Some(seq![])) == Ok::<Reconciled, Seq<char>>(Reconciled::Unchanged),
{
}

/// The drive afterwards is the drive that was saved: in a repository in which a commit makes `HEAD`
/// hold what it was given, a reconciliation that reports a commit or nothing to do leaves `HEAD`
/// with what is on disk, and one that reports a removal leaves it with nothing. `after` is what
/// `HEAD` holds at the path afterwards.
pub proof fn law_reconciled_path_is_as_on_disk(
    site: Site,
    path: Seq<char>,
    after: Option<Seq<u8>>,
)
    requires
        path.len() > 0,
        !site.dehydrated,
        site.on_disk is File || site.on_disk is Gone,
        site.on_disk is File ==> site.content is Ok,
        forall|change: Change, message: Seq<char>| #[trigger]
            (site.commit)(change, message) is Ok ==> match change {
                Change::Upsert(p, data) => p == path && after == Some(data),
                Change::Remove(p) => p == path && after is None,
            },
        outcome(site, Some(path)) == Ok::<Reconciled, Seq<char>>(Reconciled::Unchanged) ==> after
            == (site.blob)(path),
        outcome(site, Some(path)) is Ok,
    ensures
        site.on_disk is File ==> after == Some(site.content->Ok_0),
        site.on_disk is Gone ==> after is None,
{
}

/// An answer is taken for what it says: it is right exactly at the sites where that is what there
/// is to find.
pub proof fn law_findings_are_taken_as_they_are(
    site: Site,
    path: Seq<char>,
    change: Change,
    message: Seq<char>,
    disk: OnDisk,
    flag: bool,
    data: Vec<u8>,
    text: String,
)
    ensures
        LookView::Disk.answered(site, Found::Disk(disk)) <==> site.on_disk == match disk {
            OnDisk::Directory => OnDiskView::Directory,
            OnDisk::File => OnDiskView::File,
            OnDisk::Gone => OnDiskView::Gone,
            OnDisk::Failed(e) => OnDiskView::Failed(e@),
        },
        LookView::Placeholder.answered(site, Found::Placeholder(flag)) <==> site.dehydrated
            == flag,
        LookView::Content.answered(site, Found::Content(Ok(data))) <==> site.content == Ok::<
            Seq<u8>,
            Seq<char>,
        >(data@),
        LookView::Content.answered(site, Found::Content(Err(text))) <==> site.content == Err::<
            Seq<u8>,
            Seq<char>,
        >(text@),
        (LookView::Blob { path }).answered(site, Found::Blob(Some(data))) <==> (site.blob)(path)
            == Some(data@),
        (LookView::Blob { path }).answered(site, Found::Blob(None)) <==> (site.blob)(path) is None,
        (LookView::Commit { change, message }).answered(site, Found::Committed(Ok(()))) <==> (
        site.commit)(change, message) is Ok,
        (LookView::Commit { change, message }).answered(site, Found::Committed(Err(text))) <==> (
        site.commit)(change, message) == Err::<(), Seq<char>>(text@),
{
    if let Ok(done) = (site.commit)(change, message) {
        assert(done == ());
    }
}

/// Without a commit at all a flush pushes only where one was published before, and then there is
/// nothing to report.
pub proof fn law_flush_of_an_unborn_head(
    pushed_head: Option<Seq<char>>,
    push: Result<(), Seq<char>>,
)
    ensures
        pushed_head is None ==> flush_outcome(pushed_head, None, push) == Ok::<
            Option<Seq<char>>,
            Seq<char>,
        >(None),
        pushed_head is Some ==> flush_outcome(pushed_head, None, push) == match push {
            Ok(_) => Ok::<Option<Seq<char>>, Seq<char>>(None),
            Err(e) => Err(e),
        },
{
}

/// The message of a write-back tells whether the file was there before.
pub proof fn law_message_tells_what_was_done(path: Seq<char>)
    ensures
        upsert_message(path, true) == "Update "@ + path,
        upsert_message(path, false) == "Add "@ + path,
{
}

/// What a reconciliation and a flush end with is what they come to.
pub proof fn law_write_back_ends_with_what_it_reports(
    site: Site,
    done: Reconciled,
    message: String,
    head: Option<Seq<char>>,
    push: Result<(), Seq<char>>,
    published: String,
)
    ensures
        ReconcileTurn::Done(Ok(done)).outcome(site) == Ok::<Reconciled, Seq<char>>(done),
        ReconcileTurn::Done(Err(message)).outcome(site) == Err::<Reconciled, Seq<char>>(message@),
        Flush::Done(Ok(Some(published))).outcome(head, push) == Ok::<
            Option<Seq<char>>,
            Seq<char>,
        >(Some(published@)),
        Flush::Done(Ok(None)).outcome(head, push) == Ok::<Option<Seq<char>>, Seq<char>>(None),
        Flush::Done(Err(message)).outcome(head, push) == Err::<Option<Seq<char>>, Seq<char>>(
            message@,
        ),
{
}

} // verus!
