//! Scanning a local drive folder for the files that a client holds.
use crate::cloud::{data_not_local, is_placeholder};
use crate::commit::{
    after_steps, commit_steps, law_committed_file_reads_back, Change, Checkout,
};
use crate::objects::{content_oid, hash_blob};
use crate::paths::{scan_path, scanned_path};
use crate::protocol::{views, ClientFile, FileRef};
use crate::sweep::{
    at_start, law_sweep_visits_everything_once, lemma_picked, Folders, Sweep,
};
use crate::sync::{path_oid, state_of, Repo};
use crate::text::{opt_text, texts};
use crate::trusted::{blob_digest, hex};
use vstd::prelude::*;

verus! {

/// What a scan needs about an entry.
#[derive(Debug)]
pub enum ScanVisit<D> {
    /// Nothing: the entry is a directory, which is to be read too.
    Directory,
    /// A placeholder: the blob id that `HEAD` has for this path.
    Version { path: String },
    /// A file with local data: its content, to be reported under this path.
    Content { entry: D, path: String },
}

/// What a scan learns about an entry of the drive.
pub struct ScanEntry {
    /// Its components.
    pub parts: Seq<Seq<char>>,
    pub is_dir: bool,
    /// Its Windows attributes.
    pub attrs: u32,
    /// Its content.
    pub data: Seq<u8>,
}

/// A file at `path` that is held in the version `oid`, if it is in one.
pub open spec fn held_as(path: Seq<char>, oid: Option<Seq<char>>) -> Option<FileRef> {
    match oid {
        Some(oid) => Some(FileRef { path, oid }),
        None => None,
    }
}

/// `files`, and `more` if there is one.
pub open spec fn with_file(files: Seq<FileRef>, more: Option<FileRef>) -> Seq<FileRef> {
    match more {
        Some(file) => files.push(file),
        None => files,
    }
}

/// What a scan of the drive `root` reports of an entry: nothing of a directory; a placeholder under
/// the id that `head` has for its path, if it has one; another file under the id of its content.
pub open spec fn report(
    root: Seq<Seq<char>>,
    head: spec_fn(Seq<char>) -> Option<Seq<char>>,
    entry: ScanEntry,
) -> Option<FileRef> {
    let path = scan_path(root, entry.parts);
    if entry.is_dir {
        None
    } else if data_not_local(entry.attrs) {
        held_as(path, head(path))
    } else {
        held_as(path, content_oid(entry.data))
    }
}

/// What a scan of the drive `root` has reported once it has visited `visited`, `learned` being what
/// it learns about an entry.
pub open spec fn reported<D>(
    root: Seq<Seq<char>>,
    head: spec_fn(Seq<char>) -> Option<Seq<char>>,
    learned: spec_fn(D) -> ScanEntry,
    visited: Seq<D>,
) -> Seq<FileRef>
    decreases visited.len(),
{
    if visited.len() == 0 {
        seq![]
    } else {
        with_file(
            reported(root, head, learned, visited.drop_last()),
            report(root, head, learned(visited.last())),
        )
    }
}

/// A scan of a drive folder. `D` is how the caller names a directory or a file.
#[derive(Debug)]
pub struct DriveScan<D> {
    /// The components of the drive folder.
    pub root: Vec<String>,
    /// The directories that are still to be read.
    pub sweep: Sweep<D>,
    /// The files found so far.
    pub files: Vec<ClientFile>,
}

impl<D> DriveScan<D> {
    /// Starts at the drive folder `dir`, whose components are `root`.
    pub fn scan_drive(dir: D, root: Vec<String>) -> (r: Self)
        ensures
            r.root == root,
            r.sweep.stack@ == at_start(dir).stack,
            r.files@.len() == 0,
    {
        DriveScan { root, sweep: Sweep::new(dir), files: Vec::new() }
    }

    /// The next directory to read.
    pub fn next(&mut self) -> (r: Option<D>)
        ensures
            final(self).root == old(self).root,
            final(self).files@ == old(self).files@,
            match r {
                Some(dir) => old(self).sweep.stack@.len() > 0 && dir
                    == old(self).sweep.stack@.last() && final(self).sweep.stack@
                    == old(self).sweep.stack@.drop_last(),
                None => old(self).sweep.stack@.len() == 0 && final(self).sweep.stack@
                    == old(self).sweep.stack@,
            },
    {
        self.sweep.next()
    }

    /// Visits an entry with the components `parts` and the Windows attributes `attrs`. A directory
    /// is to be read too.
    pub fn visit(&mut self, entry: D, parts: &[String], is_dir: bool, attrs: u32) -> (r: ScanVisit<
        D,
    >)
        ensures
            final(self).root == old(self).root,
            final(self).files@ == old(self).files@,
            final(self).sweep.stack@ == if is_dir {
                old(self).sweep.stack@.push(entry)
            } else {
                old(self).sweep.stack@
            },
            match r {
                ScanVisit::Directory => is_dir,
                ScanVisit::Version { path } => !is_dir && data_not_local(attrs) && path@
                    == scan_path(texts(old(self).root@), texts(parts@)),
                ScanVisit::Content { entry: e, path } => !is_dir && !data_not_local(attrs) && e
                    == entry && path@ == scan_path(texts(old(self).root@), texts(parts@)),
            },
    {
        if is_dir {
            self.sweep.visit(entry, true);
            return ScanVisit::Directory;
        }
        let path: String = scanned_path(self.root.as_slice(), parts);
        if is_placeholder(attrs) {
            ScanVisit::Version { path }
        } else {
            ScanVisit::Content { entry, path }
        }
    }

    /// Takes the blob id that `HEAD` has for a placeholder: it is reported as held, if there is
    /// one.
    pub fn placeholder(&mut self, path: String, current: Option<String>)
        ensures
            final(self).root == old(self).root,
            final(self).sweep == old(self).sweep,
            views(final(self).files@) == with_file(
                views(old(self).files@),
                held_as(path@, opt_text(current)),
            ),
    {
        if let Some(oid) = current {
            let ghost before = views(self.files@);
            let ghost file = FileRef { path: path@, oid: oid@ };
            self.files.push(ClientFile { path, oid });
            assert(views(self.files@) =~= before.push(file));
        }
    }

    /// Takes the content of a file: it is reported under its blob id. Returns whether the content
    /// could be hashed.
    pub fn content(&mut self, path: String, data: &[u8]) -> (r: bool)
        ensures
            final(self).root == old(self).root,
            final(self).sweep == old(self).sweep,
            r == content_oid(data@) is Some,
            views(final(self).files@) == with_file(
                views(old(self).files@),
                held_as(path@, content_oid(data@)),
            ),
    {
        match hash_blob(data) {
            Some(oid) => {
                let ghost before = views(self.files@);
                let ghost file = FileRef { path: path@, oid: oid@ };
                self.files.push(ClientFile { path, oid });
                assert(views(self.files@) =~= before.push(file));
                true
            },
            None => false,
        }
    }

    /// The files that the scan has found.
    pub fn finish(self) -> (r: Vec<ClientFile>)
        ensures
            r@ == self.files@,
    {
        self.files
    }
}

proof fn lemma_reported<D>(
    root: Seq<Seq<char>>,
    head: spec_fn(Seq<char>) -> Option<Seq<char>>,
    learned: spec_fn(D) -> ScanEntry,
    visited: Seq<D>,
)
    ensures
        reported(root, head, learned, visited) == visited.filter(
            |d: D| report(root, head, learned(d)) is Some,
        ).map_values(|d: D| report(root, head, learned(d))->0),
    decreases visited.len(),
{
    reveal(Seq::filter);
    let reports = |d: D| report(root, head, learned(d)) is Some;
    let file = |d: D| report(root, head, learned(d))->0;
    if visited.len() > 0 {
        lemma_reported(root, head, learned, visited.drop_last());
        let earlier = visited.drop_last().filter(reports);
        if reports(visited.last()) {
            assert(earlier.push(visited.last()).map_values(file) =~= earlier.map_values(file).push(
                file(visited.last()),
            ));
        }
    }
    assert(reported(root, head, learned, visited) =~= visited.filter(reports).map_values(file));
}

/// A scan reports every file below the drive folder exactly once and nothing else: a placeholder
/// under the id that `head` has for its path, and not at all where that has none; another file
/// under the id of its content. `learned` says what the scan learns about an entry.
pub proof fn law_scan_reports_every_file_once<D>(
    folders: Folders<D>,
    learned: spec_fn(D) -> ScanEntry,
    head: spec_fn(Seq<char>) -> Option<Seq<char>>,
    root: Seq<Seq<char>>,
    dir: D,
    n: nat,
)
    requires
        folders.finite(),
        forall|d: D| #[trigger] (folders.descends)(d) == learned(d).is_dir,
        at_start(dir).after(folders, n).over(),
    ensures
        ({
            let visited = at_start(dir).after(folders, n).visited;
            let reports = |d: D| report(root, head, learned(d)) is Some;
            let files = visited.filter(reports);
            &&& files.to_multiset() == folders.all_below(dir).filter(reports)
            &&& reported(root, head, learned, visited) == files.map_values(
                |d: D| report(root, head, learned(d))->0,
            )
        }),
{
    let visited = at_start(dir).after(folders, n).visited;
    law_sweep_visits_everything_once(folders, dir, n);
    lemma_picked(visited, |d: D| report(root, head, learned(d)) is Some);
    lemma_reported(root, head, learned, visited);
}

/// What a scan reports of a file is current exactly if the repository has its content; what it
/// reports of a placeholder always is.
pub proof fn law_scanned_files_are_judged_by_content(
    data: Seq<u8>,
    current: Seq<char>,
)
    requires
        content_oid(data) is Some,
    ensures
        state_of(Some(current), content_oid(data)->0) is UpToDate <==> content_oid(data) == Some(
            current,
        ),
        state_of(Some(current), current) is UpToDate,
{
}

/// A file that was committed is current for whoever scans it with that content: `repo` resolves
/// the paths of `HEAD` to the blob ids of what they hold.
pub proof fn law_saved_file_scans_as_current(
    state: Checkout,
    repo: Repo,
    path: Seq<char>,
    data: Seq<u8>,
    message: Seq<char>,
    head: Option<Seq<u8>>,
    has_workdir: bool,
)
    requires
        state.edited == state.head,
        content_oid(data) is Some,
        ({
            let end = after_steps(
                state,
                commit_steps(seq![Change::Upsert(path, data)], message, head, has_workdir),
            );
            forall|p: Seq<char>| #[trigger]
                end.head.contains_key(p) ==> path_oid(repo, "HEAD"@, p) == content_oid(end.head[p])
        }),
    ensures
        state_of(path_oid(repo, "HEAD"@, path), content_oid(data)->0) is UpToDate,
{
    let none = Seq::<Change>::empty();
    law_committed_file_reads_back(state, none, path, data, message, head, has_workdir);
    assert(none.push(Change::Upsert(path, data)) =~= seq![Change::Upsert(path, data)]);
}

/// A scan judges a file by what it is: a directory is not reported; a placeholder is reported in
/// the version that `HEAD` has for its path, and not at all where `HEAD` has none; any other file
/// is reported in the version that its content is, all of it.
pub proof fn law_scan_judges_by_content_or_head(
    root: Seq<Seq<char>>,
    head: spec_fn(Seq<char>) -> Option<Seq<char>>,
    entry: ScanEntry,
    digest: Seq<u8>,
    oid: Seq<char>,
)
    ensures
        ({
            let path = scan_path(root, entry.parts);
            let found = report(root, head, entry);
            let remote = entry.attrs & 0x0000_1000 != 0 || entry.attrs & 0x0040_0000 != 0;
            &&& entry.is_dir ==> found is None
            &&& found is Some ==> found->0.path == path
            &&& !entry.is_dir && remote ==> (found is Some <==> head(path) is Some)
            &&& !entry.is_dir && remote && head(path) == Some(oid) ==> found->0.oid == oid
            &&& !entry.is_dir && !remote ==> (found is Some <==> blob_digest(entry.data) is Some)
            &&& !entry.is_dir && !remote && blob_digest(entry.data) == Some(digest)
                ==> found->0.oid == hex(digest)
        }),
{
}

/// What is reported of an entry comes behind what was reported before, and nothing is taken away.
pub proof fn law_reports_are_added_in_order(
    files: Seq<FileRef>,
    path: Seq<char>,
    oid: Seq<char>,
)
    ensures
        with_file(files, held_as(path, Some(oid))) == files.push(FileRef { path, oid }),
        with_file(files, held_as(path, None)) == files,
{
}

} // verus!
