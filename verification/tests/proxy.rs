use bosync::driver::{loop_turn, LoopEvent, LoopTurn, REFRESH_INTERVAL};
use bosync::mount::{overlay_for, CloudSync, NullCloudSync, Overlay, ProxyState};
use bosync::objects::hash_blob;
use bosync::paths::{
    child_path, dirs_to_mark, dirs_to_prune, rel_parts, rename_target, scanned_path, to_git_path,
    windows_path,
};
use bosync::fetch::{fetch_shallow, FetchAnswer, FetchAsk, FetchTurn, DEFAULT_DEPTH};
use bosync::proxy::{changed_paths, on_save, to_free, IdleSweep, IdleVisit, Refresh};
use bosync::reconcile::{
    flush_to_remote, reconcile_path, Flush, Found, Look, OnDisk, ReconcileTurn, Reconciled,
};
use std::cell::RefCell;
use std::collections::BTreeMap;
use std::path::{Path, PathBuf};

fn parts(path: &str) -> Vec<String> {
    Path::new(path)
        .components()
        .map(|c| c.as_os_str().to_string_lossy().into_owned())
        .collect()
}

#[test]
fn changed_paths_reports_modified_and_new_only() {
    let before = vec![
        ("a.txt".to_string(), "oid_a".to_string(), 1),
        ("b.txt".to_string(), "oid_b".to_string(), 1),
        ("gone.txt".to_string(), "oid_g".to_string(), 1),
    ];
    let after = vec![
        ("a.txt".to_string(), "oid_a".to_string(), 1), // unchanged
        ("b.txt".to_string(), "oid_b2".to_string(), 1), // modified
        ("new.txt".to_string(), "oid_n".to_string(), 1), // added
    ];
    let mut changed = changed_paths(&before, &after);
    changed.sort();
    assert_eq!(changed, vec!["b.txt".to_string(), "new.txt".to_string()]);
    assert!(changed_paths(&after, &after).is_empty());
}

fn lines(files: &BTreeMap<&str, &str>) -> Vec<(String, String, u64)> {
    files
        .iter()
        .map(|(p, d)| (p.to_string(), hash_blob(d.as_bytes()).unwrap(), d.len() as u64))
        .collect()
}

/// Commits by number: what each of them holds.
type Commits<'a> = Vec<BTreeMap<&'a str, &'a str>>;

/// A proxy of a remote: which commit each of them is at, and what the proxy did.
struct Shallow {
    head: u8,
    tracking: Option<u8>,
    remote: u8,
    depths: Vec<u32>,
    wrote: Vec<String>,
}

impl Shallow {
    fn fetch(&mut self) -> Result<bool, String> {
        let mut fetch = fetch_shallow("/srv/remote", "master", DEFAULT_DEPTH);
        loop {
            let answer = match fetch.ask() {
                FetchAsk::Reference { .. } | FetchAsk::ReferenceNow { .. } => {
                    FetchAnswer::Reference(self.tracking.map(|c| vec![c; 20]))
                }
                FetchAsk::HasOrigin => FetchAnswer::HasOrigin(true),
                FetchAsk::Receive { refspec, depth, .. } => {
                    assert_eq!(refspec, "+refs/heads/master:refs/remotes/origin/master");
                    self.depths.push(depth);
                    self.tracking = Some(self.remote);
                    FetchAnswer::Finished(Ok(()))
                }
                FetchAsk::Head => {
                    FetchAnswer::Head { on_branch: true, id: Some(vec![self.head; 20]) }
                }
                FetchAsk::MoveHead { to } => {
                    self.head = to[0];
                    FetchAnswer::Finished(Ok(()))
                }
            };
            match fetch.resume(answer) {
                FetchTurn::Done(r) => return r,
                FetchTurn::Ask(next) => fetch = next,
            }
        }
    }

    fn refresh(&mut self, commits: &Commits) -> Result<Vec<String>, String> {
        let mut refresh = Refresh::refresh_branch();
        loop {
            refresh = match refresh {
                Refresh::Before => refresh.before_is(Some(lines(&commits[self.head as usize]))),
                Refresh::Fetch { .. } => {
                    let fetched = self.fetch();
                    refresh.fetched(fetched)
                }
                Refresh::After { .. } => {
                    refresh.after_is(Some(lines(&commits[self.head as usize])))
                }
                Refresh::Write { ref changed, next } => {
                    self.wrote.push(changed[next].clone());
                    refresh.written()
                }
                Refresh::Done(r) => return r,
            };
        }
    }
}

#[test]
fn refresh_branch_detects_remote_changes_and_stays_shallow() {
    let first = BTreeMap::from([("README.md", "r\n"), ("hello.txt", "h\n")]);
    let mut edited = first.clone();
    edited.insert("hello.txt", "CHANGED\n");
    let mut added = edited.clone();
    added.insert("newfile.txt", "brand new\n");
    let commits: Commits = vec![first, edited, added];
    let mut proxy =
        Shallow { head: 0, tracking: Some(0), remote: 0, depths: Vec::new(), wrote: Vec::new() };

    // Nothing has changed yet.
    assert!(proxy.refresh(&commits).unwrap().is_empty());

    // Advance the remote by two commits: edit one file, add another.
    proxy.remote = 2;

    // Refresh reports exactly the changed/new paths...
    let mut changed = proxy.refresh(&commits).unwrap();
    changed.sort();
    assert_eq!(changed, vec!["hello.txt".to_string(), "newfile.txt".to_string()]);
    assert_eq!(proxy.wrote, changed);

    // ...HEAD fast-forwarded so the projection now serves the new content...
    assert_eq!(commits[proxy.head as usize]["hello.txt"], "CHANGED\n");
    assert_eq!(commits[proxy.head as usize]["newfile.txt"], "brand new\n");

    // ...and the proxy is still a shallow copy: it never asked for more than one commit.
    assert_eq!(proxy.depths, vec![1, 1]);
}

#[test]
fn a_refresh_survives_failed_walks_but_not_a_failed_fetch() {
    let failed = Refresh::refresh_branch().before_is(None).fetched(Err("offline".into()));
    assert!(matches!(failed, Refresh::Done(Err(e)) if e == "offline"));
    let after = lines(&BTreeMap::from([("a", "1")]));
    let unknown = Refresh::refresh_branch().before_is(None).fetched(Ok(true)).after_is(Some(after));
    assert!(matches!(unknown, Refresh::Write { changed, next: 0 } if changed == vec!["a"]));
    let gone = Refresh::refresh_branch().before_is(None).fetched(Ok(true)).after_is(None);
    assert!(matches!(gone, Refresh::Done(Ok(changed)) if changed.is_empty()));
}

#[test]
fn to_git_path_maps_relative_and_rejects_outside() {
    let root = parts("/srv/drive");
    assert_eq!(to_git_path(&root, &parts("/srv/drive")).as_deref(), Some(""));
    assert_eq!(
        to_git_path(&root, &parts("/srv/drive/docs/guide.md")).as_deref(),
        Some("docs/guide.md")
    );
    assert_eq!(to_git_path(&root, &parts("/elsewhere/x")), None);
    assert_eq!(to_git_path(&root, &parts("/srv/driver")), None);
}

#[test]
fn directories_that_a_removal_empties_are_tried() {
    let base = parts("/srv/drive");
    let mut files = vec!["a/b/c/one", "a/keep", "z"];
    files.retain(|f| *f != "a/b/c/one");
    let mut dir = parts("/srv/drive/a/b/c");
    let mut gone = Vec::new();
    for _ in 0..dirs_to_prune(&base, &dir) {
        let rel = to_git_path(&base, &dir).unwrap();
        if files.iter().any(|f| f.starts_with(&format!("{rel}/"))) {
            break;
        }
        gone.push(rel);
        dir.pop();
    }
    assert_eq!(gone, vec!["a/b/c", "a/b"]);
}

#[test]
fn git_paths_are_joined_and_split() {
    assert_eq!(child_path("", "a"), "a");
    assert_eq!(child_path("a/b", "c"), "a/b/c");
    assert_eq!(rename_target("new", ""), "new");
    assert_eq!(rename_target("new", "x/y"), "new/x/y");
    assert_eq!(rel_parts("a/b/c"), vec!["a", "b", "c"]);
    assert_eq!(windows_path("a/b/c"), r"a\b\c");
    assert_eq!(scanned_path(&parts("/r"), &parts("/r/a/b")), "a/b");
    // Going down a git path and coming back gives it again.
    let root = parts("/srv/drive");
    for rel in ["a", "docs/guide.md", "x/y/z"] {
        let mut abs = root.clone();
        abs.extend(rel_parts(rel));
        assert_eq!(to_git_path(&root, &abs).as_deref(), Some(rel));
        abs.push("child".into());
        assert_eq!(to_git_path(&root, &abs).unwrap(), child_path(rel, "child"));
    }
}

#[test]
fn directories_are_marked_up_to_the_root_and_pruned_below_it() {
    let root = parts("/srv/drive");
    assert_eq!(dirs_to_mark(&root, &parts("/srv/drive/a/b/c.txt")), 3);
    assert_eq!(dirs_to_mark(&root, &parts("/srv/drive/c.txt")), 1);
    assert_eq!(dirs_to_mark(&root, &root), 0);
    assert_eq!(dirs_to_mark(&root, &parts("/elsewhere/a")), 0);
    assert_eq!(dirs_to_prune(&root, &parts("/srv/drive/a/b")), 2);
    assert_eq!(dirs_to_prune(&root, &root), 0);
}

/// A drive with one file, and the repository behind it.
struct Site {
    disk: Option<Vec<u8>>,
    is_dir: bool,
    dehydrated: bool,
    readable: bool,
    git: BTreeMap<String, Vec<u8>>,
    log: Vec<String>,
    looked: Vec<&'static str>,
}

fn site(disk: Option<&[u8]>, git: Option<&[u8]>) -> Site {
    Site {
        disk: disk.map(<[u8]>::to_vec),
        is_dir: false,
        dehydrated: false,
        readable: true,
        git: git.iter().map(|d| ("hello.txt".to_string(), d.to_vec())).collect(),
        log: Vec::new(),
        looked: Vec::new(),
    }
}

impl Site {
    fn reconcile(&mut self, abs: &str) -> Result<Reconciled, String> {
        let mut turn = reconcile_path(&parts("/srv/drive"), &parts(abs));
        loop {
            let ask = match turn {
                ReconcileTurn::Done(r) => return r,
                ReconcileTurn::Ask(ask) => ask,
            };
            let found = match ask.look() {
                Look::Disk => {
                    self.looked.push("disk");
                    Found::Disk(match &self.disk {
                        _ if self.is_dir => OnDisk::Directory,
                        Some(_) => OnDisk::File,
                        None if !self.readable => OnDisk::Failed("denied".into()),
                        None => OnDisk::Gone,
                    })
                }
                Look::Placeholder => Found::Placeholder(self.dehydrated),
                Look::Content => {
                    self.looked.push("content");
                    Found::Content(if self.readable {
                        Ok(self.disk.clone().unwrap())
                    } else {
                        Err("denied".into())
                    })
                }
                Look::Blob { path } => Found::Blob(self.git.get(&path).cloned()),
                Look::CommitUpsert { path, data, message } => {
                    self.git.insert(path, data);
                    self.log.push(message);
                    Found::Committed(Ok(()))
                }
                Look::CommitRemove { path, message } => {
                    self.git.remove(&path);
                    self.log.push(message);
                    Found::Committed(Ok(()))
                }
            };
            turn = ask.resume(found);
        }
    }
}

const FILE: &str = "/srv/drive/hello.txt";

#[test]
fn reconcile_commits_a_local_edit() {
    let mut s = site(Some(b"changed!\n"), Some(b"Hello\n"));
    assert_eq!(s.reconcile(FILE), Ok(Reconciled::Committed));
    assert_eq!(s.git["hello.txt"], b"changed!\n");
    assert_eq!(s.log, vec!["Update hello.txt"]);
    // Once committed, there is nothing left to do.
    assert_eq!(s.reconcile(FILE), Ok(Reconciled::Unchanged));
    assert_eq!(s.log.len(), 1);
}

#[test]
fn reconcile_commits_a_new_file() {
    let mut s = site(Some(b"x"), None);
    assert_eq!(s.reconcile(FILE), Ok(Reconciled::Committed));
    assert_eq!(s.log, vec!["Add hello.txt"]);
}

#[test]
fn reconcile_is_noop_when_unchanged() {
    let mut s = site(Some(b"Hello\n"), Some(b"Hello\n"));
    assert_eq!(s.reconcile(FILE), Ok(Reconciled::Unchanged));
    assert!(s.log.is_empty(), "no new commit for unchanged file");
}

#[test]
fn reconcile_commits_a_delete() {
    let mut s = site(None, Some(b"Hello\n"));
    assert_eq!(s.reconcile(FILE), Ok(Reconciled::Removed));
    assert!(!s.git.contains_key("hello.txt"), "blob removed from git");
    assert_eq!(s.log, vec!["Delete hello.txt"]);
    assert_eq!(s.reconcile(FILE), Ok(Reconciled::Unchanged));
}

#[test]
fn reconcile_leaves_placeholders_directories_and_outsiders_alone() {
    let mut s = Site { dehydrated: true, ..site(Some(b"?"), Some(b"Hello\n")) };
    assert_eq!(s.reconcile(FILE), Ok(Reconciled::Unchanged));
    assert_eq!(s.looked, vec!["disk"], "a placeholder is never read");
    let mut d = Site { is_dir: true, ..site(None, None) };
    assert_eq!(d.reconcile("/srv/drive/docs"), Ok(Reconciled::Unchanged));
    let mut o = site(Some(b"x"), None);
    assert_eq!(o.reconcile("/elsewhere/x"), Ok(Reconciled::Unchanged));
    assert_eq!(o.reconcile("/srv/drive"), Ok(Reconciled::Unchanged));
    assert!(o.looked.is_empty());
}

#[test]
fn reconcile_reports_what_cannot_be_read() {
    let mut s = Site { readable: false, ..site(Some(b"x"), None) };
    assert_eq!(s.reconcile(FILE), Err("denied".into()));
    let mut m = Site { readable: false, ..site(None, None) };
    assert_eq!(m.reconcile(FILE), Err("denied".into()));
}

#[test]
fn flush_reconciles_uncommitted_work_and_pushes_it() {
    let mut head = Some("c1".to_string());
    let pushed_head = head.clone();
    let mut flush = flush_to_remote(2, pushed_head.clone());
    let mut reconciled = Vec::new();
    let result = loop {
        flush = match flush {
            Flush::Reconcile { next, .. } => {
                reconciled.push(next);
                head = Some("c2".into());
                flush.reconciled()
            }
            Flush::Head { .. } => flush.head_is(head.clone()),
            Flush::Push { .. } => flush.pushed(Ok(())),
            Flush::Done(r) => break r,
        };
    };
    assert_eq!(reconciled, vec![0, 1]);
    assert_eq!(result, Ok(Some("c2".to_string())), "flush should report a push");
}

#[test]
fn flush_is_a_noop_when_nothing_is_outstanding() {
    let pushed_head = Some("c1".to_string());
    let flush = flush_to_remote(0, pushed_head.clone()).head_is(pushed_head);
    assert!(matches!(flush, Flush::Done(Ok(None))), "nothing outstanding: no push");
}

#[test]
fn flush_surfaces_a_failed_push() {
    let flush = flush_to_remote(0, None).head_is(Some("c1".into()));
    assert!(matches!(flush, Flush::Push { .. }));
    assert!(matches!(flush.pushed(Err("no".into())), Flush::Done(Err(e)) if e == "no"));
}

/// Records the states that it is asked to show.
#[derive(Default)]
struct RecordingCloudSync {
    states: RefCell<Vec<(PathBuf, ProxyState)>>,
}

impl CloudSync for RecordingCloudSync {
    fn is_dehydrated(&self, abs: &PathBuf) -> bool {
        self.states.borrow().last() == Some(&(abs.clone(), ProxyState::Remote))
    }

    fn mark_state(&self, _root: &PathBuf, abs: &PathBuf, state: ProxyState) {
        self.states.borrow_mut().push((abs.clone(), state));
    }
}

fn save(cloud: &RecordingCloudSync, done: Reconciled, push_succeeds: bool) -> bool {
    let root = PathBuf::from("/srv/drive");
    let file = PathBuf::from(FILE);
    let plan = on_save(done);
    if let Some(state) = plan.before_push {
        cloud.mark_state(&root, &file, state);
    }
    if plan.push && push_succeeds {
        if let Some(state) = plan.after_push {
            cloud.mark_state(&root, &file, state);
        }
    }
    plan.push
}

#[test]
fn on_save_keeps_file_local_when_push_is_unavailable() {
    let cloud = RecordingCloudSync::default();
    assert!(save(&cloud, Reconciled::Committed, false));
    // Committed, but not pushed: the file is Local, never promoted to Synced.
    assert_eq!(*cloud.states.borrow(), vec![(PathBuf::from(FILE), ProxyState::Local)]);
}

#[test]
fn on_save_promotes_a_pushed_file() {
    let cloud = RecordingCloudSync::default();
    assert!(save(&cloud, Reconciled::Committed, true));
    let states: Vec<_> = cloud.states.borrow().iter().map(|s| s.1).collect();
    assert_eq!(states, vec![ProxyState::Local, ProxyState::Synced]);
    // A removal is pushed but shows nothing; an unchanged file is not pushed.
    let other = RecordingCloudSync::default();
    assert!(save(&other, Reconciled::Removed, true));
    assert!(!save(&other, Reconciled::Unchanged, true));
    assert!(other.states.borrow().is_empty());
}

#[derive(Default)]
struct Hooks {
    calls: RefCell<Vec<&'static str>>,
}

impl CloudSync for Hooks {
    fn is_dehydrated(&self, _abs: &PathBuf) -> bool {
        true
    }

    fn mark_in_sync(&self, _root: &PathBuf, _abs: &PathBuf) {
        self.calls.borrow_mut().push("in sync");
    }

    fn dehydrate(&self, _abs: &PathBuf) {
        self.calls.borrow_mut().push("dehydrate");
    }
}

#[test]
fn states_map_to_overlay_hooks() {
    assert_eq!(overlay_for(ProxyState::Synced), Overlay::MarkInSync);
    assert_eq!(overlay_for(ProxyState::Remote), Overlay::Dehydrate);
    assert_eq!(overlay_for(ProxyState::Local), Overlay::Leave);
    let hooks = Hooks::default();
    let p = PathBuf::from(FILE);
    for state in [ProxyState::Remote, ProxyState::Local, ProxyState::Synced] {
        hooks.mark_state(&p, &p, state);
    }
    assert_eq!(*hooks.calls.borrow(), vec!["dehydrate", "in sync"]);
    assert!(!NullCloudSync.is_dehydrated(&p));
    NullCloudSync.mark_state(&p, &p, ProxyState::Remote);
}

#[test]
fn idle_files_are_freed_and_the_git_store_is_skipped() {
    let mut sweep = IdleSweep::dehydrate_stale("root", 300);
    assert_eq!(sweep.next(), Some("root"));
    assert!(matches!(sweep.visit("store", ".git", true, None), IdleVisit::Leave));
    assert!(matches!(sweep.visit("docs", "docs", true, Some(999)), IdleVisit::Leave));
    assert!(matches!(sweep.visit("old", "old", false, Some(300)), IdleVisit::Stale("old")));
    assert!(matches!(sweep.visit("new", "new", false, Some(299)), IdleVisit::Leave));
    assert!(matches!(sweep.visit("unknown", "unknown", false, None), IdleVisit::Leave));
    assert_eq!(sweep.next(), Some("docs"));
    assert_eq!(sweep.next(), None);
    // A placeholder has nothing to free.
    assert_eq!(to_free("old", false), Some("old"));
    assert_eq!(to_free("old", true), None);
}

#[test]
fn the_loop_debounces_and_refreshes() {
    let nothing = LoopTurn { collect: false, reconcile: false, refresh: false, stop: false };
    assert_eq!(
        loop_turn(false, LoopEvent::Changed, REFRESH_INTERVAL),
        LoopTurn { collect: true, ..nothing }
    );
    assert_eq!(
        loop_turn(false, LoopEvent::Quiet, REFRESH_INTERVAL - 1),
        LoopTurn { reconcile: true, ..nothing }
    );
    assert_eq!(
        loop_turn(false, LoopEvent::Quiet, REFRESH_INTERVAL),
        LoopTurn { reconcile: true, refresh: true, ..nothing }
    );
    assert_eq!(
        loop_turn(true, LoopEvent::Quiet, REFRESH_INTERVAL),
        LoopTurn { refresh: true, ..nothing }
    );
    assert_eq!(loop_turn(false, LoopEvent::Disconnected, 0), LoopTurn { stop: true, ..nothing });
}
