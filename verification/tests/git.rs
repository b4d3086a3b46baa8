use bosync::commit::{
    commit, commit_remove, commit_upsert, init_sample, rename_in_git, CommitStep, TreeOp,
};
use bosync::copy::{object_links, CopyError, ObjectCopy};
use bosync::fetch::{
    fetch_shallow, Fetch, FetchAnswer, FetchAsk, FetchSource, FetchTurn, DEFAULT_DEPTH,
};
use bosync::listing::{at_path, spec_in_head, stat, tree_source, AtPath, DirListing, TreeSource};
use bosync::materialize::materialize_worktree;
use bosync::objects::{hash_blob, parse_oid};
use bosync::push::{push, PushAnswer, PushAsk, PushTurn};
use bosync::walk::{listing, ObjectKind, TreeWalk, WalkError, WalkStep};
use std::collections::{BTreeMap, HashMap, HashSet};

type Files = BTreeMap<String, Vec<u8>>;
type Objects = HashMap<Vec<u8>, (ObjectKind, Vec<u8>)>;

fn id(n: u8) -> Vec<u8> {
    vec![n; 20]
}

/// The bytes of a git tree object.
fn tree(entries: &[(&str, &str, Vec<u8>)]) -> Vec<u8> {
    let mut data = Vec::new();
    for (mode, name, oid) in entries {
        data.extend_from_slice(mode.as_bytes());
        data.push(b' ');
        data.extend_from_slice(name.as_bytes());
        data.push(0);
        data.extend_from_slice(oid);
    }
    data
}

fn hex(id: &[u8]) -> String {
    id.iter().map(|b| format!("{b:02x}")).collect()
}

/// The bytes of a git commit object.
fn commit_object(tree: &[u8], parents: &[Vec<u8>]) -> Vec<u8> {
    let mut text = format!("tree {}\n", hex(tree));
    for p in parents {
        text.push_str(&format!("parent {}\n", hex(p)));
    }
    text.push_str("author a <a@b> 0 +0000\ncommitter a <a@b> 0 +0000\n\nmessage\n");
    text.into_bytes()
}

/// A commit 1 with the tree 2 (`docs/` = 3, `hello.txt` = 4) whose `docs` holds `guide.md` = 5.
fn store() -> Objects {
    let mut objects = Objects::new();
    objects.insert(id(1), (ObjectKind::Commit, commit_object(&id(2), &[id(9)])));
    objects.insert(
        id(2),
        (ObjectKind::Tree, tree(&[("40000", "docs", id(3)), ("100644", "hello.txt", id(4))])),
    );
    objects.insert(id(3), (ObjectKind::Tree, tree(&[("100755", "guide.md", id(5))])));
    objects.insert(id(4), (ObjectKind::Blob, b"hello\n".to_vec()));
    objects.insert(id(5), (ObjectKind::Blob, b"guide".to_vec()));
    objects.insert(id(9), (ObjectKind::Commit, commit_object(&id(3), &[])));
    objects
}

fn walk(objects: &Objects, root: Vec<u8>) -> Result<Vec<(String, String, u64)>, WalkError> {
    let mut walk = TreeWalk::new(root);
    loop {
        match walk.next() {
            WalkStep::Tree { id } => walk.give_tree(objects.get(&id).cloned())?,
            WalkStep::File { id } => walk.give_file(objects[&id].1.len() as u64),
            WalkStep::Done => return Ok(listing(walk.finish())),
        }
    }
}

#[test]
fn a_walk_lists_files_in_tree_order() {
    assert_eq!(
        walk(&store(), id(2)).unwrap(),
        vec![
            ("docs/guide.md".to_string(), hex(&id(5)), 5),
            ("hello.txt".to_string(), hex(&id(4)), 6),
        ]
    );
    let mut empty = Objects::new();
    empty.insert(id(7), (ObjectKind::Tree, Vec::new()));
    assert_eq!(walk(&empty, id(7)).unwrap(), vec![]);
}

/// What `path` is in the tree `root`.
fn lookup(objects: &Objects, root: Vec<u8>, path: &str) -> Option<Vec<u8>> {
    let mut at = root;
    for name in path.split('/') {
        let (kind, data) = objects.get(&at)?;
        let mut list = DirListing::list_dir(Some((*kind, data))).unwrap();
        while list.next().is_some() {
            list.give_size(0);
        }
        let k = list.entries.iter().position(|e| e.name == name)?;
        at = list.entries[k].oid.clone();
    }
    Some(at)
}

#[test]
fn a_walk_ascends_and_agrees_with_its_paths() {
    // In git's order a directory counts as if a slash stood behind its name: `foo.c` comes before
    // the directory `foo`, and `foo0` behind it.
    let mut objects = Objects::new();
    objects.insert(
        id(1),
        (
            ObjectKind::Tree,
            tree(&[
                ("100644", "foo.c", id(2)),
                ("40000", "foo", id(3)),
                ("100644", "foo0", id(4)),
            ]),
        ),
    );
    objects.insert(
        id(3),
        (ObjectKind::Tree, tree(&[("100644", "a", id(5)), ("100644", "b", id(6))])),
    );
    for blob in [2, 4, 5, 6] {
        objects.insert(id(blob), (ObjectKind::Blob, vec![blob]));
    }
    let lines = walk(&objects, id(1)).unwrap();
    let paths: Vec<_> = lines.iter().map(|l| l.0.as_str()).collect();
    assert_eq!(paths, vec!["foo.c", "foo/a", "foo/b", "foo0"]);
    assert!(paths.windows(2).all(|p| p[0].as_bytes() < p[1].as_bytes()));
    for (path, oid, _) in &lines {
        assert_eq!(lookup(&objects, id(1), path).map(|id| hex(&id)).as_ref(), Some(oid));
    }
    assert_eq!(lookup(&objects, id(1), "foo/c"), None);
}

#[test]
fn a_listing_says_what_stat_says() {
    let objects = store();
    let (kind, data) = &objects[&id(2)];
    let mut list = DirListing::list_dir(Some((*kind, data))).unwrap();
    while let Some(id) = list.next() {
        list.give_size(objects[&id].1.len() as u64);
    }
    let entries = list.finish();
    assert_eq!(entries.len(), 2);
    for entry in entries {
        let found = lookup(&objects, id(2), &entry.name).unwrap();
        let object = objects.get(&found).map(|(kind, data)| (*kind, data.len() as u64));
        assert_eq!(stat(&entry.name, object), Some((entry.is_dir, entry.size)));
    }
}

#[test]
fn a_walk_fails_on_what_is_no_tree() {
    let mut objects = store();
    assert_eq!(walk(&objects, id(77)), Err(WalkError::Missing));
    assert_eq!(walk(&objects, id(4)), Err(WalkError::NotATree));
    objects.insert(id(3), (ObjectKind::Tree, b"40000 broken".to_vec()));
    assert_eq!(walk(&objects, id(2)), Err(WalkError::Malformed));
}

#[test]
fn objects_name_what_they_link_to() {
    let objects = store();
    let (kind, data) = &objects[&id(1)];
    assert_eq!(object_links(*kind, data), Some(vec![id(2), id(9)]));
    let (kind, data) = &objects[&id(2)];
    assert_eq!(object_links(*kind, data), Some(vec![id(3), id(4)]));
    assert_eq!(object_links(ObjectKind::Blob, b"x"), Some(vec![]));
    assert_eq!(object_links(ObjectKind::Tag, b"x"), Some(vec![]));
    assert_eq!(object_links(ObjectKind::Commit, b"x"), None);
    assert_eq!(object_links(ObjectKind::Tree, b"x"), None);
}

fn copy_all(
    objects: &Objects,
    target: &mut HashSet<Vec<u8>>,
    start: Vec<u8>,
) -> Result<Vec<Vec<u8>>, CopyError> {
    let mut copy = ObjectCopy::new(start);
    let mut written = Vec::new();
    while let Some(id) = copy.next() {
        if target.contains(&id) {
            copy.known();
            continue;
        }
        let object = objects.get(&id);
        copy.copied(object.map(|(k, d)| (*k, d.as_slice())))?;
        target.insert(id.clone());
        written.push(id);
    }
    Ok(written)
}

#[test]
fn copying_brings_what_is_missing_and_stops_at_what_is_known() {
    let objects = store();
    // The target has the parent commit with its tree.
    let mut target: HashSet<_> = [id(9), id(3), id(5)].into();
    assert_eq!(copy_all(&objects, &mut target, id(1)).unwrap(), vec![id(1), id(2), id(4)]);
    assert_eq!(copy_all(&objects, &mut target, id(1)).unwrap(), Vec::<Vec<u8>>::new());
    let mut empty = HashSet::new();
    assert_eq!(copy_all(&objects, &mut empty, id(1)).unwrap().len(), 6);
}

#[test]
fn copying_fails_on_what_cannot_be_read() {
    let mut objects = store();
    assert_eq!(copy_all(&objects, &mut HashSet::new(), id(77)), Err(CopyError::Missing));
    objects.insert(id(2), (ObjectKind::Tree, b"junk".to_vec()));
    assert_eq!(copy_all(&objects, &mut HashSet::new(), id(1)), Err(CopyError::Malformed));
}

fn within(path: &str, top: &str) -> bool {
    path == top || path.starts_with(&format!("{top}/"))
}

/// A checkout in memory.
#[derive(Default)]
struct Checkout {
    head: Files,
    edited: Files,
    disk: Files,
    index: Files,
    log: Vec<String>,
}

impl Checkout {
    /// The id of the latest commit.
    fn tip(&self) -> Option<Vec<u8>> {
        match self.log.len() {
            0 => None,
            n => Some(id(n as u8)),
        }
    }

    fn commit(&mut self, ops: Vec<TreeOp>, message: &str, has_workdir: bool) {
        self.run(commit(ops, message, self.tip(), has_workdir));
    }

    fn run(&mut self, steps: Vec<CommitStep>) {
        self.edited = self.head.clone();
        for step in steps {
            match step {
                CommitStep::PutEntry { path, data } => {
                    self.edited.insert(path, data);
                }
                CommitStep::DropEntry { path } => self.edited.retain(|k, _| !within(k, &path)),
                CommitStep::WriteFile { path, data } => {
                    self.disk.insert(path, data);
                }
                CommitStep::DeletePath { path } => self.disk.retain(|k, _| !within(k, &path)),
                CommitStep::Record { message, parents } => {
                    // The new commit descends from the one before, and from nothing else.
                    assert_eq!(parents, Vec::from_iter(self.tip()));
                    self.head = self.edited.clone();
                    self.log.push(message);
                }
                CommitStep::ResetIndex => self.index = self.head.clone(),
            }
        }
    }

    fn clean(&self) -> bool {
        self.disk == self.head && self.index == self.head
    }
}

fn paths(files: &Files) -> Vec<&str> {
    files.keys().map(String::as_str).collect()
}

#[test]
fn a_sample_commit_fills_an_empty_repository() {
    let (ops, message) = init_sample();
    let mut repo = Checkout::default();
    repo.commit(ops, &message, true);
    assert_eq!(paths(&repo.head), vec!["README.md", "docs/guide.md", "hello.txt"]);
    assert_eq!(repo.log, vec!["Initial sample commit"]);
    assert!(repo.clean());
    let hello = &repo.head["hello.txt"];
    assert_eq!(hello.len(), 53);
    assert!(hash_blob(hello).unwrap().starts_with("7435"));
    assert_eq!(
        repo.head["README.md"],
        b"# bosync sample repo\n\nThis repo is the \"cloud\" backing a bosync mount.\n"
    );
    assert!(repo.head["docs/guide.md"].starts_with(b"## Guide\n\nBrowsing this folder lazily"));
}

#[test]
fn commits_are_mirrored_into_the_working_tree() {
    let (ops, message) = init_sample();
    let mut repo = Checkout::default();
    repo.commit(ops, &message, true);
    repo.commit(commit_upsert("new/file", b"x"), "Add new/file", true);
    assert!(repo.clean());
    assert_eq!(repo.disk["new/file"], b"x");
    repo.commit(commit_remove("docs"), "Delete docs", true);
    assert!(repo.clean());
    assert_eq!(paths(&repo.head), vec!["README.md", "hello.txt", "new/file"]);
    assert_eq!(repo.log.len(), 3);
    // Removing what was added leaves what was there before.
    let before = repo.head.clone();
    repo.commit(commit_upsert("tmp", b"t"), "Add tmp", true);
    repo.commit(commit_remove("tmp"), "Delete tmp", true);
    assert_eq!(repo.head, before);
}

#[test]
fn a_bare_repository_gets_no_files() {
    let mut repo = Checkout::default();
    repo.commit(commit_upsert("f", b"x"), "Add f", false);
    repo.commit(commit_upsert("g", b"y"), "Add g", false);
    repo.commit(commit_remove("f"), "Delete f", false);
    assert_eq!(paths(&repo.head), vec!["g"]);
    assert!(repo.disk.is_empty() && repo.index.is_empty());
}

#[test]
fn a_folder_rename_moves_the_whole_subtree() {
    let mut repo = Checkout::default();
    let ops = vec![
        TreeOp::Upsert("docs/a".into(), b"1".to_vec()),
        TreeOp::Upsert("docs/sub/b".into(), b"2".to_vec()),
        TreeOp::Upsert("docs2".into(), b"3".to_vec()),
    ];
    repo.commit(ops, "start", true);
    let blobs = vec![("a".to_string(), b"1".to_vec()), ("sub/b".to_string(), b"2".to_vec())];
    let (ops, message) = rename_in_git("docs", "manual", blobs);
    assert_eq!(message, "Rename docs -> manual");
    repo.commit(ops, &message, true);
    assert_eq!(paths(&repo.head), vec!["docs2", "manual/a", "manual/sub/b"]);
    assert_eq!(repo.head["manual/sub/b"], b"2");
    assert!(repo.clean());
    // A single file keeps its content under the new name.
    let (ops, message) = rename_in_git("docs2", "x/y", vec![(String::new(), b"3".to_vec())]);
    repo.commit(ops, &message, true);
    assert_eq!(paths(&repo.head), vec!["manual/a", "manual/sub/b", "x/y"]);
}

#[test]
fn a_materialized_working_tree_shows_the_new_tree() {
    let files = |list: &[(&str, &str)]| -> Files {
        list.iter().map(|(p, d)| (p.to_string(), d.as_bytes().to_vec())).collect()
    };
    let old = files(&[("a", "1"), ("b", "2"), ("d/x", "3")]);
    let new = files(&[("a", "1"), ("b", "changed"), ("d", "now a file")]);
    let mut repo = Checkout { head: new.clone(), disk: old.clone(), ..Checkout::default() };
    let steps = materialize_worktree(
        old.keys().cloned().collect(),
        new.iter().map(|(p, d)| (p.clone(), d.clone())).collect(),
    );
    repo.run(steps);
    assert_eq!(repo.disk, new);
    assert_eq!(repo.index, new);
    // What was never shown stays.
    let mut repo = Checkout { head: new.clone(), disk: old.clone(), ..Checkout::default() };
    repo.disk.insert("notes".into(), b"mine".to_vec());
    repo.run(materialize_worktree(
        old.keys().cloned().collect(),
        new.iter().map(|(p, d)| (p.clone(), d.clone())).collect(),
    ));
    assert_eq!(repo.disk["notes"], b"mine");
    assert_eq!(repo.disk.len(), new.len() + 1);
}

/// What a push meets, and what it did.
struct Target {
    head: Option<Vec<u8>>,
    branch: Option<String>,
    tip: Option<Vec<u8>>,
    history: Vec<Vec<u8>>,
    workdir: bool,
    fails_at: Option<&'static str>,
    log: Vec<String>,
}

impl Target {
    fn finished(&self, step: &str) -> PushAnswer {
        PushAnswer::Finished(if self.fails_at == Some(step) {
            Err(format!("{step} failed"))
        } else {
            Ok(())
        })
    }

    fn push(&mut self, url: &str) -> Result<(), String> {
        let mut turn = push(url);
        loop {
            let ask = match turn {
                PushTurn::Done(r) => return r,
                PushTurn::Ask(ask) => ask,
            };
            let question = ask.ask();
            let answer = match &question {
                PushAsk::Head => PushAnswer::Id(self.head.clone()),
                PushAsk::Branch => PushAnswer::Branch(self.branch.clone()),
                PushAsk::Open { path } => {
                    self.log.push(format!("open {path}"));
                    self.finished("open")
                }
                PushAsk::Tip { branch } => {
                    assert_eq!(Some(branch), self.branch.as_ref());
                    PushAnswer::Id(self.tip.clone())
                }
                PushAsk::Ancestor { tip, head } => {
                    assert_eq!(Some(head), self.head.as_ref());
                    PushAnswer::Ancestor(self.history.contains(tip))
                }
                PushAsk::Copy { start } => {
                    assert_eq!(Some(start), self.head.as_ref());
                    self.log.push("copy".into());
                    self.finished("copy")
                }
                PushAsk::Move { to, .. } => {
                    self.log.push("move".into());
                    let answer = self.finished("move");
                    if self.fails_at != Some("move") {
                        self.tip = Some(to.clone());
                    }
                    answer
                }
                PushAsk::Workdir => PushAnswer::Workdir(self.workdir),
                PushAsk::Materialize { shown, commit } => {
                    assert_ne!(shown.as_ref(), Some(commit));
                    self.log.push("materialize".into());
                    self.finished("materialize")
                }
            };
            turn = ask.resume(answer);
        }
    }
}

fn target() -> Target {
    Target {
        head: Some(id(1)),
        branch: Some("refs/heads/master".into()),
        tip: Some(id(9)),
        history: vec![id(1), id(9)],
        workdir: true,
        fails_at: None,
        log: Vec::new(),
    }
}

#[test]
fn push_to_local_target_publishes_commit_and_worktree() {
    let mut t = target();
    assert_eq!(t.push("/tmp/target"), Ok(()));
    assert_eq!(t.log, vec!["open /tmp/target", "copy", "move", "materialize"]);
    assert_eq!(t.tip, t.head);
    // Pushing again is a clean no-op (already up to date).
    t.log.clear();
    assert_eq!(t.push("/tmp/target"), Ok(()));
    assert_eq!(t.log, vec!["open /tmp/target"]);
}

#[test]
fn push_leaves_a_target_with_commits_of_its_own_alone() {
    let mut t = Target { tip: Some(id(5)), ..target() };
    assert_eq!(
        t.push("/tmp/target"),
        Err("target branch refs/heads/master has commits that HEAD lacks; cannot fast-forward it"
            .into())
    );
    assert_eq!(t.log, vec!["open /tmp/target"]);
    assert_eq!(t.tip, Some(id(5)));
}

#[test]
fn push_to_a_bare_target_writes_no_files() {
    let mut t = Target { workdir: false, tip: None, ..target() };
    assert_eq!(t.push("file:///srv/bare"), Ok(()));
    assert_eq!(t.log, vec!["open /srv/bare", "copy", "move"]);
}

#[test]
fn push_to_nonlocal_remote_errors() {
    let mut t = target();
    assert_eq!(
        t.push("ssh://git@host/o/r"),
        Err("push to non-local remote ssh://git@host/o/r not supported (gix 0.84 has no pack send)".into())
    );
    assert!(t.log.is_empty());
}

#[test]
fn push_of_an_unborn_or_detached_head() {
    let mut unborn = Target { head: None, ..target() };
    assert_eq!(unborn.push("/x"), Ok(()));
    assert!(unborn.log.is_empty());
    let mut detached = Target { branch: None, ..target() };
    assert_eq!(detached.push("/x"), Err("proxy HEAD is detached; cannot push".into()));
}

#[test]
fn a_push_stops_at_the_first_failure() {
    for (step, done) in [("open", 1), ("copy", 2), ("move", 3), ("materialize", 4)] {
        let mut t = Target { fails_at: Some(step), ..target() };
        assert_eq!(t.push("/x"), Err(format!("{step} failed")));
        assert_eq!(t.log.len(), done);
        assert_eq!(t.tip == t.head, step == "materialize");
    }
}

/// What a fetch meets, and what it did.
struct Proxy {
    before: Option<Vec<u8>>,
    after: Option<Vec<u8>>,
    origin: bool,
    on_branch: bool,
    head: Option<Vec<u8>>,
    receives: bool,
    log: Vec<String>,
}

impl Proxy {
    fn fetch(&mut self, depth: u32) -> Result<bool, String> {
        let mut fetch: Fetch = fetch_shallow("https://host/o/r", "master", depth);
        loop {
            let answer = match fetch.ask() {
                FetchAsk::Reference { name } => {
                    assert_eq!(name, "refs/remotes/origin/master");
                    FetchAnswer::Reference(self.before.clone())
                }
                FetchAsk::HasOrigin => FetchAnswer::HasOrigin(self.origin),
                FetchAsk::Receive { source, refspec, depth } => {
                    assert_eq!(refspec, "+refs/heads/master:refs/remotes/origin/master");
                    let from = match source {
                        FetchSource::Origin => "origin".to_string(),
                        FetchSource::Url(url) => url,
                    };
                    self.log.push(format!("receive from {from} at {depth}"));
                    FetchAnswer::Finished(if self.receives { Ok(()) } else { Err("offline".into()) })
                }
                FetchAsk::ReferenceNow { name } => {
                    assert_eq!(name, "refs/remotes/origin/master");
                    FetchAnswer::Reference(self.after.clone())
                }
                FetchAsk::Head => {
                    FetchAnswer::Head { on_branch: self.on_branch, id: self.head.clone() }
                }
                FetchAsk::MoveHead { to } => {
                    self.log.push("move".into());
                    self.head = Some(to);
                    FetchAnswer::Finished(Ok(()))
                }
            };
            match fetch.resume(answer) {
                FetchTurn::Done(r) => return r,
                FetchTurn::Ask(next) => fetch = next,
            }
        }
    }
}

fn proxy() -> Proxy {
    Proxy {
        before: Some(id(1)),
        after: Some(id(2)),
        origin: true,
        on_branch: true,
        head: Some(id(1)),
        receives: true,
        log: Vec::new(),
    }
}

#[test]
fn a_fetch_checks_out_an_advanced_remote() {
    let mut p = proxy();
    assert_eq!(p.fetch(DEFAULT_DEPTH), Ok(true));
    assert_eq!(p.head, Some(id(2)));
    assert_eq!(p.log, vec!["receive from origin at 1", "move"]);
}

#[test]
fn a_fetch_leaves_a_quiet_remote_alone() {
    // A local commit moved HEAD, but the remote has not advanced.
    let mut p = Proxy { after: Some(id(1)), head: Some(id(7)), origin: false, ..proxy() };
    assert_eq!(p.fetch(0), Ok(false));
    assert_eq!(p.head, Some(id(7)));
    assert_eq!(p.log, vec!["receive from https://host/o/r at 1"]);
}

#[test]
fn a_fetch_that_finds_its_own_commit_does_not_move_head() {
    let mut p = Proxy { head: Some(id(2)), ..proxy() };
    assert_eq!(p.fetch(5), Ok(false));
    assert_eq!(p.log[0], "receive from origin at 5");
    let mut detached = Proxy { on_branch: false, ..proxy() };
    assert_eq!(detached.fetch(1), Ok(false));
    assert_eq!(detached.head, Some(id(1)));
    let mut offline = Proxy { receives: false, ..proxy() };
    assert_eq!(offline.fetch(1), Err("offline".into()));
}

#[test]
fn directory_listings_show_sizes_of_files_only() {
    let objects = store();
    let mut list = DirListing::list_dir(Some((ObjectKind::Tree, &objects[&id(2)].1))).unwrap();
    while let Some(id) = list.next() {
        list.give_size(objects[&id].1.len() as u64);
    }
    let entries: Vec<_> = list.finish().into_iter().map(|e| (e.name, e.is_dir, e.size)).collect();
    assert_eq!(
        entries,
        vec![("docs".to_string(), true, 0), ("hello.txt".to_string(), false, 6)]
    );
    // A path that has no tree lists as empty; a broken tree is an error.
    let mut none = DirListing::list_dir(None).unwrap();
    assert_eq!(none.next(), None);
    assert!(none.finish().is_empty());
    // A file lists as empty, too.
    let mut file = DirListing::list_dir(Some((ObjectKind::Blob, b"junk"))).unwrap();
    assert!(file.next().is_none());
    assert!(file.finish().is_empty());
    assert!(matches!(
        DirListing::list_dir(Some((ObjectKind::Tree, b"junk"))),
        Err(WalkError::Malformed)
    ));
}

#[test]
fn paths_resolve_in_head() {
    assert_eq!(spec_in_head(""), None);
    assert_eq!(spec_in_head("docs/a").as_deref(), Some("HEAD:docs/a"));
    assert_eq!(stat("", None), Some((true, 0)));
    assert_eq!(stat("d", Some((ObjectKind::Tree, 99))), Some((true, 0)));
    assert_eq!(stat("f", Some((ObjectKind::Blob, 53))), Some((false, 53)));
    assert_eq!(stat("m", Some((ObjectKind::Commit, 1))), None);
    assert_eq!(stat("x", None), None);
    assert_eq!(tree_source(Some(ObjectKind::Commit), false), TreeSource::OfCommit);
    assert_eq!(tree_source(Some(ObjectKind::Tree), false), TreeSource::Itself);
    assert_eq!(tree_source(Some(ObjectKind::Tag), false), TreeSource::OfTag);
    assert_eq!(tree_source(Some(ObjectKind::Blob), false), TreeSource::Nothing);
    assert_eq!(tree_source(None, false), TreeSource::Unknown);
    assert_eq!(tree_source(None, true), TreeSource::Nothing);
    assert_eq!(at_path(Some(ObjectKind::Blob)), AtPath::File);
    assert_eq!(at_path(Some(ObjectKind::Tree)), AtPath::Directory);
    assert_eq!(at_path(None), AtPath::Nothing);
}

#[test]
fn ids_round_trip_through_hex() {
    let text = hash_blob(b"hello\n").unwrap();
    assert_eq!(hex(&parse_oid(&text).unwrap()), text);
}
