use bosync::objects::{base_tree, hash_blob, parse_oid};
use bosync::protocol::{
    ClientFile, FileState, PatchResult, PushResult, SyncRequest, SyncResponse,
};
use bosync::scan::{DriveScan, ScanVisit};
use bosync::sync::{
    default_true, file_state, handle, invalid_request, missing_line, patch_contents, patch_with,
    push_conflicts, serialize_failed, status_line, Answer, Query, Turn,
};
use std::collections::BTreeMap;

const COMMIT: &str = "283b000000000000000000000000000000000000";

/// A repository in memory: files by path, every blob that it ever had, and its commit messages.
#[derive(Default)]
struct Repo {
    files: BTreeMap<String, Vec<u8>>,
    blobs: Vec<Vec<u8>>,
    messages: Vec<String>,
    broken: bool,
    unborn: bool,
    forgetful: bool,
    asked: Vec<String>,
}

impl Repo {
    fn with(files: &[(&str, &str)]) -> Repo {
        let mut repo = Repo::default();
        for (path, text) in files {
            repo.put(path, text);
        }
        repo
    }

    fn put(&mut self, path: &str, text: &str) {
        self.files.insert(path.into(), text.as_bytes().to_vec());
        self.blobs.push(text.as_bytes().to_vec());
    }

    fn resolve(&self, spec: &str) -> Option<String> {
        match spec.split_once(':') {
            Some((_, path)) => self.files.get(path).and_then(|d| hash_blob(d)),
            None if self.unborn || spec == "no-such-rev" => None,
            None => Some(COMMIT.to_string()),
        }
    }

    fn answer(&mut self, query: Query) -> Answer {
        self.asked.push(format!("{query:?}"));
        match query {
            Query::Resolve { spec } | Query::ResolveAfterCommit { spec } => {
                Answer::Resolved(self.resolve(&spec))
            }
            Query::Object { id } => Answer::Object(
                self.blobs
                    .iter()
                    .find(|b| parse_oid(&hash_blob(b).unwrap()).unwrap() == id)
                    .cloned(),
            ),
            Query::Walk { .. } if self.broken => Answer::Walked(Err("no tree".into())),
            Query::Walk { .. } => Answer::Walked(Ok(self
                .files
                .iter()
                .map(|(p, d)| (p.clone(), hash_blob(d).unwrap(), d.len() as u64))
                .collect())),
            Query::Commit { .. } if self.broken => Answer::Committed(Err("read-only".into())),
            Query::Commit { path, content, message } => {
                if !self.forgetful {
                    self.put(&path, &content);
                }
                self.messages.push(message);
                Answer::Committed(Ok(()))
            }
        }
    }

    fn run(&mut self, request: SyncRequest) -> SyncResponse {
        let mut turn = handle(request);
        loop {
            match turn {
                Turn::Reply(response) => return response,
                Turn::Ask(interview) => {
                    let answer = self.answer(interview.query());
                    turn = interview.resume(answer);
                }
            }
        }
    }
}

fn held(path: &str, text: &str) -> ClientFile {
    ClientFile { path: path.into(), oid: hash_blob(text.as_bytes()).unwrap() }
}

fn oid(text: &str) -> String {
    hash_blob(text.as_bytes()).unwrap()
}

#[test]
fn blob_ids_are_those_of_git() {
    assert_eq!(oid(""), "e69de29bb2d1d6434b8b29ae775ad8c2e48c5391");
    assert_eq!(oid("hello\n"), "ce013625030ba8dba906f756967f9e9ca394464a");
}

#[test]
fn object_ids_are_read_in_either_case_and_only_whole() {
    let text = "ce013625030ba8dba906f756967f9e9ca394464a";
    let id = parse_oid(text).unwrap();
    assert_eq!(id[0], 0xce);
    assert_eq!(id[19], 0x4a);
    assert_eq!(parse_oid(&text.to_uppercase()), Some(id));
    assert_eq!(parse_oid(&text[1..]), None);
    assert_eq!(parse_oid("zz013625030ba8dba906f756967f9e9ca394464a"), None);
    assert_eq!(parse_oid(""), None);
}

#[test]
fn commits_start_from_head_or_from_nothing() {
    assert_eq!(base_tree(Some(vec![7; 20])), vec![7; 20]);
    assert_eq!(
        base_tree(None),
        parse_oid("4b825dc642cb6eb9a060e54bf8d69288fbee4904").unwrap()
    );
}

#[test]
fn manifest_lists_every_file() {
    let mut repo = Repo::with(&[("a.txt", "one\n"), ("docs/b.txt", "two\n")]);
    match repo.run(SyncRequest::Manifest { rev: None }) {
        SyncResponse::Manifest { rev, files } => {
            assert_eq!(rev.as_deref(), Some(COMMIT));
            let lines: Vec<_> = files.iter().map(|f| (f.path.as_str(), f.oid.clone(), f.size)).collect();
            assert_eq!(lines, vec![("a.txt", oid("one\n"), 4), ("docs/b.txt", oid("two\n"), 4)]);
        }
        other => panic!("{other:?}"),
    }
    assert!(repo.asked[0].contains("HEAD"));
}

#[test]
fn a_walk_that_fails_becomes_an_error() {
    let mut repo = Repo { broken: true, ..Repo::with(&[("a", "x")]) };
    for request in [
        SyncRequest::Manifest { rev: Some("v1".into()) },
        SyncRequest::Status { rev: None, files: vec![held("a", "x")], new_files: true },
    ] {
        match repo.run(request) {
            SyncResponse::Error { message } => assert_eq!(message, "no tree"),
            other => panic!("{other:?}"),
        }
    }
}

#[test]
fn an_unknown_revision_is_an_error() {
    let mut repo = Repo::with(&[("a", "x")]);
    let rev = || Some("no-such-rev".to_string());
    for request in [
        SyncRequest::Manifest { rev: rev() },
        SyncRequest::Status { rev: rev(), files: vec![held("a", "x")], new_files: true },
        SyncRequest::Status { rev: rev(), files: vec![held("a", "x")], new_files: false },
        SyncRequest::Patch { rev: rev(), files: vec![held("a", "x")] },
    ] {
        match repo.run(request) {
            SyncResponse::Error { message } => assert_eq!(message, "unknown revision no-such-rev"),
            other => panic!("{other:?}"),
        }
    }
    // Nothing but the revision and `HEAD` was looked for.
    assert_eq!(repo.asked.len(), 8);
    assert!(repo.asked.iter().all(|q| q.contains("no-such-rev") || q.contains("HEAD")));
}

#[test]
fn an_unborn_branch_has_no_files() {
    // The branch that `HEAD` is on goes by its own name, too.
    for rev in [None, Some("HEAD".to_string()), Some("master".to_string())] {
        let mut repo = Repo { unborn: true, broken: true, ..Repo::default() };
        match repo.run(SyncRequest::Manifest { rev: rev.clone() }) {
            SyncResponse::Manifest { rev: None, files } => assert!(files.is_empty()),
            other => panic!("{other:?}"),
        }
        match repo.run(SyncRequest::Patch { rev: rev.clone(), files: vec![held("a", "x")] }) {
            SyncResponse::Patch { rev: None, files } => {
                assert!(matches!(files[0].result, PatchResult::NotInRepo));
            }
            other => panic!("{other:?}"),
        }
        let files = vec![held("a", "x")];
        match repo.run(SyncRequest::Status { rev, files, new_files: true }) {
            SyncResponse::Status { rev: None, files, missing } => {
                assert!(matches!(files[0].state, FileState::NotInRepo));
                assert!(missing.is_empty());
            }
            other => panic!("{other:?}"),
        }
    }
}

#[test]
fn status_judges_held_files_and_names_new_ones() {
    let mut repo = Repo::with(&[("same", "s\n"), ("changed", "new\n"), ("extra", "e\n")]);
    let files = vec![held("same", "s\n"), held("changed", "old\n"), held("gone", "g\n")];
    match repo.run(SyncRequest::Status { rev: None, files, new_files: default_true() }) {
        SyncResponse::Status { rev, files, missing } => {
            assert_eq!(rev.as_deref(), Some(COMMIT));
            let lines: Vec<_> = files.iter().map(status_line).collect();
            assert_eq!(lines, vec!["[ok   ] same", "[stale] changed", "[gone ] gone"]);
            match &files[1].state {
                FileState::OutOfDate { current_oid } => assert_eq!(*current_oid, oid("new\n")),
                other => panic!("{other:?}"),
            }
            let new: Vec<_> = missing.iter().map(missing_line).collect();
            assert_eq!(new, vec!["[new   ] extra"]);
        }
        other => panic!("{other:?}"),
    }
    // The check reads no content and commits nothing.
    assert!(repo.asked.iter().all(|q| q.starts_with("Resolve") || q.starts_with("Walk")));
}

#[test]
fn status_without_new_files_does_not_walk() {
    let mut repo = Repo { broken: true, ..Repo::with(&[("a", "x")]) };
    match repo.run(SyncRequest::Status { rev: None, files: vec![held("a", "x")], new_files: false }) {
        SyncResponse::Status { files, missing, .. } => {
            assert!(matches!(files[0].state, FileState::UpToDate));
            assert!(missing.is_empty());
        }
        other => panic!("{other:?}"),
    }
}

#[test]
fn patch_brings_an_old_version_up_to_date() {
    let mut repo = Repo::with(&[("poem.txt", "a\nb\n"), ("same", "s\n")]);
    repo.put("poem.txt", "a\nb\nc\n");
    let files = vec![held("poem.txt", "a\nb\n"), held("same", "s\n"), held("gone", "g\n")];
    match repo.run(SyncRequest::Patch { rev: None, files }) {
        SyncResponse::Patch { rev, files } => {
            assert_eq!(rev.as_deref(), Some(COMMIT));
            match &files[0].result {
                PatchResult::Patch { from, to, diff } => {
                    assert_eq!(*from, oid("a\nb\n"));
                    assert_eq!(*to, oid("a\nb\nc\n"));
                    assert_eq!(
                        diff,
                        "--- a/poem.txt\n+++ b/poem.txt\n@@ -1,2 +1,3 @@\n a\n b\n+c\n"
                    );
                }
                other => panic!("{other:?}"),
            }
            assert!(matches!(files[1].result, PatchResult::UpToDate));
            assert!(matches!(files[2].result, PatchResult::NotInRepo));
        }
        other => panic!("{other:?}"),
    }
}

fn replace_reason(result: &PatchResult) -> &str {
    match result {
        PatchResult::Replace { reason, .. } => reason,
        other => panic!("{other:?}"),
    }
}

#[test]
fn patch_falls_back_to_the_whole_file() {
    // The client's base was never in the repo, or is no id at all.
    let mut repo = Repo::with(&[("f", "new\n")]);
    let files = vec![
        held("f", "local only\n"),
        ClientFile { path: "f".into(), oid: "not an id".into() },
    ];
    match repo.run(SyncRequest::Patch { rev: None, files }) {
        SyncResponse::Patch { files, .. } => {
            assert_eq!(replace_reason(&files[0].result), "base_unavailable");
            assert_eq!(replace_reason(&files[1].result), "base_unavailable");
        }
        other => panic!("{other:?}"),
    }
    // The current version cannot be read.
    repo.blobs.clear();
    match repo.run(SyncRequest::Patch { rev: None, files: vec![held("f", "old\n")] }) {
        SyncResponse::Patch { files, .. } => {
            assert_eq!(replace_reason(&files[0].result), "current_unavailable");
        }
        other => panic!("{other:?}"),
    }
}

#[test]
fn binary_content_is_replaced() {
    let result = patch_contents("f", "old", "new".into(), &[0xff, 0xfe], b"text");
    assert_eq!(replace_reason(&result), "binary");
    assert!(matches!(
        patch_with("x", "y".into(), Some("d".into())),
        PatchResult::Patch { from, to, diff } if from == "x" && to == "y" && diff == "d"
    ));
    assert_eq!(replace_reason(&patch_with("x", "y".into(), None)), "binary");
}

fn push(base: Option<&str>, content: &str) -> SyncRequest {
    SyncRequest::Push {
        path: "hello.txt".into(),
        base_oid: base.map(oid),
        content: content.into(),
    }
}

fn pushed(response: SyncResponse) -> PushResult {
    match response {
        SyncResponse::Push { path, result } => {
            assert_eq!(path, "hello.txt");
            result
        }
        other => panic!("{other:?}"),
    }
}

#[test]
fn push_commits_on_top_of_its_base() {
    let mut repo = Repo::with(&[("hello.txt", "old\n")]);
    match pushed(repo.run(push(Some("old\n"), "new\n"))) {
        PushResult::Committed { oid: id } => assert_eq!(id, oid("new\n")),
        other => panic!("{other:?}"),
    }
    assert_eq!(repo.messages, vec!["Push hello.txt"]);
    // What was committed is current for whoever pushed it.
    let files = vec![held("hello.txt", "new\n")];
    match repo.run(SyncRequest::Status { rev: None, files, new_files: false }) {
        SyncResponse::Status { files, .. } => assert!(matches!(files[0].state, FileState::UpToDate)),
        other => panic!("{other:?}"),
    }
    // The same push again, based on what is there now, changes nothing.
    match pushed(repo.run(push(Some("new\n"), "new\n"))) {
        PushResult::Unchanged { oid: id } => assert_eq!(id, oid("new\n")),
        other => panic!("{other:?}"),
    }
    assert_eq!(repo.messages.len(), 1);
}

#[test]
fn push_of_a_new_file_has_no_base() {
    let mut repo = Repo::default();
    assert!(matches!(pushed(repo.run(push(None, "x"))), PushResult::Committed { .. }));
}

#[test]
fn a_commit_is_reported_under_the_id_of_its_content_where_the_path_does_not_resolve() {
    let mut repo = Repo { forgetful: true, ..Repo::default() };
    match pushed(repo.run(push(None, "x"))) {
        PushResult::Committed { oid: id } => assert_eq!(id, oid("x")),
        other => panic!("{other:?}"),
    }
    assert_eq!(repo.messages, vec!["Push hello.txt"]);
}

#[test]
fn what_the_manifest_lists_is_current() {
    let mut repo = Repo::with(&[("a.txt", "one\n"), ("docs/b.txt", "two\n")]);
    let files: Vec<ClientFile> = match repo.run(SyncRequest::Manifest { rev: None }) {
        SyncResponse::Manifest { files, .. } => {
            files.into_iter().map(|f| ClientFile { path: f.path, oid: f.oid }).collect()
        }
        other => panic!("{other:?}"),
    };
    assert_eq!(files.len(), 2);
    match repo.run(SyncRequest::Status { rev: None, files: files.clone(), new_files: true }) {
        SyncResponse::Status { files, missing, .. } => {
            assert!(files.iter().all(|f| matches!(f.state, FileState::UpToDate)));
            assert!(missing.is_empty());
        }
        other => panic!("{other:?}"),
    }
    match repo.run(SyncRequest::Patch { rev: None, files }) {
        SyncResponse::Patch { files, .. } => {
            assert!(files.iter().all(|f| matches!(f.result, PatchResult::UpToDate)));
        }
        other => panic!("{other:?}"),
    }
}

#[test]
fn stale_pushes_conflict_and_commit_nothing() {
    let mut repo = Repo::with(&[("hello.txt", "theirs\n")]);
    for base in [Some("mine\n"), None] {
        match pushed(repo.run(push(base, "new\n"))) {
            PushResult::Conflict { current_oid } => assert_eq!(current_oid, Some(oid("theirs\n"))),
            other => panic!("{other:?}"),
        }
    }
    repo.files.clear();
    match pushed(repo.run(push(Some("theirs\n"), "new\n"))) {
        PushResult::Conflict { current_oid } => assert_eq!(current_oid, None),
        other => panic!("{other:?}"),
    }
    assert!(repo.messages.is_empty());
    // On top of the version that the conflict names, the push goes through.
    assert!(matches!(pushed(repo.run(push(None, "new\n"))), PushResult::Committed { .. }));
}

#[test]
fn a_failed_commit_becomes_an_error() {
    let mut repo = Repo { broken: true, ..Repo::default() };
    match repo.run(push(None, "x")) {
        SyncResponse::Error { message } => assert_eq!(message, "read-only"),
        other => panic!("{other:?}"),
    }
}

#[test]
fn conflicts_follow_the_versions() {
    let a = Some("a".to_string());
    let b = Some("b".to_string());
    assert!(!push_conflicts(&a, &a) && !push_conflicts(&None, &None));
    assert!(push_conflicts(&a, &b) && push_conflicts(&a, &None) && push_conflicts(&None, &b));
    assert!(matches!(file_state(None, &"x".into()), FileState::NotInRepo));
}

#[test]
fn failures_around_json_are_worded() {
    match invalid_request("EOF at line 1") {
        SyncResponse::Error { message } => assert_eq!(message, "invalid request: EOF at line 1"),
        other => panic!("{other:?}"),
    }
    assert_eq!(
        serialize_failed("boom"),
        r#"{"op":"error","message":"serialize failed: boom"}"#
    );
}

#[test]
fn a_drive_scan_hashes_files_and_trusts_placeholders() {
    let parts = |p: &str| p.split('/').map(String::from).collect::<Vec<_>>();
    let mut scan = DriveScan::scan_drive("root", parts("C:/drive"));
    assert_eq!(scan.next(), Some("root"));
    assert!(matches!(scan.visit("docs", &parts("C:/drive/docs"), true, 0x10), ScanVisit::Directory));
    match scan.visit("hello", &parts("C:/drive/hello.txt"), false, 0x20) {
        ScanVisit::Content { entry, path } => {
            assert_eq!((entry, path.as_str()), ("hello", "hello.txt"));
            assert!(scan.content(path, b"hello\n"));
        }
        other => panic!("{other:?}"),
    }
    assert_eq!(scan.next(), Some("docs"));
    for attrs in [0x1000u32, 0x40_0000, 0x40_1000] {
        match scan.visit("guide", &parts("C:/drive/docs/guide.md"), false, attrs) {
            ScanVisit::Version { path } => {
                assert_eq!(path, "docs/guide.md");
                scan.placeholder(path, Some("abc".into()));
            }
            other => panic!("{other:?}"),
        }
    }
    scan.placeholder("gone".into(), None);
    match scan.visit("far", &parts("D:/x"), false, 0) {
        ScanVisit::Content { path, .. } => assert_eq!(path, "D:/x"),
        other => panic!("{other:?}"),
    }
    assert_eq!(scan.next(), None);
    let files: Vec<_> = scan.finish().into_iter().map(|f| (f.path, f.oid)).collect();
    assert_eq!(files.len(), 4);
    assert_eq!(files[0], ("hello.txt".to_string(), oid("hello\n")));
    assert_eq!(files[1], ("docs/guide.md".to_string(), "abc".to_string()));
}

#[test]
fn a_drive_scan_reports_every_file_once() {
    // Directories have no content; a placeholder has none either.
    let tree: BTreeMap<&str, (Vec<&str>, Option<&str>)> = BTreeMap::from([
        ("C:/drive", (vec!["C:/drive/docs", "C:/drive/a", "C:/drive/gone"], None)),
        ("C:/drive/docs", (vec!["C:/drive/docs/b", "C:/drive/docs/deep"], None)),
        ("C:/drive/docs/deep", (vec!["C:/drive/docs/deep/c"], None)),
        ("C:/drive/a", (vec![], Some("one\n"))),
        ("C:/drive/docs/b", (vec![], None)),
        ("C:/drive/gone", (vec![], None)),
        ("C:/drive/docs/deep/c", (vec![], Some("three\n"))),
    ]);
    let head = BTreeMap::from([("docs/b", oid("two\n")), ("a", oid("other\n"))]);
    let parts = |p: &str| p.split('/').map(String::from).collect::<Vec<_>>();
    let mut scan = DriveScan::scan_drive("C:/drive", parts("C:/drive"));
    while let Some(dir) = scan.next() {
        for entry in tree[dir].0.iter().copied() {
            let (inside, data) = &tree[entry];
            let attrs = if data.is_none() { 0x40_0000 } else { 0x20 };
            match scan.visit(entry, &parts(entry), !inside.is_empty(), attrs) {
                ScanVisit::Directory => {}
                ScanVisit::Version { path } => {
                    let current = head.get(path.as_str()).cloned();
                    scan.placeholder(path, current);
                }
                ScanVisit::Content { path, .. } => {
                    assert!(scan.content(path, data.unwrap().as_bytes()));
                }
            }
        }
    }
    let mut files: Vec<_> = scan.finish().into_iter().map(|f| (f.path, f.oid)).collect();
    files.sort();
    assert_eq!(
        files,
        vec![
            ("a".to_string(), oid("one\n")),
            ("docs/b".to_string(), oid("two\n")),
            ("docs/deep/c".to_string(), oid("three\n")),
        ]
    );
}
