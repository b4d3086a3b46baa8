use bosync::cloud::{
    add_after_rename, current_path_or, entry_paths, fetch_data, fetch_placeholders, hydration_path, is_placeholder,
    mark_next, mark_start, mark_tree_in_sync, renamed, MarkStep, WindowsCloudSync, CHUNK_SIZE,
};
use bosync::sweep::Sweep;
use bosync::fuse::{attr, first_line, read_window, BosyncFs, LinuxCloudSync, ROOT_INO};
use bosync::listing::DirEntry;
use bosync::mount::CloudSync;
use std::path::PathBuf;

fn parts(path: &str) -> Vec<String> {
    path.split('/').map(String::from).collect()
}

fn entry(name: &str, is_dir: bool, size: u64) -> DirEntry {
    DirEntry { name: name.into(), is_dir, size }
}

#[test]
fn intern_is_stable_and_root_is_one() {
    let mut fs = BosyncFs::new();
    assert_eq!(fs.by_path.get(""), Some(&ROOT_INO));
    let a = fs.intern("docs".to_string());
    let b = fs.intern("docs".to_string());
    assert_eq!(a, b, "same path -> same inode");
    assert_ne!(a, fs.intern("hello.txt".to_string()));
    assert_eq!(fs.path(a).as_deref(), Some("docs"));
    assert_eq!(fs.path(ROOT_INO).as_deref(), Some(""));
    assert_eq!(fs.path(99), None);
}

#[test]
fn lookups_go_through_the_parent() {
    let mut fs = BosyncFs::new();
    let docs = fs.intern("docs".to_string());
    assert_eq!(fs.child_of(ROOT_INO, "a").as_deref(), Some("a"));
    assert_eq!(fs.child_of(docs, "a").as_deref(), Some("docs/a"));
    assert_eq!(fs.child_of(99, "a"), None);
    assert_eq!(fs.lookup("x".into(), None), None);
    let found = fs.lookup("docs".into(), Some((true, 0))).unwrap();
    assert_eq!(found.ino, docs);
    assert_eq!(fs.next_ino, docs + 1);
    // A path that is new gets the next inode, and no other path gets one.
    let found = fs.lookup("docs/a".into(), Some((false, 3))).unwrap();
    assert_eq!((found.ino, found.size), (docs + 1, 3));
    assert_eq!(fs.next_ino, docs + 2);
    assert_eq!(fs.path(docs + 2), None);
}

#[test]
fn attributes_tell_files_from_directories() {
    let file = attr(7, false, 1025);
    assert_eq!((file.ino, file.size, file.blocks), (7, 1025, 3));
    assert_eq!((file.perm, file.nlink, file.blksize, file.is_dir), (0o644, 1, 512, false));
    let dir = attr(1, true, 0);
    assert_eq!((dir.blocks, dir.perm, dir.nlink, dir.is_dir), (0, 0o755, 2, true));
    assert_eq!(attr(2, false, 512).blocks, 1);
    assert_eq!(attr(2, false, u64::MAX).blocks, 1 << 55);
}

#[test]
fn listings_start_with_dots() {
    let mut fs = BosyncFs::new();
    let docs = fs.intern("docs".to_string());
    let lines = fs.readdir(docs, "docs", vec![entry("a", false, 3), entry("sub", true, 0)]);
    let shown: Vec<_> = lines.iter().map(|l| (l.ino, l.is_dir, l.name.as_str())).collect();
    let a = fs.intern("docs/a".to_string());
    let sub = fs.intern("docs/sub".to_string());
    assert_eq!(
        shown,
        vec![(docs, true, "."), (ROOT_INO, true, ".."), (a, false, "a"), (sub, true, "sub")]
    );
}

#[test]
fn listings_go_on_where_they_stopped() {
    assert_eq!(first_line(4, 0), 0);
    assert_eq!(first_line(4, 3), 3);
    assert_eq!(first_line(4, 4), 4);
    assert_eq!(first_line(4, 9), 4);
    assert_eq!(first_line(4, -1), 4);
}

#[test]
fn reads_are_clamped_to_the_file() {
    assert_eq!(read_window(10, 0, 4), (0, 4));
    assert_eq!(read_window(10, 8, 4), (8, 10));
    assert_eq!(read_window(10, 20, 4), (10, 10));
    assert_eq!(read_window(10, -5, 4), (0, 4));
    assert_eq!(read_window(10, i64::MAX, u32::MAX), (10, 10));
    // Consecutive reads tile the file.
    let data: Vec<u8> = (0..100).collect();
    let mut read = Vec::new();
    for offset in (0..100).step_by(7) {
        let (start, end) = read_window(data.len(), offset, 7);
        read.extend_from_slice(&data[start..end]);
    }
    assert_eq!(read, data);
}

#[test]
fn linux_has_no_placeholders() {
    assert!(!LinuxCloudSync.is_dehydrated(&PathBuf::from("/x")));
}

#[test]
fn placeholders_are_told_by_their_attributes() {
    assert!(is_placeholder(0x1000) && is_placeholder(0x40_0000) && is_placeholder(0x40_1020));
    assert!(!is_placeholder(0) && !is_placeholder(0x20) && !is_placeholder(!0x40_1000));
    assert!(WindowsCloudSync.is_dehydrated(Some(0x1000)));
    assert!(!WindowsCloudSync.is_dehydrated(Some(0x20)));
    assert!(!WindowsCloudSync.is_dehydrated(None));
}

#[test]
fn hydration_comes_in_aligned_chunks() {
    let len = 3 * CHUNK_SIZE + 5;
    let chunks = fetch_data(0, u64::MAX, len);
    let shown: Vec<_> = chunks.iter().map(|c| (c.position, c.len)).collect();
    assert_eq!(shown, vec![(0, 65536), (65536, 65536), (131072, 65536), (196608, 5)]);
    assert!(chunks.iter().all(|c| c.position % 4096 == 0));
    assert_eq!(fetch_data(4096, 8192, 10_000).len(), 1);
    assert!(fetch_data(10_000, 20_000, 10_000).is_empty());
    assert!(fetch_data(5, 5, 10).is_empty());
}

#[test]
fn hydration_follows_the_current_path() {
    let root = parts("C:/drive");
    assert_eq!(hydration_path(&root, &parts("C:/drive/new.txt"), b"old.txt"), "new.txt");
    assert_eq!(hydration_path(&root, &parts("D:/elsewhere"), b"old.txt"), "old.txt");
    assert_eq!(hydration_path(&root, &root, b"old.txt"), "old.txt");
    assert_eq!(hydration_path(&root, &root, &[b'a', 0xff]), "a\u{fffd}");
    assert_eq!(current_path_or(&root, &parts("C:/drive/d/f"), "x".into()), "d/f");
    assert_eq!(current_path_or(&root, &root, "x".into()), "x");
}

#[test]
fn placeholders_are_made_for_what_is_not_on_disk() {
    let entries = vec![entry("a", false, 3), entry("b", false, 4), entry("sub", true, 0)];
    assert_eq!(entry_paths("docs", &entries), vec!["docs/a", "docs/b", "docs/sub"]);
    assert_eq!(entry_paths("", &entries), vec!["a", "b", "sub"]);
    let made = fetch_placeholders("docs", entries, &vec![false, true, false]);
    let shown: Vec<_> =
        made.iter().map(|p| (p.name.as_str(), p.git_path.as_str(), p.is_dir, p.size)).collect();
    assert_eq!(shown, vec![("a", "docs/a", false, 3), ("sub", "docs/sub", true, 0)]);
}

#[test]
fn only_real_moves_inside_the_drive_are_recorded() {
    let root = parts("C:/drive");
    let moved = |from: &str, to: &str| renamed(&root, &parts(from), &parts(to));
    assert_eq!(
        moved("C:/drive/a", "C:/drive/d/b"),
        Some(("a".to_string(), "d/b".to_string()))
    );
    assert_eq!(moved("C:/drive/a", "C:/drive/a"), None);
    assert_eq!(moved("C:/drive/a", "D:/a"), None);
    assert_eq!(moved("D:/a", "C:/drive/a"), None);
    assert_eq!(moved("C:/drive", "C:/drive/a"), None);
    assert_eq!(add_after_rename(true, "d/b"), None);
    assert_eq!(add_after_rename(false, "d/b").as_deref(), Some("Add d/b"));
}

#[test]
fn marking_falls_back_to_conversion() {
    assert_eq!(mark_start(true, false), MarkStep::SetInSync);
    assert_eq!(mark_start(false, false), MarkStep::ConvertFile);
    assert_eq!(mark_start(false, true), MarkStep::Done);
    assert_eq!(mark_next(MarkStep::SetInSync, true, true), MarkStep::Done);
    assert_eq!(
        mark_next(MarkStep::SetInSync, false, true),
        MarkStep::Convert { has_children: true }
    );
    let convert = MarkStep::Convert { has_children: false };
    assert_eq!(mark_next(convert, false, false), MarkStep::ConvertFile);
    assert_eq!(mark_next(convert, false, true), MarkStep::Done);
    assert_eq!(mark_next(MarkStep::ConvertFile, false, false), MarkStep::Done);
}

#[test]
fn everything_below_a_folder_is_marked() {
    let mut sweep = mark_tree_in_sync("root");
    assert_eq!(sweep.next(), Some("root"));
    sweep.visit("file", false);
    sweep.visit("docs", true);
    sweep.visit("src", true);
    assert_eq!(sweep.next(), Some("src"));
    sweep.visit("deep", true);
    assert_eq!(sweep.next(), Some("deep"));
    assert_eq!(sweep.next(), Some("docs"));
    assert_eq!(sweep.next(), None);
}

#[test]
fn a_sweep_visits_every_entry_once() {
    // Entries are numbers; the directory n below 10 holds 2n + 1 and 2n + 2.
    let inside = |dir: u32| vec![2 * dir + 1, 2 * dir + 2];
    let mut sweep = Sweep::new(0u32);
    let mut visited = Vec::new();
    while let Some(dir) = sweep.next() {
        for entry in inside(dir) {
            visited.push(entry);
            sweep.visit(entry, entry < 10);
        }
    }
    visited.sort();
    assert_eq!(visited, (1..=20).collect::<Vec<u32>>());
}
