use bosync::remote::{
    is_scp_like, is_windows_drive, local_remote_path, normalize_remote, owner_repo, proxy_segments,
    repo_name, sanitize_segment, strip_verbatim,
};
use bosync::text::chars_of;

fn pair(remote: &str) -> (String, String) {
    owner_repo(remote)
}

#[test]
fn owner_repo_parses_url_and_scp_forms() {
    assert_eq!(
        owner_repo("https://github.com/owner/repo.git"),
        ("owner".into(), "repo".into())
    );
    assert_eq!(
        owner_repo("git@github.com:creator/myrepo.git"),
        ("creator".into(), "myrepo".into())
    );
    assert_eq!(
        owner_repo("ssh://git@host:22/team/project"),
        ("team".into(), "project".into())
    );
    // Trailing slash and no .git suffix.
    assert_eq!(
        owner_repo("https://gitlab.com/grp/sub/"),
        ("grp".into(), "sub".into())
    );
}

#[test]
fn proxy_dir_groups_by_creator_then_repo() {
    assert_eq!(
        proxy_segments("https://github.com/owner/repo.git"),
        vec!["bosync", "owner", "repo"]
    );
    // Same creator, different repos sit side by side; the same remote is stable.
    let a1 = proxy_segments("git@github.com:owner/repo.git");
    let a2 = proxy_segments("git@github.com:owner/repo.git");
    let b = proxy_segments("git@github.com:owner/other.git");
    assert_eq!(a1, a2, "same remote -> same proxy dir");
    assert_ne!(a1, b, "different repo -> different proxy dir");
    assert_eq!(a1[..2], b[..2], "same creator -> shared parent dir");
}

#[test]
fn local_remote_path_classifies_urls() {
    // Network remotes: not pushable locally.
    assert!(local_remote_path("ssh://git@host/o/r").is_none());
    assert!(local_remote_path("https://github.com/o/r.git").is_none());
    assert!(local_remote_path("git@github.com:o/r.git").is_none());
    // Local forms: a path.
    assert_eq!(local_remote_path("file:///C:/x").unwrap(), "C:/x");
    assert_eq!(local_remote_path(r"file://C:\x").unwrap(), r"C:\x");
    assert_eq!(local_remote_path(r"C:\repo").unwrap(), r"C:\repo");
    assert_eq!(local_remote_path("/home/me/repo").unwrap(), "/home/me/repo");
}

#[test]
fn file_urls_without_a_drive_keep_their_slash() {
    assert_eq!(local_remote_path("file:///home/x").unwrap(), "/home/x");
    assert_eq!(local_remote_path("  /srv/repo\n").unwrap(), "/srv/repo");
    assert_eq!(local_remote_path("").unwrap(), "");
}

#[test]
fn malformed_remotes_still_yield_names() {
    assert_eq!(pair(""), ("unknown".into(), "repo".into()));
    assert_eq!(pair("https://host"), ("unknown".into(), "repo".into()));
    assert_eq!(pair("repo"), ("unknown".into(), "repo".into()));
    assert_eq!(pair("https://host/only.git"), ("unknown".into(), "only".into()));
    assert_eq!(pair("  git@h:a/b.git/  "), ("a".into(), "b".into()));
}

#[test]
fn repo_name_is_the_last_segment_without_git() {
    assert_eq!(repo_name("https://github.com/owner/repo.git"), "repo");
    assert_eq!(repo_name("git@h:team/my repo"), "my-repo");
}

#[test]
fn segments_are_safe_and_stable() {
    assert_eq!(sanitize_segment("a b/c"), "a-b-c");
    assert_eq!(sanitize_segment("--x--"), "x");
    assert_eq!(sanitize_segment("///"), "unknown");
    assert_eq!(sanitize_segment(""), "unknown");
    assert_eq!(sanitize_segment("v1.2_rc-3"), "v1.2_rc-3");
    for s in ["a b/c", "--x--", "///", "\u{e9}t\u{e9}"] {
        let once = sanitize_segment(s);
        assert_eq!(sanitize_segment(&once), once);
    }
}

#[test]
fn local_remotes_are_normalized_and_network_ones_untouched() {
    assert_eq!(normalize_remote(r"file://C:\x\y"), "C:/x/y");
    assert_eq!(normalize_remote("/home/me/repo"), "/home/me/repo");
    assert_eq!(normalize_remote("git@github.com:o/r.git"), "git@github.com:o/r.git");
    assert_eq!(normalize_remote(" ssh://h/o/r "), " ssh://h/o/r ");
}

#[test]
fn drives_and_scp_forms_are_told_apart() {
    let is_drive = |s: &str| is_windows_drive(&chars_of(s));
    let is_scp = |s: &str| is_scp_like(&chars_of(s));
    assert!(is_drive("C:/x") && is_drive("z:"));
    assert!(!is_drive("1:") && !is_drive("C") && !is_drive("CC:"));
    assert!(is_scp("git@host:o/r") && is_scp("host.tld:path"));
    assert!(!is_scp(r"C:\path") && !is_scp("ssh://git@host:22/x") && !is_scp("plain/path"));
}

#[test]
fn verbatim_prefix_is_dropped_once() {
    assert_eq!(strip_verbatim(r"\\?\C:\drive"), r"C:\drive");
    assert_eq!(strip_verbatim(r"C:\drive"), r"C:\drive");
    assert_eq!(strip_verbatim(r"\\?\\\?\x"), r"\\?\x");
}

#[test]
fn segments_never_leave_their_directory() {
    assert_eq!(sanitize_segment("."), "unknown");
    assert_eq!(sanitize_segment(".."), "unknown");
    assert_eq!(sanitize_segment("/../"), "unknown");
    assert_eq!(sanitize_segment("..."), "...");
    assert_eq!(sanitize_segment("..a"), "..a");
    assert_eq!(
        owner_repo("https://host/../.."),
        ("unknown".into(), "unknown".into())
    );
    assert_eq!(
        proxy_segments("https://host/o/.."),
        vec!["bosync", "o", "unknown"]
    );
}
