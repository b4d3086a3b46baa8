//! Remote URLs: which of them name a folder on this machine, and the folder names that a
//! remote gives rise to.
use crate::text::{
    chars_of, ends_with, find, law_leading_characters_go, law_trailing_characters_go,
    lemma_find_behind, lemma_find_first, lemma_find_none, lemma_find_occurs, lemma_pieces_add,
    occurs_at, pieces, position, position_of, replace, replaced, split, starts_with, string_of,
    texts, trim, trim_leading, trim_trailing, trimmed, white_space, without_leading,
    without_trailing,
};
use vstd::prelude::*;
use vstd::slice::slice_subrange;

verus! {

/// The characters `://`.
pub open spec fn scheme_mark() -> Seq<char> {
    seq![':', '/', '/']
}

/// The characters `file://`.
pub open spec fn file_mark() -> Seq<char> {
    seq!['f', 'i', 'l', 'e', ':', '/', '/']
}

/// The characters `.git`.
pub open spec fn git_suffix() -> Seq<char> {
    seq!['.', 'g', 'i', 't']
}

/// Whether `c` is an ASCII letter.
pub open spec fn ascii_letter(c: char) -> bool {
    'a' <= c <= 'z' || 'A' <= c <= 'Z'
}

/// Whether `s` begins with a drive letter and a colon.
pub open spec fn windows_drive(s: Seq<char>) -> bool {
    s.len() >= 2 && ascii_letter(s[0]) && s[1] == ':'
}

/// Whether `s` has the form `user@host:path` or `host.tld:path`.
pub open spec fn scp_like(s: Seq<char>) -> bool {
    &&& find(s, scheme_mark()) is None
    &&& find(s, seq![':']) matches Some(i) && {
        let host = s.take(i);
        host.contains('@') || (host.len() > 1 && host.contains('.'))
    }
}

/// The folder that `url` names, if it names one on this machine: what follows `file://`, less
/// a slash in front of a drive letter; or the text itself, if it has neither a scheme nor the
/// form of an scp target. White space around the URL does not count.
pub open spec fn local_path(url: Seq<char>) -> Option<Seq<char>> {
    let u = trimmed(url);
    if file_mark().is_prefix_of(u) {
        let rest = u.skip(7);
        if rest.len() > 0 && rest[0] == '/' && windows_drive(rest.skip(1)) {
            Some(rest.skip(1))
        } else {
            Some(rest)
        }
    } else if find(u, scheme_mark()) is Some || scp_like(u) {
        None
    } else {
        Some(u)
    }
}

/// A local remote as a path with forward slashes; any other remote as it stands.
pub open spec fn normalized(url: Seq<char>) -> Seq<char> {
    match local_path(url) {
        Some(p) => replaced(p, '\\', '/'),
        None => url,
    }
}

/// Whether `c` may stand in a path segment: an ASCII letter or digit, `-`, `_` or `.`.
pub open spec fn segment_char(c: char) -> bool {
    ascii_letter(c) || '0' <= c <= '9' || c == '-' || c == '_' || c == '.'
}

/// `s` with `-` in place of every character that may not stand in a path segment.
pub open spec fn dashed(s: Seq<char>) -> Seq<char> {
    s.map_values(|c: char| if segment_char(c) { c } else { '-' })
}

/// `s` as a path segment: unfit characters become `-`, dashes at the ends are dropped, and
/// `unknown` stands for nothing and for the names of a directory itself and of its parent.
pub open spec fn segment(s: Seq<char>) -> Seq<char> {
    let t = without_trailing(without_leading(dashed(s), '-'), '-');
    if t.len() == 0 || t == seq!['.'] || t == seq!['.', '.'] {
        "unknown"@
    } else {
        t
    }
}

/// What is left of `remote` without white space around it, slashes at its end and `.git`.
pub open spec fn bare_remote(remote: Seq<char>) -> Seq<char> {
    let t = without_trailing(trimmed(remote), '/');
    if git_suffix().is_suffix_of(t) {
        t.take(t.len() - 4)
    } else {
        t
    }
}

/// The part of a bare remote that follows its host: after the first slash behind `://`, or
/// else after the first colon, or else all of it.
pub open spec fn path_after_host(t: Seq<char>) -> Seq<char> {
    match find(t, scheme_mark()) {
        Some(i) => {
            let after = t.skip(i + 3);
            match find(after, seq!['/']) {
                Some(j) => after.skip(j + 1),
                None => seq![],
            }
        },
        None => match find(t, seq![':']) {
            Some(j) => t.skip(j + 1),
            None => t,
        },
    }
}

/// The names between the slashes of the path of `remote`.
pub open spec fn path_names(remote: Seq<char>) -> Seq<Seq<char>> {
    pieces(path_after_host(bare_remote(remote)), '/').filter(|p: Seq<char>| p.len() > 0)
}

/// The repository that `remote` names: the last name of its path, or else `repo`.
pub open spec fn repo_of(remote: Seq<char>) -> Seq<char> {
    let names = path_names(remote);
    segment(
        if names.len() > 0 {
            names.last()
        } else {
            "repo"@
        },
    )
}

/// The owner that `remote` names: the last name but one of its path, or else `unknown`.
pub open spec fn owner_of(remote: Seq<char>) -> Seq<char> {
    let names = path_names(remote);
    segment(
        if names.len() >= 2 {
            names[names.len() - 2]
        } else {
            "unknown"@
        },
    )
}

fn is_ascii_letter(c: char) -> (r: bool)
    ensures
        r == ascii_letter(c),
{
    ('a' <= c && c <= 'z') || ('A' <= c && c <= 'Z')
}

/// Whether `v` begins with a Windows drive such as `C:`.
pub fn is_windows_drive(v: &[char]) -> (r: bool)
    ensures
        r == windows_drive(v@),
{
    v.len() >= 2 && is_ascii_letter(v[0]) && v[1] == ':'
}

fn has_char(v: &[char], c: char) -> (r: bool)
    ensures
        r == v@.contains(c),
{
    let n: usize = v.len();
    for i in 0..n
        invariant
            n == v@.len(),
            forall|j: int| 0 <= j < i ==> v@[j] != c,
    {
        if v[i] == c {
            return true;
        }
    }
    false
}

fn scheme_position(v: &[char]) -> (r: Option<usize>)
    ensures
        match r {
            Some(i) => find(v@, scheme_mark()) == Some(i as int),
            None => find(v@, scheme_mark()) is None,
        },
        r matches Some(i) ==> i + 3 <= v@.len(),
{
    let pat: Vec<char> = vec![':', '/', '/'];
    assert(pat@ =~= scheme_mark());
    position(v, pat.as_slice())
}

/// Whether `v` is an scp-like remote (`git@host:owner/repo`, `host.tld:path`) rather than a
/// local path; `C:\path` is a local path.
pub fn is_scp_like(v: &[char]) -> (r: bool)
    ensures
        r == scp_like(v@),
{
    if scheme_position(v).is_some() {
        return false;
    }
    match position_of(v, ':') {
        Some(i) => {
            let host: &[char] = slice_subrange(v, 0, i);
            assert(host@ =~= v@.take(i as int));
            has_char(host, '@') || (host.len() > 1 && has_char(host, '.'))
        },
        None => false,
    }
}

/// The local path that `url` names (`file://...` or a bare path), or `None` for a network
/// remote (`ssh://`, `http(s)://`, `git@host:owner/repo`).
pub fn local_remote_path(url: &str) -> (r: Option<String>)
    ensures
        match r {
            Some(p) => local_path(url@) == Some(p@),
            None => local_path(url@) is None,
        },
{
    let all: Vec<char> = chars_of(url);
    let u: &[char] = trim(all.as_slice());
    let file: Vec<char> = vec!['f', 'i', 'l', 'e', ':', '/', '/'];
    assert(file@ =~= file_mark());
    if starts_with(u, file.as_slice()) {
        let rest: &[char] = slice_subrange(u, 7, u.len());
        assert(rest@ =~= u@.skip(7));
        if rest.len() > 0 && rest[0] == '/' {
            let after: &[char] = slice_subrange(rest, 1, rest.len());
            assert(after@ =~= rest@.skip(1));
            if is_windows_drive(after) {
                return Some(string_of(after));
            }
        }
        return Some(string_of(rest));
    }
    if scheme_position(u).is_some() || is_scp_like(u) {
        return None;
    }
    Some(string_of(u))
}

/// Bring a remote URL into the form that git is given: a local remote becomes a plain path
/// with forward slashes, a network remote is returned untouched.
pub fn normalize_remote(url: &str) -> (r: String)
    ensures
        r@ == normalized(url@),
{
    match local_remote_path(url) {
        Some(p) => {
            let v: Vec<char> = chars_of(p.as_str());
            let w: Vec<char> = replace(v.as_slice(), '\\', '/');
            string_of(w.as_slice())
        },
        None => url.to_owned(),
    }
}

/// Make `s` a safe single path segment: letters, digits, `-`, `_` and `.` stay, the rest becomes
/// `-`, dashes at the ends go. Never empty, and neither `.` nor `..`.
pub fn sanitize_segment(s: &str) -> (r: String)
    ensures
        r@ == segment(s@),
{
    let v: Vec<char> = chars_of(s);
    let mut w: Vec<char> = Vec::new();
    let n: usize = v.len();
    for i in 0..n
        invariant
            n == v@.len(),
            w@ == dashed(v@).take(i as int),
    {
        let c: char = v[i];
        if is_ascii_letter(c) || ('0' <= c && c <= '9') || c == '-' || c == '_' || c == '.' {
            w.push(c);
        } else {
            w.push('-');
        }
    }
    assert(w@ =~= dashed(v@));
    let t: &[char] = trim_trailing(trim_leading(w.as_slice(), '-'), '-');
    let dots: bool = (t.len() == 1 && t[0] == '.') || (t.len() == 2 && t[0] == '.' && t[1] == '.');
    proof {
        assert(dots ==> t@ =~= seq!['.'] || t@ =~= seq!['.', '.']);
        assert(t@ == seq!['.'] ==> t@[0] == '.');
        assert(t@ == seq!['.', '.'] ==> t@[0] == '.' && t@[1] == '.');
    }
    if t.len() == 0 || dots {
        "unknown".to_owned()
    } else {
        string_of(t)
    }
}

/// The parts that are not empty, in their order.
fn non_empty(parts: Vec<String>) -> (r: Vec<String>)
    ensures
        texts(r@) == texts(parts@).filter(|p: Seq<char>| p.len() > 0),
{
    let mut r: Vec<String> = Vec::new();
    let n: usize = parts.len();
    let ghost all = texts(parts@);
    let ghost keep = |p: Seq<char>| p.len() > 0;
    proof {
        reveal(Seq::filter);
        assert(texts(r@) =~= all.take(0).filter(keep));
    }
    for i in 0..n
        invariant
            n == parts@.len(),
            all == texts(parts@),
            keep == (|p: Seq<char>| p.len() > 0),
            texts(r@) == all.take(i as int).filter(keep),
    {
        let ghost before = texts(r@);
        proof {
            reveal(Seq::filter);
            assert(all.take(i + 1).drop_last() =~= all.take(i as int));
        }
        if !parts[i].as_str().is_empty() {
            r.push(parts[i].clone());
            assert(texts(r@) =~= before.push(all[i as int]));
        }
    }
    assert(all.take(n as int) =~= all);
    r
}

/// The `(creator, repo)` pair that a remote URL names, each as a single path segment. Both URL
/// forms (`scheme://host/owner/repo[.git]`) and scp-like forms (`git@host:owner/repo[.git]`)
/// are understood; a missing part falls back to `unknown` or `repo`.
pub fn owner_repo(remote: &str) -> (r: (String, String))
    ensures
        r.0@ == owner_of(remote@),
        r.1@ == repo_of(remote@),
{
    let all: Vec<char> = chars_of(remote);
    let ended: &[char] = trim_trailing(trim(all.as_slice()), '/');
    let git: Vec<char> = vec!['.', 'g', 'i', 't'];
    assert(git@ =~= git_suffix());
    let bare: &[char] = if ends_with(ended, git.as_slice()) {
        slice_subrange(ended, 0, ended.len() - 4)
    } else {
        ended
    };
    assert(bare@ =~= bare_remote(remote@));
    let end: usize = bare.len();
    let path: &[char] = match scheme_position(bare) {
        Some(i) => {
            let after: &[char] = slice_subrange(bare, i + 3, end);
            assert(after@ =~= bare@.skip(i + 3));
            match position_of(after, '/') {
                Some(j) => slice_subrange(after, j + 1, after.len()),
                None => slice_subrange(after, 0, 0),
            }
        },
        None => match position_of(bare, ':') {
            Some(j) => slice_subrange(bare, j + 1, end),
            None => bare,
        },
    };
    assert(path@ =~= path_after_host(bare@));
    let names: Vec<String> = non_empty(split(path, '/'));
    let n: usize = names.len();
    assert(texts(names@) =~= path_names(remote@));
    let repo: String = if n > 0 {
        sanitize_segment(names[n - 1].as_str())
    } else {
        sanitize_segment("repo")
    };
    let owner: String = if n >= 2 {
        sanitize_segment(names[n - 2].as_str())
    } else {
        sanitize_segment("unknown")
    };
    (owner, repo)
}

/// The repository name of a remote URL: the last segment of its path, without `.git`.
pub fn repo_name(remote: &str) -> (r: String)
    ensures
        r@ == repo_of(remote@),
{
    owner_repo(remote).1
}

/// The folders of the proxy of `remote`, from the outermost in.
pub open spec fn proxy_folders(remote: Seq<char>) -> Seq<Seq<char>> {
    seq!["bosync"@, owner_of(remote), repo_of(remote)]
}

/// The folders, from the outermost in, under which the proxy of `remote` lives in the
/// temporary folder: `bosync/<creator>/<repo>`.
pub fn proxy_segments(remote: &str) -> (r: Vec<String>)
    ensures
        texts(r@) == seq!["bosync"@, owner_of(remote@), repo_of(remote@)],
        texts(r@) == proxy_folders(remote@),
{
    let (owner, repo) = owner_repo(remote);
    let r: Vec<String> = vec!["bosync".to_owned(), owner, repo];
    assert(texts(r@) =~= seq!["bosync"@, owner_of(remote@), repo_of(remote@)]);
    r
}

/// The characters `\\?\`.
pub open spec fn verbatim_mark() -> Seq<char> {
    seq!['\\', '\\', '?', '\\']
}

/// `path` without the `\\?\` in front of it.
pub open spec fn stripped(path: Seq<char>) -> Seq<char> {
    if verbatim_mark().is_prefix_of(path) {
        path.skip(4)
    } else {
        path
    }
}

/// Drop the `\\?\` prefix of an extended-length Windows path.
pub fn strip_verbatim(path: &str) -> (r: String)
    ensures
        r@ == stripped(path@),
        r@ == if verbatim_mark().is_prefix_of(path@) {
            path@.skip(4)
        } else {
            path@
        },
{
    let v: Vec<char> = chars_of(path);
    let pat: Vec<char> = vec!['\\', '\\', '?', '\\'];
    assert(pat@ =~= verbatim_mark());
    if starts_with(v.as_slice(), pat.as_slice()) {
        string_of(slice_subrange(v.as_slice(), 4, v.len()))
    } else {
        path.to_owned()
    }
}

/// A path segment names an entry of the directory that it is put into: it is not empty, holds only
/// letters, digits, `-`, `_` and `.` (so no slash), and is neither `.` nor `..`. It neither starts
/// nor ends with a dash.
pub proof fn law_segment_is_safe(s: Seq<char>)
    ensures
        segment(s).len() > 0,
        forall|i: int| 0 <= i < segment(s).len() ==> segment_char(#[trigger] segment(s)[i]),
        segment(s) != "."@,
        segment(s) != ".."@,
        segment(s).first() != '-',
        segment(s).last() != '-',
{
    reveal_strlit("unknown");
    reveal_strlit(".");
    reveal_strlit("..");
    assert("."@ =~= seq!['.']);
    assert(".."@ =~= seq!['.', '.']);
    lemma_without_leading(dashed(s), '-');
    lemma_without_trailing(without_leading(dashed(s), '-'), '-');
}

/// Making a path segment of a path segment changes nothing.
pub proof fn law_segment_is_stable(s: Seq<char>)
    ensures
        segment(segment(s)) == segment(s),
{
    let t = segment(s);
    law_segment_is_safe(s);
    reveal_strlit(".");
    reveal_strlit("..");
    assert("."@ =~= seq!['.']);
    assert(".."@ =~= seq!['.', '.']);
    assert(dashed(t) =~= t);
    assert(without_leading(t, '-') == t);
    assert(without_trailing(t, '-') == t);
}

/// A local remote is normalized to a path without backslashes.
pub proof fn law_normalized_local_path(url: Seq<char>)
    requires
        local_path(url) is Some,
    ensures
        !normalized(url).contains('\\'),
{
}

/// Whether `s` can be a part of a remote path: not empty, and without slashes and colons.
pub open spec fn path_name(s: Seq<char>) -> bool {
    s.len() > 0 && !s.contains('/') && !s.contains(':')
}

/// Whether `repo` can stand last in a remote: a path name that does not end with white space
/// or with `.git`.
pub open spec fn last_path_name(repo: Seq<char>) -> bool {
    path_name(repo) && !white_space(repo.last()) && !git_suffix().is_suffix_of(repo)
}

/// Of `scheme://host/owner/repo`, with or without `.git` and slashes behind it, the owner and
/// the repository are found.
#[verifier::spinoff_prover]
#[verifier::rlimit(40)]
pub proof fn law_url_form(
    scheme: Seq<char>,
    host: Seq<char>,
    owner: Seq<char>,
    repo: Seq<char>,
    tail: Seq<char>,
)
    requires
        path_name(scheme),
        !white_space(scheme.first()),
        !host.contains('/'),
        path_name(owner),
        last_path_name(repo),
        tail == Seq::<char>::empty() || tail == git_suffix() || tail == seq!['/'],
    ensures
        owner_of(scheme + scheme_mark() + host + seq!['/'] + owner + seq!['/'] + repo + tail)
            == segment(owner),
        repo_of(scheme + scheme_mark() + host + seq!['/'] + owner + seq!['/'] + repo + tail)
            == segment(repo),
{
    let path = owner + seq!['/'] + repo;
    let bare = scheme + (scheme_mark() + (host + seq!['/'] + path));
    let remote = scheme + scheme_mark() + host + seq!['/'] + owner + seq!['/'] + repo + tail;
    assert(remote =~= bare + tail);
    assert(path.subrange(path.len() - repo.len(), path.len() as int) =~= repo);
    assert(path[path.len() - repo.len() - 1] == '/');
    lemma_bare_url(scheme, host, path, repo, tail);
    lemma_two_names(owner, repo);
}

/// Of `host:owner/repo`, with or without `.git` and slashes behind it, the owner and the
/// repository are found.
#[verifier::spinoff_prover]
#[verifier::rlimit(40)]
pub proof fn law_scp_form(host: Seq<char>, owner: Seq<char>, repo: Seq<char>, tail: Seq<char>)
    requires
        path_name(host),
        !white_space(host.first()),
        path_name(owner),
        last_path_name(repo),
        tail == Seq::<char>::empty() || tail == git_suffix() || tail == seq!['/'],
    ensures
        owner_of(host + seq![':'] + owner + seq!['/'] + repo + tail) == segment(owner),
        repo_of(host + seq![':'] + owner + seq!['/'] + repo + tail) == segment(repo),
{
    let path = owner + seq!['/'] + repo;
    let bare = host + seq![':'] + path;
    let remote = host + seq![':'] + owner + seq!['/'] + repo + tail;
    assert(remote =~= bare + tail);
    assert(bare.first() == host.first());
    assert(bare.last() == repo.last());
    lemma_bare(bare, repo, tail);
    assert forall|j: int| !#[trigger] occurs_at(bare, scheme_mark(), j) by {
        if occurs_at(bare, scheme_mark(), j) {
            let w = bare.subrange(j, j + 3);
            assert(w[0] == bare[j] && w[1] == bare[j + 1]);
            if j < host.len() {
                assert(host[j] == ':');
            } else if j == host.len() {
                assert(owner[0] == '/');
            } else {
                let k = j - host.len() - 1;
                assert(path[k] == ':');
                if k < owner.len() {
                    assert(owner[k] == ':');
                } else if k > owner.len() {
                    assert(repo[k - owner.len() - 1] == ':');
                }
            }
        }
    }
    lemma_find_occurs(bare, scheme_mark());
    lemma_find_first(host, ':', path);
    assert(bare.skip(host.len() as int + 1) =~= path);
    lemma_two_names(owner, repo);
}

proof fn lemma_url_path(scheme: Seq<char>, host: Seq<char>, path: Seq<char>)
    requires
        !scheme.contains(':'),
        !host.contains('/'),
    ensures
        path_after_host(scheme + (scheme_mark() + (host + seq!['/'] + path))) == path,
{
    let after = host + seq!['/'] + path;
    let bare = scheme + (scheme_mark() + after);
    lemma_find_behind(scheme, scheme_mark(), after);
    assert(bare.skip(scheme.len() as int + 3) =~= after);
    lemma_find_first(host, '/', path);
    assert(after.skip(host.len() as int + 1) =~= path);
}

proof fn lemma_two_names(owner: Seq<char>, repo: Seq<char>)
    requires
        path_name(owner),
        path_name(repo),
    ensures
        pieces(owner + seq!['/'] + repo, '/').filter(|p: Seq<char>| p.len() > 0) == seq![
            owner,
            repo,
        ],
{
    let path = owner + seq!['/'] + repo;
    lemma_find_first(owner, '/', repo);
    assert(path.take(owner.len() as int) =~= owner);
    assert(path.skip(owner.len() as int + 1) =~= repo);
    lemma_find_none(repo, '/');
    assert(pieces(repo, '/') == seq![repo]);
    let names = seq![owner, repo];
    assert(pieces(path, '/') =~= names);
    reveal(Seq::filter);
    let keep = |p: Seq<char>| p.len() > 0;
    assert(names.drop_last() =~= seq![owner]);
    assert(seq![owner].drop_last() =~= Seq::<Seq<char>>::empty());
    assert(Seq::<Seq<char>>::empty().filter(keep) =~= Seq::<Seq<char>>::empty());
    assert(seq![owner].filter(keep) =~= seq![owner]);
    assert(names.filter(keep) =~= names);
}

#[verifier::spinoff_prover]
#[verifier::rlimit(40)]
proof fn lemma_bare(bare: Seq<char>, repo: Seq<char>, tail: Seq<char>)
    requires
        bare.len() > 0,
        !white_space(bare.first()),
        last_path_name(repo),
        repo.is_suffix_of(bare),
        bare.len() > repo.len(),
        bare[bare.len() - repo.len() - 1] == '/',
        tail == Seq::<char>::empty() || tail == git_suffix() || tail == seq!['/'] || tail
            == git_suffix().push('/'),
    ensures
        bare_remote(bare + tail) == bare,
{
    let remote = bare + tail;
    let at = bare.len() - repo.len();
    assert(bare.last() == repo.last()) by {
        assert(bare.subrange(at, bare.len() as int).last() == bare.last());
    }
    assert(repo.contains(repo.last()));
    assert(remote.first() == bare.first());
    if tail.len() > 0 {
        assert(remote.last() == tail.last());
    } else {
        assert(remote =~= bare);
    }
    assert(trimmed(remote) == remote);
    let dotted = bare + git_suffix();
    if tail == seq!['/'] {
        assert(remote.drop_last() =~= bare);
        assert(without_trailing(bare, '/') == bare);
    } else if tail == git_suffix().push('/') {
        assert(remote.drop_last() =~= dotted);
        assert(dotted.last() == 't');
        assert(without_trailing(dotted, '/') == dotted);
        assert(dotted.subrange(bare.len() as int, dotted.len() as int) =~= git_suffix());
        assert(dotted.take(bare.len() as int) =~= bare);
    } else {
        assert(without_trailing(remote, '/') == remote);
    }
    if tail == git_suffix() {
        assert(remote.subrange(bare.len() as int, remote.len() as int) =~= git_suffix());
        assert(remote.take(bare.len() as int) =~= bare);
    } else if tail != git_suffix().push('/') {
        assert(!git_suffix().is_suffix_of(bare)) by {
            if git_suffix().is_suffix_of(bare) {
                let w = bare.subrange(bare.len() - 4, bare.len() as int);
                assert(w == git_suffix());
                if repo.len() >= 4 {
                    assert(repo.subrange(repo.len() - 4, repo.len() as int) =~= w) by {
                        assert(bare.subrange(at, bare.len() as int) == repo);
                    }
                } else {
                    assert(w[at - 1 - (bare.len() - 4)] == '/');
                }
            }
        }
    }
}

proof fn lemma_without_leading(s: Seq<char>, c: char)
    ensures
        without_leading(s, c).len() > 0 ==> without_leading(s, c).first() != c,
        forall|i: int|
            0 <= i < without_leading(s, c).len() ==> s.contains(
                #[trigger] without_leading(s, c)[i],
            ),
    decreases s.len(),
{
    if s.len() > 0 && s.first() == c {
        let t = s.drop_first();
        lemma_without_leading(t, c);
        assert forall|i: int| 0 <= i < without_leading(t, c).len() implies s.contains(
            #[trigger] without_leading(t, c)[i],
        ) by {
            let k = choose|k: int| 0 <= k < t.len() && t[k] == without_leading(t, c)[i];
            assert(s[k + 1] == without_leading(t, c)[i]);
        }
    }
}

proof fn lemma_without_trailing(s: Seq<char>, c: char)
    ensures
        without_trailing(s, c).is_prefix_of(s),
        without_trailing(s, c).len() > 0 ==> without_trailing(s, c).last() != c,
    decreases s.len(),
{
    if s.len() > 0 && s.last() == c {
        lemma_without_trailing(s.drop_last(), c);
        let t = without_trailing(s.drop_last(), c);
        assert(s.subrange(0, t.len() as int) =~= s.drop_last().subrange(0, t.len() as int));
    } else {
        assert(s.subrange(0, s.len() as int) =~= s);
    }
}

proof fn lemma_not_found(s: Seq<char>, c: char)
    requires
        !s.contains(c),
    ensures
        find(s, seq![c]) is None,
        c == ':' ==> find(s, scheme_mark()) is None,
{
    lemma_find_none(s, c);
    lemma_find_occurs(s, scheme_mark());
    if let Some(i) = find(s, scheme_mark()) {
        assert(s.subrange(i, i + 3)[0] == s[i]);
        assert(s[i] == ':');
    }
}

/// A `file://` URL names the path behind it; a slash in front of a drive letter is no part of it.
pub proof fn law_file_url_names_its_path(path: Seq<char>)
    requires
        path.len() > 0,
        !white_space(path.last()),
    ensures
        ({
            let drive = path.len() >= 3 && path[0] == '/' && path[2] == ':' && ('a' <= path[1]
                <= 'z' || 'A' <= path[1] <= 'Z');
            &&& drive ==> local_path("file://"@ + path) == Some(path.skip(1))
            &&& !drive ==> local_path("file://"@ + path) == Some(path)
        }),
{
    reveal_strlit("file://");
    let u = "file://"@ + path;
    assert("file://"@ =~= seq!['f', 'i', 'l', 'e', ':', '/', '/']);
    assert(u.first() == 'f');
    assert(u.last() == path.last());
    assert(trimmed(u) == u);
    assert(u.subrange(0, 7) =~= file_mark());
    assert(u.skip(7) =~= path);
}

/// A path without a colon is on this machine and is taken as it is.
pub proof fn law_plain_path_is_local(path: Seq<char>)
    requires
        path.len() > 0,
        !white_space(path.first()),
        !white_space(path.last()),
        !path.contains(':'),
    ensures
        local_path(path) == Some(path),
{
    assert(trimmed(path) == path);
    lemma_not_found(path, ':');
    if file_mark().is_prefix_of(path) {
        assert(path.subrange(0, 7)[4] == path[4]);
        assert(path[4] == ':');
    }
}

/// A Windows path is on this machine, its drive letter being no host.
pub proof fn law_drive_path_is_local(letter: char, rest: Seq<char>)
    requires
        'a' <= letter <= 'z' || 'A' <= letter <= 'Z',
        rest.len() > 0,
        rest[0] == '\\',
        !white_space(rest.last()),
        !rest.contains(':'),
    ensures
        local_path(seq![letter, ':'] + rest) == Some(seq![letter, ':'] + rest),
{
    let u = seq![letter, ':'] + rest;
    assert(u.first() == letter);
    assert(u.last() == rest.last());
    assert(trimmed(u) == u);
    if file_mark().is_prefix_of(u) {
        assert(u.subrange(0, 7)[1] == u[1]);
    }
    lemma_find_occurs(u, scheme_mark());
    if let Some(i) = find(u, scheme_mark()) {
        let w = u.subrange(i, i + 3);
        assert(w[0] == u[i] && w[1] == u[i + 1]);
        if i > 1 {
            assert(rest[i - 2] == ':');
        }
    }
    assert(u =~= seq![letter] + seq![':'] + rest);
    lemma_find_first(seq![letter], ':', rest);
    assert(u.take(1) =~= seq![letter]);
}

/// A URL with another scheme than `file` is a network remote.
pub proof fn law_scheme_url_is_remote(scheme: Seq<char>, rest: Seq<char>)
    requires
        scheme.len() > 0,
        !scheme.contains(':'),
        !white_space(scheme.first()),
        rest.len() > 0,
        !white_space(rest.last()),
        scheme != "file"@,
    ensures
        local_path(scheme + "://"@ + rest) is None,
{
    reveal_strlit("://");
    reveal_strlit("file");
    assert("://"@ =~= seq![':', '/', '/']);
    assert("file"@ =~= seq!['f', 'i', 'l', 'e']);
    let u = scheme + "://"@ + rest;
    assert(u.first() == scheme.first());
    assert(u.last() == rest.last());
    assert(trimmed(u) == u);
    assert(u =~= scheme + (scheme_mark() + rest));
    lemma_find_behind(scheme, scheme_mark(), rest);
    if file_mark().is_prefix_of(u) {
        let w = u.subrange(0, 7);
        assert forall|i: int| 0 <= i < 7 implies #[trigger] w[i] == u[i] by {}
        if scheme.len() < 4 {
            assert(u[scheme.len() as int] == ':');
            assert(w[scheme.len() as int] == ':');
        } else if scheme.len() > 4 {
            assert(w[4] == ':');
            assert(scheme[4] == ':');
        } else {
            assert(scheme =~= "file"@) by {
                assert(w[0] == 'f' && w[1] == 'i' && w[2] == 'l' && w[3] == 'e');
            }
        }
    }
}

/// `user@host:path` is a network remote, whatever the path is.
pub proof fn law_scp_url_is_remote(user: Seq<char>, host: Seq<char>, path: Seq<char>)
    requires
        user.len() > 0,
        !white_space(user.first()),
        !user.contains(':'),
        !host.contains(':'),
        path.len() > 0,
        !white_space(path.last()),
    ensures
        local_path(user + seq!['@'] + host + seq![':'] + path) is None,
{
    let before = user + seq!['@'] + host;
    let u = before + seq![':'] + path;
    assert(u =~= user + seq!['@'] + host + seq![':'] + path);
    assert(u.first() == user.first());
    assert(u.last() == path.last());
    assert(trimmed(u) == u);
    assert(before[user.len() as int] == '@');
    assert(!before.contains(':')) by {
        if before.contains(':') {
            let k = choose|k: int| 0 <= k < before.len() && before[k] == ':';
            if k < user.len() {
                assert(user[k] == ':');
            } else if k > user.len() {
                assert(host[k - user.len() - 1] == ':');
            }
        }
    }
    lemma_find_first(before, ':', path);
    assert(u.take(before.len() as int) =~= before);
    if file_mark().is_prefix_of(u) {
        let w = u.subrange(0, 7);
        assert forall|i: int| 0 <= i < 7 implies #[trigger] w[i] == u[i] by {}
        assert(w[4] == ':');
        if before.len() > 4 {
            assert(before[4] == ':');
        } else {
            assert(before.len() <= 4);
            let at = user.len() as int;
            assert(w[at] == '@');
        }
    }
}

/// A network remote is handed on untouched; a local one as its path, in which a slash stands for
/// each backslash and nothing else is changed.
pub proof fn law_normalizing_changes_backslashes_only(url: Seq<char>, i: int)
    ensures
        local_path(url) is None ==> normalized(url) == url,
        local_path(url) matches Some(path) ==> {
            &&& normalized(url).len() == path.len()
            &&& 0 <= i < path.len() ==> normalized(url)[i] == if path[i] == '\\' {
                '/'
            } else {
                path[i]
            }
        },
{
}

/// A name that is safe already is kept as it is.
pub proof fn law_safe_name_is_kept(s: Seq<char>)
    requires
        s.len() > 0,
        forall|i: int|
            0 <= i < s.len() ==> {
                ||| 'a' <= #[trigger] s[i] <= 'z'
                ||| 'A' <= s[i] <= 'Z'
                ||| '0' <= s[i] <= '9'
                ||| s[i] == '-'
                ||| s[i] == '_'
                ||| s[i] == '.'
            },
        s.first() != '-',
        s.last() != '-',
        s != "."@,
        s != ".."@,
    ensures
        segment(s) == s,
{
    reveal_strlit(".");
    reveal_strlit("..");
    assert("."@ =~= seq!['.']);
    assert(".."@ =~= seq!['.', '.']);
    assert(dashed(s) =~= s);
    assert(without_leading(s, '-') == s);
    assert(without_trailing(s, '-') == s);
}

/// A segment is what a name says, from the first to the last character that is safe or, inside,
/// with a dash for each one that is not; `unknown` only where the name has no letter, no digit and
/// no underscore.
pub proof fn law_segment_follows_the_name(s: Seq<char>) -> (at: int)
    ensures
        (segment(s) == "unknown"@ && forall|k: int|
            0 <= k < s.len() ==> !({
                ||| 'a' <= #[trigger] s[k] <= 'z'
                ||| 'A' <= s[k] <= 'Z'
                ||| '0' <= s[k] <= '9'
                ||| s[k] == '_'
            })) || {
            &&& 0 <= at
            &&& at + segment(s).len() <= s.len()
            &&& forall|i: int|
                0 <= i < segment(s).len() ==> #[trigger] segment(s)[i] == if {
                    ||| 'a' <= s[at + i] <= 'z'
                    ||| 'A' <= s[at + i] <= 'Z'
                    ||| '0' <= s[at + i] <= '9'
                    ||| s[at + i] == '-'
                    ||| s[at + i] == '_'
                    ||| s[at + i] == '.'
                } {
                    s[at + i]
                } else {
                    '-'
                }
            &&& forall|k: int|
                0 <= k < s.len() && !(at <= k < at + segment(s).len()) ==> !({
                    ||| 'a' <= #[trigger] s[k] <= 'z'
                    ||| 'A' <= s[k] <= 'Z'
                    ||| '0' <= s[k] <= '9'
                    ||| s[k] == '_'
                    ||| s[k] == '.'
                })
        },
{
    let d = dashed(s);
    let n = law_leading_characters_go(d, '-');
    let m = law_trailing_characters_go(without_leading(d, '-'), '-');
    let w = without_leading(d, '-');
    assert forall|k: int| 0 <= k < s.len() && !(n <= k < n + m) implies !({
        ||| 'a' <= #[trigger] s[k] <= 'z'
        ||| 'A' <= s[k] <= 'Z'
        ||| '0' <= s[k] <= '9'
        ||| s[k] == '_'
        ||| s[k] == '.'
    }) by {
        if k >= n + m {
            assert(w[k - n] == d[k]);
        }
        assert(d[k] == '-');
    }
    let t = without_trailing(w, '-');
    if t.len() == 0 || t == seq!['.'] || t == seq!['.', '.'] {
        assert forall|k: int| 0 <= k < s.len() implies !({
            ||| 'a' <= #[trigger] s[k] <= 'z'
            ||| 'A' <= s[k] <= 'Z'
            ||| '0' <= s[k] <= '9'
            ||| s[k] == '_'
        }) by {
            if n <= k < n + m {
                assert(t[k - n] == d[k]);
                assert(t.len() == m);
                if t.len() == 1 {
                    assert(seq!['.'][k - n] == '.');
                } else {
                    assert(seq!['.', '.'][k - n] == '.');
                }
            }
        }
    }
    n
}

/// A remote of one name only names that repository, of nobody known.
pub proof fn law_single_name_is_the_repository(name: Seq<char>)
    requires
        path_name(name),
        !white_space(name.first()),
        !white_space(name.last()),
        !git_suffix().is_suffix_of(name),
    ensures
        repo_of(name) == segment(name),
        owner_of(name) == "unknown"@,
{
    assert(trimmed(name) == name);
    assert(name.contains(name.last()));
    assert(without_trailing(name, '/') == name);
    lemma_not_found(name, ':');
    lemma_find_none(name, '/');
    assert(pieces(name, '/') == seq![name]);
    reveal(Seq::filter);
    let keep = |p: Seq<char>| p.len() > 0;
    assert(seq![name].drop_last() =~= Seq::<Seq<char>>::empty());
    assert(Seq::<Seq<char>>::empty().filter(keep) =~= Seq::<Seq<char>>::empty());
    assert(seq![name].filter(keep) =~= seq![name]);
    lemma_unknown_is_kept();
}

proof fn lemma_unknown_is_kept()
    ensures
        segment("unknown"@) == "unknown"@,
        segment("repo"@) == "repo"@,
{
    reveal_strlit("unknown");
    reveal_strlit("repo");
    reveal_strlit(".");
    reveal_strlit("..");
    assert("."@.len() == 1 && ".."@.len() == 2);
    assert("unknown"@.len() == 7 && "repo"@.len() == 4);
    law_safe_name_is_kept("unknown"@);
    law_safe_name_is_kept("repo"@);
}

/// A URL of a host alone names no repository: it goes by `repo`, of nobody known.
pub proof fn law_host_alone_names_no_repository(scheme: Seq<char>, host: Seq<char>)
    requires
        path_name(scheme),
        !white_space(scheme.first()),
        host.len() > 0,
        !host.contains('/'),
        !white_space(host.last()),
        !git_suffix().is_suffix_of(scheme + scheme_mark() + host),
    ensures
        repo_of(scheme + "://"@ + host) == "repo"@,
        owner_of(scheme + "://"@ + host) == "unknown"@,
{
    reveal_strlit("://");
    assert("://"@ =~= scheme_mark());
    let u = scheme + "://"@ + host;
    assert(u =~= scheme + (scheme_mark() + host));
    assert(u.first() == scheme.first());
    assert(u.last() == host.last());
    assert(host.contains(host.last()));
    assert(trimmed(u) == u);
    assert(without_trailing(u, '/') == u);
    lemma_find_behind(scheme, scheme_mark(), host);
    assert(u.skip(scheme.len() as int + 3) =~= host);
    lemma_find_none(host, '/');
    let none: Seq<char> = seq![];
    assert(path_after_host(u) =~= none);
    lemma_find_none(none, '/');
    assert(pieces(none, '/') == seq![none]);
    reveal(Seq::filter);
    let keep = |p: Seq<char>| p.len() > 0;
    assert(seq![none].drop_last() =~= Seq::<Seq<char>>::empty());
    assert(Seq::<Seq<char>>::empty().filter(keep) =~= Seq::<Seq<char>>::empty());
    assert(seq![none].filter(keep) =~= Seq::<Seq<char>>::empty());
    lemma_unknown_is_kept();
}

proof fn lemma_deep_names(groups: Seq<char>, owner: Seq<char>, repo: Seq<char>)
    requires
        path_name(owner),
        path_name(repo),
    ensures
        ({
            let path = groups + seq!['/'] + (owner + seq!['/'] + repo);
            let names = pieces(path, '/').filter(|p: Seq<char>| p.len() > 0);
            names.len() >= 2 && names.last() == repo && names[names.len() - 2] == owner
        }),
{
    let keep = |p: Seq<char>| p.len() > 0;
    let end = owner + seq!['/'] + repo;
    lemma_two_names(owner, repo);
    lemma_pieces_add(groups, '/', end);
    Seq::filter_distributes_over_add(pieces(groups, '/'), pieces(end, '/'), keep);
    let names = pieces(groups, '/').filter(keep) + seq![owner, repo];
    assert(names.last() == repo);
    assert(names[names.len() - 2] == owner);
}

proof fn lemma_bare_url(
    scheme: Seq<char>,
    host: Seq<char>,
    path: Seq<char>,
    repo: Seq<char>,
    tail: Seq<char>,
)
    requires
        path_name(scheme),
        !white_space(scheme.first()),
        !host.contains('/'),
        last_path_name(repo),
        repo.is_suffix_of(path),
        path.len() > repo.len(),
        path[path.len() - repo.len() - 1] == '/',
        tail == Seq::<char>::empty() || tail == git_suffix() || tail == seq!['/'] || tail
            == git_suffix().push('/'),
    ensures
        path_after_host(
            bare_remote(scheme + (scheme_mark() + (host + seq!['/'] + path)) + tail),
        ) == path,
{
    let bare = scheme + (scheme_mark() + (host + seq!['/'] + path));
    assert(bare.first() == scheme.first());
    let at = bare.len() - path.len();
    assert(bare.subrange(bare.len() - repo.len(), bare.len() as int) =~= path.subrange(
        path.len() - repo.len(),
        path.len() as int,
    ));
    assert(bare[bare.len() - repo.len() - 1] == path[path.len() - repo.len() - 1]);
    lemma_bare(bare, repo, tail);
    lemma_url_path(scheme, host, path);
}

/// However long the path of a URL is, its last two names are the owner and the repository.
#[verifier::spinoff_prover]
#[verifier::rlimit(40)]
pub proof fn law_last_two_names_count(
    scheme: Seq<char>,
    host: Seq<char>,
    groups: Seq<char>,
    owner: Seq<char>,
    repo: Seq<char>,
    tail: Seq<char>,
)
    requires
        path_name(scheme),
        !white_space(scheme.first()),
        !host.contains('/'),
        path_name(owner),
        last_path_name(repo),
        tail == Seq::<char>::empty() || tail == git_suffix() || tail == seq!['/'] || tail
            == git_suffix().push('/'),
    ensures
        ({
            let path = groups + seq!['/'] + (owner + seq!['/'] + repo);
            let remote = scheme + (seq![':', '/', '/'] + (host + seq!['/'] + path)) + tail;
            owner_of(remote) == segment(owner) && repo_of(remote) == segment(repo)
        }),
{
    let path = groups + seq!['/'] + (owner + seq!['/'] + repo);
    assert(path.subrange(path.len() - repo.len(), path.len() as int) =~= repo);
    assert(path[path.len() - repo.len() - 1] == '/');
    lemma_bare_url(scheme, host, path, repo, tail);
    lemma_deep_names(groups, owner, repo);
}

/// White space around a remote does not count.
pub proof fn law_white_space_around_a_remote_does_not_count(a: Seq<char>, b: Seq<char>)
    requires
        trimmed(a) == trimmed(b),
    ensures
        owner_of(a) == owner_of(b),
        repo_of(a) == repo_of(b),
        local_path(a) == local_path(b),
{
}

/// `host.tld:path` is a network remote, too.
pub proof fn law_dotted_host_is_remote(host: Seq<char>, tld: Seq<char>, path: Seq<char>)
    requires
        host.len() > 0,
        !white_space(host.first()),
        !host.contains(':'),
        !tld.contains(':'),
        path.len() > 0,
        !white_space(path.last()),
    ensures
        local_path(host + seq!['.'] + tld + seq![':'] + path) is None,
{
    let before = host + seq!['.'] + tld;
    let u = before + seq![':'] + path;
    assert(u =~= host + seq!['.'] + tld + seq![':'] + path);
    assert(u.first() == host.first());
    assert(u.last() == path.last());
    assert(trimmed(u) == u);
    assert(before[host.len() as int] == '.');
    assert(!before.contains(':')) by {
        if before.contains(':') {
            let k = choose|k: int| 0 <= k < before.len() && before[k] == ':';
            if k < host.len() {
                assert(host[k] == ':');
            } else if k > host.len() {
                assert(tld[k - host.len() - 1] == ':');
            }
        }
    }
    lemma_find_first(before, ':', path);
    assert(u.take(before.len() as int) =~= before);
    if file_mark().is_prefix_of(u) {
        let w = u.subrange(0, 7);
        assert forall|i: int| 0 <= i < 7 implies #[trigger] w[i] == u[i] by {}
        assert(w[4] == ':');
        if before.len() > 4 {
            assert(before[4] == ':');
        } else {
            let at = host.len() as int;
            assert(w[at] == '.');
        }
    }
}

/// The marks by which remotes are told are those that URLs and Windows use.
pub proof fn law_marks_of_remotes()
    ensures
        scheme_mark() == "://"@,
        file_mark() == "file://"@,
        git_suffix() == ".git"@,
        verbatim_mark() == "\\\\?\\"@,
{
    reveal_strlit("://");
    reveal_strlit("file://");
    reveal_strlit(".git");
    reveal_strlit("\\\\?\\");
    assert(scheme_mark() =~= "://"@);
    assert(file_mark() =~= "file://"@);
    assert(git_suffix() =~= ".git"@);
    assert(verbatim_mark() =~= "\\\\?\\"@);
}

/// Only the prefix of an extended-length path goes; what is behind it stays, and any other path
/// stays as it is.
pub proof fn law_only_the_verbatim_prefix_goes(path: Seq<char>)
    ensures
        stripped("\\\\?\\"@ + path) == path,
        !"\\\\?\\"@.is_prefix_of(path) ==> stripped(path) == path,
{
    law_marks_of_remotes();
    reveal_strlit("\\\\?\\");
    let whole = "\\\\?\\"@ + path;
    assert(whole.subrange(0, 4) =~= verbatim_mark());
    assert(whole.skip(4) =~= path);
}

proof fn lemma_no_scheme(s: Seq<char>, host: Seq<char>, path: Seq<char>)
    requires
        s == host + seq![':'] + path,
        !host.contains(':'),
        !path.contains(':'),
        path.len() > 0 && path[0] != '/',
    ensures
        find(s, scheme_mark()) is None,
{
    assert forall|j: int| !#[trigger] occurs_at(s, scheme_mark(), j) by {
        if occurs_at(s, scheme_mark(), j) {
            let w = s.subrange(j, j + 3);
            assert(w[0] == s[j] && w[1] == s[j + 1]);
            if j < host.len() {
                assert(host[j] == ':');
            } else if j == host.len() {
                assert(path[0] == '/');
            } else {
                assert(path[j - host.len() - 1] == ':');
            }
        }
    }
    lemma_find_occurs(s, scheme_mark());
}

/// Of `host:groups/owner/repo`, too, the last two names are the owner and the repository.
#[verifier::spinoff_prover]
#[verifier::rlimit(40)]
pub proof fn law_last_two_names_of_an_scp_remote_count(
    host: Seq<char>,
    groups: Seq<char>,
    owner: Seq<char>,
    repo: Seq<char>,
    tail: Seq<char>,
)
    requires
        path_name(host),
        !white_space(host.first()),
        groups.len() > 0,
        groups[0] != '/',
        !groups.contains(':'),
        path_name(owner),
        last_path_name(repo),
        tail == Seq::<char>::empty() || tail == git_suffix() || tail == seq!['/'] || tail
            == git_suffix().push('/'),
    ensures
        ({
            let path = groups + seq!['/'] + (owner + seq!['/'] + repo);
            let remote = host + seq![':'] + path + tail;
            owner_of(remote) == segment(owner) && repo_of(remote) == segment(repo)
        }),
{
    let path = groups + seq!['/'] + (owner + seq!['/'] + repo);
    let bare = host + seq![':'] + path;
    assert(!path.contains(':')) by {
        if path.contains(':') {
            let k = choose|k: int| 0 <= k < path.len() && path[k] == ':';
            lemma_colon_of(groups, owner, repo, k);
        }
    }
    assert(bare.first() == host.first());
    assert(bare.subrange(bare.len() - repo.len(), bare.len() as int) =~= repo);
    assert(bare[bare.len() - repo.len() - 1] == '/');
    lemma_bare(bare, repo, tail);
    lemma_no_scheme(bare, host, path);
    lemma_find_first(host, ':', path);
    assert(bare.skip(host.len() as int + 1) =~= path);
    lemma_deep_names(groups, owner, repo);
}

proof fn lemma_colon_of(groups: Seq<char>, owner: Seq<char>, repo: Seq<char>, k: int)
    requires
        0 <= k < groups.len() + owner.len() + repo.len() + 2,
        (groups + seq!['/'] + (owner + seq!['/'] + repo))[k] == ':',
    ensures
        groups.contains(':') || owner.contains(':') || repo.contains(':'),
{
    if k < groups.len() {
        assert(groups[k] == ':');
    } else if k > groups.len() {
        let j = k - groups.len() - 1;
        assert((owner + seq!['/'] + repo)[j] == ':');
        if j < owner.len() {
            assert(owner[j] == ':');
        } else if j > owner.len() {
            assert(repo[j - owner.len() - 1] == ':');
        }
    }
}

/// Of a folder on this machine, the last two names are the owner and the repository.
#[verifier::spinoff_prover]
#[verifier::rlimit(40)]
pub proof fn law_last_two_names_of_a_folder_count(
    groups: Seq<char>,
    owner: Seq<char>,
    repo: Seq<char>,
    tail: Seq<char>,
)
    requires
        groups.len() > 0 ==> !white_space(groups[0]),
        !groups.contains(':'),
        path_name(owner),
        last_path_name(repo),
        tail == Seq::<char>::empty() || tail == git_suffix() || tail == seq!['/'] || tail
            == git_suffix().push('/'),
    ensures
        ({
            let path = groups + seq!['/'] + (owner + seq!['/'] + repo);
            owner_of(path + tail) == segment(owner) && repo_of(path + tail) == segment(repo)
        }),
{
    let path = groups + seq!['/'] + (owner + seq!['/'] + repo);
    assert(!path.contains(':')) by {
        if path.contains(':') {
            let k = choose|k: int| 0 <= k < path.len() && path[k] == ':';
            lemma_colon_of(groups, owner, repo, k);
        }
    }
    assert(path.first() == if groups.len() > 0 {
        groups[0]
    } else {
        '/'
    });
    assert(path.subrange(path.len() - repo.len(), path.len() as int) =~= repo);
    assert(path[path.len() - repo.len() - 1] == '/');
    lemma_bare(path, repo, tail);
    lemma_not_found(path, ':');
    lemma_deep_names(groups, owner, repo);
}

/// Proxies lie by creator and then by repository: those of one creator side by side, those of two
/// creators or of two repositories never in one folder.
pub proof fn law_proxies_lie_by_creator_and_repository(a: Seq<char>, b: Seq<char>)
    ensures
        proxy_folders(a).len() == 3,
        proxy_folders(a)[0] == "bosync"@,
        proxy_folders(a)[1] == owner_of(a),
        proxy_folders(a)[2] == repo_of(a),
        proxy_folders(a) == proxy_folders(b) <==> owner_of(a) == owner_of(b) && repo_of(a)
            == repo_of(b),
        owner_of(a) == owner_of(b) <==> proxy_folders(a).drop_last() == proxy_folders(
            b,
        ).drop_last(),
{
    let x = proxy_folders(a);
    let y = proxy_folders(b);
    if owner_of(a) == owner_of(b) {
        assert(x.drop_last() =~= y.drop_last());
    } else {
        assert(x.drop_last()[1] != y.drop_last()[1]);
    }
    if x == y {
        assert(x[1] == y[1] && x[2] == y[2]);
    }
}

} // verus!
