//! Paths as lists of components, and the `/`-separated paths that git uses.
//!
//! An absolute path comes as the list of its components, the root first; a git path is a text.
use crate::text::{
    chars_of, join, joined, law_join_then_split, law_split_then_join, opt_text, pieces, replace,
    replaced, split, string_of, texts,
};
use vstd::prelude::*;

verus! {

/// The components of `abs` below `root`, with `/` between them; `None` if `abs` is not in `root`.
pub open spec fn git_path(root: Seq<Seq<char>>, abs: Seq<Seq<char>>) -> Option<Seq<char>> {
    if root.is_prefix_of(abs) {
        Some(joined(abs.skip(root.len() as int), seq!['/']))
    } else {
        None
    }
}

/// The git path of `name` in the directory `parent`; the root directory is the empty text.
pub open spec fn child(parent: Seq<char>, name: Seq<char>) -> Seq<char> {
    if parent.len() == 0 {
        name
    } else {
        parent + seq!['/'] + name
    }
}

/// Where the entry `rel` below `old` goes when `old` becomes `new`; `old` itself is the empty
/// text.
pub open spec fn moved_to(new: Seq<char>, rel: Seq<char>) -> Seq<char> {
    if rel.len() == 0 {
        new
    } else {
        new + seq!['/'] + rel
    }
}

/// How many of the directories above `abs`, from the nearest up, lie in `root` (which lies in
/// itself).
pub open spec fn enclosing(root: Seq<Seq<char>>, abs: Seq<Seq<char>>) -> int {
    if root.is_prefix_of(abs) {
        abs.len() - root.len()
    } else {
        0
    }
}

/// Whether the components `a` start with the components `b`.
pub fn starts_with_parts(a: &[String], b: &[String]) -> (r: bool)
    ensures
        r == texts(b@).is_prefix_of(texts(a@)),
{
    let n: usize = b.len();
    if n > a.len() {
        return false;
    }
    for i in 0..n
        invariant
            n == b@.len(),
            n <= a@.len(),
            forall|j: int| 0 <= j < i ==> a@[j]@ == b@[j]@,
    {
        if a[i] != b[i] {
            assert(texts(a@).subrange(0, n as int)[i as int] == a@[i as int]@);
            assert(texts(b@)[i as int] == b@[i as int]@);
            return false;
        }
    }
    assert(texts(a@).subrange(0, n as int) =~= texts(b@));
    true
}

fn parts_from(parts: &[String], from: usize) -> (r: Vec<String>)
    requires
        from <= parts@.len(),
    ensures
        texts(r@) == texts(parts@).skip(from as int),
{
    let mut r: Vec<String> = Vec::new();
    let n: usize = parts.len();
    for i in from..n
        invariant
            n == parts@.len(),
            from <= n,
            texts(r@) == texts(parts@).subrange(from as int, i as int),
    {
        let ghost before = texts(r@);
        r.push(parts[i].clone());
        assert(texts(r@) =~= before.push(parts@[i as int]@));
    }
    r
}

/// Convert an absolute path inside `root` to a `/`-separated git path.
/// Returns `Some("")` for `root` itself, `None` if `abs` is outside `root`.
pub fn to_git_path(root: &[String], abs: &[String]) -> (r: Option<String>)
    ensures
        opt_text(r) == git_path(texts(root@), texts(abs@)),
{
    if !starts_with_parts(abs, root) {
        return None;
    }
    let below: Vec<String> = parts_from(abs, root.len());
    proof {
        reveal_strlit("/");
        assert("/"@ =~= seq!['/']);
    }
    Some(join(&below, "/"))
}

/// The git path of `abs` below `root`, or of all its components if it lies elsewhere.
pub open spec fn scan_path(root: Seq<Seq<char>>, abs: Seq<Seq<char>>) -> Seq<char> {
    match git_path(root, abs) {
        Some(path) => path,
        None => joined(abs, seq!['/']),
    }
}

/// The path under which a file of a scanned drive is reported.
pub fn scanned_path(root: &[String], abs: &[String]) -> (r: String)
    ensures
        r@ == scan_path(texts(root@), texts(abs@)),
{
    match to_git_path(root, abs) {
        Some(path) => path,
        None => {
            let parts: Vec<String> = parts_from(abs, 0);
            proof {
                reveal_strlit("/");
                assert("/"@ =~= seq!['/']);
                assert(texts(abs@).skip(0) =~= texts(abs@));
            }
            join(&parts, "/")
        },
    }
}

/// The components to append to a base directory, one by one, to reach the git path `rel` below
/// it.
pub fn rel_parts(rel: &str) -> (r: Vec<String>)
    ensures
        texts(r@) == pieces(rel@, '/'),
{
    let v: Vec<char> = chars_of(rel);
    split(v.as_slice(), '/')
}

/// Join a child name onto a parent git path (`""` parent -> bare name).
pub fn child_path(parent: &str, name: &str) -> (r: String)
    ensures
        r@ == child(parent@, name@),
{
    if parent.is_empty() {
        name.to_owned()
    } else {
        let mut r: String = parent.to_owned();
        r.push('/');
        r.append(name);
        assert(r@ =~= child(parent@, name@));
        r
    }
}

/// Where the entry `rel` below a renamed path goes.
pub fn rename_target(new: &str, rel: &str) -> (r: String)
    ensures
        r@ == moved_to(new@, rel@),
{
    if rel.is_empty() {
        new.to_owned()
    } else {
        let mut r: String = new.to_owned();
        r.push('/');
        r.append(rel);
        assert(r@ =~= moved_to(new@, rel@));
        r
    }
}

/// The git path `rel` with Windows separators.
pub fn windows_path(rel: &str) -> (r: String)
    ensures
        r@ == replaced(rel@, '/', '\\'),
{
    let v: Vec<char> = chars_of(rel);
    let w: Vec<char> = replace(v.as_slice(), '/', '\\');
    string_of(w.as_slice())
}

/// How many of the directories above `abs`, from the nearest up, to mark in-sync: all that lie
/// in `root`, and `root` last.
pub fn dirs_to_mark(root: &[String], abs: &[String]) -> (r: usize)
    ensures
        r == enclosing(texts(root@), texts(abs@)),
{
    if starts_with_parts(abs, root) {
        abs.len() - root.len()
    } else {
        0
    }
}

/// How many directories, from `dir` up, to try to remove when they are empty: all that lie in
/// `base`, but not `base` itself.
pub fn dirs_to_prune(base: &[String], dir: &[String]) -> (r: usize)
    ensures
        r == enclosing(texts(base@), texts(dir@)),
{
    dirs_to_mark(base, dir)
}

/// Going down from a directory along a git path and reading the git path back gives it again.
pub proof fn law_git_path_of_joined(root: Seq<Seq<char>>, rel: Seq<char>)
    ensures
        git_path(root, root + pieces(rel, '/')) == Some(rel),
{
    let abs = root + pieces(rel, '/');
    assert(abs.subrange(0, root.len() as int) =~= root);
    assert(abs.skip(root.len() as int) =~= pieces(rel, '/'));
    law_split_then_join(rel, '/');
}

/// The directories to mark above a path end with `root`: each lies in `root`, and the one behind
/// the last does not.
pub proof fn law_marked_dirs_end_at_root(root: Seq<Seq<char>>, abs: Seq<Seq<char>>, i: int)
    requires
        0 <= i < abs.len(),
    ensures
        i < enclosing(root, abs) <==> root.is_prefix_of(abs.take(abs.len() - 1 - i)),
        enclosing(root, abs) > 0 ==> abs.take(abs.len() - enclosing(root, abs)) == root,
{
    let dir = abs.take(abs.len() - 1 - i);
    if root.is_prefix_of(abs) {
        if i < enclosing(root, abs) {
            assert(dir.subrange(0, root.len() as int) =~= abs.subrange(0, root.len() as int));
        }
        assert(abs.take(root.len() as int) =~= root);
    } else if root.is_prefix_of(dir) {
        assert(abs.subrange(0, root.len() as int) =~= dir.subrange(0, root.len() as int));
    }
}

/// The git path of an entry is that of its directory with the name behind it.
pub proof fn law_child_of_git_path(root: Seq<Seq<char>>, dir: Seq<Seq<char>>, name: Seq<char>)
    requires
        root.is_prefix_of(dir),
        joined(dir.skip(root.len() as int), seq!['/']).len() > 0 || dir == root,
    ensures
        git_path(root, dir.push(name)) == Some(child(git_path(root, dir)->0, name)),
{
    let below = dir.skip(root.len() as int);
    assert(dir.push(name).subrange(0, root.len() as int) =~= dir.subrange(0, root.len() as int));
    assert(dir.push(name).skip(root.len() as int) =~= below.push(name));
    lemma_joined_push(below, name);
}

proof fn lemma_joined_push(parts: Seq<Seq<char>>, last: Seq<char>)
    ensures
        joined(parts.push(last), seq!['/']) == if parts.len() == 0 {
            last
        } else {
            joined(parts, seq!['/']) + seq!['/'] + last
        },
    decreases parts.len(),
{
    if parts.len() > 0 {
        assert(parts.push(last).drop_first() =~= parts.drop_first().push(last));
        lemma_joined_push(parts.drop_first(), last);
        if parts.len() == 1 {
            assert(parts.drop_first().push(last) =~= seq![last]);
            assert(joined(seq![last], seq!['/']) == last);
        } else {
            let head = parts[0] + seq!['/'];
            let tail = joined(parts.drop_first(), seq!['/']);
            assert(head + (tail + seq!['/'] + last) =~= head + tail + seq!['/'] + last);
        }
    }
}

/// The git path of what lies in a directory names the components below it, one by one, and nothing
/// of the directory itself; the directory's own is empty, and what lies elsewhere has none.
pub proof fn law_git_path_names_what_is_below(
    root: Seq<Seq<char>>,
    names: Seq<Seq<char>>,
    abs: Seq<Seq<char>>,
)
    requires
        forall|i: int| 0 <= i < names.len() ==> !(#[trigger] names[i]).contains('/'),
    ensures
        git_path(root, root + names) is Some,
        names.len() > 0 ==> pieces(git_path(root, root + names)->0, '/') == names,
        names.len() == 0 ==> git_path(root, root + names)->0.len() == 0,
        git_path(root, abs) is Some <==> root.is_prefix_of(abs),
{
    let all = root + names;
    assert(all.subrange(0, root.len() as int) =~= root);
    assert(all.skip(root.len() as int) =~= names);
    if names.len() > 0 {
        law_join_then_split(names, '/');
    }
}

/// A child is named by the path of its directory, a slash and its name, and by its name alone in
/// the root.
pub proof fn law_child_path_is_parent_then_name(parent: Seq<char>, name: Seq<char>)
    ensures
        parent.len() == 0 ==> child(parent, name) == name,
        parent.len() > 0 ==> {
            &&& child(parent, name).len() == parent.len() + 1 + name.len()
            &&& child(parent, name).take(parent.len() as int) == parent
            &&& child(parent, name)[parent.len() as int] == '/'
            &&& child(parent, name).skip(parent.len() as int + 1) == name
        },
{
    if parent.len() > 0 {
        let s = child(parent, name);
        assert(s.take(parent.len() as int) =~= parent);
        assert(s.skip(parent.len() as int + 1) =~= name);
    }
}

/// What lies at `rel` below a renamed path lies at `rel` below the new one; the renamed path itself
/// becomes the new one.
pub proof fn law_moved_path_keeps_its_rest(new: Seq<char>, rel: Seq<char>)
    ensures
        rel.len() == 0 ==> moved_to(new, rel) == new,
        rel.len() > 0 ==> {
            &&& moved_to(new, rel).len() == new.len() + 1 + rel.len()
            &&& moved_to(new, rel).take(new.len() as int) == new
            &&& moved_to(new, rel)[new.len() as int] == '/'
            &&& moved_to(new, rel).skip(new.len() as int + 1) == rel
        },
{
    if rel.len() > 0 {
        let s = moved_to(new, rel);
        assert(s.take(new.len() as int) =~= new);
        assert(s.skip(new.len() as int + 1) =~= rel);
    }
}

/// A scanned file is reported under the components below the drive, and one that lies elsewhere
/// under all of its components.
pub proof fn law_scanned_path_names_the_file(
    root: Seq<Seq<char>>,
    names: Seq<Seq<char>>,
    abs: Seq<Seq<char>>,
)
    requires
        names.len() > 0,
        forall|i: int| 0 <= i < names.len() ==> !(#[trigger] names[i]).contains('/'),
        abs.len() > 0,
        forall|i: int| 0 <= i < abs.len() ==> !(#[trigger] abs[i]).contains('/'),
        !root.is_prefix_of(abs),
    ensures
        pieces(scan_path(root, root + names), '/') == names,
        pieces(scan_path(root, abs), '/') == abs,
{
    law_git_path_names_what_is_below(root, names, abs);
    law_join_then_split(abs, '/');
}

} // verus!
