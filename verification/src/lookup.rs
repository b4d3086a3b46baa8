//! What the paths of a tree resolve to, and that a walk and a listing agree with it.
use crate::listing::{entry_of, stat_of};
use crate::paths::child;
use crate::sync::{listing_resolves, path_oid, Repo};
use crate::text::{lemma_last_piece, pieces};
use crate::trusted::hex;
use crate::walk::{leaves, stored, tree_at, Node, ObjectKind, Store};
use vstd::prelude::*;

verus! {

/// Whether `name` can be the name of an entry: not empty, and without a slash.
pub open spec fn entry_name(name: Seq<char>) -> bool {
    name.len() > 0 && !name.contains('/')
}

/// Whether the names of the entries are proper ones, each of them there once.
pub open spec fn well_named(es: Seq<(bool, Seq<char>, Seq<u8>)>) -> bool {
    &&& forall|i: int| 0 <= i < es.len() ==> entry_name((#[trigger] es[i]).1)
    &&& forall|i: int, j: int|
        0 <= i < j < es.len() ==> (#[trigger] es[i]).1 != (#[trigger] es[j]).1
}

/// The first entry with the given name: whether it is a directory, and its id.
pub open spec fn first_named(es: Seq<(bool, Seq<char>, Seq<u8>)>, name: Seq<char>) -> Option<
    (bool, Seq<u8>),
>
    decreases es.len(),
{
    if es.len() == 0 {
        None
    } else if es[0].1 == name {
        Some((es[0].0, es[0].2))
    } else {
        first_named(es.drop_first(), name)
    }
}

/// The entry `name` of the tree with the id `dir`.
pub open spec fn entry_at(store: Store, dir: Seq<u8>, name: Seq<char>) -> Option<(bool, Seq<u8>)> {
    match tree_at(store, dir) {
        Some(es) => first_named(es, name),
        None => None,
    }
}

/// What the names `parts`, one below the other, lead to from the tree with the id `root`.
pub open spec fn resolved(store: Store, root: Seq<u8>, parts: Seq<Seq<char>>) -> Option<
    (bool, Seq<u8>),
>
    decreases parts.len(),
{
    if parts.len() == 0 {
        Some((true, root))
    } else {
        match resolved(store, root, parts.drop_last()) {
            Some((true, dir)) => entry_at(store, dir, parts.last()),
            _ => None,
        }
    }
}

/// The names of which `path` is made; the empty path has none.
pub open spec fn parts_of(path: Seq<char>) -> Seq<Seq<char>> {
    if path.len() == 0 {
        seq![]
    } else {
        pieces(path, '/')
    }
}

/// What `path` is in the tree with the id `root`: whether it is a directory, and its id.
pub open spec fn path_at(store: Store, root: Seq<u8>, path: Seq<char>) -> Option<(bool, Seq<u8>)> {
    resolved(store, root, parts_of(path))
}

/// The key by which git orders the entries of a tree: a directory counts as if a slash stood
/// behind its name.
pub open spec fn sort_key(entry: (Seq<char>, Node)) -> Seq<char> {
    match entry.1 {
        Node::File { .. } => entry.0,
        Node::Dir { .. } => entry.0.push('/'),
    }
}

/// Whether `a` comes before `b` because they part at `k`.
pub open spec fn parts_at(a: Seq<char>, b: Seq<char>, k: int) -> bool {
    &&& 0 <= k <= a.len()
    &&& k < b.len()
    &&& a.take(k) == b.take(k)
    &&& k == a.len() || a[k] < b[k]
}

/// Whether `a` comes before `b`, by the order of their code points, which is that of their UTF-8
/// bytes.
pub open spec fn precedes(a: Seq<char>, b: Seq<char>) -> bool {
    exists|k: int| parts_at(a, b, k)
}

/// Whether the names of the entries, and of those below them, are proper ones, each of them there
/// once in its directory.
pub open spec fn tidy(entries: Seq<(Seq<char>, Node)>) -> bool
    decreases entries,
{
    &&& forall|i: int|
        0 <= i < entries.len() ==> {
            &&& entry_name((#[trigger] entries[i]).0)
            &&& match entries[i].1 {
                Node::File { .. } => true,
                Node::Dir { entries: below } => tidy(below),
            }
        }
    &&& forall|i: int, j: int|
        0 <= i < j < entries.len() ==> (#[trigger] entries[i]).0 != (#[trigger] entries[j]).0
}

/// Whether the entries, and those below them, have proper names and stand in git's order.
pub open spec fn sorted(entries: Seq<(Seq<char>, Node)>) -> bool
    decreases entries,
{
    &&& forall|i: int|
        0 <= i < entries.len() ==> {
            &&& entry_name((#[trigger] entries[i]).0)
            &&& match entries[i].1 {
                Node::File { .. } => true,
                Node::Dir { entries: below } => sorted(below),
            }
        }
    &&& forall|i: int, j: int|
        0 <= i < j < entries.len() ==> precedes(
            sort_key(#[trigger] entries[i]),
            sort_key(#[trigger] entries[j]),
        )
}

/// The files at and below one entry of the directory with the path `prefix`.
pub open spec fn entry_leaves(entry: (Seq<char>, Node), prefix: Seq<char>) -> Seq<
    (Seq<char>, Seq<u8>),
> {
    match entry.1 {
        Node::File { oid } => seq![(child(prefix, entry.0), oid)],
        Node::Dir { entries: below } => leaves(below, child(prefix, entry.0)),
    }
}

/// The entry with a name that occurs once is the one that is found by it.
proof fn lemma_first_named(es: Seq<(bool, Seq<char>, Seq<u8>)>, i: int)
    requires
        0 <= i < es.len(),
        forall|a: int, b: int|
            0 <= a < b < es.len() ==> (#[trigger] es[a]).1 != (#[trigger] es[b]).1,
    ensures
        first_named(es, es[i].1) == Some((es[i].0, es[i].2)),
    decreases es.len(),
{
    if i > 0 {
        let rest = es.drop_first();
        assert(es[0].1 != es[i].1);
        assert forall|a: int, b: int| 0 <= a < b < rest.len() implies (#[trigger] rest[a]).1 != (
        #[trigger] rest[b]).1 by {
            assert(es[a + 1].1 != es[b + 1].1);
        }
        lemma_first_named(rest, i - 1);
    }
}

/// What is found by a name is an entry.
proof fn lemma_named_is_entry(es: Seq<(bool, Seq<char>, Seq<u8>)>, name: Seq<char>) -> (i: int)
    requires
        first_named(es, name) is Some,
    ensures
        0 <= i < es.len(),
        es[i].1 == name,
        first_named(es, name) == Some((es[i].0, es[i].2)),
    decreases es.len(),
{
    if es[0].1 == name {
        0
    } else {
        let j = lemma_named_is_entry(es.drop_first(), name);
        j + 1
    }
}

/// A name is the last part of the path of a child.
proof fn lemma_child_parts(prefix: Seq<char>, name: Seq<char>)
    requires
        entry_name(name),
    ensures
        parts_of(child(prefix, name)) == parts_of(prefix).push(name),
        child(prefix, name).len() > 0,
{
    lemma_last_piece(prefix, '/', name);
    assert(parts_of(seq![]).push(name) =~= seq![name]);
}

/// An entry of a directory resolves by the path of the child.
proof fn lemma_child_resolves(
    store: Store,
    root: Seq<u8>,
    prefix: Seq<char>,
    dir: Seq<u8>,
    name: Seq<char>,
)
    requires
        path_at(store, root, prefix) == Some((true, dir)),
        entry_name(name),
    ensures
        path_at(store, root, child(prefix, name)) == entry_at(store, dir, name),
{
    lemma_child_parts(prefix, name);
    assert(parts_of(prefix).push(name).drop_last() =~= parts_of(prefix));
}

/// A file below a directory is one at or below one of its entries.
proof fn lemma_leaf_has_entry(
    entries: Seq<(Seq<char>, Node)>,
    prefix: Seq<char>,
    leaf: (Seq<char>, Seq<u8>),
) -> (i: int)
    requires
        leaves(entries, prefix).contains(leaf),
    ensures
        0 <= i < entries.len(),
        entry_leaves(entries[i], prefix).contains(leaf),
    decreases entries.len(),
{
    let here = entry_leaves(entries[0], prefix);
    let rest = leaves(entries.drop_first(), prefix);
    let k = choose|k: int|
        0 <= k < leaves(entries, prefix).len() && leaves(entries, prefix)[k] == leaf;
    assert(leaves(entries, prefix) == here + rest);
    if k < here.len() {
        assert(here[k] == leaf);
        0
    } else {
        assert(rest[k - here.len()] == leaf);
        let j = lemma_leaf_has_entry(entries.drop_first(), prefix, leaf);
        j + 1
    }
}

/// A file at or below an entry is one below the directory.
proof fn lemma_entry_leaf(
    entries: Seq<(Seq<char>, Node)>,
    prefix: Seq<char>,
    i: int,
    leaf: (Seq<char>, Seq<u8>),
)
    requires
        0 <= i < entries.len(),
        entry_leaves(entries[i], prefix).contains(leaf),
    ensures
        leaves(entries, prefix).contains(leaf),
    decreases entries.len(),
{
    let here = entry_leaves(entries[0], prefix);
    let rest = leaves(entries.drop_first(), prefix);
    assert(leaves(entries, prefix) == here + rest);
    if i == 0 {
        let k = choose|k: int| 0 <= k < here.len() && here[k] == leaf;
        assert((here + rest)[k] == leaf);
    } else {
        lemma_entry_leaf(entries.drop_first(), prefix, i - 1, leaf);
        let k = choose|k: int| 0 <= k < rest.len() && rest[k] == leaf;
        assert((here + rest)[here.len() + k] == leaf);
    }
}

/// A file below a directory resolves by its path.
proof fn lemma_leaf_resolves(
    store: Store,
    root: Seq<u8>,
    prefix: Seq<char>,
    dir: Seq<u8>,
    entries: Seq<(Seq<char>, Node)>,
    leaf: (Seq<char>, Seq<u8>),
)
    requires
        path_at(store, root, prefix) == Some((true, dir)),
        stored(store, dir, entries),
        tidy(entries),
        leaves(entries, prefix).contains(leaf),
    ensures
        path_at(store, root, leaf.0) == Some((false, leaf.1)),
    decreases entries,
{
    let i = lemma_leaf_has_entry(entries, prefix, leaf);
    let es = tree_at(store, dir)->0;
    let name = entries[i].0;
    assert(es[i].1 == name);
    lemma_child_resolves(store, root, prefix, dir, name);
    assert forall|a: int, b: int| 0 <= a < b < es.len() implies (#[trigger] es[a]).1 != (
    #[trigger] es[b]).1 by {
        assert(es[a].1 == entries[a].0 && es[b].1 == entries[b].0);
    }
    lemma_first_named(es, i);
    match entries[i].1 {
        Node::File { oid } => {
            assert(entry_leaves(entries[i], prefix)[0] == leaf);
        },
        Node::Dir { entries: below } => {
            lemma_leaf_resolves(store, root, child(prefix, name), es[i].2, below, leaf);
        },
    }
}

/// The path that the names `parts` make.
pub open spec fn path_of(parts: Seq<Seq<char>>) -> Seq<char>
    decreases parts.len(),
{
    if parts.len() == 0 {
        seq![]
    } else {
        child(path_of(parts.drop_last()), parts.last())
    }
}

/// A path with a slash has a last one.
proof fn lemma_last_slash(path: Seq<char>) -> (k: int)
    requires
        path.contains('/'),
    ensures
        0 <= k < path.len(),
        path[k] == '/',
        !path.skip(k + 1).contains('/'),
    decreases path.len(),
{
    let n = path.len() - 1;
    if path[n] == '/' {
        assert(path.skip(n + 1) =~= seq![]);
        n
    } else {
        let rest = path.drop_last();
        let at = choose|at: int| 0 <= at < path.len() && path[at] == '/';
        assert(rest[at] == '/');
        let k = lemma_last_slash(rest);
        assert(!path.skip(k + 1).contains('/')) by {
            let behind = path.skip(k + 1);
            if behind.contains('/') {
                let j = choose|j: int| 0 <= j < behind.len() && behind[j] == '/';
                assert(path[k + 1 + j] == '/');
                assert(rest.skip(k + 1)[j] == '/');
            }
        }
        k
    }
}

/// A path is made of its parts, where none of them is empty.
proof fn lemma_path_of_parts(path: Seq<char>)
    requires
        forall|i: int| 0 <= i < parts_of(path).len() ==> (#[trigger] parts_of(path)[i]).len() > 0,
    ensures
        path_of(parts_of(path)) == path,
    decreases path.len(),
{
    if path.len() == 0 {
        assert(path_of(parts_of(path)) =~= path);
    } else if path.contains('/') {
        let k = lemma_last_slash(path);
        let a = path.take(k);
        let b = path.skip(k + 1);
        assert(path =~= a + seq!['/'] + b);
        lemma_last_piece(a, '/', b);
        let parts = pieces(path, '/');
        assert(parts == pieces(a, '/').push(b));
        if a.len() == 0 {
            lemma_last_piece(seq![], '/', a);
            assert(pieces(a, '/')[0] == a);
            assert(parts_of(path)[0] == a);
        }
        assert forall|i: int| 0 <= i < parts_of(a).len() implies (
        #[trigger] parts_of(a)[i]).len() > 0 by {
            assert(parts_of(path)[i] == parts_of(a)[i]);
        }
        lemma_path_of_parts(a);
        assert(parts.drop_last() =~= parts_of(a));
        assert(parts_of(path).last() == b);
        assert(path_of(parts_of(path)) == child(a, b));
    } else {
        lemma_last_piece(seq![], '/', path);
        assert(parts_of(path) == seq![path]);
        let none: Seq<Seq<char>> = seq![];
        assert(parts_of(path).drop_last() =~= none);
        assert(path_of(none) =~= seq![]);
        assert(parts_of(path).last() == path);
    }
}

/// A directory that names lead to is stored, and its files are among those of the whole tree.
proof fn lemma_resolved_directory(
    store: Store,
    root: Seq<u8>,
    entries: Seq<(Seq<char>, Node)>,
    parts: Seq<Seq<char>>,
    dir: Seq<u8>,
) -> (found: Seq<(Seq<char>, Node)>)
    requires
        stored(store, root, entries),
        tidy(entries),
        resolved(store, root, parts) == Some((true, dir)),
    ensures
        stored(store, dir, found),
        tidy(found),
        forall|leaf: (Seq<char>, Seq<u8>)| #[trigger]
            leaves(found, path_of(parts)).contains(leaf) ==> leaves(entries, seq![]).contains(leaf),
        forall|i: int| 0 <= i < parts.len() ==> (#[trigger] parts[i]).len() > 0,
    decreases parts.len(),
{
    if parts.len() == 0 {
        entries
    } else {
        let above = parts.drop_last();
        let parent = (resolved(store, root, above)->0).1;
        let upper = lemma_resolved_directory(store, root, entries, above, parent);
        let es = tree_at(store, parent)->0;
        let i = lemma_named_is_entry(es, parts.last());
        assert(es[i].1 == upper[i].0);
        assert(entry_name(upper[i].0));
        let found = upper[i].1->entries;
        assert forall|leaf: (Seq<char>, Seq<u8>)| #[trigger]
            leaves(found, path_of(parts)).contains(leaf) implies leaves(
            entries,
            seq![],
        ).contains(leaf) by {
            assert(entry_leaves(upper[i], path_of(above)).contains(leaf));
            lemma_entry_leaf(upper, path_of(above), i, leaf);
        }
        assert forall|j: int| 0 <= j < parts.len() implies (#[trigger] parts[j]).len() > 0 by {
            if j < parts.len() - 1 {
                assert(above[j] == parts[j]);
            }
        }
        found
    }
}

/// A walk over a tree finds, for each path, the file that the path resolves to, and nothing for a
/// path that resolves to no file.
pub proof fn law_walk_finds_what_paths_resolve_to(
    store: Store,
    root: Seq<u8>,
    entries: Seq<(Seq<char>, Node)>,
    path: Seq<char>,
    oid: Seq<u8>,
)
    requires
        stored(store, root, entries),
        tidy(entries),
    ensures
        leaves(entries, seq![]).contains((path, oid)) <==> path_at(store, root, path) == Some(
            (false, oid),
        ),
{
    if leaves(entries, seq![]).contains((path, oid)) {
        lemma_leaf_resolves(store, root, seq![], root, entries, (path, oid));
    }
    if path_at(store, root, path) == Some((false, oid)) {
        let parts = parts_of(path);
        let above = parts.drop_last();
        let parent = (resolved(store, root, above)->0).1;
        let upper = lemma_resolved_directory(store, root, entries, above, parent);
        let es = tree_at(store, parent)->0;
        let i = lemma_named_is_entry(es, parts.last());
        assert(es[i].1 == upper[i].0);
        assert(entry_name(upper[i].0));
        assert forall|j: int| 0 <= j < parts.len() implies (#[trigger] parts_of(path)[j]).len()
            > 0 by {
            if j < parts.len() - 1 {
                assert(above[j] == parts[j]);
            }
        }
        lemma_path_of_parts(path);
        assert(child(path_of(above), upper[i].0) == path);
        assert(entry_leaves(upper[i], path_of(above))[0] == (path, oid));
        lemma_entry_leaf(upper, path_of(above), i, (path, oid));
    }
}

/// Whether `repo` answers about `rev` from the tree with the id `root`: a path resolves to what it
/// is there, and the listing is that of a walk.
pub open spec fn answers_from(
    repo: Repo,
    rev: Seq<char>,
    store: Store,
    root: Seq<u8>,
    entries: Seq<(Seq<char>, Node)>,
) -> bool {
    &&& forall|path: Seq<char>| #[trigger]
        path_oid(repo, rev, path) == match path_at(store, root, path) {
            Some((_, oid)) => Some(hex(oid)),
            None => None,
        }
    &&& (repo.listing)(rev) matches Ok(listing)
    &&& listing.len() == leaves(entries, seq![]).len()
    &&& forall|i: int|
        0 <= i < listing.len() ==> (#[trigger] listing[i]).path == leaves(entries, seq![])[i].0
            && listing[i].oid == hex(leaves(entries, seq![])[i].1)
}

/// In a repository that answers from a stored tree, every path that is listed resolves to the id
/// that is listed, which is what a client that asks about its files relies on.
pub proof fn law_listed_paths_resolve(
    repo: Repo,
    rev: Seq<char>,
    store: Store,
    root: Seq<u8>,
    entries: Seq<(Seq<char>, Node)>,
)
    requires
        stored(store, root, entries),
        tidy(entries),
        answers_from(repo, rev, store, root, entries),
    ensures
        listing_resolves(repo, rev),
{
    let listing = (repo.listing)(rev)->Ok_0;
    assert forall|i: int| 0 <= i < listing.len() implies path_oid(
        repo,
        rev,
        (#[trigger] listing[i]).path,
    ) == Some(listing[i].oid) by {
        let leaf = leaves(entries, seq![])[i];
        assert(leaves(entries, seq![]).contains(leaf));
        law_walk_finds_what_paths_resolve_to(store, root, entries, leaf.0, leaf.1);
    }
}

/// The text that the paths of the children of `prefix` begin with.
pub open spec fn base_of(prefix: Seq<char>) -> Seq<char> {
    if prefix.len() == 0 {
        seq![]
    } else {
        prefix.push('/')
    }
}

/// Whether `path` is that of `entry` or one below it.
pub open spec fn under(
    prefix: Seq<char>,
    entry: (Seq<char>, Node),
    path: Seq<char>,
    tail: Seq<char>,
) -> bool {
    &&& path == base_of(prefix) + sort_key(entry) + tail
    &&& entry.1 is File ==> tail.len() == 0
}

proof fn lemma_leaf_under(
    entry: (Seq<char>, Node),
    prefix: Seq<char>,
    leaf: (Seq<char>, Seq<u8>),
) -> (tail: Seq<char>)
    requires
        entry_name(entry.0),
        entry.1 matches Node::Dir { entries: below } ==> sorted(below),
        entry_leaves(entry, prefix).contains(leaf),
    ensures
        under(prefix, entry, leaf.0, tail),
    decreases entry,
{
    let path = child(prefix, entry.0);
    assert(path =~= base_of(prefix) + entry.0);
    match entry.1 {
        Node::File { oid } => {
            let tail: Seq<char> = seq![];
            assert(leaf.0 == path);
            assert(path =~= base_of(prefix) + sort_key(entry) + tail);
            tail
        },
        Node::Dir { entries: below } => {
            let i = lemma_leaf_has_entry(below, path, leaf);
            assert(entry_name(below[i].0));
            let rest = lemma_leaf_under(below[i], path, leaf);
            let tail = sort_key(below[i]) + rest;
            assert(leaf.0 =~= base_of(prefix) + sort_key(entry) + tail);
            tail
        },
    }
}

/// The order of two entries is that of the paths at and below them.
proof fn lemma_order_extends(
    prefix: Seq<char>,
    a: (Seq<char>, Node),
    a_path: Seq<char>,
    a_tail: Seq<char>,
    b: (Seq<char>, Node),
    b_path: Seq<char>,
    b_tail: Seq<char>,
)
    requires
        entry_name(a.0),
        entry_name(b.0),
        precedes(sort_key(a), sort_key(b)),
        under(prefix, a, a_path, a_tail),
        under(prefix, b, b_path, b_tail),
    ensures
        precedes(a_path, b_path),
{
    let base = base_of(prefix);
    let x = sort_key(a);
    let y = sort_key(b);
    let k = choose|k: int| parts_at(x, y, k);
    let at = base.len() + k;
    assert(x.take(k) == y.take(k));
    assert forall|i: int| 0 <= i < k implies x[i] == y[i] by {
        assert(x.take(k)[i] == y.take(k)[i]);
    }
    assert(a_path.take(at) =~= b_path.take(at)) by {
        assert forall|i: int| 0 <= i < at implies a_path[i] == b_path[i] by {
            if i >= base.len() {
                assert(a_path[i] == x[i - base.len()]);
                assert(b_path[i] == y[i - base.len()]);
            }
        }
    }
    if k == x.len() && a.1 is Dir {
        assert(x[k - 1] == '/');
        assert(y[k - 1] == '/');
        assert(b.0[k - 1] == '/');
    }
    assert(parts_at(a_path, b_path, at));
}

/// Where the entries of every directory stand in git's order, a walk finds the files in the order
/// of their paths, no path twice.
pub proof fn law_walk_ascends(entries: Seq<(Seq<char>, Node)>, prefix: Seq<char>, i: int, j: int)
    requires
        sorted(entries),
        0 <= i < j < leaves(entries, prefix).len(),
    ensures
        precedes(leaves(entries, prefix)[i].0, leaves(entries, prefix)[j].0),
        leaves(entries, prefix)[i].0 != leaves(entries, prefix)[j].0,
    decreases entries,
{
    let all = leaves(entries, prefix);
    let here = entry_leaves(entries[0], prefix);
    let others = entries.drop_first();
    let rest = leaves(others, prefix);
    assert(all == here + rest);
    assert(entry_name(entries[0].0));
    if i >= here.len() {
        assert forall|a: int| 0 <= a < others.len() implies {
            &&& entry_name((#[trigger] others[a]).0)
            &&& match others[a].1 {
                Node::File { .. } => true,
                Node::Dir { entries: below } => sorted(below),
            }
        } by {
            assert(entry_name(entries[a + 1].0));
        }
        assert forall|a: int, b: int| 0 <= a < b < others.len() implies precedes(
            sort_key(#[trigger] others[a]),
            sort_key(#[trigger] others[b]),
        ) by {
            assert(precedes(sort_key(entries[a + 1]), sort_key(entries[b + 1])));
        }
        law_walk_ascends(others, prefix, i - here.len(), j - here.len());
    } else if j < here.len() {
        match entries[0].1 {
            Node::File { .. } => {},
            Node::Dir { entries: below } => {
                law_walk_ascends(below, child(prefix, entries[0].0), i, j);
            },
        }
    } else {
        let x = all[i];
        let y = all[j];
        assert(here[i] == x);
        assert(rest[j - here.len()] == y);
        let m = lemma_leaf_has_entry(others, prefix, y);
        assert(others[m] == entries[m + 1]);
        assert(entry_name(entries[m + 1].0));
        let x_tail = lemma_leaf_under(entries[0], prefix, x);
        let y_tail = lemma_leaf_under(entries[m + 1], prefix, y);
        assert(precedes(sort_key(entries[0]), sort_key(entries[m + 1])));
        lemma_order_extends(prefix, entries[0], x.0, x_tail, entries[m + 1], y.0, y_tail);
    }
}

/// The kind and the size of the object with the id `oid`, where `size` gives the sizes.
pub open spec fn kind_and_size(
    store: Store,
    size: spec_fn(Seq<u8>) -> u64,
    oid: Seq<u8>,
) -> Option<(ObjectKind, u64)> {
    match (store.object)(oid) {
        Some((kind, _)) => Some((kind, size(oid))),
        None => None,
    }
}

/// What a listing says of a child is what `stat` says of its path: the entry and the path lead to
/// the same object, and its kind and size are reported alike.
pub proof fn law_listed_child_is_what_stat_gives(
    store: Store,
    root: Seq<u8>,
    rel: Seq<char>,
    dir: Seq<u8>,
    size: spec_fn(Seq<u8>) -> u64,
    i: int,
)
    requires
        path_at(store, root, rel) == Some((true, dir)),
        tree_at(store, dir) is Some,
        well_named(tree_at(store, dir)->0),
        0 <= i < (tree_at(store, dir)->0).len(),
        ({
            let e = (tree_at(store, dir)->0)[i];
            kind_and_size(store, size, e.2) == Some(
                if e.0 {
                    (ObjectKind::Tree, size(e.2))
                } else {
                    (ObjectKind::Blob, size(e.2))
                },
            )
        }),
    ensures
        ({
            let e = (tree_at(store, dir)->0)[i];
            let path = child(rel, e.1);
            let shown = entry_of(e, size);
            &&& shown.name == e.1
            &&& path_at(store, root, path) == Some((shown.is_dir, e.2))
            &&& stat_of(path, kind_and_size(store, size, e.2)) == Some((shown.is_dir, shown.size))
        }),
{
    let es = tree_at(store, dir)->0;
    assert(entry_name(es[i].1));
    lemma_child_resolves(store, root, rel, dir, es[i].1);
    lemma_child_parts(rel, es[i].1);
    lemma_first_named(es, i);
}

} // verus!
