//! Copying what one object store lacks from another.
//!
//! An [`ObjectCopy`] hands out the ids to look at, one after the other, and takes the objects
//! that had to be copied. It never descends into an object that the target already has.
use crate::trusted::{commit_links, decode_commit, decode_tree, tree_entries, TreeEntry};
use crate::walk::{stored, tree_at, Node, ObjectKind, Store};
use vstd::prelude::*;

verus! {

/// The ids that an object names: those of the tree and the parents of a commit, those of the
/// entries of a tree. `None` if the object cannot be decoded.
pub open spec fn links(kind: ObjectKind, data: Seq<u8>) -> Option<Seq<Seq<u8>>> {
    match kind {
        ObjectKind::Commit => match commit_links(data) {
            Some((tree, parents)) => Some(seq![tree] + parents),
            None => None,
        },
        ObjectKind::Tree => match tree_entries(data) {
            Some(entries) => Some(entries.map_values(|e: (bool, Seq<char>, Seq<u8>)| e.2)),
            None => None,
        },
        ObjectKind::Blob => Some(seq![]),
        ObjectKind::Tag => Some(seq![]),
    }
}

/// The bytes of each id.
pub open spec fn ids(v: Seq<Vec<u8>>) -> Seq<Seq<u8>> {
    v.map_values(|id: Vec<u8>| id@)
}

/// The ids that the object `data` names.
pub fn object_links(kind: ObjectKind, data: &[u8]) -> (r: Option<Vec<Vec<u8>>>)
    ensures
        match r {
            Some(found) => links(kind, data@) == Some(ids(found@)),
            None => links(kind, data@) is None,
        },
{
    match kind {
        ObjectKind::Commit => match decode_commit(data) {
            Some(commit) => {
                let mut found: Vec<Vec<u8>> = Vec::new();
                let ghost tree = commit.tree@;
                let ghost parents = ids(commit.parents@);
                found.push(commit.tree);
                let mut parents_left: Vec<Vec<u8>> = commit.parents;
                found.append(&mut parents_left);
                assert(ids(found@) =~= seq![tree] + parents);
                Some(found)
            },
            None => None,
        },
        ObjectKind::Tree => match decode_tree(data) {
            Some(entries) => {
                let mut found: Vec<Vec<u8>> = Vec::new();
                for entry in it: entries
                    invariant
                        it.seq() == entries@,
                        ids(found@) == entries@.map_values(|e: TreeEntry| e.oid@).take(
                            it.index() as int,
                        ),
                {
                    let ghost before = ids(found@);
                    let ghost id = entry.oid@;
                    found.push(entry.oid);
                    assert(ids(found@) =~= before.push(id));
                }
                assert(ids(found@) =~= links(kind, data@)->0);
                Some(found)
            },
            None => None,
        },
        _ => {
            let found: Vec<Vec<u8>> = Vec::new();
            assert(ids(found@) =~= seq![]);
            Some(found)
        },
    }
}

/// The kind and the bytes of an optional object.
pub open spec fn borrowed(object: Option<(ObjectKind, &[u8])>) -> Option<(ObjectKind, Seq<u8>)> {
    match object {
        Some((kind, data)) => Some((kind, data@)),
        None => None,
    }
}

/// Why an object cannot be copied.
#[derive(Debug, Clone, Copy, PartialEq, Eq, Structural)]
pub enum CopyError {
    /// The source lacks the object.
    Missing,
    /// The object cannot be decoded.
    Malformed,
}

/// The ids that are still to be looked at; the last comes first.
#[derive(Debug)]
pub struct ObjectCopy {
    pub stack: Vec<Vec<u8>>,
}

impl ObjectCopy {
    /// Starts copying what is reachable from `start`.
    pub fn new(start: Vec<u8>) -> (r: Self)
        ensures
            ids(r.stack@) == seq![start@],
            forall|target: Set<Seq<u8>>| #[trigger]
                r.at(target) == (Copying { stack: seq![start@], target }),
    {
        let mut stack: Vec<Vec<u8>> = Vec::new();
        stack.push(start);
        assert(ids(stack@) =~= seq![start@]);
        ObjectCopy { stack }
    }

    /// The id to look at next. If the target has it, [`ObjectCopy::known`] goes on; otherwise the
    /// object has to be handed to [`ObjectCopy::copied`] and written to the target.
    pub fn next(&self) -> (r: Option<Vec<u8>>)
        ensures
            match r {
                None => ids(self.stack@).len() == 0,
                Some(id) => ids(self.stack@).len() > 0 && id@ == ids(self.stack@).last(),
            },
    {
        let n: usize = self.stack.len();
        if n == 0 {
            None
        } else {
            Some(self.stack[n - 1].clone())
        }
    }

    /// Goes on past an id that the target has.
    pub fn known(&mut self)
        requires
            ids(old(self).stack@).len() > 0,
        ensures
            ids(final(self).stack@) == ids(old(self).stack@).drop_last(),
            forall|store: Store, target: Set<Seq<u8>>|
                #![trigger copy_step(store, old(self).at(target), final(self).at(target))]
                target.contains(ids(old(self).stack@).last()) ==> copy_step(
                    store,
                    old(self).at(target),
                    final(self).at(target),
                ),
    {
        let ghost before = ids(self.stack@);
        let _ = self.stack.pop();
        assert(ids(self.stack@) =~= before.drop_last());
    }

    /// Takes the object that the target lacks: what it names is to be looked at too.
    pub fn copied(&mut self, object: Option<(ObjectKind, &[u8])>) -> (r: Result<(), CopyError>)
        requires
            ids(old(self).stack@).len() > 0,
        ensures
            match object {
                None => r == Err::<(), CopyError>(CopyError::Missing) && *final(self) == *old(
                    self,
                ),
                Some((kind, data)) => match links(kind, data@) {
                    None => r == Err::<(), CopyError>(CopyError::Malformed) && *final(self)
                        == *old(self),
                    Some(found) => r is Ok && ids(final(self).stack@) == ids(
                        old(self).stack@,
                    ).drop_last() + found,
                },
            },
            forall|store: Store, target: Set<Seq<u8>>|
                #![trigger
                    copy_step(
                        store,
                        old(self).at(target),
                        final(self).at(target.insert(ids(old(self).stack@).last())),
                    )]
                r is Ok && !target.contains(ids(old(self).stack@).last()) && (store.object)(
                    ids(old(self).stack@).last(),
                ) == borrowed(object) ==> copy_step(
                    store,
                    old(self).at(target),
                    final(self).at(target.insert(ids(old(self).stack@).last())),
                ),
    {
        match object {
            None => Err(CopyError::Missing),
            Some((kind, data)) => match object_links(kind, data) {
                None => Err(CopyError::Malformed),
                Some(found) => {
                    let ghost before = ids(self.stack@);
                    let ghost names = ids(found@);
                    let mut found: Vec<Vec<u8>> = found;
                    let _ = self.stack.pop();
                    self.stack.append(&mut found);
                    assert(ids(self.stack@) =~= before.drop_last() + names);
                    Ok(())
                },
            },
        }
    }

    /// Where the copy stands when the target has the ids `target`.
    pub open spec fn at(self, target: Set<Seq<u8>>) -> Copying {
        Copying { stack: ids(self.stack@), target }
    }
}

/// Where a copy stands: the ids to look at, and the ids that the target has.
pub struct Copying {
    pub stack: Seq<Seq<u8>>,
    pub target: Set<Seq<u8>>,
}

/// The ids that the object with the id `id` names in `store`.
pub open spec fn links_at(store: Store, id: Seq<u8>) -> Option<Seq<Seq<u8>>> {
    match (store.object)(id) {
        Some((kind, data)) => links(kind, data),
        None => None,
    }
}

/// Whether `b` comes after `a` when the last id on the stack is looked at: it is dropped if the
/// target has it; otherwise it is copied and what it names goes onto the stack.
pub open spec fn copy_step(store: Store, a: Copying, b: Copying) -> bool {
    let id = a.stack.last();
    &&& a.stack.len() > 0
    &&& if a.target.contains(id) {
        b == (Copying { stack: a.stack.drop_last(), target: a.target })
    } else {
        &&& links_at(store, id) matches Some(found)
        &&& b == (Copying { stack: a.stack.drop_last() + found, target: a.target.insert(id) })
    }
}

/// Whether `run` is a copy of what is reachable from `start` into a target that has `target`.
pub open spec fn copy_run(
    store: Store,
    start: Seq<u8>,
    target: Set<Seq<u8>>,
    run: Seq<Copying>,
) -> bool {
    &&& run.len() > 0
    &&& run[0] == (Copying { stack: seq![start], target })
    &&& forall|i: int| 0 <= i < run.len() - 1 ==> copy_step(store, #[trigger] run[i], run[i + 1])
}

/// Whether every object of `have` that `store` knows names only objects of `have` or `also`.
pub open spec fn closed_but_for(
    store: Store,
    have: Set<Seq<u8>>,
    also: Seq<Seq<u8>>,
) -> bool {
    forall|id: Seq<u8>, k: int|
        #![trigger have.contains(id), links_at(store, id)->0[k]]
        have.contains(id) && links_at(store, id) is Some && 0 <= k < links_at(store, id)->0.len()
            ==> have.contains(links_at(store, id)->0[k]) || also.contains(
            links_at(store, id)->0[k],
        )
}

/// Whether `path` leads from one object to the next by what they name.
pub open spec fn link_path(store: Store, path: Seq<Seq<u8>>) -> bool {
    &&& path.len() > 0
    &&& forall|i: int|
        0 <= i < path.len() - 1 ==> links_at(store, #[trigger] path[i]) is Some && links_at(
            store,
            path[i],
        )->0.contains(path[i + 1])
}

/// Whether `id` is reachable from `start`.
pub open spec fn reachable(store: Store, start: Seq<u8>, id: Seq<u8>) -> bool {
    exists|path: Seq<Seq<u8>>| #[trigger]
        link_path(store, path) && path.first() == start && path.last() == id
}

proof fn lemma_run_invariant(
    store: Store,
    start: Seq<u8>,
    target: Set<Seq<u8>>,
    run: Seq<Copying>,
    i: int,
)
    requires
        copy_run(store, start, target, run),
        closed_but_for(store, target, seq![]),
        0 <= i < run.len(),
    ensures
        closed_but_for(store, run[i].target, run[i].stack),
        run[i].target.contains(start) || run[i].stack.contains(start),
        forall|id: Seq<u8>| target.contains(id) ==> #[trigger] run[i].target.contains(id),
        forall|id: Seq<u8>| #[trigger]
            run[i].target.contains(id) ==> target.contains(id) || reachable(store, start, id),
        forall|k: int|
            0 <= k < run[i].stack.len() ==> reachable(store, start, #[trigger] run[i].stack[k]),
    decreases i,
{
    if i == 0 {
        assert(run[0].stack[0] == start);
        assert(link_path(store, seq![start]));
        assert(seq![start].first() == start && seq![start].last() == start);
        assert(reachable(store, start, start));
    } else {
        lemma_run_invariant(store, start, target, run, i - 1);
        let a = run[i - 1];
        let b = run[i];
        assert(copy_step(store, run[i - 1], run[i - 1 + 1]));
        let id = a.stack.last();
        assert(reachable(store, start, a.stack[a.stack.len() - 1]));
        assert forall|c: Seq<u8>| a.stack.contains(c) implies c == id || b.stack.contains(c) by {
            let k = choose|k: int| 0 <= k < a.stack.len() && a.stack[k] == c;
            if k < a.stack.len() - 1 {
                assert(b.stack[k] == c);
            }
        }
        if a.target.contains(id) {
            assert forall|x: Seq<u8>, k: int|
                #![trigger b.target.contains(x), links_at(store, x)->0[k]]
                b.target.contains(x) && links_at(store, x) is Some && 0 <= k < links_at(
                    store,
                    x,
                )->0.len() implies b.target.contains(links_at(store, x)->0[k])
                || b.stack.contains(links_at(store, x)->0[k]) by {
                assert(a.target.contains(x));
            }
            assert forall|k: int| 0 <= k < b.stack.len() implies reachable(
                store,
                start,
                #[trigger] b.stack[k],
            ) by {
                assert(b.stack[k] == a.stack[k]);
            }
        } else {
            let found = links_at(store, id)->0;
            assert forall|x: Seq<u8>, k: int|
                #![trigger b.target.contains(x), links_at(store, x)->0[k]]
                b.target.contains(x) && links_at(store, x) is Some && 0 <= k < links_at(
                    store,
                    x,
                )->0.len() implies b.target.contains(links_at(store, x)->0[k])
                || b.stack.contains(links_at(store, x)->0[k]) by {
                if x == id {
                    assert(b.stack[a.stack.len() - 1 + k] == found[k]);
                } else {
                    assert(a.target.contains(x));
                }
            }
            assert forall|k: int| 0 <= k < b.stack.len() implies reachable(
                store,
                start,
                #[trigger] b.stack[k],
            ) by {
                if k < a.stack.len() - 1 {
                    assert(b.stack[k] == a.stack[k]);
                } else {
                    lemma_reachable_step(store, start, id, found[k - (a.stack.len() - 1)]);
                }
            }
        }
    }
}

proof fn lemma_reachable_step(store: Store, start: Seq<u8>, id: Seq<u8>, next: Seq<u8>)
    requires
        reachable(store, start, id),
        links_at(store, id) is Some,
        links_at(store, id)->0.contains(next),
    ensures
        reachable(store, start, next),
{
    let path = choose|path: Seq<Seq<u8>>| #[trigger]
        link_path(store, path) && path.first() == start && path.last() == id;
    let longer = path.push(next);
    assert forall|i: int| 0 <= i < longer.len() - 1 implies links_at(
        store,
        #[trigger] longer[i],
    ) is Some && links_at(store, longer[i])->0.contains(longer[i + 1]) by {
        if i < path.len() - 1 {
            assert(longer[i] == path[i]);
            assert(longer[i + 1] == path[i + 1]);
        } else {
            assert(longer[i] == id);
        }
    }
    assert(link_path(store, longer));
    assert(longer.first() == start && longer.last() == next);
}

/// Once a copy into a target that lacked nothing of what its objects name is over, the target
/// has everything that is reachable from the start, still lacks nothing, has lost nothing, and
/// has gained only what is reachable.
pub proof fn law_copy_is_complete(
    store: Store,
    start: Seq<u8>,
    target: Set<Seq<u8>>,
    run: Seq<Copying>,
)
    requires
        copy_run(store, start, target, run),
        closed_but_for(store, target, seq![]),
        run.last().stack.len() == 0,
    ensures
        forall|id: Seq<u8>| #[trigger]
            reachable(store, start, id) ==> run.last().target.contains(id),
        closed_but_for(store, run.last().target, seq![]),
        forall|id: Seq<u8>| #[trigger] target.contains(id) ==> run.last().target.contains(id),
        forall|id: Seq<u8>| #[trigger]
            run.last().target.contains(id) ==> target.contains(id) || reachable(store, start, id),
{
    let end = run.last();
    lemma_run_invariant(store, start, target, run, run.len() - 1);
    assert(end.stack =~= seq![]);
    assert forall|id: Seq<u8>| #[trigger] reachable(store, start, id) implies end.target.contains(
        id,
    ) by {
        let path = choose|path: Seq<Seq<u8>>| #[trigger]
            link_path(store, path) && path.first() == start && path.last() == id;
        lemma_path_inside(store, end.target, path, path.len() - 1);
    }
}

proof fn lemma_path_inside(store: Store, have: Set<Seq<u8>>, path: Seq<Seq<u8>>, i: int)
    requires
        closed_but_for(store, have, seq![]),
        link_path(store, path),
        have.contains(path.first()),
        0 <= i < path.len(),
    ensures
        have.contains(path[i]),
    decreases i,
{
    if i > 0 {
        lemma_path_inside(store, have, path, i - 1);
        let found = links_at(store, path[i - 1])->0;
        assert(found.contains(path[i - 1 + 1]));
        let k = choose|k: int| 0 <= k < found.len() && found[k] == path[i];
        let next = links_at(store, path[i - 1])->0[k];
        assert(have.contains(next) || Seq::<Seq<u8>>::empty().contains(next));
    }
}

/// A tree that is reachable from the start of a finished copy can be walked in the target as it
/// can in the source: `target` has the same objects under the ids that were copied or known.
pub proof fn law_copied_tree_can_be_walked(
    source: Store,
    target: Store,
    have: Set<Seq<u8>>,
    start: Seq<u8>,
    root: Seq<u8>,
    entries: Seq<(Seq<char>, Node)>,
)
    requires
        forall|id: Seq<u8>| #[trigger] reachable(source, start, id) ==> have.contains(id),
        forall|id: Seq<u8>|
            have.contains(id) ==> #[trigger] (target.object)(id) == (source.object)(id),
        reachable(source, start, root),
        stored(source, root, entries),
    ensures
        stored(target, root, entries),
    decreases entries,
{
    let es = tree_at(source, root)->0;
    assert(have.contains(root));
    assert((target.object)(root) == (source.object)(root));
    assert(tree_at(target, root) == Some(es));
    let named = links_at(source, root)->0;
    assert forall|i: int| 0 <= i < entries.len() implies {
        &&& (#[trigger] es[i]).1 == entries[i].0
        &&& match entries[i].1 {
            Node::File { oid: o } => !es[i].0 && o == es[i].2,
            Node::Dir { entries: below } => es[i].0 && stored(target, es[i].2, below),
        }
    } by {
        assert(es[i].1 == entries[i].0);
        if let Node::Dir { entries: below } = entries[i].1 {
            assert(named[i] == es[i].2);
            lemma_reachable_step(source, start, root, es[i].2);
            law_copied_tree_can_be_walked(source, target, have, start, es[i].2, below);
        }
    }
}

/// Where the target already has the start, nothing is copied.
pub proof fn law_copy_stops_at_known_objects(
    store: Store,
    start: Seq<u8>,
    target: Set<Seq<u8>>,
    run: Seq<Copying>,
)
    requires
        copy_run(store, start, target, run),
        target.contains(start),
    ensures
        run.last().target == target,
        run.len() <= 2,
{
    if run.len() > 1 {
        assert(copy_step(store, run[0], run[0int + 1]));
        assert(run[1].stack =~= seq![]);
        if run.len() > 2 {
            assert(copy_step(store, run[1], run[1int + 1]));
        }
    }
}

/// An object names all that it points at: a commit its tree and every one of its parents, a tree
/// every one of its entries; a blob and a tag name nothing.
pub proof fn law_objects_name_all_they_point_at(data: Seq<u8>, id: Seq<u8>)
    ensures
        commit_links(data) is None <==> links(ObjectKind::Commit, data) is None,
        commit_links(data) matches Some((tree, parents)) ==> (links(
            ObjectKind::Commit,
            data,
        )->0.contains(id) <==> id == tree || parents.contains(id)),
        tree_entries(data) is None <==> links(ObjectKind::Tree, data) is None,
        tree_entries(data) matches Some(entries) ==> (links(
            ObjectKind::Tree,
            data,
        )->0.contains(id) <==> exists|i: int|
            0 <= i < entries.len() && (#[trigger] entries[i]).2 == id),
        links(ObjectKind::Blob, data) is Some && links(ObjectKind::Blob, data)->0.len() == 0,
        links(ObjectKind::Tag, data) is Some && links(ObjectKind::Tag, data)->0.len() == 0,
{
    if let Some((tree, parents)) = commit_links(data) {
        let named = links(ObjectKind::Commit, data)->0;
        assert(named =~= seq![tree] + parents);
        assert(named[0] == tree);
        if parents.contains(id) {
            let k = choose|k: int| 0 <= k < parents.len() && parents[k] == id;
            assert(named[k + 1] == id);
        }
        if named.contains(id) {
            let k = choose|k: int| 0 <= k < named.len() && named[k] == id;
            if k > 0 {
                assert(parents[k - 1] == id);
            }
        }
    }
    if let Some(entries) = tree_entries(data) {
        let named = links(ObjectKind::Tree, data)->0;
        if named.contains(id) {
            let k = choose|k: int| 0 <= k < named.len() && named[k] == id;
            assert(entries[k].2 == id);
        }
        if exists|i: int| 0 <= i < entries.len() && (#[trigger] entries[i]).2 == id {
            let i = choose|i: int| 0 <= i < entries.len() && (#[trigger] entries[i]).2 == id;
            assert(named[i] == id);
        }
    }
}

/// A copy brings a commit with all that it needs: after it, the target has the tree of every commit
/// that it has copied, its parents, and whatever the entries of its trees name.
pub proof fn law_copied_objects_miss_nothing(
    store: Store,
    start: Seq<u8>,
    target: Set<Seq<u8>>,
    run: Seq<Copying>,
    id: Seq<u8>,
    data: Seq<u8>,
    named: Seq<u8>,
)
    requires
        copy_run(store, start, target, run),
        closed_but_for(store, target, seq![]),
        run.last().stack.len() == 0,
        run.last().target.contains(id),
    ensures
        (store.object)(id) == Some((ObjectKind::Commit, data)) ==> (commit_links(data) matches Some(
            (tree, parents),
        ) ==> run.last().target.contains(tree) && (parents.contains(named)
            ==> run.last().target.contains(named))),
        (store.object)(id) == Some((ObjectKind::Tree, data)) ==> (tree_entries(data) matches Some(
            entries,
        ) ==> ((exists|i: int| 0 <= i < entries.len() && (#[trigger] entries[i]).2 == named)
            ==> run.last().target.contains(named))),
        run.last().target.contains(start),
{
    law_copy_is_complete(store, start, target, run);
    let end = run.last().target;
    assert(link_path(store, seq![start]));
    assert(seq![start].first() == start && seq![start].last() == start);
    assert(reachable(store, start, start));
    if let Some((kind, bytes)) = (store.object)(id) {
        law_objects_name_all_they_point_at(bytes, named);
        if kind == ObjectKind::Commit {
            if let Some((tree, parents)) = commit_links(bytes) {
                law_objects_name_all_they_point_at(bytes, tree);
                lemma_named_is_held(store, end, id, tree);
                if parents.contains(named) {
                    lemma_named_is_held(store, end, id, named);
                }
            }
        }
        if kind == ObjectKind::Tree {
            if let Some(entries) = tree_entries(bytes) {
                if exists|i: int| 0 <= i < entries.len() && (#[trigger] entries[i]).2 == named {
                    lemma_named_is_held(store, end, id, named);
                }
            }
        }
    }
}

proof fn lemma_named_is_held(store: Store, have: Set<Seq<u8>>, id: Seq<u8>, named: Seq<u8>)
    requires
        closed_but_for(store, have, seq![]),
        have.contains(id),
        links_at(store, id) is Some,
        links_at(store, id)->0.contains(named),
    ensures
        have.contains(named),
{
    let all = links_at(store, id)->0;
    let k = choose|k: int| 0 <= k < all.len() && all[k] == named;
    assert(have.contains(links_at(store, id)->0[k]) || Seq::<Seq<u8>>::empty().contains(
        links_at(store, id)->0[k],
    ));
}

/// Ids are taken as they are: every one, in its order.
pub proof fn law_ids_are_taken_as_they_are(v: Seq<Vec<u8>>, i: int)
    ensures
        ids(v).len() == v.len(),
        0 <= i < v.len() ==> ids(v)[i] == v[i]@,
{
}

} // verus!
