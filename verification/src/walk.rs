//! Walking a git tree: every file below it, with its path.
//!
//! A [`TreeWalk`] asks for one object after the other and collects the files in the order of the
//! tree entries, those of a directory in its place.
use crate::paths::{child, child_path};
use crate::trusted::{decode_tree, hex, id_to_hex, tree_entries, TreeEntry};
use vstd::prelude::*;

verus! {

/// What an object is.
#[derive(Debug, Clone, Copy, PartialEq, Eq, Structural)]
pub enum ObjectKind {
    Tree,
    Blob,
    Commit,
    Tag,
}

/// The objects of a repository: what the object with an id is, and its bytes.
pub struct Store {
    pub object: spec_fn(Seq<u8>) -> Option<(ObjectKind, Seq<u8>)>,
}

/// What a tree holds: files, and directories that hold more.
pub enum Node {
    File { oid: Seq<u8> },
    Dir { entries: Seq<(Seq<char>, Node)> },
}

/// The entries of the tree object with the id `oid`.
pub open spec fn tree_at(store: Store, oid: Seq<u8>) -> Option<Seq<(bool, Seq<char>, Seq<u8>)>> {
    match (store.object)(oid) {
        Some((kind, data)) => if kind == ObjectKind::Tree {
            tree_entries(data)
        } else {
            None
        },
        None => None,
    }
}

/// Whether the directory `entries` is what `store` has under the id `oid`.
pub open spec fn stored(store: Store, oid: Seq<u8>, entries: Seq<(Seq<char>, Node)>) -> bool
    decreases entries,
{
    &&& tree_at(store, oid) matches Some(es)
    &&& es.len() == entries.len()
    &&& forall|i: int|
        0 <= i < entries.len() ==> {
            &&& (#[trigger] es[i]).1 == entries[i].0
            &&& match entries[i].1 {
                Node::File { oid: o } => !es[i].0 && o == es[i].2,
                Node::Dir { entries: below } => es[i].0 && stored(store, es[i].2, below),
            }
        }
}

/// The files below `entries`, a directory with the path `prefix`, as path and blob id.
pub open spec fn leaves(entries: Seq<(Seq<char>, Node)>, prefix: Seq<char>) -> Seq<
    (Seq<char>, Seq<u8>),
>
    decreases entries,
{
    if entries.len() == 0 {
        seq![]
    } else {
        let path = child(prefix, entries[0].0);
        (match entries[0].1 {
            Node::File { oid } => seq![(path, oid)],
            Node::Dir { entries: below } => leaves(below, path),
        }) + leaves(entries.drop_first(), prefix)
    }
}

/// How many files and directories there are below `entries`.
pub open spec fn size(entries: Seq<(Seq<char>, Node)>) -> nat
    decreases entries,
{
    if entries.len() == 0 {
        0
    } else {
        (match entries[0].1 {
            Node::File { oid } => 1,
            Node::Dir { entries: below } => 1 + size(below),
        }) + size(entries.drop_first())
    }
}

/// An entry that the walk has yet to visit.
#[derive(Debug)]
pub struct Pending {
    pub path: String,
    pub is_tree: bool,
    pub oid: Vec<u8>,
}

/// An entry to visit: its path, whether it is a directory, and its id.
pub struct Item {
    pub path: Seq<char>,
    pub is_tree: bool,
    pub oid: Seq<u8>,
}

impl View for Pending {
    type V = Item;

    open spec fn view(&self) -> Item {
        Item { path: self.path@, is_tree: self.is_tree, oid: self.oid@ }
    }
}

/// Whether `node` is what `store` has for `item`.
pub open spec fn fits(store: Store, item: Item, node: Node) -> bool {
    match node {
        Node::File { oid } => !item.is_tree && oid == item.oid,
        Node::Dir { entries } => item.is_tree && stored(store, item.oid, entries),
    }
}

/// The files at and below `items`, whose nodes are `nodes`.
pub open spec fn files_of(items: Seq<Item>, nodes: Seq<Node>) -> Seq<(Seq<char>, Seq<u8>)>
    decreases items.len(),
{
    if items.len() == 0 {
        seq![]
    } else {
        (match nodes[0] {
            Node::File { oid } => seq![(items[0].path, oid)],
            Node::Dir { entries } => leaves(entries, items[0].path),
        }) + files_of(items.drop_first(), nodes.drop_first())
    }
}

/// How many files and directories there are at and below `nodes`.
pub open spec fn count(nodes: Seq<Node>) -> nat
    decreases nodes.len(),
{
    if nodes.len() == 0 {
        0
    } else {
        (match nodes[0] {
            Node::File { oid } => 1,
            Node::Dir { entries } => 1 + size(entries),
        }) + count(nodes.drop_first())
    }
}

/// The children of the directory at `path` as items to visit.
pub open spec fn items_of(path: Seq<char>, es: Seq<(bool, Seq<char>, Seq<u8>)>) -> Seq<Item> {
    es.map_values(
        |e: (bool, Seq<char>, Seq<u8>)|
            Item { path: child(path, e.1), is_tree: e.0, oid: e.2 },
    )
}

/// The nodes of `entries`.
pub open spec fn nodes_of(entries: Seq<(Seq<char>, Node)>) -> Seq<Node> {
    entries.map_values(|e: (Seq<char>, Node)| e.1)
}

/// A file that a walk found: its path, its blob id and what was read of it.
#[derive(Debug)]
pub struct Leaf<P> {
    pub path: String,
    pub oid: Vec<u8>,
    pub payload: P,
}

/// The path, the id and what was read of each leaf.
pub open spec fn leaf_views<P>(found: Seq<Leaf<P>>) -> Seq<(Seq<char>, Seq<u8>, P)> {
    found.map_values(|l: Leaf<P>| (l.path@, l.oid@, l.payload))
}

/// `files` with what `read` gives for each id.
pub open spec fn with_payload<P>(
    files: Seq<(Seq<char>, Seq<u8>)>,
    read: spec_fn(Seq<u8>) -> P,
) -> Seq<(Seq<char>, Seq<u8>, P)> {
    files.map_values(|f: (Seq<char>, Seq<u8>)| (f.0, f.1, read(f.1)))
}

/// What a walk needs next.
#[derive(Debug)]
pub enum WalkStep {
    /// The object with this id, which has to be a tree.
    Tree { id: Vec<u8> },
    /// What is read of the file with this blob id.
    File { id: Vec<u8> },
    /// Nothing: the walk is over.
    Done,
}

/// Why a walk fails.
#[derive(Debug, Clone, Copy, PartialEq, Eq, Structural)]
pub enum WalkError {
    /// The object is not there.
    Missing,
    /// The object is not a tree.
    NotATree,
    /// The object cannot be decoded.
    Malformed,
}

/// A walk over a tree that collects, for each file, something read of it.
#[derive(Debug)]
pub struct TreeWalk<P> {
    /// What is left to visit; the last comes first.
    pub pending: Vec<Pending>,
    /// The files found so far.
    pub found: Vec<Leaf<P>>,
}

impl<P> TreeWalk<P> {
    /// Every object id has 20 bytes.
    pub open spec fn wf(self) -> bool {
        &&& forall|i: int|
            0 <= i < self.pending@.len() ==> (#[trigger] self.pending@[i]).oid@.len() == 20
        &&& forall|i: int|
            0 <= i < self.found@.len() ==> (#[trigger] self.found@[i]).oid@.len() == 20
    }

    /// What is left to visit, the next first.
    pub open spec fn items(self) -> Seq<Item> {
        Seq::new(
            self.pending@.len(),
            |i: int| self.pending@[self.pending@.len() - 1 - i]@,
        )
    }

    /// Whether the walk over `store`, in which `read` gives what is read of a file, finds
    /// `result` after `n` more answers, `nodes` being what is left to visit.
    pub open spec fn leads_to(
        self,
        store: Store,
        read: spec_fn(Seq<u8>) -> P,
        nodes: Seq<Node>,
        result: Seq<(Seq<char>, Seq<u8>, P)>,
        n: nat,
    ) -> bool {
        &&& nodes.len() == self.items().len()
        &&& forall|i: int|
            0 <= i < nodes.len() ==> fits(store, #[trigger] self.items()[i], nodes[i])
        &&& result == leaf_views(self.found@) + with_payload(files_of(self.items(), nodes), read)
        &&& n == count(nodes)
    }

    /// Whether the walk over `store` finds `result` after `n` more answers.
    pub open spec fn finds(
        self,
        store: Store,
        read: spec_fn(Seq<u8>) -> P,
        result: Seq<(Seq<char>, Seq<u8>, P)>,
        n: nat,
    ) -> bool {
        exists|nodes: Seq<Node>| self.leads_to(store, read, nodes, result, n)
    }

    /// Starts a walk over the tree with the id `root`, which finds the files below it.
    pub fn new(root: Vec<u8>) -> (r: Self)
        requires
            root@.len() == 20,
        ensures
            r.wf(),
            forall|store: Store, read: spec_fn(Seq<u8>) -> P, entries: Seq<(Seq<char>, Node)>|
                #![trigger stored(store, root@, entries), with_payload(leaves(entries, seq![]), read)]
                stored(store, root@, entries) ==> r.finds(
                    store,
                    read,
                    with_payload(leaves(entries, seq![]), read),
                    1 + size(entries),
                ),
    {
        let ghost id = root@;
        let mut pending: Vec<Pending> = Vec::new();
        pending.push(Pending { path: String::new(), is_tree: true, oid: root });
        let r = TreeWalk { pending, found: Vec::new() };
        assert forall|store: Store, read: spec_fn(Seq<u8>) -> P, entries: Seq<(Seq<char>, Node)>|
            #![trigger stored(store, id, entries), with_payload(leaves(entries, seq![]), read)]
            stored(store, id, entries) implies r.finds(
            store,
            read,
            with_payload(leaves(entries, seq![]), read),
            1 + size(entries),
        ) by {
            let nodes = seq![Node::Dir { entries }];
            let result = with_payload(leaves(entries, seq![]), read);
            assert(r.items() =~= seq![Item { path: seq![], is_tree: true, oid: id }]);
            assert(files_of(r.items().drop_first(), nodes.drop_first()) =~= seq![]);
            assert(files_of(r.items(), nodes) =~= leaves(entries, seq![]));
            assert(count(nodes.drop_first()) == 0);
            assert(leaf_views(r.found@) + with_payload(files_of(r.items(), nodes), read)
                =~= result);
            assert(r.leads_to(store, read, nodes, result, 1 + size(entries)));
        }
        r
    }

    /// What the walk needs next.
    pub fn next(&self) -> (step: WalkStep)
        ensures
            match step {
                WalkStep::Done => self.pending@.len() == 0,
                WalkStep::Tree { id } => self.pending@.len() > 0 && self.pending@.last().is_tree
                    && id@ == self.pending@.last().oid@,
                WalkStep::File { id } => self.pending@.len() > 0 && !self.pending@.last().is_tree
                    && id@ == self.pending@.last().oid@,
            },
    {
        let n: usize = self.pending.len();
        if n == 0 {
            WalkStep::Done
        } else if self.pending[n - 1].is_tree {
            WalkStep::Tree { id: self.pending[n - 1].oid.clone() }
        } else {
            WalkStep::File { id: self.pending[n - 1].oid.clone() }
        }
    }

    /// Goes on with what was read of the file that the walk asked for.
    pub fn give_file(&mut self, payload: P)
        requires
            old(self).wf(),
            old(self).pending@.len() > 0,
            !old(self).pending@.last().is_tree,
        ensures
            final(self).wf(),
            final(self).pending@ == old(self).pending@.drop_last(),
            leaf_views(final(self).found@) == leaf_views(old(self).found@).push(
                (old(self).pending@.last().path@, old(self).pending@.last().oid@, payload),
            ),
            forall|
                store: Store,
                read: spec_fn(Seq<u8>) -> P,
                result: Seq<(Seq<char>, Seq<u8>, P)>,
                n: nat,
            | #[trigger]
                old(self).finds(store, read, result, n) && payload == read(
                    old(self).pending@.last().oid@,
                ) ==> n > 0 && final(self).finds(store, read, result, (n - 1) as nat),
    {
        let ghost before = *self;
        match self.pending.pop() {
            Some(entry) => {
                let ghost item = entry@;
                self.found.push(Leaf { path: entry.path, oid: entry.oid, payload });
                assert(leaf_views(self.found@) =~= leaf_views(before.found@).push(
                    (item.path, item.oid, payload),
                ));
                assert forall|
                    store: Store,
                    read: spec_fn(Seq<u8>) -> P,
                    result: Seq<(Seq<char>, Seq<u8>, P)>,
                    n: nat,
                | #[trigger] before.finds(store, read, result, n) && payload == read(
                    item.oid,
                ) implies n > 0 && self.finds(store, read, result, (n - 1) as nat) by {
                    let nodes = choose|nodes: Seq<Node>|
                        before.leads_to(store, read, nodes, result, n);
                    let rest = nodes.drop_first();
                    assert(before.items()[0] == item);
                    assert(fits(store, before.items()[0], nodes[0]));
                    assert(before.items().drop_first() =~= self.items());
                    let left = files_of(self.items(), rest);
                    assert(files_of(before.items(), nodes) == seq![(item.path, item.oid)] + left);
                    assert(result =~= leaf_views(self.found@) + with_payload(left, read));
                    assert forall|i: int| 0 <= i < rest.len() implies fits(
                        store,
                        #[trigger] self.items()[i],
                        rest[i],
                    ) by {
                        assert(fits(store, before.items()[i + 1], nodes[i + 1]));
                    }
                    assert(self.leads_to(store, read, rest, result, (n - 1) as nat));
                }
            },
            None => {},
        }
    }

    /// Goes on with the object that the walk asked for.
    pub fn give_tree(&mut self, object: Option<(ObjectKind, Vec<u8>)>) -> (r: Result<(), WalkError>)
        requires
            old(self).wf(),
            old(self).pending@.len() > 0,
            old(self).pending@.last().is_tree,
        ensures
            final(self).wf(),
            r == match object {
                None => Err::<(), WalkError>(WalkError::Missing),
                Some((kind, data)) => if kind != ObjectKind::Tree {
                    Err(WalkError::NotATree)
                } else if tree_entries(data@) is None {
                    Err(WalkError::Malformed)
                } else {
                    Ok(())
                },
            },
            r is Err ==> *final(self) == *old(self),
            r is Ok ==> final(self).found@ == old(self).found@ && final(self).items() == items_of(
                old(self).pending@.last().path@,
                entries_given(object),
            ) + old(self).items().drop_first(),
            forall|
                store: Store,
                read: spec_fn(Seq<u8>) -> P,
                result: Seq<(Seq<char>, Seq<u8>, P)>,
                n: nat,
            | #[trigger]
                old(self).finds(store, read, result, n) && object_view(object) == (store.object)(
                    old(self).pending@.last().oid@,
                ) ==> r is Ok && n > 0 && final(self).finds(store, read, result, (n - 1) as nat),
    {
        let ghost before = *self;
        let ghost item = self.pending@.last()@;
        let ghost given = object_view(object);
        let decoded: Result<Vec<TreeEntry>, WalkError> = match object {
            None => Err(WalkError::Missing),
            Some((kind, data)) => if kind == ObjectKind::Tree {
                match decode_tree(data.as_slice()) {
                    Some(entries) => Ok(entries),
                    None => Err(WalkError::Malformed),
                }
            } else {
                Err(WalkError::NotATree)
            },
        };
        let answer: Result<(), WalkError> = match &decoded {
            Ok(_) => Ok(()),
            Err(e) => Err(*e),
        };
        assert(before.items()[0] == item);
        assert forall|
            store: Store,
            read: spec_fn(Seq<u8>) -> P,
            result: Seq<(Seq<char>, Seq<u8>, P)>,
            n: nat,
        | #[trigger] before.finds(store, read, result, n) && given == (store.object)(
            item.oid,
        ) implies answer is Ok by {
            let nodes = choose|nodes: Seq<Node>| before.leads_to(store, read, nodes, result, n);
            assert(fits(store, before.items()[0], nodes[0]));
        }
        if let Ok(entries) = decoded {
            let ghost es = entries@.map_values(|e: TreeEntry| (e.is_tree, e.name@, e.oid@));
            let ghost kids = items_of(item.path, es);
            match self.pending.pop() {
                Some(entry) => {
                    let ghost rest = self.items();
                    let total: usize = entries.len();
                    let mut left: usize = total;
                    assert(kids.skip(total as int) + rest =~= rest);
                    while left > 0
                        invariant
                            self.wf(),
                            self.found@ == before.found@,
                            total == entries@.len(),
                            left <= total,
                            forall|i: int|
                                0 <= i < total ==> (#[trigger] entries@[i]).oid@.len() == 20,
                            es == entries@.map_values(
                                |e: TreeEntry| (e.is_tree, e.name@, e.oid@),
                            ),
                            kids == items_of(entry.path@, es),
                            self.items() == kids.skip(left as int) + rest,
                        decreases left,
                    {
                        left -= 1;
                        let ghost shown = self.items();
                        let path: String = child_path(
                            entry.path.as_str(),
                            entries[left].name.as_str(),
                        );
                        self.pending.push(
                            Pending {
                                path,
                                is_tree: entries[left].is_tree,
                                oid: entries[left].oid.clone(),
                            },
                        );
                        assert(self.pending@.last()@ == kids[left as int]);
                        assert(self.items() =~= seq![kids[left as int]] + shown);
                        assert(kids.skip(left as int) =~= seq![kids[left as int]] + kids.skip(
                            left + 1,
                        ));
                    }
                    assert(kids.skip(0) =~= kids);
                    assert(before.items().drop_first() =~= rest);
                    assert forall|
                        store: Store,
                        read: spec_fn(Seq<u8>) -> P,
                        result: Seq<(Seq<char>, Seq<u8>, P)>,
                        n: nat,
                    | #[trigger] before.finds(store, read, result, n) && given == (store.object)(
                        item.oid,
                    ) implies n > 0 && self.finds(store, read, result, (n - 1) as nat) by {
                        let nodes = choose|nodes: Seq<Node>|
                            before.leads_to(store, read, nodes, result, n);
                        assert(fits(store, before.items()[0], nodes[0]));
                        let below = nodes[0]->entries;
                        let later = nodes_of(below) + nodes.drop_first();
                        assert(tree_at(store, item.oid) == Some(es));
                        lemma_children(item.path, es, below);
                        lemma_files_append(kids, nodes_of(below), rest, nodes.drop_first());
                        lemma_count_append(nodes_of(below), nodes.drop_first());
                        lemma_count_children(below);
                        assert(self.items() == kids + rest);
                        assert forall|i: int| 0 <= i < later.len() implies fits(
                            store,
                            #[trigger] self.items()[i],
                            later[i],
                        ) by {
                            if i < kids.len() {
                                assert(es[i].1 == below[i].0);
                            } else {
                                assert(fits(
                                    store,
                                    before.items()[i - kids.len() + 1],
                                    nodes[i - kids.len() + 1],
                                ));
                            }
                        }
                        assert(self.leads_to(store, read, later, result, (n - 1) as nat));
                    }
                },
                None => {},
            }
        }
        answer
    }

    /// The files that the walk has found.
    pub fn finish(self) -> (r: Vec<Leaf<P>>)
        requires
            self.wf(),
            self.pending@.len() == 0,
        ensures
            r@ == self.found@,
            forall|i: int| 0 <= i < r@.len() ==> (#[trigger] r@[i]).oid@.len() == 20,
            forall|
                store: Store,
                read: spec_fn(Seq<u8>) -> P,
                result: Seq<(Seq<char>, Seq<u8>, P)>,
                n: nat,
            | #[trigger]
                self.finds(store, read, result, n) ==> leaf_views(r@) == result && n == 0,
    {
        assert forall|
            store: Store,
            read: spec_fn(Seq<u8>) -> P,
            result: Seq<(Seq<char>, Seq<u8>, P)>,
            n: nat,
        | #[trigger] self.finds(store, read, result, n) implies leaf_views(self.found@) == result
            && n == 0 by {
            let nodes = choose|nodes: Seq<Node>| self.leads_to(store, read, nodes, result, n);
            assert(result =~= leaf_views(self.found@));
        }
        self.found
    }
}

/// The entries of the tree that was handed in.
pub open spec fn entries_given(object: Option<(ObjectKind, Vec<u8>)>) -> Seq<
    (bool, Seq<char>, Seq<u8>),
> {
    match object {
        Some((_, data)) => tree_entries(data@)->0,
        None => seq![],
    }
}

/// The kind and the bytes of an optional object.
pub open spec fn object_view(object: Option<(ObjectKind, Vec<u8>)>) -> Option<
    (ObjectKind, Seq<u8>),
> {
    match object {
        Some((kind, data)) => Some((kind, data@)),
        None => None,
    }
}

proof fn lemma_children(
    path: Seq<char>,
    es: Seq<(bool, Seq<char>, Seq<u8>)>,
    below: Seq<(Seq<char>, Node)>,
)
    requires
        es.len() == below.len(),
        forall|i: int| 0 <= i < below.len() ==> (#[trigger] es[i]).1 == below[i].0,
    ensures
        files_of(items_of(path, es), nodes_of(below)) == leaves(below, path),
    decreases below.len(),
{
    if below.len() > 0 {
        assert forall|i: int| 0 <= i < below.len() - 1 implies (#[trigger] es.drop_first()[i]).1
            == below.drop_first()[i].0 by {
            assert(es[i + 1].1 == below[i + 1].0);
        }
        lemma_children(path, es.drop_first(), below.drop_first());
        assert(items_of(path, es).drop_first() =~= items_of(path, es.drop_first()));
        assert(nodes_of(below).drop_first() =~= nodes_of(below.drop_first()));
        assert(es[0].1 == below[0].0);
    }
}

proof fn lemma_files_append(
    a: Seq<Item>,
    a_nodes: Seq<Node>,
    b: Seq<Item>,
    b_nodes: Seq<Node>,
)
    requires
        a.len() == a_nodes.len(),
        b.len() == b_nodes.len(),
    ensures
        files_of(a + b, a_nodes + b_nodes) == files_of(a, a_nodes) + files_of(b, b_nodes),
    decreases a.len(),
{
    if a.len() == 0 {
        assert(a + b =~= b);
        assert(a_nodes + b_nodes =~= b_nodes);
        assert(files_of(a, a_nodes) + files_of(b, b_nodes) =~= files_of(b, b_nodes));
    } else {
        assert((a + b).drop_first() =~= a.drop_first() + b);
        assert((a_nodes + b_nodes).drop_first() =~= a_nodes.drop_first() + b_nodes);
        lemma_files_append(a.drop_first(), a_nodes.drop_first(), b, b_nodes);
        let here = match a_nodes[0] {
            Node::File { oid } => seq![(a[0].path, oid)],
            Node::Dir { entries } => leaves(entries, a[0].path),
        };
        let there = files_of(a.drop_first(), a_nodes.drop_first());
        assert(here + (there + files_of(b, b_nodes)) =~= here + there + files_of(b, b_nodes));
    }
}

proof fn lemma_count_append(a: Seq<Node>, b: Seq<Node>)
    ensures
        count(a + b) == count(a) + count(b),
    decreases a.len(),
{
    if a.len() == 0 {
        assert(a + b =~= b);
    } else {
        assert((a + b).drop_first() =~= a.drop_first() + b);
        lemma_count_append(a.drop_first(), b);
    }
}

proof fn lemma_count_children(entries: Seq<(Seq<char>, Node)>)
    ensures
        count(nodes_of(entries)) == size(entries),
    decreases entries.len(),
{
    if entries.len() > 0 {
        assert(nodes_of(entries).drop_first() =~= nodes_of(entries.drop_first()));
        lemma_count_children(entries.drop_first());
    }
}

/// An id names at most one directory, so a walk over a stored tree has one result.
pub proof fn law_stored_directory_is_unique(
    store: Store,
    oid: Seq<u8>,
    a: Seq<(Seq<char>, Node)>,
    b: Seq<(Seq<char>, Node)>,
)
    requires
        stored(store, oid, a),
        stored(store, oid, b),
    ensures
        a == b,
    decreases a,
{
    let es = tree_at(store, oid)->0;
    assert forall|i: int| 0 <= i < a.len() implies a[i] == b[i] by {
        assert(es[i].1 == a[i].0);
        assert(es[i].1 == b[i].0);
        match (a[i].1, b[i].1) {
            (Node::Dir { entries: x }, Node::Dir { entries: y }) => {
                law_stored_directory_is_unique(store, es[i].2, x, y);
            },
            _ => {},
        }
    }
    assert(a =~= b);
}

/// The path, the id (hex) and the size of each file of `found`.
pub open spec fn rows(found: Seq<Leaf<u64>>) -> Seq<(Seq<char>, Seq<char>, u64)> {
    found.map_values(|l: Leaf<u64>| (l.path@, hex(l.oid@), l.payload))
}

/// The listing of a walk that read the size of each file: path, blob id (hex) and size.
pub fn listing(found: Vec<Leaf<u64>>) -> (r: Vec<(String, String, u64)>)
    requires
        forall|i: int| 0 <= i < found@.len() ==> (#[trigger] found@[i]).oid@.len() == 20,
    ensures
        r@.map_values(|e: (String, String, u64)| (e.0@, e.1@, e.2)) == rows(found@),
{
    let mut r: Vec<(String, String, u64)> = Vec::new();
    for leaf in it: found
        invariant
            it.seq() == found@,
            forall|i: int| 0 <= i < found@.len() ==> (#[trigger] found@[i]).oid@.len() == 20,
            r@.map_values(|e: (String, String, u64)| (e.0@, e.1@, e.2)) == rows(found@).take(
                it.index() as int,
            ),
    {
        let ghost before = r@.map_values(|e: (String, String, u64)| (e.0@, e.1@, e.2));
        assert(leaf == found@[it.index() as int]);
        let id: String = id_to_hex(leaf.oid.as_slice());
        r.push((leaf.path, id, leaf.payload));
        assert(r@.map_values(|e: (String, String, u64)| (e.0@, e.1@, e.2)) =~= before.push(
            rows(found@)[it.index() as int],
        ));
        assert(rows(found@).take(it.index() as int + 1) =~= rows(found@).take(
            it.index() as int,
        ).push(rows(found@)[it.index() as int]));
    }
    r
}

/// A walk goes over the entries of a tree in their order, over what is in a directory in its place:
/// a file is found under its path and its id, a directory under nothing of its own.
pub proof fn law_walk_keeps_the_order_of_the_tree(
    a: Seq<(Seq<char>, Node)>,
    b: Seq<(Seq<char>, Node)>,
    prefix: Seq<char>,
    name: Seq<char>,
    oid: Seq<u8>,
)
    ensures
        leaves(a + b, prefix) == leaves(a, prefix) + leaves(b, prefix),
        leaves(seq![(name, Node::File { oid })], prefix) == seq![
            (
                if prefix.len() == 0 {
                    name
                } else {
                    prefix + seq!['/'] + name
                },
                oid,
            ),
        ],
        leaves(seq![(name, Node::Dir { entries: b })], prefix) == leaves(
            b,
            if prefix.len() == 0 {
                name
            } else {
                prefix + seq!['/'] + name
            },
        ),
        leaves(seq![], prefix).len() == 0,
    decreases a.len(),
{
    let file = seq![(name, Node::File { oid })];
    let dir = seq![(name, Node::Dir { entries: b })];
    assert(file.drop_first() =~= seq![]);
    assert(dir.drop_first() =~= seq![]);
    assert(leaves(file.drop_first(), prefix) =~= seq![]);
    assert(leaves(file, prefix) =~= seq![(child(prefix, name), oid)]);
    assert(leaves(dir, prefix) =~= leaves(b, child(prefix, name)));
    if a.len() == 0 {
        assert(a + b =~= b);
        assert(leaves(a, prefix) + leaves(b, prefix) =~= leaves(b, prefix));
    } else {
        assert((a + b).drop_first() =~= a.drop_first() + b);
        law_walk_keeps_the_order_of_the_tree(a.drop_first(), b, prefix, name, oid);
        let here = match a[0].1 {
            Node::File { oid: o } => seq![(child(prefix, a[0].0), o)],
            Node::Dir { entries: below } => leaves(below, child(prefix, a[0].0)),
        };
        let rest = leaves(a.drop_first(), prefix);
        assert(here + (rest + leaves(b, prefix)) =~= here + rest + leaves(b, prefix));
    }
}

/// Each file is found with its path, its id and what was read of that very id, and is listed with
/// its path, its id in digits and what was read.
pub proof fn law_found_files_keep_what_was_read<P>(
    files: Seq<(Seq<char>, Seq<u8>)>,
    read: spec_fn(Seq<u8>) -> P,
    found: Seq<Leaf<u64>>,
    leaf: Seq<Leaf<P>>,
    i: int,
)
    ensures
        with_payload(files, read).len() == files.len(),
        0 <= i < files.len() ==> with_payload(files, read)[i] == (
            files[i].0,
            files[i].1,
            read(files[i].1),
        ),
        leaf_views(leaf).len() == leaf.len(),
        0 <= i < leaf.len() ==> leaf_views(leaf)[i] == (
            leaf[i].path@,
            leaf[i].oid@,
            leaf[i].payload,
        ),
        rows(found).len() == found.len(),
        0 <= i < found.len() ==> rows(found)[i] == (
            found[i].path@,
            hex(found[i].oid@),
            found[i].payload,
        ),
{
}

/// A tree is what the object of that id is decoded to, if it is a tree at all; and its entries are
/// visited under their paths in its directory, with their kinds and ids, in its order.
pub proof fn law_tree_is_read_from_its_object(
    store: Store,
    oid: Seq<u8>,
    path: Seq<char>,
    es: Seq<(bool, Seq<char>, Seq<u8>)>,
    i: int,
)
    ensures
        (store.object)(oid) is None ==> tree_at(store, oid) is None,
        (store.object)(oid) matches Some((kind, data)) ==> tree_at(store, oid) == if kind
            == ObjectKind::Tree {
            tree_entries(data)
        } else {
            None
        },
        items_of(path, es).len() == es.len(),
        0 <= i < es.len() ==> {
            &&& items_of(path, es)[i].is_tree == es[i].0
            &&& items_of(path, es)[i].oid == es[i].2
            &&& items_of(path, es)[i].path == if path.len() == 0 {
                es[i].1
            } else {
                path + seq!['/'] + es[i].1
            }
        },
{
}

/// A directory is stored under an id exactly if the tree there has its entries, each under its name
/// and of its kind, and the directories among them are stored in turn.
pub proof fn law_stored_directory_is_what_the_tree_says(
    store: Store,
    oid: Seq<u8>,
    entries: Seq<(Seq<char>, Node)>,
    es: Seq<(bool, Seq<char>, Seq<u8>)>,
)
    requires
        tree_at(store, oid) == Some(es),
    ensures
        stored(store, oid, entries) <==> {
            &&& es.len() == entries.len()
            &&& forall|i: int|
                #![trigger es[i]]
                #![trigger entries[i]]
                0 <= i < entries.len() ==> {
                    &&& es[i].1 == entries[i].0
                    &&& match entries[i].1 {
                        Node::File { oid: o } => !es[i].0 && o == es[i].2,
                        Node::Dir { entries: below } => es[i].0 && stored(store, es[i].2, below),
                    }
                }
        },
{
    if stored(store, oid, entries) {
        assert forall|i: int|
            #![trigger es[i]]
            #![trigger entries[i]]
            0 <= i < entries.len() implies {
            &&& es[i].1 == entries[i].0
            &&& match entries[i].1 {
                Node::File { oid: o } => !es[i].0 && o == es[i].2,
                Node::Dir { entries: below } => es[i].0 && stored(store, es[i].2, below),
            }
        } by {
            assert(es[i].1 == entries[i].0);
        }
    }
}

} // verus!
