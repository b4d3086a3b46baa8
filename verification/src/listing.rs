//! What a path of `HEAD` is: directory listings, sizes, and what to walk.
use crate::objects::{path_spec, spec_of};
use crate::text::opt_text;
use crate::trusted::{decode_tree, tree_entries, TreeEntry};
use crate::walk::{ObjectKind, WalkError};
use vstd::prelude::*;

verus! {

/// One entry of a directory listing taken from a git tree.
#[derive(Debug, Clone)]
pub struct DirEntry {
    /// Leaf name (no path separators).
    pub name: String,
    pub is_dir: bool,
    /// Size of the blob in bytes (0 for directories).
    pub size: u64,
}

/// A directory entry: its name, whether it is a directory, and its size.
pub struct DirEntryView {
    pub name: Seq<char>,
    pub is_dir: bool,
    pub size: u64,
}

impl View for DirEntry {
    type V = DirEntryView;

    open spec fn view(&self) -> DirEntryView {
        DirEntryView { name: self.name@, is_dir: self.is_dir, size: self.size }
    }
}

/// How git names the object at `rel` in `HEAD`; `None` for the root, which is the tree of the
/// commit itself.
pub open spec fn head_spec(rel: Seq<char>) -> Option<Seq<char>> {
    if rel.len() == 0 {
        None
    } else {
        Some(path_spec("HEAD"@, rel))
    }
}

/// The name under which git resolves `rel` in `HEAD`; `None` for the root.
pub fn spec_in_head(rel: &str) -> (r: Option<String>)
    ensures
        opt_text(r) == head_spec(rel@),
{
    if rel.is_empty() {
        None
    } else {
        Some(spec_of("HEAD", rel))
    }
}

/// What the path `rel` of `HEAD` is, given the kind and the size of the object that it resolves
/// to: whether it is a directory, and its size.
pub open spec fn stat_of(rel: Seq<char>, object: Option<(ObjectKind, u64)>) -> Option<(bool, u64)> {
    if rel.len() == 0 {
        Some((true, 0))
    } else {
        match object {
            Some((ObjectKind::Tree, _)) => Some((true, 0)),
            Some((ObjectKind::Blob, size)) => Some((false, size)),
            _ => None,
        }
    }
}

/// Stat a root-relative path: `Some((is_dir, size))`, or `None` if absent. The empty path is the
/// root tree, whatever it resolves to.
pub fn stat(rel: &str, object: Option<(ObjectKind, u64)>) -> (r: Option<(bool, u64)>)
    ensures
        r == stat_of(rel@, object),
{
    if rel.is_empty() {
        return Some((true, 0));
    }
    match object {
        Some((ObjectKind::Tree, _)) => Some((true, 0)),
        Some((ObjectKind::Blob, size)) => Some((false, size)),
        _ => None,
    }
}

/// The tree that a revision stands for.
#[derive(Debug, Clone, Copy, PartialEq, Eq, Structural)]
pub enum TreeSource {
    /// The tree of the commit.
    OfCommit,
    /// The object itself.
    Itself,
    /// The tree of what the tag names.
    OfTag,
    /// None: there is nothing to list.
    Nothing,
    /// None, and there ought to be one: the revision is unknown.
    Unknown,
}

/// The tree to list for a revision.
pub open spec fn tree_for(kind: Option<ObjectKind>, unborn: bool) -> TreeSource {
    match kind {
        Some(ObjectKind::Commit) => TreeSource::OfCommit,
        Some(ObjectKind::Tree) => TreeSource::Itself,
        Some(ObjectKind::Tag) => TreeSource::OfTag,
        Some(ObjectKind::Blob) => TreeSource::Nothing,
        None => if unborn {
            TreeSource::Nothing
        } else {
            TreeSource::Unknown
        },
    }
}

/// The tree to list for a revision that resolves to an object of the given kind, or to none.
/// Before the first commit (`unborn`) there is nothing to list; afterwards a revision has to
/// resolve.
pub fn tree_source(kind: Option<ObjectKind>, unborn: bool) -> (r: TreeSource)
    ensures
        r == tree_for(kind, unborn),
        r == match kind {
            Some(ObjectKind::Commit) => TreeSource::OfCommit,
            Some(ObjectKind::Tree) => TreeSource::Itself,
            Some(ObjectKind::Tag) => TreeSource::OfTag,
            Some(ObjectKind::Blob) => TreeSource::Nothing,
            None => if unborn {
                TreeSource::Nothing
            } else {
                TreeSource::Unknown
            },
        },
{
    match kind {
        Some(ObjectKind::Commit) => TreeSource::OfCommit,
        Some(ObjectKind::Tree) => TreeSource::Itself,
        Some(ObjectKind::Tag) => TreeSource::OfTag,
        Some(ObjectKind::Blob) => TreeSource::Nothing,
        None => if unborn {
            TreeSource::Nothing
        } else {
            TreeSource::Unknown
        },
    }
}

/// What there is at a path.
#[derive(Debug, Clone, Copy, PartialEq, Eq, Structural)]
pub enum AtPath {
    /// A single file.
    File,
    /// A directory.
    Directory,
    /// Nothing that git knows.
    Nothing,
}

/// What there is at a path.
pub open spec fn found_at(kind: Option<ObjectKind>) -> AtPath {
    match kind {
        Some(ObjectKind::Blob) => AtPath::File,
        Some(ObjectKind::Tree) => AtPath::Directory,
        _ => AtPath::Nothing,
    }
}

/// What there is at a path that resolves to an object of the given kind, or to none.
pub fn at_path(kind: Option<ObjectKind>) -> (r: AtPath)
    ensures
        r == found_at(kind),
        r == match kind {
            Some(ObjectKind::Blob) => AtPath::File,
            Some(ObjectKind::Tree) => AtPath::Directory,
            _ => AtPath::Nothing,
        },
{
    match kind {
        Some(ObjectKind::Blob) => AtPath::File,
        Some(ObjectKind::Tree) => AtPath::Directory,
        _ => AtPath::Nothing,
    }
}

/// The entry for `e` when `size` gives the sizes of the blobs.
pub open spec fn entry_of(
    e: (bool, Seq<char>, Seq<u8>),
    size: spec_fn(Seq<u8>) -> u64,
) -> DirEntryView {
    DirEntryView {
        name: e.1,
        is_dir: e.0,
        size: if e.0 {
            0
        } else {
            size(e.2)
        },
    }
}

/// The entries of a decoded tree.
pub open spec fn entries_of(v: Seq<TreeEntry>) -> Seq<(bool, Seq<char>, Seq<u8>)> {
    v.map_values(|e: TreeEntry| (e.is_tree, e.name@, e.oid@))
}

/// The entries to list for an object, given by its kind and bytes; none where there is no object
/// or it is no tree.
pub open spec fn source_entries(object: Option<(ObjectKind, Seq<u8>)>) -> Option<
    Seq<(bool, Seq<char>, Seq<u8>)>,
> {
    match object {
        Some((ObjectKind::Tree, data)) => tree_entries(data),
        _ => Some(seq![]),
    }
}

/// The kind and the bytes of an optional object.
pub open spec fn source_view(object: Option<(ObjectKind, &[u8])>) -> Option<
    (ObjectKind, Seq<u8>),
> {
    match object {
        Some((kind, data)) => Some((kind, data@)),
        None => None,
    }
}

/// A listing that still needs the sizes of some files.
#[derive(Debug)]
pub struct DirListing {
    /// The entries of the tree.
    pub entries: Vec<TreeEntry>,
    /// The finished ones, in the same order.
    pub done: Vec<DirEntry>,
}

impl DirListing {
    /// There are no more finished entries than entries.
    pub open spec fn wf(self) -> bool {
        self.done@.len() <= self.entries@.len()
    }

    /// Whether the finished entries are right when `size` gives the sizes of the blobs.
    pub open spec fn right(self, size: spec_fn(Seq<u8>) -> u64) -> bool {
        forall|i: int|
            0 <= i < self.done@.len() ==> (#[trigger] self.done@[i])@ == entry_of(
                entries_of(self.entries@)[i],
                size,
            )
    }

    /// Starts listing the object that a path resolves to. A path that resolves to no tree lists as
    /// empty; a tree that cannot be decoded is an error.
    pub fn list_dir(object: Option<(ObjectKind, &[u8])>) -> (r: Result<DirListing, WalkError>)
        ensures
            match r {
                Ok(listing) => listing.wf() && source_entries(source_view(object)) == Some(
                    entries_of(listing.entries@),
                ) && listing.done@.len() == 0,
                Err(e) => e == WalkError::Malformed && source_entries(source_view(object)) is None,
            },
    {
        match object {
            Some((ObjectKind::Tree, data)) => match decode_tree(data) {
                Some(entries) => Ok(DirListing { entries, done: Vec::new() }),
                None => Err(WalkError::Malformed),
            },
            _ => {
                let entries: Vec<TreeEntry> = Vec::new();
                assert(entries_of(entries@) =~= seq![]);
                Ok(DirListing { entries, done: Vec::new() })
            },
        }
    }

    /// Finishes the directories that come next, and returns the blob id of the file behind them,
    /// whose size is needed; `None` when the listing is finished.
    pub fn next(&mut self) -> (r: Option<Vec<u8>>)
        requires
            old(self).wf(),
        ensures
            final(self).wf(),
            final(self).entries@ == old(self).entries@,
            match r {
                Some(id) => {
                    let k = final(self).done@.len() as int;
                    &&& k < final(self).entries@.len()
                    &&& !final(self).entries@[k].is_tree
                    &&& id@ == final(self).entries@[k].oid@
                },
                None => final(self).done@.len() == final(self).entries@.len(),
            },
            old(self).done@.len() <= final(self).done@.len(),
            final(self).done@.take(old(self).done@.len() as int) == old(self).done@,
            forall|i: int|
                old(self).done@.len() <= i < final(self).done@.len() ==> (
                #[trigger] final(self).done@[i])@ == (DirEntryView {
                    name: final(self).entries@[i].name@,
                    is_dir: true,
                    size: 0,
                }) && final(self).entries@[i].is_tree,
            forall|size: spec_fn(Seq<u8>) -> u64| #[trigger]
                old(self).right(size) ==> final(self).right(size),
    {
        let ghost start = *self;
        let n: usize = self.entries.len();
        while self.done.len() < n
            invariant
                start == *old(self),
                self.wf(),
                n == self.entries@.len(),
                self.entries@ == start.entries@,
                start.done@.len() <= self.done@.len(),
                self.done@.take(start.done@.len() as int) == start.done@,
                forall|i: int|
                    start.done@.len() <= i < self.done@.len() ==> (#[trigger] self.done@[i])@ == (
                    DirEntryView { name: self.entries@[i].name@, is_dir: true, size: 0 })
                        && self.entries@[i].is_tree,
                forall|size: spec_fn(Seq<u8>) -> u64| #[trigger]
                    start.right(size) ==> self.right(size),
            decreases n - self.done@.len(),
        {
            let k: usize = self.done.len();
            if !self.entries[k].is_tree {
                return Some(self.entries[k].oid.clone());
            }
            let ghost before = *self;
            let entry = DirEntry { name: self.entries[k].name.clone(), is_dir: true, size: 0 };
            self.done.push(entry);
            assert(self.done@.take(start.done@.len() as int) =~= before.done@.take(
                start.done@.len() as int,
            ));
            assert forall|size: spec_fn(Seq<u8>) -> u64| #[trigger]
                start.right(size) implies self.right(size) by {
                assert(before.right(size));
                assert forall|i: int| 0 <= i < self.done@.len() implies (
                #[trigger] self.done@[i])@ == entry_of(entries_of(self.entries@)[i], size) by {
                    if i < k {
                        assert(self.done@[i] == before.done@[i]);
                    }
                }
            }
        }
        None
    }

    /// Goes on with the size of the file that was asked for.
    pub fn give_size(&mut self, size: u64)
        requires
            old(self).done@.len() < old(self).entries@.len(),
            !old(self).entries@[old(self).done@.len() as int].is_tree,
        ensures
            final(self).wf(),
            final(self).entries@ == old(self).entries@,
            final(self).done@.len() == old(self).done@.len() + 1,
            final(self).done@.drop_last() == old(self).done@,
            final(self).done@.last()@ == (DirEntryView {
                name: old(self).entries@[old(self).done@.len() as int].name@,
                is_dir: false,
                size,
            }),
            forall|sizes: spec_fn(Seq<u8>) -> u64| #[trigger]
                old(self).right(sizes) && sizes(
                    old(self).entries@[old(self).done@.len() as int].oid@,
                ) == size ==> final(self).right(sizes),
    {
        let ghost before = *self;
        let k: usize = self.done.len();
        let entry = DirEntry { name: self.entries[k].name.clone(), is_dir: false, size };
        self.done.push(entry);
        assert forall|sizes: spec_fn(Seq<u8>) -> u64| #[trigger]
            before.right(sizes) && sizes(before.entries@[k as int].oid@) == size implies self.right(
            sizes,
        ) by {
            assert forall|i: int| 0 <= i < self.done@.len() implies (#[trigger] self.done@[i])@
                == entry_of(entries_of(self.entries@)[i], sizes) by {
                if i < k {
                    assert(self.done@[i] == before.done@[i]);
                }
            }
        }
    }

    /// The finished listing: one entry for each of the tree, in its order, with the size of the
    /// blob for a file and 0 for a directory.
    pub fn finish(self) -> (r: Vec<DirEntry>)
        requires
            self.done@.len() == self.entries@.len(),
        ensures
            r@ == self.done@,
            forall|size: spec_fn(Seq<u8>) -> u64| #[trigger]
                self.right(size) ==> r@.map_values(|e: DirEntry| e@) == entries_of(
                    self.entries@,
                ).map_values(|e: (bool, Seq<char>, Seq<u8>)| entry_of(e, size)),
    {
        assert forall|size: spec_fn(Seq<u8>) -> u64| #[trigger]
            self.right(size) implies self.done@.map_values(|e: DirEntry| e@) == entries_of(
            self.entries@,
        ).map_values(|e: (bool, Seq<char>, Seq<u8>)| entry_of(e, size)) by {
            assert(self.done@.map_values(|e: DirEntry| e@) =~= entries_of(
                self.entries@,
            ).map_values(|e: (bool, Seq<char>, Seq<u8>)| entry_of(e, size)));
        }
        self.done
    }
}

/// A directory is listed as it is: every entry under its name, a directory with no size, a file
/// with the size of the blob that the entry names.
pub proof fn law_entries_are_listed_as_they_are(
    e: (bool, Seq<char>, Seq<u8>),
    size: spec_fn(Seq<u8>) -> u64,
    v: Seq<TreeEntry>,
    i: int,
)
    ensures
        entry_of(e, size).name == e.1,
        entry_of(e, size).is_dir == e.0,
        e.0 ==> entry_of(e, size).size == 0,
        !e.0 ==> entry_of(e, size).size == size(e.2),
        entries_of(v).len() == v.len(),
        0 <= i < v.len() ==> entries_of(v)[i] == (v[i].is_tree, v[i].name@, v[i].oid@),
{
}

/// The root is a directory, whatever it resolves to; another path is what it resolves to: a tree is
/// a directory, a blob is a file of its size, and anything else is nothing.
pub proof fn law_stat_goes_by_the_object(rel: Seq<char>, size: u64)
    ensures
        stat_of(seq![], None) == Some((true, 0u64)),
        stat_of(seq![], Some((ObjectKind::Blob, size))) == Some((true, 0u64)),
        rel.len() > 0 ==> {
            &&& stat_of(rel, Some((ObjectKind::Tree, size))) == Some((true, 0u64))
            &&& stat_of(rel, Some((ObjectKind::Blob, size))) == Some((false, size))
            &&& stat_of(rel, Some((ObjectKind::Commit, size))) is None
            &&& stat_of(rel, Some((ObjectKind::Tag, size))) is None
            &&& stat_of(rel, None) is None
        },
{
}

/// A path of `HEAD` is named by `HEAD`, a colon and the path, and the root by nothing.
pub proof fn law_path_in_head_is_named(rel: Seq<char>)
    ensures
        rel.len() == 0 <==> head_spec(rel) is None,
        rel.len() > 0 ==> head_spec(rel)->0 == "HEAD:"@ + rel,
{
    reveal_strlit("HEAD");
    reveal_strlit("HEAD:");
    assert("HEAD"@ + seq![':'] =~= "HEAD:"@);
}

/// What is listed are the entries of a tree; what is no tree, and what is not there, lists as
/// empty.
pub proof fn law_only_trees_have_entries(data: Seq<u8>)
    ensures
        source_entries(Some((ObjectKind::Tree, data))) == tree_entries(data),
        source_entries(Some((ObjectKind::Blob, data))) == Some(
            Seq::<(bool, Seq<char>, Seq<u8>)>::empty(),
        ),
        source_entries(None) == Some(Seq::<(bool, Seq<char>, Seq<u8>)>::empty()),
{
    assert(source_entries(None)->0 =~= Seq::<(bool, Seq<char>, Seq<u8>)>::empty());
    assert(source_entries(Some((ObjectKind::Blob, data)))->0 =~= Seq::<
        (bool, Seq<char>, Seq<u8>),
    >::empty());
}

/// A revision is unknown exactly if it resolves to nothing though there is a commit; a commit, a
/// tree and a tag have a tree to list, their own.
pub proof fn law_revisions_lead_to_their_trees(kind: Option<ObjectKind>, unborn: bool)
    ensures
        tree_for(kind, unborn) == TreeSource::Unknown <==> kind is None && !unborn,
        tree_for(kind, unborn) == TreeSource::OfCommit <==> kind == Some(ObjectKind::Commit),
        tree_for(kind, unborn) == TreeSource::Itself <==> kind == Some(ObjectKind::Tree),
        tree_for(kind, unborn) == TreeSource::OfTag <==> kind == Some(ObjectKind::Tag),
        tree_for(kind, unborn) == TreeSource::Nothing <==> kind == Some(ObjectKind::Blob) || (
        kind is None && unborn),
{
}

/// A blob is a file and a tree is a directory; nothing else can be renamed. This agrees with what
/// `stat` says of a path that is not the root.
pub proof fn law_what_is_found_agrees_with_stat(
    rel: Seq<char>,
    kind: ObjectKind,
    size: u64,
)
    requires
        rel.len() > 0,
    ensures
        found_at(Some(kind)) == AtPath::File <==> kind == ObjectKind::Blob,
        found_at(Some(kind)) == AtPath::Directory <==> kind == ObjectKind::Tree,
        found_at(None) == AtPath::Nothing,
        found_at(Some(kind)) == AtPath::Nothing <==> stat_of(rel, Some((kind, size))) is None,
{
}

/// A listing is right where each finished entry has the name and the kind of its entry in the tree,
/// and the size of its blob, or none if it is a directory.
pub proof fn law_right_listing_shows_the_tree(
    list: DirListing,
    size: spec_fn(Seq<u8>) -> u64,
    i: int,
)
    requires
        list.wf(),
        list.right(size),
        0 <= i < list.done@.len(),
    ensures
        i < list.entries@.len(),
        list.done@[i].name@ == list.entries@[i].name@,
        list.done@[i].is_dir == list.entries@[i].is_tree,
        list.entries@[i].is_tree ==> list.done@[i].size == 0,
        !list.entries@[i].is_tree ==> list.done@[i].size == size(list.entries@[i].oid@),
{
    assert(list.done@[i]@ == entry_of(entries_of(list.entries@)[i], size));
}

/// A listing on which nothing is finished yet is right, whatever the sizes are.
pub proof fn law_listing_starts_right(list: DirListing, size: spec_fn(Seq<u8>) -> u64)
    requires
        list.done@.len() == 0,
    ensures
        list.right(size),
{
}

} // verus!
