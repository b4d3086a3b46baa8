//! The Linux projection: inodes for git paths, attributes, and the pieces of files and listings
//! that the kernel asks for.
use crate::listing::{DirEntry, DirEntryView};
use crate::mount::CloudSync;
use crate::paths::{child, child_path};
use std::collections::HashMap;
use std::path::PathBuf;
use vstd::hash_map::StringHashMap;
use vstd::prelude::*;

verus! {

/// FUSE reserves inode 1 for the mount root.
pub const ROOT_INO: u64 = 1;

/// The Linux cloud-sync seam. FUSE entries are virtual (their bytes live in git, not on disk), so
/// there is no placeholder to report and no overlay to mark.
#[derive(Debug, Clone, Copy)]
pub struct LinuxCloudSync;

impl Default for LinuxCloudSync {
    fn default() -> (r: Self)
        ensures
            r == LinuxCloudSync,
    {
        LinuxCloudSync
    }
}

impl CloudSync for LinuxCloudSync {
    fn is_dehydrated(&self, abs: &PathBuf) -> (r: bool)
        ensures
            !r,
    {
        false
    }
}

/// The attributes of a projected file or directory, but for times and owner.
#[derive(Debug, Clone, Copy, PartialEq, Eq, Structural)]
pub struct NodeAttr {
    pub ino: u64,
    pub size: u64,
    /// Number of 512-byte blocks.
    pub blocks: u64,
    pub is_dir: bool,
    pub perm: u16,
    pub nlink: u32,
    pub blksize: u32,
}

/// The attributes of the node `ino`.
pub open spec fn node_attr(ino: u64, is_dir: bool, size: u64) -> NodeAttr {
    NodeAttr {
        ino,
        size,
        blocks: ((size + 511) / 512) as u64,
        is_dir,
        perm: if is_dir {
            0o755
        } else {
            0o644
        },
        nlink: if is_dir {
            2
        } else {
            1
        },
        blksize: 512,
    }
}

/// The attributes of the node `ino`.
pub fn attr(ino: u64, is_dir: bool, size: u64) -> (r: NodeAttr)
    ensures
        r == node_attr(ino, is_dir, size),
{
    let whole: u64 = size / 512;
    let blocks: u64 = if size % 512 == 0 {
        whole
    } else {
        whole + 1
    };
    NodeAttr {
        ino,
        size,
        blocks,
        is_dir,
        perm: if is_dir {
            0o755
        } else {
            0o644
        },
        nlink: if is_dir {
            2
        } else {
            1
        },
        blksize: 512,
    }
}

/// One line of a directory listing.
#[derive(Debug)]
pub struct FsEntry {
    pub ino: u64,
    pub is_dir: bool,
    pub name: String,
}

/// A line of a directory listing.
pub struct FsEntryView {
    pub ino: u64,
    pub is_dir: bool,
    pub name: Seq<char>,
}

impl View for FsEntry {
    type V = FsEntryView;

    open spec fn view(&self) -> FsEntryView {
        FsEntryView { ino: self.ino, is_dir: self.is_dir, name: self.name@ }
    }
}

/// The lines of a listing.
pub open spec fn fs_entries(v: Seq<FsEntry>) -> Seq<FsEntryView> {
    v.map_values(|e: FsEntry| e@)
}

/// Whether `path` is that of one of `children` of the directory `dir`.
pub open spec fn is_child(dir: Seq<char>, children: Seq<DirEntry>, path: Seq<char>) -> bool {
    exists|i: int| 0 <= i < children.len() && path == child(dir, (#[trigger] children[i]).name@)
}

/// The inodes of a read-only filesystem backed by a git tree.
///
/// Inodes are assigned lazily and remembered in both directions, so that the kernel's calls
/// (which speak in inodes) map back to git paths.
pub struct BosyncFs {
    /// inode -> git path (the empty text is the root).
    pub inodes: HashMap<u64, String>,
    /// git path -> inode.
    pub by_path: StringHashMap<u64>,
    pub next_ino: u64,
}

impl BosyncFs {
    /// The git path of an inode.
    pub open spec fn path_at(self, ino: u64) -> Option<Seq<char>> {
        if self.inodes@.contains_key(ino) {
            Some(self.inodes@[ino]@)
        } else {
            None
        }
    }

    /// The inode of a git path.
    pub open spec fn ino_at(self, path: Seq<char>) -> Option<u64> {
        if self.by_path@.contains_key(path) {
            Some(self.by_path@[path])
        } else {
            None
        }
    }

    /// The two directions agree, the root has its inode, and every inode is below the next one.
    pub open spec fn wf(self) -> bool {
        &&& forall|path: Seq<char>, ino: u64|
            #![trigger self.ino_at(path), self.path_at(ino)]
            self.ino_at(path) == Some(ino) <==> self.path_at(ino) == Some(path)
        &&& self.ino_at(seq![]) == Some(ROOT_INO)
        &&& forall|ino: u64| #[trigger] self.path_at(ino) is Some ==> ino < self.next_ino
    }

    /// Whether `later` knows all that this table knows.
    pub open spec fn kept_by(self, later: BosyncFs) -> bool {
        forall|path: Seq<char>| #[trigger]
            self.ino_at(path) is Some ==> later.ino_at(path) == self.ino_at(path)
    }

    /// A table that knows only the root.
    pub fn new() -> (r: Self)
        ensures
            r.wf(),
            r.next_ino == 2,
            forall|path: Seq<char>| #[trigger] r.ino_at(path) is Some ==> path.len() == 0,
    {
        let mut inodes: HashMap<u64, String> = HashMap::new();
        let mut by_path: StringHashMap<u64> = StringHashMap::new();
        inodes.insert(ROOT_INO, String::new());
        by_path.insert(String::new(), ROOT_INO);
        let r = BosyncFs { inodes, by_path, next_ino: ROOT_INO + 1 };
        assert(r.inodes@ =~= Map::<u64, String>::empty().insert(ROOT_INO, r.inodes@[ROOT_INO]));
        assert(r.inodes@[ROOT_INO]@ =~= seq![]);
        assert(r.ino_at(seq![]) == Some(ROOT_INO));
        r
    }

    /// Return the inode for `path`, allocating a new one the first time it is seen.
    pub fn intern(&mut self, path: String) -> (ino: u64)
        requires
            old(self).wf(),
            old(self).next_ino < u64::MAX,
        ensures
            final(self).wf(),
            final(self).ino_at(path@) == Some(ino),
            final(self).path_at(ino) == Some(path@),
            old(self).kept_by(*final(self)),
            match old(self).ino_at(path@) {
                Some(known) => ino == known && *final(self) == *old(self),
                None => ino == old(self).next_ino && final(self).next_ino == old(self).next_ino + 1
                    && forall|p: Seq<char>|
                    p != path@ ==> #[trigger] final(self).ino_at(p) == old(self).ino_at(p),
            },
    {
        let ghost before = *self;
        match self.by_path.get(path.as_str()) {
            Some(known) => *known,
            None => {
                let ino: u64 = self.next_ino;
                self.next_ino = ino + 1;
                let ghost p = path@;
                let copy: String = path.clone();
                self.inodes.insert(ino, copy);
                self.by_path.insert(path, ino);
                assert(before.path_at(ino) is None);
                assert(before.ino_at(p) is None);
                assert(self.path_at(ino) == Some(p));
                assert(self.ino_at(p) == Some(ino));
                assert forall|q: Seq<char>, k: u64|
                    #![trigger self.ino_at(q), self.path_at(k)]
                    self.ino_at(q) == Some(k) <==> self.path_at(k) == Some(q) by {
                    if q != p {
                        assert(self.ino_at(q) == before.ino_at(q));
                    }
                    if k != ino {
                        assert(self.path_at(k) == before.path_at(k));
                    }
                    assert(before.ino_at(q) == Some(k) <==> before.path_at(k) == Some(q));
                }
                assert forall|k: u64| #[trigger] self.path_at(k) is Some implies k
                    < self.next_ino by {
                    if k != ino {
                        assert(before.path_at(k) is Some);
                    }
                }
                assert(self.ino_at(seq![]) == before.ino_at(seq![]));
                ino
            },
        }
    }

    /// The git path of `ino`, if it is known.
    pub fn path(&self, ino: u64) -> (r: Option<String>)
        requires
            self.wf(),
        ensures
            match r {
                Some(path) => self.path_at(ino) == Some(path@),
                None => self.path_at(ino) is None,
            },
    {
        match self.inodes.get(&ino) {
            Some(path) => Some(path.clone()),
            None => None,
        }
    }

    /// The git path of `name` in the directory `parent`, if that is known.
    pub fn child_of(&self, parent: u64, name: &str) -> (r: Option<String>)
        requires
            self.wf(),
        ensures
            match r {
                Some(path) => self.path_at(parent) is Some && path@ == child(
                    self.path_at(parent)->0,
                    name@,
                ),
                None => self.path_at(parent) is None,
            },
    {
        match self.path(parent) {
            Some(dir) => Some(child_path(dir.as_str(), name)),
            None => None,
        }
    }

    /// Answers a lookup of the git path `path`, given what is there (whether it is a directory,
    /// and its size): its attributes under its inode, or `None` if nothing is there.
    pub fn lookup(&mut self, path: String, stat: Option<(bool, u64)>) -> (r: Option<NodeAttr>)
        requires
            old(self).wf(),
            old(self).next_ino < u64::MAX,
        ensures
            final(self).wf(),
            old(self).kept_by(*final(self)),
            match stat {
                Some((is_dir, size)) => final(self).ino_at(path@) is Some && r == Some(
                    node_attr(final(self).ino_at(path@)->0, is_dir, size),
                ),
                None => r is None && *final(self) == *old(self),
            },
            old(self).ino_at(path@) is Some ==> *final(self) == *old(self),
            stat is Some && old(self).ino_at(path@) is None ==> final(self).ino_at(path@) == Some(
                old(self).next_ino,
            ) && final(self).next_ino == old(self).next_ino + 1,
            forall|p: Seq<char>|
                p != path@ ==> #[trigger] final(self).ino_at(p) == old(self).ino_at(p),
    {
        match stat {
            Some((is_dir, size)) => {
                let ino: u64 = self.intern(path);
                Some(attr(ino, is_dir, size))
            },
            None => None,
        }
    }

    /// The lines of the listing of `ino`, the directory `dir` with the entries `children`: `.`,
    /// `..` and the children, each under its inode.
    pub open spec fn listed(
        self,
        ino: u64,
        dir: Seq<char>,
        children: Seq<DirEntryView>,
    ) -> Seq<FsEntryView> {
        seq![
            FsEntryView { ino, is_dir: true, name: "."@ },
            FsEntryView { ino: ROOT_INO, is_dir: true, name: ".."@ },
        ] + children.map_values(
            |e: DirEntryView|
                FsEntryView {
                    ino: self.ino_at(child(dir, e.name))->0,
                    is_dir: e.is_dir,
                    name: e.name,
                },
        )
    }

    /// The lines of the listing of `ino`, the directory `dir`: `.` and `..` first, then the
    /// children. Every child gets an inode.
    pub fn readdir(&mut self, ino: u64, dir: &str, children: Vec<DirEntry>) -> (r: Vec<FsEntry>)
        requires
            old(self).wf(),
            old(self).next_ino + children@.len() <= u64::MAX,
        ensures
            final(self).wf(),
            old(self).kept_by(*final(self)),
            forall|i: int|
                0 <= i < children@.len() ==> final(self).ino_at(
                    child(dir@, (#[trigger] children@[i]).name@),
                ) is Some,
            forall|p: Seq<char>|
                !is_child(dir@, children@, p) ==> #[trigger] final(self).ino_at(p) == old(
                    self,
                ).ino_at(p),
            final(self).next_ino <= old(self).next_ino + children@.len(),
            fs_entries(r@) == final(self).listed(
                ino,
                dir@,
                children@.map_values(|e: DirEntry| e@),
            ),
    {
        let mut r: Vec<FsEntry> = Vec::new();
        r.push(FsEntry { ino, is_dir: true, name: ".".to_owned() });
        r.push(FsEntry { ino: ROOT_INO, is_dir: true, name: "..".to_owned() });
        let ghost all = children@.map_values(|e: DirEntry| e@);
        let ghost start = *self;
        let n: usize = children.len();
        let mut i: usize = 0;
        assert(fs_entries(r@) =~= self.listed(ino, dir@, all.take(0)));
        while i < n
            invariant
                i <= n,
                n == children@.len(),
                all == children@.map_values(|e: DirEntry| e@),
                start == *old(self),
                self.wf(),
                start.kept_by(*self),
                self.next_ino + (n - i) <= u64::MAX,
                self.next_ino <= start.next_ino + i,
                forall|p: Seq<char>|
                    !is_child(dir@, children@, p) ==> #[trigger] self.ino_at(p) == start.ino_at(p),
                forall|k: int|
                    0 <= k < i ==> self.ino_at(
                        child(dir@, (#[trigger] children@[k]).name@),
                    ) is Some,
                fs_entries(r@) == self.listed(ino, dir@, all.take(i as int)),
            decreases n - i,
        {
            let ghost before = *self;
            let ghost shown = fs_entries(r@);
            let path: String = child_path(dir, children[i].name.as_str());
            let child_ino: u64 = self.intern(path);
            assert(is_child(dir@, children@, child(dir@, children@[i as int].name@)));
            assert forall|k: int| 0 <= k < i implies self.ino_at(
                child(dir@, (#[trigger] children@[k]).name@),
            ) is Some && self.ino_at(child(dir@, children@[k].name@)) == before.ino_at(
                child(dir@, children@[k].name@),
            ) by {
                assert(before.ino_at(child(dir@, children@[k].name@)) is Some);
            }
            assert forall|p: Seq<char>| #[trigger] start.ino_at(p) is Some implies self.ino_at(p)
                == start.ino_at(p) by {
                assert(before.ino_at(p) is Some);
            }
            r.push(
                FsEntry {
                    ino: child_ino,
                    is_dir: children[i].is_dir,
                    name: children[i].name.clone(),
                },
            );
            proof {
                let line = FsEntryView {
                    ino: child_ino,
                    is_dir: children@[i as int].is_dir,
                    name: children@[i as int].name@,
                };
                assert(fs_entries(r@) =~= shown.push(line));
                let next = self.listed(ino, dir@, all.take(i + 1));
                assert(next.len() == shown.len() + 1);
                assert forall|k: int| 0 <= k < shown.len() implies shown[k] == next[k] by {
                    if k >= 2 {
                        assert(all.take(i as int)[k - 2].name == children@[k - 2].name@);
                    }
                }
                assert(next =~= shown.push(line));
            }
            i += 1;
        }
        assert(all.take(n as int) =~= all);
        r
    }
}

/// Interning a path again gives the inode that it has, and two paths never share one; that of the
/// root is the root's alone.
pub proof fn law_inodes_are_stable_and_distinct(
    earlier: BosyncFs,
    later: BosyncFs,
    a: Seq<char>,
    b: Seq<char>,
)
    requires
        earlier.wf(),
        later.wf(),
        earlier.kept_by(later),
        earlier.ino_at(a) is Some,
        later.ino_at(b) is Some,
    ensures
        later.ino_at(a) == earlier.ino_at(a),
        later.path_at(later.ino_at(a)->0) == Some(a),
        later.ino_at(a) == later.ino_at(b) <==> a == b,
        later.ino_at(a) == Some(ROOT_INO) <==> a.len() == 0,
{
    let x = later.ino_at(a)->0;
    let y = later.ino_at(b)->0;
    assert(later.ino_at(a) == Some(x) <==> later.path_at(x) == Some(a));
    assert(later.ino_at(b) == Some(y) <==> later.path_at(y) == Some(b));
    let root: Seq<char> = seq![];
    assert(later.ino_at(root) == Some(ROOT_INO) <==> later.path_at(ROOT_INO) == Some(root));
    assert(a.len() == 0 ==> a =~= root);
}

/// The part of `len` bytes that a read of `size` bytes at `offset` gets: from where, and up to
/// where.
pub open spec fn window(len: int, offset: int, size: int) -> (int, int) {
    let start = if offset < 0 {
        0
    } else if offset > len {
        len
    } else {
        offset
    };
    (start, if start + size > len {
        len
    } else {
        start + size
    })
}

/// The part of a file of `len` bytes that a read of `size` bytes at `offset` gets. A negative
/// offset counts as 0, and what lies behind the end is left out.
pub fn read_window(len: usize, offset: i64, size: u32) -> (r: (usize, usize))
    ensures
        (r.0 as int, r.1 as int) == window(len as int, offset as int, size as int),
        r.0 <= r.1 <= len,
{
    let start: usize = if offset <= 0 {
        0
    } else if offset as u64 >= len as u64 {
        len
    } else {
        offset as usize
    };
    let left: usize = len - start;
    let end: usize = if left as u64 <= size as u64 {
        len
    } else {
        start + size as usize
    };
    (start, end)
}

/// Reading on where a read ended gives the rest without a gap or an overlap.
pub proof fn law_reads_tile_the_file(data: Seq<u8>, offset: int, size: int, more: int)
    requires
        0 <= offset,
        0 <= size,
        0 <= more,
    ensures
        ({
            let len = data.len() as int;
            let a = window(len, offset, size);
            let b = window(len, offset + size, more);
            let both = window(len, offset, size + more);
            data.subrange(a.0, a.1) + data.subrange(b.0, b.1) == data.subrange(both.0, both.1)
        }),
{
    let len = data.len() as int;
    let a = window(len, offset, size);
    let b = window(len, offset + size, more);
    let both = window(len, offset, size + more);
    assert(data.subrange(a.0, a.1) + data.subrange(b.0, b.1) =~= data.subrange(both.0, both.1));
}

/// The number of the first line to emit.
pub open spec fn line_at(total: int, offset: int) -> int {
    if offset < 0 || offset > total {
        total
    } else {
        offset
    }
}

/// The number of the first line to emit for a listing of `total` lines that goes on at `offset`.
/// Line `i` is emitted with the offset `i + 1` behind it. A negative offset emits nothing.
pub fn first_line(total: usize, offset: i64) -> (r: usize)
    ensures
        r == line_at(total as int, offset as int),
        r == if offset < 0 || offset > total {
            total as int
        } else {
            offset as int
        },
{
    if offset < 0 || offset as u64 > total as u64 {
        total
    } else {
        offset as usize
    }
}

/// The attributes of a node are its own: its inode, its kind and its size, in as many blocks of 512
/// bytes as the size takes and no more, with the permissions of a directory or of a plain file.
pub proof fn law_attributes_are_those_of_the_node(ino: u64, is_dir: bool, size: u64)
    ensures
        ({
            let node = node_attr(ino, is_dir, size);
            &&& node.ino == ino && node.is_dir == is_dir && node.size == size
            &&& node.blocks * 512 >= size && node.blocks * 512 < size + 512
            &&& node.blksize == 512
            &&& is_dir ==> node.perm == 0o755 && node.nlink == 2
            &&& !is_dir ==> node.perm == 0o644 && node.nlink == 1
        }),
{
}

/// A read gets exactly the bytes that it asks for and that the file has: the byte `at` is among
/// them if it lies in the file, not before the offset, and before the offset and the size.
pub proof fn law_read_gets_what_is_there(len: int, offset: int, size: int, at: int)
    requires
        0 <= len,
        0 <= size,
    ensures
        ({
            let (start, end) = window(len, offset, size);
            &&& 0 <= start <= end <= len
            &&& 0 <= offset ==> (start <= at < end <==> 0 <= at < len && offset <= at < offset
                + size)
            &&& offset < 0 ==> (start <= at < end <==> 0 <= at < len && at < size)
        }),
{
}

/// A directory is listed as itself, the root above it, and its children, each under its name, its
/// kind and the inode of its path, in their order.
pub proof fn law_listing_shows_every_child(
    fs: BosyncFs,
    ino: u64,
    dir: Seq<char>,
    children: Seq<DirEntryView>,
    i: int,
)
    ensures
        ({
            let lines = fs.listed(ino, dir, children);
            &&& lines.len() == children.len() + 2
            &&& lines[0] == (FsEntryView { ino, is_dir: true, name: "."@ })
            &&& lines[1] == (FsEntryView { ino: 1, is_dir: true, name: ".."@ })
            &&& 0 <= i < children.len() ==> {
                let path = if dir.len() == 0 {
                    children[i].name
                } else {
                    dir + seq!['/'] + children[i].name
                };
                &&& lines[i + 2].name == children[i].name
                &&& lines[i + 2].is_dir == children[i].is_dir
                &&& fs.by_path@.contains_key(path) ==> lines[i + 2].ino == fs.by_path@[path]
            }
        }),
{
}

/// What a table knows is what its two maps hold.
pub proof fn law_table_knows_what_its_maps_hold(fs: BosyncFs, path: Seq<char>, ino: u64)
    ensures
        fs.by_path@.contains_key(path) ==> fs.ino_at(path) == Some(fs.by_path@[path]),
        !fs.by_path@.contains_key(path) ==> fs.ino_at(path) is None,
        fs.inodes@.contains_key(ino) ==> fs.path_at(ino) == Some(fs.inodes@[ino]@),
        !fs.inodes@.contains_key(ino) ==> fs.path_at(ino) is None,
        fs.wf() && fs.by_path@.contains_key(path) ==> fs.inodes@.contains_key(fs.by_path@[path])
            && fs.inodes@[fs.by_path@[path]]@ == path && fs.by_path@[path] < fs.next_ino,
        fs.wf() && fs.inodes@.contains_key(ino) ==> fs.by_path@.contains_key(fs.inodes@[ino]@)
            && fs.by_path@[fs.inodes@[ino]@] == ino,
{
    if fs.wf() && fs.by_path@.contains_key(path) {
        let known = fs.by_path@[path];
        assert(fs.ino_at(path) == Some(known) <==> fs.path_at(known) == Some(path));
    }
    if fs.wf() && fs.inodes@.contains_key(ino) {
        let known = fs.inodes@[ino]@;
        assert(fs.ino_at(known) == Some(ino) <==> fs.path_at(ino) == Some(known));
    }
}

/// A listing that goes on at the offset behind the line `i` goes on with the line `i + 1`, so that
/// no line is skipped or shown twice; at 0 it begins, and behind the last line it is over.
pub proof fn law_listing_goes_on_where_it_stopped(total: int, i: int)
    requires
        0 <= i < total,
    ensures
        line_at(total, 0) == 0,
        line_at(total, i + 1) == i + 1,
        line_at(total, total) == total,
        line_at(total, total + 1 + i) == total,
        line_at(total, -1 - i) == total,
{
}

/// What an earlier table knows a later one knows just so, and the children of a directory are those
/// that are named in it.
pub proof fn law_later_tables_know_what_earlier_ones_did(
    earlier: BosyncFs,
    later: BosyncFs,
    path: Seq<char>,
    dir: Seq<char>,
    children: Seq<DirEntry>,
)
    ensures
        earlier.kept_by(later) && earlier.by_path@.contains_key(path)
            ==> later.by_path@.contains_key(path) && later.by_path@[path]
            == earlier.by_path@[path],
        (forall|p: Seq<char>| #[trigger]
            earlier.by_path@.contains_key(p) ==> later.by_path@.contains_key(p)
                && later.by_path@[p] == earlier.by_path@[p]) ==> earlier.kept_by(later),
        is_child(dir, children, path) <==> exists|i: int|
            0 <= i < children.len() && path == if dir.len() == 0 {
                (#[trigger] children[i]).name@
            } else {
                dir + seq!['/'] + children[i].name@
            },
{
    if earlier.kept_by(later) && earlier.by_path@.contains_key(path) {
        assert(earlier.ino_at(path) is Some);
    }
    if forall|p: Seq<char>| #[trigger]
        earlier.by_path@.contains_key(p) ==> later.by_path@.contains_key(p) && later.by_path@[p]
            == earlier.by_path@[p] {
        assert forall|p: Seq<char>| #[trigger] earlier.ino_at(p) is Some implies later.ino_at(p)
            == earlier.ino_at(p) by {
            assert(earlier.by_path@.contains_key(p));
        }
    }
    if is_child(dir, children, path) {
        let i = choose|i: int|
            0 <= i < children.len() && path == child(dir, (#[trigger] children[i]).name@);
        assert(path == if dir.len() == 0 {
            children[i].name@
        } else {
            dir + seq!['/'] + children[i].name@
        });
    }
    if exists|i: int|
        0 <= i < children.len() && path == if dir.len() == 0 {
            (#[trigger] children[i]).name@
        } else {
            dir + seq!['/'] + children[i].name@
        } {
        let i = choose|i: int|
            0 <= i < children.len() && path == if dir.len() == 0 {
                (#[trigger] children[i]).name@
            } else {
                dir + seq!['/'] + children[i].name@
            };
        assert(path == child(dir, children[i].name@));
    }
}

} // verus!
