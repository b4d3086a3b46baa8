//! The Windows projection: hydration in chunks, placeholders, renames and in-sync marks.
use crate::listing::{DirEntry, DirEntryView};
use crate::paths::{child, child_path, git_path, law_git_path_of_joined, to_git_path};
use crate::reconcile::upsert_message;
use crate::sweep::{at_start, Sweep};
use crate::text::{concat, pieces, texts};
use crate::trusted::{lossy_text, lossy_utf8};
use vstd::prelude::*;
use vstd::utf8::{decode_utf8, valid_utf8};

verus! {

/// Cloud Filter writes must be 4096-aligned except at end-of-file. 64 KiB chunks.
pub const CHUNK_SIZE: u64 = 65536;

/// Windows file attributes indicating that the file's data is not local.
pub const FILE_ATTRIBUTE_OFFLINE: u32 = 0x0000_1000;

/// Windows file attributes indicating that the file's data is not local.
pub const FILE_ATTRIBUTE_RECALL_ON_DATA_ACCESS: u32 = 0x0040_0000;

/// Whether one of the two attributes of a dehydrated placeholder is set.
pub open spec fn data_not_local(attrs: u32) -> bool {
    attrs & 0x0000_1000 != 0 || attrs & 0x0040_0000 != 0
}

/// Whether a file with the attributes `attrs` is a dehydrated placeholder.
pub fn is_placeholder(attrs: u32) -> (r: bool)
    ensures
        r == data_not_local(attrs),
{
    assert((attrs & (0x0000_1000u32 | 0x0040_0000u32) != 0) == (attrs & 0x0000_1000u32 != 0 || attrs
        & 0x0040_0000u32 != 0)) by (bit_vector);
    attrs & (FILE_ATTRIBUTE_OFFLINE | FILE_ATTRIBUTE_RECALL_ON_DATA_ACCESS) != 0
}

/// The Windows cloud-sync facility: what the attributes of a file say about it.
#[derive(Debug, Clone, Copy)]
pub struct WindowsCloudSync;

impl Default for WindowsCloudSync {
    fn default() -> (r: Self)
        ensures
            r == WindowsCloudSync,
    {
        WindowsCloudSync
    }
}

impl WindowsCloudSync {
    /// Whether a file is a dehydrated placeholder; a file without attributes is not.
    pub fn is_dehydrated(&self, attrs: Option<u32>) -> (r: bool)
        ensures
            r == (attrs matches Some(a) && data_not_local(a)),
    {
        match attrs {
            Some(a) => is_placeholder(a),
            None => false,
        }
    }
}

/// How an item gets its in-sync mark.
#[derive(Debug, Clone, Copy, PartialEq, Eq, Structural)]
pub enum MarkStep {
    /// Set the mark on the opened placeholder.
    SetInSync,
    /// Convert the opened item to an in-sync placeholder, as a directory if it is one.
    Convert { has_children: bool },
    /// Convert the file by a plain file handle.
    ConvertFile,
    /// Nothing is left to do.
    Done,
}

/// How marking an item begins.
pub open spec fn first_mark(opened: bool, is_dir: bool) -> MarkStep {
    if opened {
        MarkStep::SetInSync
    } else if is_dir {
        MarkStep::Done
    } else {
        MarkStep::ConvertFile
    }
}

/// How marking an item goes on behind `step`.
pub open spec fn mark_behind(step: MarkStep, succeeded: bool, is_dir: bool) -> MarkStep {
    if succeeded {
        MarkStep::Done
    } else {
        match step {
            MarkStep::SetInSync => MarkStep::Convert { has_children: is_dir },
            MarkStep::Convert { .. } => if is_dir {
                MarkStep::Done
            } else {
                MarkStep::ConvertFile
            },
            _ => MarkStep::Done,
        }
    }
}

/// How to begin marking an item, which could be opened as a placeholder or not.
pub fn mark_start(opened: bool, is_dir: bool) -> (r: MarkStep)
    ensures
        r == first_mark(opened, is_dir),
        r == if opened {
            MarkStep::SetInSync
        } else if is_dir {
            MarkStep::Done
        } else {
            MarkStep::ConvertFile
        },
{
    if opened {
        MarkStep::SetInSync
    } else if is_dir {
        MarkStep::Done
    } else {
        MarkStep::ConvertFile
    }
}

/// How to go on marking an item after `step` has succeeded or not.
pub fn mark_next(step: MarkStep, succeeded: bool, is_dir: bool) -> (r: MarkStep)
    ensures
        r == mark_behind(step, succeeded, is_dir),
        r == if succeeded {
            MarkStep::Done
        } else {
            match step {
                MarkStep::SetInSync => MarkStep::Convert { has_children: is_dir },
                MarkStep::Convert { .. } => if is_dir {
                    MarkStep::Done
                } else {
                    MarkStep::ConvertFile
                },
                _ => MarkStep::Done,
            }
        },
{
    if succeeded {
        return MarkStep::Done;
    }
    match step {
        MarkStep::SetInSync => MarkStep::Convert { has_children: is_dir },
        MarkStep::Convert { .. } => if is_dir {
            MarkStep::Done
        } else {
            MarkStep::ConvertFile
        },
        _ => MarkStep::Done,
    }
}

/// Starts a sweep over the drive folder `root`, which the caller marks first: every entry that is
/// visited is to be marked, and every directory is to be read too.
pub fn mark_tree_in_sync<D>(root: D) -> (r: Sweep<D>)
    ensures
        r.stack@ == at_start(root).stack,
{
    Sweep::new(root)
}

/// The git path of the current place of a file in the drive `root`; for a file elsewhere (or the
/// drive itself) `routing`.
pub open spec fn path_or(
    root: Seq<Seq<char>>,
    abs: Seq<Seq<char>>,
    routing: Seq<char>,
) -> Seq<char> {
    match git_path(root, abs) {
        Some(path) => if path.len() > 0 {
            path
        } else {
            routing
        },
        None => routing,
    }
}

/// The git path to hydrate a file from: that of its current place in the drive `root`; for a file
/// elsewhere (or the drive itself) what its routing blob says.
pub open spec fn hydrated_from(
    root: Seq<Seq<char>>,
    abs: Seq<Seq<char>>,
    routing: Seq<u8>,
) -> Seq<char> {
    path_or(root, abs, lossy_utf8(routing))
}

/// The git path of the current place of a file, if it has one that is not the drive itself.
fn place(root: &[String], abs: &[String]) -> (r: Option<String>)
    ensures
        match r {
            Some(path) => git_path(texts(root@), texts(abs@)) == Some(path@) && path@.len() > 0,
            None => git_path(texts(root@), texts(abs@)) is None || git_path(
                texts(root@),
                texts(abs@),
            )->0.len() == 0,
        },
{
    match to_git_path(root, abs) {
        Some(path) => {
            if path.as_str().is_empty() {
                None
            } else {
                Some(path)
            }
        },
        None => None,
    }
}

/// The git path to hydrate the file `abs` of the drive `root` from.
pub fn hydration_path(root: &[String], abs: &[String], routing: &[u8]) -> (r: String)
    ensures
        r@ == hydrated_from(texts(root@), texts(abs@), routing@),
        valid_utf8(routing@) ==> r@ == path_or(texts(root@), texts(abs@), decode_utf8(routing@)),
{
    current_path_or(root, abs, lossy_text(routing))
}

/// The git path of the current place of the file `abs` in the drive `root`, or `routing` if it
/// has none.
pub fn current_path_or(root: &[String], abs: &[String], routing: String) -> (r: String)
    ensures
        r@ == path_or(texts(root@), texts(abs@), routing@),
{
    match place(root, abs) {
        Some(path) => path,
        None => routing,
    }
}

/// One write of a hydration: where it goes, and how many bytes it has.
#[derive(Debug, Clone, Copy, PartialEq, Eq, Structural)]
pub struct Chunk {
    pub position: u64,
    pub len: u64,
}

/// The writes that bring the bytes from `position` to `end`: as many as a chunk holds, and what
/// is left last.
pub open spec fn chunks(position: u64, end: u64) -> Seq<Chunk>
    decreases end - position,
{
    if position >= end {
        seq![]
    } else if end - position <= CHUNK_SIZE {
        seq![Chunk { position, len: (end - position) as u64 }]
    } else {
        seq![Chunk { position, len: CHUNK_SIZE }] + chunks((position + CHUNK_SIZE) as u64, end)
    }
}

/// Where a request for the bytes up to `end` of a file of `len` bytes ends.
pub open spec fn range_end(end: u64, len: u64) -> u64 {
    if end <= len {
        end
    } else {
        len
    }
}

/// The writes that answer a request for the bytes from `start` to `end` of a file of `len` bytes.
pub fn fetch_data(start: u64, end: u64, len: u64) -> (r: Vec<Chunk>)
    ensures
        r@ == chunks(start, range_end(end, len)),
        start < end && start < len <==> r@.len() > 0,
        r@.len() > 0 ==> r@[0].position == start,
        r@.len() > 0 && end <= len ==> r@.last().position + r@.last().len == end,
        r@.len() > 0 && end >= len ==> r@.last().position + r@.last().len == len,
{
    proof {
        law_hydration_brings_what_was_asked_for(start, end, len);
    }
    let end: u64 = if end <= len {
        end
    } else {
        len
    };
    let mut r: Vec<Chunk> = Vec::new();
    let mut position: u64 = start;
    assert(r@ + chunks(position, end) =~= chunks(start, end));
    while position < end
        invariant
            r@ + chunks(position, end) == chunks(start, end),
        decreases end - position,
    {
        let remaining: u64 = end - position;
        let len: u64 = if remaining <= CHUNK_SIZE {
            remaining
        } else {
            CHUNK_SIZE
        };
        let ghost before = r@;
        let chunk = Chunk { position, len };
        r.push(chunk);
        proof {
            let rest = chunks((position + len) as u64, end);
            assert(chunks(position, end) =~= seq![chunk] + rest);
            assert(r@ + rest =~= before + (seq![chunk] + rest));
        }
        position += len;
    }
    assert(r@ + chunks(position, end) =~= r@);
    r
}

/// The writes of a hydration follow each other without a gap, from the beginning of the request
/// to its end; each holds at least one byte and at most 64 KiB; and if the request begins at a
/// multiple of 4096, every write does, and every write but the last has a multiple of 4096 bytes.
pub proof fn law_chunks_cover_the_request(start: u64, end: u64, i: int)
    requires
        0 <= i < chunks(start, end).len(),
    ensures
        ({
            let all = chunks(start, end);
            &&& all[0].position == start
            &&& all.last().position + all.last().len == end
            &&& 0 < all[i].len <= CHUNK_SIZE
            &&& i + 1 < all.len() ==> all[i].position + all[i].len == all[i + 1].position
            &&& start % 4096 == 0 ==> all[i].position % 4096 == 0
            &&& i + 1 < all.len() ==> all[i].len % 4096 == 0
        }),
    decreases end - start,
{
    let all = chunks(start, end);
    if end - start > CHUNK_SIZE {
        let next = (start + CHUNK_SIZE) as u64;
        let rest = chunks(next, end);
        assert(all =~= seq![Chunk { position: start, len: CHUNK_SIZE }] + rest);
        assert(rest.len() > 0);
        law_chunks_cover_the_request(next, end, 0);
        if i > 0 {
            law_chunks_cover_the_request(next, end, i - 1);
        }
        assert(all.last() == rest.last());
    }
}

/// What a placeholder shows.
#[derive(Debug)]
pub struct PlaceholderSpec {
    /// The name in its directory.
    pub name: String,
    /// The git path that hydrates it.
    pub git_path: String,
    pub is_dir: bool,
    pub size: u64,
}

/// What a placeholder shows.
pub struct PlaceholderView {
    pub name: Seq<char>,
    pub git_path: Seq<char>,
    pub is_dir: bool,
    pub size: u64,
}

impl View for PlaceholderSpec {
    type V = PlaceholderView;

    open spec fn view(&self) -> PlaceholderView {
        PlaceholderView {
            name: self.name@,
            git_path: self.git_path@,
            is_dir: self.is_dir,
            size: self.size,
        }
    }
}

/// The placeholder for an entry of the directory `rel`.
pub open spec fn placeholder(rel: Seq<char>, e: DirEntryView) -> PlaceholderView {
    PlaceholderView { name: e.name, git_path: child(rel, e.name), is_dir: e.is_dir, size: e.size }
}

/// The placeholders for the entries of the directory `rel` whose flag in `exists` is not set.
pub open spec fn missing_placeholders(
    rel: Seq<char>,
    entries: Seq<DirEntryView>,
    exists: Seq<bool>,
) -> Seq<PlaceholderView>
    decreases entries.len(),
{
    if entries.len() == 0 {
        seq![]
    } else {
        let before = missing_placeholders(rel, entries.drop_last(), exists);
        if exists[entries.len() - 1] {
            before
        } else {
            before.push(placeholder(rel, entries.last()))
        }
    }
}

/// The git paths of the entries of the directory `rel`, to find out which exist on disk.
pub fn entry_paths(rel: &str, entries: &Vec<DirEntry>) -> (r: Vec<String>)
    ensures
        texts(r@) == entries@.map_values(|e: DirEntry| child(rel@, e.name@)),
{
    let mut r: Vec<String> = Vec::new();
    let ghost all = entries@.map_values(|e: DirEntry| child(rel@, e.name@));
    let n: usize = entries.len();
    for i in 0..n
        invariant
            n == entries@.len(),
            all == entries@.map_values(|e: DirEntry| child(rel@, e.name@)),
            texts(r@) == all.take(i as int),
    {
        let ghost before = texts(r@);
        r.push(child_path(rel, entries[i].name.as_str()));
        assert(texts(r@) =~= before.push(all[i as int]));
    }
    r
}

/// The placeholders to create in the directory `rel`: one for each entry that does not exist on
/// disk yet.
pub fn fetch_placeholders(rel: &str, entries: Vec<DirEntry>, exists: &Vec<bool>) -> (r: Vec<
    PlaceholderSpec,
>)
    requires
        exists@.len() == entries@.len(),
    ensures
        r@.map_values(|p: PlaceholderSpec| p@) == missing_placeholders(
            rel@,
            entries@.map_values(|e: DirEntry| e@),
            exists@,
        ),
{
    let mut r: Vec<PlaceholderSpec> = Vec::new();
    let ghost all = entries@.map_values(|e: DirEntry| e@);
    let n: usize = entries.len();
    let mut i: usize = 0;
    assert(r@.map_values(|p: PlaceholderSpec| p@) =~= missing_placeholders(
        rel@,
        all.take(0),
        exists@,
    ));
    while i < n
        invariant
            i <= n,
            n == entries@.len(),
            n == exists@.len(),
            all == entries@.map_values(|e: DirEntry| e@),
            r@.map_values(|p: PlaceholderSpec| p@) == missing_placeholders(
                rel@,
                all.take(i as int),
                exists@,
            ),
        decreases n - i,
    {
        let ghost before = r@.map_values(|p: PlaceholderSpec| p@);
        assert(all.take(i + 1).drop_last() =~= all.take(i as int));
        if !exists[i] {
            let git_path: String = child_path(rel, entries[i].name.as_str());
            r.push(
                PlaceholderSpec {
                    name: entries[i].name.clone(),
                    git_path,
                    is_dir: entries[i].is_dir,
                    size: entries[i].size,
                },
            );
            assert(r@.map_values(|p: PlaceholderSpec| p@) =~= before.push(
                placeholder(rel@, all[i as int]),
            ));
        }
        i += 1;
    }
    assert(all.take(n as int) =~= all);
    r
}

/// The move that is recorded for one from `old_abs` to `new_abs` in the drive `root`, as git paths.
pub open spec fn recorded_move(
    root: Seq<Seq<char>>,
    old_abs: Seq<Seq<char>>,
    new_abs: Seq<Seq<char>>,
) -> Option<(Seq<char>, Seq<char>)> {
    match (git_path(root, old_abs), git_path(root, new_abs)) {
        (Some(a), Some(b)) => if a.len() > 0 && b.len() > 0 && a != b {
            Some((a, b))
        } else {
            None
        },
        _ => None,
    }
}

/// The git paths between which a finished move is recorded: both inside the drive, neither the
/// drive itself, and not the same.
pub fn renamed(root: &[String], old_abs: &[String], new_abs: &[String]) -> (r: Option<
    (String, String),
>)
    ensures
        ({
            let from = git_path(texts(root@), texts(old_abs@));
            let to = git_path(texts(root@), texts(new_abs@));
            match r {
                Some((a, b)) => from == Some(a@) && to == Some(b@) && a@.len() > 0 && b@.len() > 0
                    && a@ != b@,
                None => from is None || to is None || from->0.len() == 0 || to->0.len() == 0
                    || from == to,
            }
        }),
        match r {
            Some((a, b)) => recorded_move(texts(root@), texts(old_abs@), texts(new_abs@)) == Some(
                (a@, b@),
            ),
            None => recorded_move(texts(root@), texts(old_abs@), texts(new_abs@)) is None,
        },
{
    match (place(root, old_abs), place(root, new_abs)) {
        (Some(a), Some(b)) => {
            if a == b {
                None
            } else {
                Some((a, b))
            }
        },
        _ => None,
    }
}

/// The message under which the moved file is committed as new at `new_git`, where the old path was
/// not known to git and so nothing could be renamed.
pub fn add_after_rename(was_known: bool, new_git: &str) -> (r: Option<String>)
    ensures
        match r {
            Some(message) => !was_known && message@ == upsert_message(new_git@, false),
            None => was_known,
        },
{
    if was_known {
        None
    } else {
        Some(concat("Add ", new_git))
    }
}

/// A request for the bytes from `start` to `end` of a file of `len` bytes is answered in full: the
/// writes begin at `start`, follow each other without a gap and end at `end`, or at the end of the
/// file where that comes first. Where there is nothing to bring, nothing is written.
pub proof fn law_hydration_brings_what_was_asked_for(start: u64, end: u64, len: u64)
    ensures
        ({
            let all = chunks(start, range_end(end, len));
            &&& start < end && start < len <==> all.len() > 0
            &&& all.len() > 0 ==> all[0].position == start
            &&& all.len() > 0 && end <= len ==> all.last().position + all.last().len == end
            &&& all.len() > 0 && end >= len ==> all.last().position + all.last().len == len
            &&& forall|i: int|
                0 <= i < all.len() - 1 ==> (#[trigger] all[i]).position + all[i].len == all[i
                    + 1].position
            &&& forall|i: int|
                0 <= i < all.len() ==> 0 < (#[trigger] all[i]).len <= 65536 && start
                    <= all[i].position && all[i].position + all[i].len <= end && all[i].position
                    + all[i].len <= len
        }),
{
    let stop = range_end(end, len);
    let all = chunks(start, stop);
    assert forall|i: int| 0 <= i < all.len() - 1 implies (#[trigger] all[i]).position + all[i].len
        == all[i + 1].position by {
        law_chunks_cover_the_request(start, stop, i);
    }
    assert forall|i: int| 0 <= i < all.len() implies 0 < (#[trigger] all[i]).len <= 65536 && start
        <= all[i].position && all[i].position + all[i].len <= stop by {
        law_chunks_cover_the_request(start, stop, i);
        lemma_chunk_bounds(start, stop, i);
    }
    if all.len() > 0 {
        law_chunks_cover_the_request(start, stop, 0);
    }
}

proof fn lemma_chunk_bounds(start: u64, end: u64, i: int)
    requires
        0 <= i < chunks(start, end).len(),
    ensures
        start <= chunks(start, end)[i].position,
        chunks(start, end)[i].position + chunks(start, end)[i].len <= end,
    decreases end - start,
{
    if end - start > CHUNK_SIZE && i > 0 {
        let next = (start + CHUNK_SIZE) as u64;
        lemma_chunk_bounds(next, end, i - 1);
    }
}

/// Every byte that was asked for and that the file has is in exactly one of the writes, and no
/// other byte is in any: `at` is in the write `i` or in none.
pub proof fn law_hydration_brings_every_byte_once(start: u64, end: u64, len: u64, at: int)
    ensures
        ({
            let all = chunks(start, range_end(end, len));
            &&& start <= at < end && at < len <==> exists|i: int|
                0 <= i < all.len() && (#[trigger] all[i]).position <= at < all[i].position
                    + all[i].len
            &&& forall|i: int, j: int|
                0 <= i < j < all.len() ==> (#[trigger] all[i]).position + all[i].len <= (
                #[trigger] all[j]).position
        }),
{
    let stop = range_end(end, len);
    let all = chunks(start, stop);
    law_hydration_brings_what_was_asked_for(start, end, len);
    assert forall|i: int, j: int| 0 <= i < j < all.len() implies (#[trigger] all[i]).position
        + all[i].len <= (#[trigger] all[j]).position by {
        lemma_chunks_in_order(start, stop, i, j);
    }
    if start <= at < stop {
        let i = lemma_chunk_of(start, stop, at);
        assert(all[i].position <= at < all[i].position + all[i].len);
    }
}

proof fn lemma_chunks_in_order(start: u64, end: u64, i: int, j: int)
    requires
        0 <= i < j < chunks(start, end).len(),
    ensures
        chunks(start, end)[i].position + chunks(start, end)[i].len <= chunks(
            start,
            end,
        )[j].position,
    decreases j,
{
    if end - start > CHUNK_SIZE {
        let next = (start + CHUNK_SIZE) as u64;
        if i > 0 {
            lemma_chunks_in_order(next, end, i - 1, j - 1);
        } else {
            lemma_chunk_bounds(next, end, j - 1);
        }
    }
}

proof fn lemma_chunk_of(start: u64, end: u64, at: int) -> (i: int)
    requires
        start <= at < end,
    ensures
        0 <= i < chunks(start, end).len(),
        chunks(start, end)[i].position <= at < chunks(start, end)[i].position + chunks(
            start,
            end,
        )[i].len,
    decreases end - start,
{
    if end - start <= CHUNK_SIZE || at < start + CHUNK_SIZE {
        0
    } else {
        let i = lemma_chunk_of((start + CHUNK_SIZE) as u64, end, at);
        i + 1
    }
}

/// A file counts as a placeholder exactly where one of the two attributes says that its data is
/// not local, whatever the other attributes are.
pub proof fn law_placeholder_goes_by_two_attributes(attrs: u32)
    ensures
        data_not_local(attrs) <==> attrs & 0x0040_1000 != 0,
        data_not_local(attrs | 0x0000_1000),
        data_not_local(attrs | 0x0040_0000),
        !data_not_local(attrs & 0xFFBF_EFFF),
{
    assert((attrs & 0x0040_1000u32 != 0) == (attrs & 0x0000_1000u32 != 0 || attrs & 0x0040_0000u32
        != 0)) by (bit_vector);
    assert((attrs | 0x0000_1000u32) & 0x0000_1000u32 != 0) by (bit_vector);
    assert((attrs | 0x0040_0000u32) & 0x0040_0000u32 != 0) by (bit_vector);
    assert((attrs & 0xFFBF_EFFFu32) & 0x0000_1000u32 == 0 && (attrs & 0xFFBF_EFFFu32)
        & 0x0040_0000u32 == 0) by (bit_vector);
}

/// A file in the drive is hydrated from the git path of where it is now, whatever its routing
/// blob says; a file elsewhere, and the drive itself, by the routing blob.
pub proof fn law_hydration_follows_the_current_place(
    root: Seq<Seq<char>>,
    abs: Seq<Seq<char>>,
    rel: Seq<char>,
    routing: Seq<char>,
)
    requires
        rel.len() > 0,
    ensures
        path_or(root, root + pieces(rel, '/'), routing) == rel,
        !root.is_prefix_of(abs) ==> path_or(root, abs, routing) == routing,
        path_or(root, root, routing) == routing,
{
    law_git_path_of_joined(root, rel);
    assert(root.subrange(0, root.len() as int) =~= root);
    assert(root.skip(root.len() as int) =~= seq![]);
}

/// A directory gets a placeholder for each of its entries that is not on disk yet, with the name,
/// the git path, the kind and the size of the entry, and no other.
pub proof fn law_placeholders_show_the_missing_entries(
    rel: Seq<char>,
    entries: Seq<DirEntryView>,
    on_disk: Seq<bool>,
)
    requires
        on_disk.len() == entries.len(),
    ensures
        ({
            let shown = missing_placeholders(rel, entries, on_disk);
            &&& forall|i: int|
                0 <= i < entries.len() && !on_disk[i] ==> shown.contains(
                    (PlaceholderView {
                        name: (#[trigger] entries[i]).name,
                        git_path: if rel.len() == 0 {
                            entries[i].name
                        } else {
                            rel + seq!['/'] + entries[i].name
                        },
                        is_dir: entries[i].is_dir,
                        size: entries[i].size,
                    }),
                )
            &&& forall|k: int|
                0 <= k < shown.len() ==> exists|i: int|
                    {
                        &&& 0 <= i < entries.len()
                        &&& !on_disk[i]
                        &&& (#[trigger] entries[i]).name == (#[trigger] shown[k]).name
                        &&& entries[i].is_dir == shown[k].is_dir
                        &&& entries[i].size == shown[k].size
                        &&& shown[k].git_path == if rel.len() == 0 {
                            entries[i].name
                        } else {
                            rel + seq!['/'] + entries[i].name
                        }
                    }
            &&& shown.len() + on_disk.filter(|b: bool| b).len() == entries.len()
        }),
    decreases entries.len(),
{
    reveal(Seq::filter);
    let shown = missing_placeholders(rel, entries, on_disk);
    if entries.len() > 0 {
        let n = entries.len() - 1;
        let front = entries.drop_last();
        let flags = on_disk.drop_last();
        lemma_placeholders_by_flags(rel, front, on_disk, flags);
        law_placeholders_show_the_missing_entries(rel, front, flags);
        let before = missing_placeholders(rel, front, flags);
        assert forall|i: int| 0 <= i < entries.len() && !on_disk[i] implies shown.contains(
            (PlaceholderView {
                name: (#[trigger] entries[i]).name,
                git_path: if rel.len() == 0 {
                    entries[i].name
                } else {
                    rel + seq!['/'] + entries[i].name
                },
                is_dir: entries[i].is_dir,
                size: entries[i].size,
            }),
        ) by {
            if i < n {
                assert(front[i] == entries[i]);
                assert(flags[i] == on_disk[i]);
                let p = placeholder(rel, front[i]);
                assert(before.contains(p));
                let k = choose|k: int| 0 <= k < before.len() && before[k] == p;
                assert(shown[k] == p);
            } else {
                assert(shown[shown.len() - 1] == placeholder(rel, entries[i]));
            }
        }
        assert forall|k: int| 0 <= k < shown.len() implies exists|i: int|
            {
                &&& 0 <= i < entries.len()
                &&& !on_disk[i]
                &&& (#[trigger] entries[i]).name == (#[trigger] shown[k]).name
                &&& entries[i].is_dir == shown[k].is_dir
                &&& entries[i].size == shown[k].size
                &&& shown[k].git_path == if rel.len() == 0 {
                    entries[i].name
                } else {
                    rel + seq!['/'] + entries[i].name
                }
            } by {
            if k < before.len() {
                assert(shown[k] == before[k]);
                let i = choose|i: int|
                    {
                        &&& 0 <= i < front.len()
                        &&& !flags[i]
                        &&& (#[trigger] front[i]).name == before[k].name
                        &&& front[i].is_dir == before[k].is_dir
                        &&& front[i].size == before[k].size
                        &&& before[k].git_path == if rel.len() == 0 {
                            front[i].name
                        } else {
                            rel + seq!['/'] + front[i].name
                        }
                    };
                assert(entries[i] == front[i]);
                assert(on_disk[i] == flags[i]);
            } else {
                assert(shown[k] == placeholder(rel, entries[n]));
            }
        }
    }
}

proof fn lemma_placeholders_by_flags(
    rel: Seq<char>,
    entries: Seq<DirEntryView>,
    a: Seq<bool>,
    b: Seq<bool>,
)
    requires
        forall|i: int| 0 <= i < entries.len() ==> a[i] == #[trigger] b[i],
    ensures
        missing_placeholders(rel, entries, a) == missing_placeholders(rel, entries, b),
    decreases entries.len(),
{
    if entries.len() > 0 {
        lemma_placeholders_by_flags(rel, entries.drop_last(), a, b);
        assert(a[entries.len() - 1] == b[entries.len() - 1]);
    }
}

/// The placeholders come in the order of the entries: where none of them is on disk, each entry
/// has its placeholder at its own place.
pub proof fn law_placeholders_keep_the_order(
    rel: Seq<char>,
    entries: Seq<DirEntryView>,
    on_disk: Seq<bool>,
    i: int,
)
    requires
        on_disk.len() == entries.len(),
        forall|k: int| 0 <= k < on_disk.len() ==> !#[trigger] on_disk[k],
        0 <= i < entries.len(),
    ensures
        missing_placeholders(rel, entries, on_disk).len() == entries.len(),
        missing_placeholders(rel, entries, on_disk)[i].name == entries[i].name,
    decreases entries.len(),
{
    let n = entries.len() - 1;
    let front = entries.drop_last();
    let flags = on_disk.drop_last();
    lemma_placeholders_by_flags(rel, front, on_disk, flags);
    assert(!on_disk[n]);
    if n > 0 {
        assert forall|k: int| 0 <= k < flags.len() implies !#[trigger] flags[k] by {
            assert(!on_disk[k]);
        }
        law_placeholders_keep_the_order(
            rel,
            front,
            flags,
            if i < n {
                i
            } else {
                0
            },
        );
    }
}

/// What comes first stays first: the placeholders for the first `n` entries are the first ones of
/// all, whichever of the entries are on disk.
pub proof fn law_placeholders_of_first_entries_come_first(
    rel: Seq<char>,
    entries: Seq<DirEntryView>,
    on_disk: Seq<bool>,
    n: int,
)
    requires
        on_disk.len() == entries.len(),
        0 <= n <= entries.len(),
    ensures
        missing_placeholders(rel, entries.take(n), on_disk.take(n)).is_prefix_of(
            missing_placeholders(rel, entries, on_disk),
        ),
    decreases entries.len(),
{
    lemma_placeholders_by_flags(rel, entries.take(n), on_disk, on_disk.take(n));
    let first = missing_placeholders(rel, entries.take(n), on_disk);
    let all = missing_placeholders(rel, entries, on_disk);
    if n == entries.len() {
        assert(entries.take(n) =~= entries);
        assert(all.subrange(0, all.len() as int) =~= all);
    } else {
        let front = entries.drop_last();
        let flags = on_disk.drop_last();
        law_placeholders_of_first_entries_come_first(rel, front, flags, n);
        lemma_placeholders_by_flags(rel, front, on_disk, flags);
        assert(front.take(n) =~= entries.take(n));
        assert(flags.take(n) =~= on_disk.take(n));
        let most = missing_placeholders(rel, front, on_disk);
        assert(all.subrange(0, first.len() as int) =~= most.subrange(0, first.len() as int));
    }
}

/// A file in the drive is hydrated from where it is now, even if its routing blob cannot be read as
/// text; a file elsewhere from what the blob says.
pub proof fn law_routing_blob_only_counts_elsewhere(
    root: Seq<Seq<char>>,
    abs: Seq<Seq<char>>,
    rel: Seq<char>,
    routing: Seq<u8>,
)
    requires
        rel.len() > 0,
    ensures
        hydrated_from(root, root + pieces(rel, '/'), routing) == rel,
        !root.is_prefix_of(abs) ==> hydrated_from(root, abs, routing) == lossy_utf8(routing),
        hydrated_from(root, root, routing) == lossy_utf8(routing),
{
    law_hydration_follows_the_current_place(root, abs, rel, lossy_utf8(routing));
}

/// Marking stops at the first step that succeeds, and otherwise tries what is left: an opened item
/// is marked, then converted, as a directory if it is one, and a file then by its handle; an item
/// that cannot be opened is only tried by its handle, if it is a file. So a file is given up only
/// after its handle was tried, and a directory is never converted as a file.
pub proof fn law_marking_tries_what_is_left(step: MarkStep, is_dir: bool)
    ensures
        mark_behind(step, true, is_dir) == MarkStep::Done,
        first_mark(true, is_dir) == MarkStep::SetInSync,
        mark_behind(MarkStep::SetInSync, false, is_dir) == (MarkStep::Convert {
            has_children: is_dir,
        }),
        mark_behind(MarkStep::Convert { has_children: is_dir }, false, true) == MarkStep::Done,
        mark_behind(MarkStep::Convert { has_children: is_dir }, false, false)
            == MarkStep::ConvertFile,
        mark_behind(MarkStep::ConvertFile, false, is_dir) == MarkStep::Done,
        first_mark(false, true) == MarkStep::Done,
        first_mark(false, false) == MarkStep::ConvertFile,
        mark_behind(step, false, true) != MarkStep::ConvertFile,
{
}

/// Every write of a hydration but the last one has exactly 64 KiB, so there are no more of them
/// than are needed.
pub proof fn law_writes_are_as_large_as_can_be(start: u64, end: u64, len: u64, i: int)
    requires
        0 <= i < chunks(start, range_end(end, len)).len() - 1,
    ensures
        chunks(start, range_end(end, len))[i].len == 65536,
        chunks(start, range_end(end, len))[i].position == start + 65536 * i,
{
    lemma_full_chunk(start, range_end(end, len), i);
}

proof fn lemma_full_chunk(start: u64, end: u64, i: int)
    requires
        0 <= i < chunks(start, end).len() - 1,
    ensures
        chunks(start, end)[i].len == 65536,
        chunks(start, end)[i].position == start + 65536 * i,
    decreases i,
{
    if i > 0 {
        lemma_full_chunk((start + CHUNK_SIZE) as u64, end, i - 1);
    }
}

/// A move inside the drive is recorded from the old git path to the new one, whatever they are as
/// long as they differ; a move into the drive or out of it, of the drive itself, or to where the
/// item was is not.
pub proof fn law_moves_inside_the_drive_are_recorded(
    root: Seq<Seq<char>>,
    from: Seq<char>,
    to: Seq<char>,
    elsewhere: Seq<Seq<char>>,
)
    requires
        from.len() > 0,
        to.len() > 0,
        !root.is_prefix_of(elsewhere),
    ensures
        ({
            let a = root + pieces(from, '/');
            let b = root + pieces(to, '/');
            &&& from != to ==> recorded_move(root, a, b) == Some((from, to))
            &&& recorded_move(root, a, a) is None
            &&& recorded_move(root, a, elsewhere) is None
            &&& recorded_move(root, elsewhere, b) is None
            &&& recorded_move(root, root, b) is None
            &&& recorded_move(root, a, root) is None
        }),
{
    law_git_path_of_joined(root, from);
    law_git_path_of_joined(root, to);
    assert(root.subrange(0, root.len() as int) =~= root);
    assert(root.skip(root.len() as int) =~= seq![]);
}

} // verus!
