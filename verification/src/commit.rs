//! Changes to a tree, and the steps that commit them and mirror them into the working tree.
use crate::paths::{enclosing, moved_to, rename_target};
use crate::text::{concat, lemma_pieces_add, pieces};
use crate::trusted::opt_bytes;
use vstd::prelude::*;
use vstd::slice::slice_to_vec;
use vstd::utf8::encode_utf8;

verus! {

/// A single change to apply to the tree in one commit.
#[derive(Debug)]
pub enum TreeOp {
    /// Create or overwrite a file at this `/`-separated path with these bytes.
    Upsert(String, Vec<u8>),
    /// Remove the file/dir at this `/`-separated path.
    Remove(String),
}

/// A change to a tree.
pub enum Change {
    Upsert(Seq<char>, Seq<u8>),
    Remove(Seq<char>),
}

impl View for TreeOp {
    type V = Change;

    open spec fn view(&self) -> Change {
        match *self {
            TreeOp::Upsert(path, data) => Change::Upsert(path@, data@),
            TreeOp::Remove(path) => Change::Remove(path@),
        }
    }
}

/// The changes that `ops` make.
pub open spec fn changes(ops: Seq<TreeOp>) -> Seq<Change> {
    ops.map_values(|op: TreeOp| op@)
}

/// Whether `path` lies below the directory `dir`.
pub open spec fn below(path: Seq<char>, dir: Seq<char>) -> bool {
    dir.push('/').is_prefix_of(path)
}

/// Whether `path` is `top` or lies below it.
pub open spec fn within(path: Seq<char>, top: Seq<char>) -> bool {
    path == top || below(path, top)
}

/// `files`, by path, without the file at `path` and without what lies below it.
pub open spec fn removed(files: Map<Seq<char>, Seq<u8>>, path: Seq<char>) -> Map<
    Seq<char>,
    Seq<u8>,
> {
    Map::new(|k: Seq<char>| files.contains_key(k) && !within(k, path), |k: Seq<char>| files[k])
}

/// `files` with `data` at `path`, in place of what was there, of what lay below it and of a file
/// that stood where a directory above it has to be.
pub open spec fn placed(
    files: Map<Seq<char>, Seq<u8>>,
    path: Seq<char>,
    data: Seq<u8>,
) -> Map<Seq<char>, Seq<u8>> {
    Map::new(
        |k: Seq<char>| k == path || (files.contains_key(k) && !within(k, path) && !below(path, k)),
        |k: Seq<char>|
            if k == path {
                data
            } else {
                files[k]
            },
    )
}

/// `files` after `change`.
pub open spec fn changed(files: Map<Seq<char>, Seq<u8>>, change: Change) -> Map<
    Seq<char>,
    Seq<u8>,
> {
    match change {
        Change::Upsert(path, data) => placed(files, path, data),
        Change::Remove(path) => removed(files, path),
    }
}

/// `files` after `all`, one after the other.
pub open spec fn changed_by(files: Map<Seq<char>, Seq<u8>>, all: Seq<Change>) -> Map<
    Seq<char>,
    Seq<u8>,
>
    decreases all.len(),
{
    if all.len() == 0 {
        files
    } else {
        changed(changed_by(files, all.drop_last()), all.last())
    }
}

/// One step of a commit.
#[derive(Debug)]
pub enum CommitStep {
    /// Write the blob and put it into the tree that is being edited.
    PutEntry { path: String, data: Vec<u8> },
    /// Drop the entry from the tree that is being edited.
    DropEntry { path: String },
    /// Write the file into the working tree, making the directories above it.
    WriteFile { path: String, data: Vec<u8> },
    /// Delete the file or directory from the working tree, then the directories above it that
    /// are empty.
    DeletePath { path: String },
    /// Write the edited tree and commit it on `HEAD`, as a child of `parents`.
    Record { message: String, parents: Vec<Vec<u8>> },
    /// Make the index hold what the commit holds.
    ResetIndex,
}

/// What a step does.
pub enum Step {
    PutEntry { path: Seq<char>, data: Seq<u8> },
    DropEntry { path: Seq<char> },
    WriteFile { path: Seq<char>, data: Seq<u8> },
    DeletePath { path: Seq<char> },
    Record { message: Seq<char>, parents: Seq<Seq<u8>> },
    ResetIndex,
}

impl View for CommitStep {
    type V = Step;

    open spec fn view(&self) -> Step {
        match *self {
            CommitStep::PutEntry { path, data } => Step::PutEntry { path: path@, data: data@ },
            CommitStep::DropEntry { path } => Step::DropEntry { path: path@ },
            CommitStep::WriteFile { path, data } => Step::WriteFile { path: path@, data: data@ },
            CommitStep::DeletePath { path } => Step::DeletePath { path: path@ },
            CommitStep::Record { message, parents } => Step::Record {
                message: message@,
                parents: ids(parents@),
            },
            CommitStep::ResetIndex => Step::ResetIndex,
        }
    }
}

/// The bytes of each id.
pub open spec fn ids(list: Seq<Vec<u8>>) -> Seq<Seq<u8>> {
    list.map_values(|id: Vec<u8>| id@)
}

/// The parents of a commit on a `HEAD` that is at the given commit: that one, or none where there
/// is no commit yet.
pub open spec fn parents_on(head: Option<Seq<u8>>) -> Seq<Seq<u8>> {
    match head {
        Some(id) => seq![id],
        None => seq![],
    }
}

/// A commit that was made: its message and its parents.
pub struct Logged {
    pub message: Seq<char>,
    pub parents: Seq<Seq<u8>>,
}

/// What `list` does.
pub open spec fn steps(list: Seq<CommitStep>) -> Seq<Step> {
    list.map_values(|s: CommitStep| s@)
}

/// A repository with its working tree: files by path.
pub struct Checkout {
    /// What `HEAD` holds; nothing while there is no commit.
    pub head: Map<Seq<char>, Seq<u8>>,
    /// The tree that is being edited.
    pub edited: Map<Seq<char>, Seq<u8>>,
    /// What lies in the working tree.
    pub disk: Map<Seq<char>, Seq<u8>>,
    /// What the index holds.
    pub index: Map<Seq<char>, Seq<u8>>,
    /// The commits that were made, the latest last.
    pub log: Seq<Logged>,
}

/// `state` after `step` has succeeded.
pub open spec fn after_step(state: Checkout, step: Step) -> Checkout {
    match step {
        Step::PutEntry { path, data } => Checkout {
            edited: placed(state.edited, path, data),
            ..state
        },
        Step::DropEntry { path } => Checkout { edited: removed(state.edited, path), ..state },
        Step::WriteFile { path, data } => Checkout {
            disk: placed(state.disk, path, data),
            ..state
        },
        Step::DeletePath { path } => Checkout { disk: removed(state.disk, path), ..state },
        Step::Record { message, parents } => Checkout {
            head: state.edited,
            log: state.log.push(Logged { message, parents }),
            ..state
        },
        Step::ResetIndex => Checkout { index: state.head, ..state },
    }
}

/// `state` after `all`, one after the other, have succeeded.
pub open spec fn after_steps(state: Checkout, all: Seq<Step>) -> Checkout
    decreases all.len(),
{
    if all.len() == 0 {
        state
    } else {
        after_step(after_steps(state, all.drop_last()), all.last())
    }
}

/// The steps for one change: the tree first, then the working tree if there is one.
pub open spec fn change_steps(change: Change, has_workdir: bool) -> Seq<Step> {
    match change {
        Change::Upsert(path, data) => if has_workdir {
            seq![Step::PutEntry { path, data }, Step::WriteFile { path, data }]
        } else {
            seq![Step::PutEntry { path, data }]
        },
        Change::Remove(path) => if has_workdir {
            seq![Step::DropEntry { path }, Step::DeletePath { path }]
        } else {
            seq![Step::DropEntry { path }]
        },
    }
}

/// The steps for `all`.
pub open spec fn edit_steps(all: Seq<Change>, has_workdir: bool) -> Seq<Step>
    decreases all.len(),
{
    if all.len() == 0 {
        seq![]
    } else {
        edit_steps(all.drop_last(), has_workdir) + change_steps(all.last(), has_workdir)
    }
}

/// The steps that commit `all` under `message` on a `HEAD` that is at the commit `head`.
pub open spec fn commit_steps(
    all: Seq<Change>,
    message: Seq<char>,
    head: Option<Seq<u8>>,
    has_workdir: bool,
) -> Seq<Step> {
    let recorded = edit_steps(all, has_workdir).push(
        Step::Record { message, parents: parents_on(head) },
    );
    if has_workdir {
        recorded.push(Step::ResetIndex)
    } else {
        recorded
    }
}

/// The steps that apply `ops` as a single commit on `HEAD`, mirror them into the working tree if
/// there is one, and reset the index to the new commit. `head` is the commit that `HEAD` is at, if
/// there is one: it becomes the parent.
pub fn commit(ops: Vec<TreeOp>, message: &str, head: Option<Vec<u8>>, has_workdir: bool) -> (r: Vec<
    CommitStep,
>)
    ensures
        steps(r@) == commit_steps(changes(ops@), message@, opt_bytes(head), has_workdir),
{
    let mut r: Vec<CommitStep> = Vec::new();
    let ghost all = changes(ops@);
    assert(steps(r@) =~= edit_steps(all.take(0), has_workdir));
    for op in it: ops
        invariant
            it.seq() == ops@,
            all == changes(ops@),
            steps(r@) == edit_steps(all.take(it.index() as int), has_workdir),
    {
        let ghost before = steps(r@);
        let ghost change = op@;
        assert(all.take(it.index() as int + 1).drop_last() =~= all.take(it.index() as int));
        assert(all.take(it.index() as int + 1).last() == change);
        match op {
            TreeOp::Upsert(path, data) => {
                if has_workdir {
                    r.push(CommitStep::PutEntry { path: path.clone(), data: data.clone() });
                    r.push(CommitStep::WriteFile { path, data });
                } else {
                    r.push(CommitStep::PutEntry { path, data });
                }
            },
            TreeOp::Remove(path) => {
                if has_workdir {
                    r.push(CommitStep::DropEntry { path: path.clone() });
                    r.push(CommitStep::DeletePath { path });
                } else {
                    r.push(CommitStep::DropEntry { path });
                }
            },
        }
        assert(steps(r@) =~= before + change_steps(change, has_workdir));
    }
    assert(all.take(all.len() as int) =~= all);
    let ghost edits = steps(r@);
    let ghost record = Step::Record { message: message@, parents: parents_on(opt_bytes(head)) };
    let mut parents: Vec<Vec<u8>> = Vec::new();
    if let Some(id) = head {
        parents.push(id);
    }
    assert(ids(parents@) =~= parents_on(opt_bytes(head)));
    r.push(CommitStep::Record { message: message.to_owned(), parents });
    assert(steps(r@) =~= edits.push(record));
    if has_workdir {
        r.push(CommitStep::ResetIndex);
        assert(steps(r@) =~= edits.push(record).push(Step::ResetIndex));
    }
    r
}

/// The change that a commit of a single file makes.
pub fn commit_upsert(rel: &str, data: &[u8]) -> (r: Vec<TreeOp>)
    ensures
        changes(r@) == seq![Change::Upsert(rel@, data@)],
{
    let mut r: Vec<TreeOp> = Vec::new();
    r.push(TreeOp::Upsert(rel.to_owned(), slice_to_vec(data)));
    assert(changes(r@) =~= seq![Change::Upsert(rel@, data@)]);
    r
}

/// The change that a commit of a single removal makes.
pub fn commit_remove(rel: &str) -> (r: Vec<TreeOp>)
    ensures
        changes(r@) == seq![Change::Remove(rel@)],
{
    let mut r: Vec<TreeOp> = Vec::new();
    r.push(TreeOp::Remove(rel.to_owned()));
    assert(changes(r@) =~= seq![Change::Remove(rel@)]);
    r
}

/// The paths and the contents of `blobs`.
pub open spec fn blob_views(blobs: Seq<(String, Vec<u8>)>) -> Seq<(Seq<char>, Seq<u8>)> {
    blobs.map_values(|b: (String, Vec<u8>)| (b.0@, b.1@))
}

/// The changes that move `blobs`, the files at and below `old`, to `new`.
pub open spec fn rename_changes(
    old_path: Seq<char>,
    new: Seq<char>,
    blobs: Seq<(Seq<char>, Seq<u8>)>,
) -> Seq<Change> {
    seq![Change::Remove(old_path)] + blobs.map_values(
        |b: (Seq<char>, Seq<u8>)| Change::Upsert(moved_to(new, b.0), b.1),
    )
}

/// The message under which a rename is committed.
pub open spec fn rename_message(old_path: Seq<char>, new: Seq<char>) -> Seq<char> {
    "Rename "@ + old_path + " -> "@ + new
}

/// The changes and the message that record a rename `old_path` -> `new` as one commit. `blobs`
/// are the committed files at and below `old_path`, as path below it and content.
pub fn rename_in_git(old_path: &str, new: &str, blobs: Vec<(String, Vec<u8>)>) -> (r: (
    Vec<TreeOp>,
    String,
))
    ensures
        changes(r.0@) == rename_changes(old_path@, new@, blob_views(blobs@)),
        r.1@ == rename_message(old_path@, new@),
{
    let mut ops: Vec<TreeOp> = Vec::new();
    ops.push(TreeOp::Remove(old_path.to_owned()));
    let ghost moves = blob_views(blobs@).map_values(
        |b: (Seq<char>, Seq<u8>)| Change::Upsert(moved_to(new@, b.0), b.1),
    );
    assert(changes(ops@) =~= seq![Change::Remove(old_path@)] + moves.take(0));
    for blob in it: blobs
        invariant
            it.seq() == blobs@,
            moves == blob_views(blobs@).map_values(
                |b: (Seq<char>, Seq<u8>)| Change::Upsert(moved_to(new@, b.0), b.1),
            ),
            changes(ops@) == seq![Change::Remove(old_path@)] + moves.take(it.index() as int),
    {
        let ghost before = changes(ops@);
        let target: String = rename_target(new, blob.0.as_str());
        ops.push(TreeOp::Upsert(target, blob.1));
        assert(changes(ops@) =~= before.push(moves[it.index() as int]));
        assert(changes(ops@) =~= seq![Change::Remove(old_path@)] + moves.take(
            it.index() as int + 1,
        ));
    }
    assert(moves.take(moves.len() as int) =~= moves);
    let mut message: String = concat("Rename ", old_path);
    message.append(" -> ");
    message.append(new);
    (ops, message)
}

/// The text of the sample README.
pub open spec fn sample_readme() -> Seq<char> {
    "# bosync sample repo\n\nThis repo is the \"cloud\" backing a bosync mount.\n"@
}

/// The text of the sample greeting.
pub open spec fn sample_hello() -> Seq<char> {
    "Hello from a git blob! Open me to trigger hydration.\n"@
}

/// The text of the sample guide.
pub open spec fn sample_guide() -> Seq<char> {
    "## Guide\n\nBrowsing this folder lazily projects the `docs` tree into placeholders.\n"@
}

/// The first commit of a sample repository: a few files for demos.
pub fn init_sample() -> (r: (Vec<TreeOp>, String))
    ensures
        changes(r.0@) == seq![
            Change::Upsert("README.md"@, encode_utf8(sample_readme())),
            Change::Upsert("hello.txt"@, encode_utf8(sample_hello())),
            Change::Upsert("docs/guide.md"@, encode_utf8(sample_guide())),
        ],
        r.1@ == "Initial sample commit"@,
{
    let mut ops: Vec<TreeOp> = Vec::new();
    ops.push(
        TreeOp::Upsert(
            "README.md".to_owned(),
            slice_to_vec(
                "# bosync sample repo\n\nThis repo is the \"cloud\" backing a bosync mount.\n"
                    .as_bytes(),
            ),
        ),
    );
    ops.push(
        TreeOp::Upsert(
            "hello.txt".to_owned(),
            slice_to_vec("Hello from a git blob! Open me to trigger hydration.\n".as_bytes()),
        ),
    );
    ops.push(
        TreeOp::Upsert(
            "docs/guide.md".to_owned(),
            slice_to_vec(
                "## Guide\n\nBrowsing this folder lazily projects the `docs` tree into placeholders.\n"
                    .as_bytes(),
            ),
        ),
    );
    assert(changes(ops@) =~= seq![
        Change::Upsert("README.md"@, encode_utf8(sample_readme())),
        Change::Upsert("hello.txt"@, encode_utf8(sample_hello())),
        Change::Upsert("docs/guide.md"@, encode_utf8(sample_guide())),
    ]);
    (ops, "Initial sample commit".to_owned())
}

/// Steps one after the other are the first ones, then the others.
pub proof fn lemma_after_append(state: Checkout, a: Seq<Step>, b: Seq<Step>)
    ensures
        after_steps(state, a + b) == after_steps(after_steps(state, a), b),
    decreases b.len(),
{
    if b.len() == 0 {
        assert(a + b =~= a);
    } else {
        assert((a + b).drop_last() =~= a + b.drop_last());
        lemma_after_append(state, a, b.drop_last());
    }
}

proof fn lemma_edits(state: Checkout, all: Seq<Change>, has_workdir: bool)
    ensures
        ({
            let end = after_steps(state, edit_steps(all, has_workdir));
            &&& end.edited == changed_by(state.edited, all)
            &&& end.disk == if has_workdir {
                changed_by(state.disk, all)
            } else {
                state.disk
            }
            &&& end.head == state.head
            &&& end.index == state.index
            &&& end.log == state.log
        }),
    decreases all.len(),
{
    if all.len() > 0 {
        let earlier = edit_steps(all.drop_last(), has_workdir);
        let here = change_steps(all.last(), has_workdir);
        lemma_edits(state, all.drop_last(), has_workdir);
        lemma_after_append(state, earlier, here);
        let mid = after_steps(state, earlier);
        if has_workdir {
            assert(here.drop_last() =~= seq![here[0]]);
            assert(seq![here[0]].drop_last() =~= seq![]);
            assert(after_steps(mid, seq![]) == mid);
            assert(after_steps(mid, seq![here[0]]) == after_step(mid, here[0]));
            assert(after_steps(mid, here) == after_step(after_step(mid, here[0]), here[1]));
        } else {
            assert(here.drop_last() =~= seq![]);
            assert(after_steps(mid, seq![]) == mid);
            assert(after_steps(mid, here) == after_step(mid, here[0]));
        }
    }
}

/// A commit makes exactly the given changes to what `HEAD` holds, as one commit under the given
/// message, whose parent is the commit that `HEAD` was at. A working tree and an index that showed
/// what `HEAD` held show it again, and without a working tree nothing is written outside the object
/// store.
pub proof fn law_commit_keeps_the_checkout_clean(
    state: Checkout,
    all: Seq<Change>,
    message: Seq<char>,
    head: Option<Seq<u8>>,
    has_workdir: bool,
)
    requires
        state.edited == state.head,
    ensures
        ({
            let end = after_steps(state, commit_steps(all, message, head, has_workdir));
            &&& end.head == changed_by(state.head, all)
            &&& end.log == state.log.push(Logged { message, parents: parents_on(head) })
            &&& has_workdir && state.disk == state.head ==> end.disk == end.head
            &&& has_workdir ==> end.index == end.head
            &&& !has_workdir ==> end.disk == state.disk && end.index == state.index
        }),
{
    let edits = edit_steps(all, has_workdir);
    let record = Step::Record { message, parents: parents_on(head) };
    let recorded = edits.push(record);
    lemma_edits(state, all, has_workdir);
    assert(recorded.drop_last() =~= edits);
    assert(after_steps(state, recorded) == after_step(after_steps(state, edits), record));
    if has_workdir {
        assert(recorded.push(Step::ResetIndex).drop_last() =~= recorded);
    }
}

/// What was committed last at a path is what `HEAD` holds there, whatever was changed before in
/// the same commit; and what is apart from the path is as those changes left it.
pub proof fn law_committed_file_reads_back(
    state: Checkout,
    all: Seq<Change>,
    path: Seq<char>,
    data: Seq<u8>,
    message: Seq<char>,
    head: Option<Seq<u8>>,
    has_workdir: bool,
)
    requires
        state.edited == state.head,
    ensures
        ({
            let end = after_steps(
                state,
                commit_steps(all.push(Change::Upsert(path, data)), message, head, has_workdir),
            );
            &&& end.head.contains_key(path)
            &&& end.head[path] == data
            &&& forall|k: Seq<char>|
                !within(k, path) && !below(path, k) ==> (#[trigger] end.head.contains_key(k)
                    <==> changed_by(state.head, all).contains_key(k)) && (
                end.head.contains_key(k) ==> end.head[k] == changed_by(state.head, all)[k])
        }),
{
    let more = all.push(Change::Upsert(path, data));
    law_commit_keeps_the_checkout_clean(state, more, message, head, has_workdir);
    assert(more.drop_last() =~= all);
}

/// Of what was removed last, `HEAD` holds nothing.
pub proof fn law_removed_path_is_gone(
    state: Checkout,
    all: Seq<Change>,
    path: Seq<char>,
    message: Seq<char>,
    head: Option<Seq<u8>>,
    has_workdir: bool,
    k: Seq<char>,
)
    requires
        state.edited == state.head,
        within(k, path),
    ensures
        !after_steps(
            state,
            commit_steps(all.push(Change::Remove(path)), message, head, has_workdir),
        ).head.contains_key(k),
{
    let more = all.push(Change::Remove(path));
    law_commit_keeps_the_checkout_clean(state, more, message, head, has_workdir);
    assert(more.drop_last() =~= all);
}

/// Committing the removal of a file undoes the commit that added it, where nothing was in its way.
pub proof fn law_remove_undoes_upsert(
    files: Map<Seq<char>, Seq<u8>>,
    path: Seq<char>,
    data: Seq<u8>,
)
    requires
        forall|k: Seq<char>| #[trigger]
            files.contains_key(k) ==> !within(k, path) && !below(path, k),
    ensures
        changed_by(files, seq![Change::Upsert(path, data), Change::Remove(path)]) == files,
{
    let up = Change::Upsert(path, data);
    let both = seq![up, Change::Remove(path)];
    assert(seq![up].drop_last() =~= seq![]);
    assert(changed_by(files, seq![]) == files);
    assert(changed_by(files, seq![up]) == placed(files, path, data));
    assert(both.drop_last() =~= seq![up]);
    assert(changed_by(files, both) == removed(placed(files, path, data), path));
    assert(changed_by(files, both) =~= files);
}

/// Whether no path of `blobs` is another one or lies below it, and the empty path stands alone:
/// as it is with the files of a tree, or with a single file.
pub open spec fn apart(blobs: Seq<(Seq<char>, Seq<u8>)>) -> bool {
    &&& forall|i: int, j: int|
        #![trigger blobs[i], blobs[j]]
        0 <= i < blobs.len() && 0 <= j < blobs.len() && i != j ==> !within(blobs[i].0, blobs[j].0)
    &&& forall|i: int|
        0 <= i < blobs.len() && (#[trigger] blobs[i]).0.len() == 0 ==> blobs.len() == 1
}

proof fn lemma_moved_apart(new: Seq<char>, a: Seq<char>, b: Seq<char>)
    requires
        a.len() > 0,
        b.len() > 0,
        !within(a, b),
    ensures
        !within(moved_to(new, a), moved_to(new, b)),
{
    let head = new + seq!['/'];
    assert(moved_to(new, a).skip(head.len() as int) =~= a);
    assert(moved_to(new, b).skip(head.len() as int) =~= b);
    if below(moved_to(new, a), moved_to(new, b)) {
        let dir = moved_to(new, b).push('/');
        assert(dir.skip(head.len() as int) =~= b.push('/'));
        let whole = moved_to(new, a);
        assert(whole.subrange(0, dir.len() as int) == dir);
        assert(a.subrange(0, b.len() as int + 1) =~= dir.skip(head.len() as int));
        assert(b.push('/').is_prefix_of(a));
    }
}

proof fn lemma_moved_within(new: Seq<char>, rel: Seq<char>)
    ensures
        within(moved_to(new, rel), new),
{
    if rel.len() > 0 {
        assert(moved_to(new, rel).subrange(0, new.len() as int + 1) =~= new.push('/'));
    }
}

proof fn lemma_rename(
    files: Map<Seq<char>, Seq<u8>>,
    old_path: Seq<char>,
    new: Seq<char>,
    blobs: Seq<(Seq<char>, Seq<u8>)>,
    n: int,
)
    requires
        apart(blobs),
        0 <= n <= blobs.len(),
    ensures
        ({
            let end = changed_by(files, rename_changes(old_path, new, blobs.take(n)));
            &&& forall|i: int|
                0 <= i < n ==> end.contains_key(moved_to(new, (#[trigger] blobs[i]).0))
                    && end[moved_to(new, blobs[i].0)] == blobs[i].1
            &&& forall|k: Seq<char>| #[trigger]
                end.contains_key(k) ==> (files.contains_key(k) && !within(k, old_path)
                    && end[k] == files[k]) || (exists|i: int|
                    0 <= i < n && k == moved_to(new, (#[trigger] blobs[i]).0))
            &&& forall|k: Seq<char>|
                files.contains_key(k) && !within(k, old_path) && !within(k, new) && !below(new, k)
                    ==> #[trigger] end.contains_key(k) && end[k] == files[k]
        }),
    decreases n,
{
    let all = rename_changes(old_path, new, blobs.take(n));
    let end = changed_by(files, all);
    if n == 0 {
        assert(all =~= seq![Change::Remove(old_path)]);
        assert(all.drop_last() =~= seq![]);
        assert(changed_by(files, seq![]) == files);
        assert(end == removed(files, old_path));
    } else {
        lemma_rename(files, old_path, new, blobs, n - 1);
        let earlier = rename_changes(old_path, new, blobs.take(n - 1));
        let mid = changed_by(files, earlier);
        let last = moved_to(new, blobs[n - 1].0);
        assert(all.drop_last() =~= earlier);
        assert(all.last() == Change::Upsert(last, blobs[n - 1].1));
        assert(end == placed(mid, last, blobs[n - 1].1));
        lemma_moved_within(new, blobs[n - 1].0);
        assert forall|i: int| 0 <= i < n implies end.contains_key(
            moved_to(new, (#[trigger] blobs[i]).0),
        ) && end[moved_to(new, blobs[i].0)] == blobs[i].1 by {
            if i < n - 1 {
                let x = blobs[i].0;
                let y = blobs[n - 1].0;
                assert(!within(x, y) && !within(y, x));
                lemma_moved_apart(new, x, y);
                lemma_moved_apart(new, y, x);
            }
        }
        assert forall|k: Seq<char>| #[trigger] end.contains_key(k) implies (files.contains_key(k)
            && !within(k, old_path) && end[k] == files[k]) || (exists|i: int|
            0 <= i < n && k == moved_to(new, (#[trigger] blobs[i]).0)) by {
            if k == last {
                assert(k == moved_to(new, blobs[n - 1].0));
            } else {
                assert(mid.contains_key(k));
                if !(files.contains_key(k) && !within(k, old_path) && mid[k] == files[k]) {
                    let i = choose|i: int|
                        0 <= i < n - 1 && k == moved_to(new, (#[trigger] blobs[i]).0);
                    assert(0 <= i < n && k == moved_to(new, blobs[i].0));
                }
            }
        }
        assert forall|k: Seq<char>|
            files.contains_key(k) && !within(k, old_path) && !within(k, new) && !below(
                new,
                k,
            ) implies #[trigger] end.contains_key(k) && end[k] == files[k] by {
            assert(mid.contains_key(k));
            lemma_outside(k, new, last);
        }
    }
}

/// What is apart from `new` is apart from what lies within `new`.
proof fn lemma_outside(k: Seq<char>, new: Seq<char>, inner: Seq<char>)
    requires
        within(inner, new),
        !within(k, new),
        !below(new, k),
    ensures
        !within(k, inner),
        !below(inner, k),
{
    if below(inner, new) {
        assert(inner.subrange(0, new.len() as int + 1) == new.push('/'));
        if within(k, inner) {
            if below(k, inner) {
                assert(k.subrange(0, inner.len() as int + 1) == inner.push('/'));
                assert(k.subrange(0, new.len() as int + 1) =~= inner.push('/').subrange(
                    0,
                    new.len() as int + 1,
                ));
                assert(inner.push('/').subrange(0, new.len() as int + 1) =~= inner.subrange(
                    0,
                    new.len() as int + 1,
                ));
            }
        }
        if below(inner, k) {
            assert(inner.subrange(0, k.len() as int + 1) == k.push('/'));
            if k.len() < new.len() {
                assert(new.subrange(0, k.len() as int + 1) =~= inner.subrange(
                    0,
                    new.len() as int + 1,
                ).subrange(0, k.len() as int + 1));
                assert(inner.subrange(0, new.len() as int + 1).subrange(0, k.len() as int + 1)
                    =~= inner.subrange(0, k.len() as int + 1));
                assert(below(new, k));
            } else if k.len() == new.len() {
                assert(inner.subrange(0, k.len() as int + 1).drop_last() =~= k);
                assert(new.push('/').drop_last() =~= new);
                assert(k == new);
            } else {
                assert(k.subrange(0, new.len() as int + 1) =~= inner.subrange(
                    0,
                    k.len() as int + 1,
                ).subrange(0, new.len() as int + 1));
                assert(inner.subrange(0, k.len() as int + 1).subrange(0, new.len() as int + 1)
                    =~= inner.subrange(0, new.len() as int + 1));
                assert(below(k, new));
            }
        }
    }
}

/// A rename moves every file at and below the old path to its place at or below the new one,
/// leaves nothing of the old path behind, and keeps everything else that is apart from the new
/// path.
pub proof fn law_rename_moves_every_file(
    files: Map<Seq<char>, Seq<u8>>,
    old_path: Seq<char>,
    new: Seq<char>,
    blobs: Seq<(Seq<char>, Seq<u8>)>,
)
    requires
        apart(blobs),
    ensures
        ({
            let end = changed_by(files, rename_changes(old_path, new, blobs));
            &&& forall|i: int|
                0 <= i < blobs.len() ==> end.contains_key(moved_to(new, (#[trigger] blobs[i]).0))
                    && end[moved_to(new, blobs[i].0)] == blobs[i].1
            &&& forall|k: Seq<char>| #[trigger]
                end.contains_key(k) && within(k, old_path) ==> exists|i: int|
                    0 <= i < blobs.len() && k == moved_to(new, (#[trigger] blobs[i]).0)
            &&& forall|k: Seq<char>|
                files.contains_key(k) && !within(k, old_path) && !within(k, new) && !below(new, k)
                    ==> #[trigger] end.contains_key(k) && end[k] == files[k]
        }),
{
    lemma_rename(files, old_path, new, blobs, blobs.len() as int);
    assert(blobs.take(blobs.len() as int) =~= blobs);
}

/// Whether a file of `files` lies below the directory `dir`.
pub open spec fn holds_files(files: Map<Seq<char>, Seq<u8>>, dir: Seq<char>) -> bool {
    exists|k: Seq<char>| #[trigger] files.contains_key(k) && below(k, dir)
}

/// What lies below a directory that lies below another one lies below that one.
proof fn lemma_below_below(k: Seq<char>, mid: Seq<char>, top: Seq<char>)
    requires
        below(k, mid),
        below(mid, top),
    ensures
        below(k, top),
{
    assert(k.subrange(0, mid.len() as int + 1) == mid.push('/'));
    assert(mid.subrange(0, top.len() as int + 1) == top.push('/'));
    assert(k.subrange(0, top.len() as int + 1) =~= mid.push('/').subrange(
        0,
        top.len() as int + 1,
    ));
    assert(mid.push('/').subrange(0, top.len() as int + 1) =~= mid.subrange(
        0,
        top.len() as int + 1,
    ));
}

/// A directory that holds a file within `path` and is not within `path` itself is above it.
proof fn lemma_above(k: Seq<char>, path: Seq<char>, dir: Seq<char>)
    requires
        within(k, path),
        below(k, dir),
        !within(dir, path),
    ensures
        below(path, dir),
{
    assert(k.subrange(0, dir.len() as int + 1) == dir.push('/'));
    if k != path {
        assert(k.subrange(0, path.len() as int + 1) == path.push('/'));
        assert(k.subrange(0, path.len() as int) =~= path) by {
            assert(path.push('/').drop_last() =~= path);
            assert(k.subrange(0, path.len() as int + 1).drop_last() =~= k.subrange(
                0,
                path.len() as int,
            ));
        }
        assert(k.subrange(0, dir.len() as int) =~= dir) by {
            assert(dir.push('/').drop_last() =~= dir);
            assert(k.subrange(0, dir.len() as int + 1).drop_last() =~= k.subrange(
                0,
                dir.len() as int,
            ));
        }
        if dir.len() < path.len() {
            assert(path.subrange(0, dir.len() as int + 1) =~= k.subrange(0, dir.len() as int + 1));
        } else if dir.len() > path.len() {
            assert(dir.subrange(0, path.len() as int + 1) =~= k.subrange(
                0,
                path.len() as int + 1,
            ));
            assert(below(dir, path));
        }
    }
}

/// The directories that the removal of `path` empties go with it. One that held a file before and
/// holds none any more is either removed with `path` or above it; then it is among those in the
/// working tree `base` that are tried, from the directory of `path` up, `dirs_to_prune` telling
/// how many; and those tried before it hold no file either.
pub proof fn law_emptied_directories_go(
    files: Map<Seq<char>, Seq<u8>>,
    base: Seq<Seq<char>>,
    path: Seq<char>,
    dir: Seq<char>,
)
    requires
        holds_files(files, dir),
        !holds_files(removed(files, path), dir),
    ensures
        within(dir, path) || ({
            let start = base + pieces(path, '/').drop_last();
            exists|i: int|
                {
                    &&& 0 <= i < enclosing(base, start)
                    &&& (#[trigger] start.take(start.len() - i)) == base + pieces(dir, '/')
                }
        }),
        forall|other: Seq<char>|
            #![trigger holds_files(removed(files, path), other)]
            below(other, dir) ==> !holds_files(removed(files, path), other),
{
    assert forall|other: Seq<char>|
        #![trigger holds_files(removed(files, path), other)]
        below(other, dir) implies !holds_files(removed(files, path), other) by {
        if holds_files(removed(files, path), other) {
            let k = choose|k: Seq<char>| #[trigger]
                removed(files, path).contains_key(k) && below(k, other);
            lemma_below_below(k, other, dir);
        }
    }
    if !within(dir, path) {
        let k = choose|k: Seq<char>| #[trigger] files.contains_key(k) && below(k, dir);
        assert(!removed(files, path).contains_key(k));
        lemma_above(k, path, dir);
        assert(path.subrange(0, dir.len() as int + 1) == dir.push('/'));
        let rest = path.skip(dir.len() as int + 1);
        assert(path =~= dir + seq!['/'] + rest) by {
            assert forall|j: int| 0 <= j < dir.len() + 1 implies path[j] == dir.push('/')[j] by {
                assert(path.subrange(0, dir.len() as int + 1)[j] == path[j]);
            }
        }
        lemma_pieces_add(dir, '/', rest);
        let parts = pieces(path, '/');
        let start = base + parts.drop_last();
        let i = parts.len() - 1 - pieces(dir, '/').len();
        assert(pieces(dir, '/').len() > 0);
        assert(pieces(rest, '/').len() > 0);
        assert(start.subrange(0, base.len() as int) =~= base);
        assert(start.take(start.len() - i) =~= base + pieces(dir, '/'));
    }
}

/// A commit descends from the commit that `HEAD` was at, and from nothing else; the first one from
/// nothing. It is recorded once, under its message.
pub proof fn law_commit_descends_from_head(
    state: Checkout,
    all: Seq<Change>,
    message: Seq<char>,
    id: Seq<u8>,
    has_workdir: bool,
)
    requires
        state.edited == state.head,
    ensures
        ({
            let end = after_steps(state, commit_steps(all, message, Some(id), has_workdir));
            &&& end.log.len() == state.log.len() + 1
            &&& end.log.last().message == message
            &&& end.log.last().parents == seq![id]
        }),
        ({
            let end = after_steps(state, commit_steps(all, message, None, has_workdir));
            &&& end.log.len() == state.log.len() + 1
            &&& end.log.last().message == message
            &&& end.log.last().parents.len() == 0
        }),
{
    law_commit_keeps_the_checkout_clean(state, all, message, Some(id), has_workdir);
    law_commit_keeps_the_checkout_clean(state, all, message, None, has_workdir);
}

/// A removal takes the path and what lies below it, and nothing else: every other file stays as it
/// is.
pub proof fn law_removal_keeps_the_rest(
    state: Checkout,
    path: Seq<char>,
    message: Seq<char>,
    head: Option<Seq<u8>>,
    has_workdir: bool,
    k: Seq<char>,
)
    requires
        state.edited == state.head,
        k != path,
        !path.push('/').is_prefix_of(k),
    ensures
        ({
            let end = after_steps(
                state,
                commit_steps(seq![Change::Remove(path)], message, head, has_workdir),
            );
            &&& end.head.contains_key(k) <==> state.head.contains_key(k)
            &&& state.head.contains_key(k) ==> end.head[k] == state.head[k]
        }),
{
    let all = seq![Change::Remove(path)];
    law_commit_keeps_the_checkout_clean(state, all, message, head, has_workdir);
    assert(all.drop_last() =~= seq![]);
    assert(changed_by(state.head, seq![]) == state.head);
}

/// A file that is committed is in `HEAD`, in the working tree if there is one, and in the index,
/// with every byte that it was given; every file that is not in its way stays as it is.
pub proof fn law_upsert_is_mirrored(
    state: Checkout,
    path: Seq<char>,
    data: Seq<u8>,
    message: Seq<char>,
    head: Option<Seq<u8>>,
    k: Seq<char>,
)
    requires
        state.edited == state.head,
        state.disk == state.head,
        k != path,
        !path.push('/').is_prefix_of(k),
        !k.push('/').is_prefix_of(path),
    ensures
        ({
            let end = after_steps(
                state,
                commit_steps(seq![Change::Upsert(path, data)], message, head, true),
            );
            &&& end.head.contains_key(path) && end.head[path] == data
            &&& end.disk.contains_key(path) && end.disk[path] == data
            &&& end.index.contains_key(path) && end.index[path] == data
            &&& end.head.contains_key(k) <==> state.head.contains_key(k)
            &&& state.head.contains_key(k) ==> end.head[k] == state.head[k] && end.disk[k]
                == state.head[k]
        }),
{
    let all = seq![Change::Upsert(path, data)];
    law_commit_keeps_the_checkout_clean(state, all, message, head, true);
    assert(all.drop_last() =~= seq![]);
    assert(changed_by(state.head, seq![]) == state.head);
}

/// The message of a rename tells from where to where.
pub proof fn law_rename_message_tells_both_paths(old_path: Seq<char>, new: Seq<char>)
    ensures
        rename_message(old_path, new) == "Rename "@ + old_path + " -> "@ + new,
{
}

/// A rename of a single file takes the old path away and puts its content, and nothing else, at the
/// new one.
pub proof fn law_renamed_file_keeps_its_content(
    files: Map<Seq<char>, Seq<u8>>,
    old_path: Seq<char>,
    new: Seq<char>,
    data: Seq<u8>,
)
    requires
        old_path != new,
        !old_path.push('/').is_prefix_of(new),
    ensures
        ({
            let end = changed_by(files, rename_changes(old_path, new, seq![(seq![], data)]));
            &&& end.contains_key(new) && end[new] == data
            &&& !end.contains_key(old_path)
        }),
{
    let blobs: Seq<(Seq<char>, Seq<u8>)> = seq![(seq![], data)];
    law_rename_moves_every_file(files, old_path, new, blobs);
    let end = changed_by(files, rename_changes(old_path, new, blobs));
    assert(moved_to(new, blobs[0].0) == new);
    if end.contains_key(old_path) {
        assert(within(old_path, old_path));
        let i = choose|i: int|
            0 <= i < blobs.len() && old_path == moved_to(new, (#[trigger] blobs[i]).0);
        assert(i == 0);
    }
}

/// Steps and changes are taken as they are: every one, in its order, with its paths and contents.
pub proof fn law_steps_are_taken_as_they_are(
    ops: Seq<TreeOp>,
    list: Seq<CommitStep>,
    blobs: Seq<(String, Vec<u8>)>,
    parents: Seq<Vec<u8>>,
    i: int,
)
    ensures
        changes(ops).len() == ops.len(),
        0 <= i < ops.len() ==> changes(ops)[i] == match ops[i] {
            TreeOp::Upsert(path, data) => Change::Upsert(path@, data@),
            TreeOp::Remove(path) => Change::Remove(path@),
        },
        steps(list).len() == list.len(),
        0 <= i < list.len() ==> match list[i] {
            CommitStep::PutEntry { path, data } => steps(list)[i] == (Step::PutEntry {
                path: path@,
                data: data@,
            }),
            CommitStep::DropEntry { path } => steps(list)[i] == (Step::DropEntry { path: path@ }),
            CommitStep::WriteFile { path, data } => steps(list)[i] == (Step::WriteFile {
                path: path@,
                data: data@,
            }),
            CommitStep::DeletePath { path } => steps(list)[i] == (Step::DeletePath {
                path: path@,
            }),
            CommitStep::Record { message, parents: p } => steps(list)[i] == (Step::Record {
                message: message@,
                parents: ids(p@),
            }),
            CommitStep::ResetIndex => steps(list)[i] is ResetIndex,
        },
        blob_views(blobs).len() == blobs.len(),
        0 <= i < blobs.len() ==> blob_views(blobs)[i] == (blobs[i].0@, blobs[i].1@),
        ids(parents).len() == parents.len(),
        0 <= i < parents.len() ==> ids(parents)[i] == parents[i]@,
{
}

/// The sample repository greets its visitor and tells how it is used.
pub proof fn law_sample_texts()
    ensures
        sample_readme()
            == "# bosync sample repo\n\nThis repo is the \"cloud\" backing a bosync mount.\n"@,
        sample_hello() == "Hello from a git blob! Open me to trigger hydration.\n"@,
        sample_guide()
            == "## Guide\n\nBrowsing this folder lazily projects the `docs` tree into placeholders.\n"@,
{
}

} // verus!
