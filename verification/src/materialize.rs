//! Making the working tree of a repository show what its `HEAD` holds.
use crate::commit::{
    after_step, after_steps, apart, below, blob_views, lemma_after_append, placed, removed, steps,
    within, Checkout, CommitStep, Step,
};
use crate::text::texts;
use vstd::hash_map::StringHashMap;
use vstd::prelude::*;

verus! {

/// Whether `path` is among the paths of `blobs`.
pub open spec fn has_path(blobs: Seq<(Seq<char>, Seq<u8>)>, path: Seq<char>) -> bool {
    exists|i: int| 0 <= i < blobs.len() && (#[trigger] blobs[i]).0 == path
}

/// The paths of `shown` that are not among those of `blobs`.
pub open spec fn stale(shown: Seq<Seq<char>>, blobs: Seq<(Seq<char>, Seq<u8>)>) -> Seq<Seq<char>> {
    shown.filter(|p: Seq<char>| !has_path(blobs, p))
}

/// Deletions of `paths`.
pub open spec fn deletions(paths: Seq<Seq<char>>) -> Seq<Step> {
    paths.map_values(|path: Seq<char>| Step::DeletePath { path })
}

/// Writes of `blobs`.
pub open spec fn writes(blobs: Seq<(Seq<char>, Seq<u8>)>) -> Seq<Step> {
    blobs.map_values(|b: (Seq<char>, Seq<u8>)| Step::WriteFile { path: b.0, data: b.1 })
}

/// The steps that make a working tree which shows the files `shown` show `blobs`.
pub open spec fn materialize_steps(
    shown: Seq<Seq<char>>,
    blobs: Seq<(Seq<char>, Seq<u8>)>,
) -> Seq<Step> {
    seq![Step::ResetIndex] + deletions(stale(shown, blobs)) + writes(blobs)
}

/// The steps that make a working tree which shows the files `shown` show `blobs`, and its index
/// match: what is not among `blobs` goes, and every blob is written.
pub fn materialize_worktree(shown: Vec<String>, blobs: Vec<(String, Vec<u8>)>) -> (r: Vec<
    CommitStep,
>)
    ensures
        steps(r@) == materialize_steps(texts(shown@), blob_views(blobs@)),
{
    let ghost wanted = blob_views(blobs@);
    let mut known: StringHashMap<()> = StringHashMap::new();
    let n: usize = blobs.len();
    for i in 0..n
        invariant
            n == blobs@.len(),
            wanted == blob_views(blobs@),
            forall|p: Seq<char>| #[trigger]
                known@.contains_key(p) <==> has_path(wanted.take(i as int), p),
    {
        let ghost before = wanted.take(i as int);
        let ghost after = wanted.take(i + 1);
        known.insert(blobs[i].0.clone(), ());
        assert forall|p: Seq<char>| #[trigger] known@.contains_key(p) implies has_path(
            after,
            p,
        ) by {
            if p == blobs@[i as int].0@ {
                assert(after[i as int].0 == p);
            } else {
                let k = choose|k: int| 0 <= k < before.len() && (#[trigger] before[k]).0 == p;
                assert(after[k].0 == p);
            }
        }
        assert forall|p: Seq<char>| has_path(after, p) implies #[trigger] known@.contains_key(
            p,
        ) by {
            let k = choose|k: int| 0 <= k < after.len() && (#[trigger] after[k]).0 == p;
            if k < i {
                assert(before[k].0 == p);
            }
        }
    }
    assert(wanted.take(n as int) =~= wanted);
    let mut r: Vec<CommitStep> = Vec::new();
    r.push(CommitStep::ResetIndex);
    let ghost reset = seq![Step::ResetIndex];
    let ghost all = texts(shown@);
    let ghost gone = |p: Seq<char>| !has_path(wanted, p);
    proof {
        reveal(Seq::filter);
        assert(all.take(0).filter(gone) =~= seq![]);
        assert(steps(r@) =~= reset + deletions(all.take(0).filter(gone)));
    }
    for path in it: shown
        invariant
            it.seq() == shown@,
            all == texts(shown@),
            reset == seq![Step::ResetIndex],
            gone == (|p: Seq<char>| !has_path(wanted, p)),
            forall|p: Seq<char>| #[trigger] known@.contains_key(p) <==> has_path(wanted, p),
            steps(r@) == reset + deletions(all.take(it.index() as int).filter(gone)),
    {
        let ghost before = steps(r@);
        let ghost kept = all.take(it.index() as int).filter(gone);
        proof {
            reveal(Seq::filter);
            assert(all.take(it.index() as int + 1).drop_last() =~= all.take(it.index() as int));
            assert(all.take(it.index() as int + 1).last() == path@);
        }
        if !known.contains_key(path.as_str()) {
            let ghost p = path@;
            r.push(CommitStep::DeletePath { path });
            assert(steps(r@) =~= before.push(Step::DeletePath { path: p }));
            assert(deletions(kept.push(p)) =~= deletions(kept).push(Step::DeletePath { path: p }));
        }
    }
    assert(all.take(all.len() as int) =~= all);
    let ghost cleared = steps(r@);
    assert(cleared =~= cleared + writes(wanted.take(0)));
    for blob in it: blobs
        invariant
            it.seq() == blobs@,
            wanted == blob_views(blobs@),
            steps(r@) == cleared + writes(wanted.take(it.index() as int)),
    {
        let ghost before = steps(r@);
        let ghost step = Step::WriteFile { path: blob.0@, data: blob.1@ };
        r.push(CommitStep::WriteFile { path: blob.0, data: blob.1 });
        assert(steps(r@) =~= before.push(step));
        assert(writes(wanted.take(it.index() as int + 1)) =~= writes(
            wanted.take(it.index() as int),
        ).push(step));
    }
    assert(wanted.take(wanted.len() as int) =~= wanted);
    r
}

proof fn lemma_deletions(state: Checkout, paths: Seq<Seq<char>>)
    ensures
        ({
            let end = after_steps(state, deletions(paths));
            &&& end.head == state.head
            &&& end.index == state.index
            &&& forall|k: Seq<char>| #[trigger]
                end.disk.contains_key(k) <==> state.disk.contains_key(k) && forall|i: int|
                    0 <= i < paths.len() ==> !within(k, #[trigger] paths[i])
            &&& forall|k: Seq<char>| #[trigger]
                end.disk.contains_key(k) ==> end.disk[k] == state.disk[k]
        }),
    decreases paths.len(),
{
    if paths.len() > 0 {
        let front = paths.drop_last();
        lemma_deletions(state, front);
        assert(deletions(paths).drop_last() =~= deletions(front));
        let mid = after_steps(state, deletions(front));
        let end = after_steps(state, deletions(paths));
        assert(end.disk == removed(mid.disk, paths.last()));
        assert forall|k: Seq<char>| #[trigger]
            end.disk.contains_key(k) <==> state.disk.contains_key(k) && forall|i: int|
                0 <= i < paths.len() ==> !within(k, #[trigger] paths[i]) by {
            if end.disk.contains_key(k) {
                assert(mid.disk.contains_key(k));
                assert forall|i: int| 0 <= i < paths.len() implies !within(
                    k,
                    #[trigger] paths[i],
                ) by {
                    if i < front.len() {
                        assert(!within(k, front[i]));
                    }
                }
            }
            if state.disk.contains_key(k) && forall|i: int|
                0 <= i < paths.len() ==> !within(k, #[trigger] paths[i]) {
                assert forall|i: int| 0 <= i < front.len() implies !within(
                    k,
                    #[trigger] front[i],
                ) by {
                    assert(!within(k, paths[i]));
                }
                assert(mid.disk.contains_key(k));
                assert(!within(k, paths[paths.len() - 1]));
            }
        }
        assert forall|k: Seq<char>| #[trigger] end.disk.contains_key(k) implies end.disk[k]
            == state.disk[k] by {
            assert(mid.disk.contains_key(k));
        }
    }
}

/// Whether `k` is neither one of `blobs`, nor below one, nor a directory above one.
pub open spec fn clear_of(k: Seq<char>, blobs: Seq<(Seq<char>, Seq<u8>)>) -> bool {
    forall|i: int|
        0 <= i < blobs.len() ==> !within(k, (#[trigger] blobs[i]).0) && !below(blobs[i].0, k)
}

proof fn lemma_writes(state: Checkout, blobs: Seq<(Seq<char>, Seq<u8>)>)
    requires
        apart(blobs),
    ensures
        ({
            let end = after_steps(state, writes(blobs));
            &&& end.head == state.head
            &&& end.index == state.index
            &&& forall|i: int|
                0 <= i < blobs.len() ==> end.disk.contains_key((#[trigger] blobs[i]).0)
                    && end.disk[blobs[i].0] == blobs[i].1
            &&& forall|k: Seq<char>| #[trigger]
                end.disk.contains_key(k) ==> has_path(blobs, k) || (state.disk.contains_key(k)
                    && clear_of(k, blobs) && end.disk[k] == state.disk[k])
            &&& forall|k: Seq<char>|
                state.disk.contains_key(k) && clear_of(k, blobs) ==> #[trigger]
                end.disk.contains_key(k) && end.disk[k] == state.disk[k]
        }),
    decreases blobs.len(),
{
    if blobs.len() > 0 {
        let front = blobs.drop_last();
        let last = blobs.last();
        assert(apart(front)) by {
            assert forall|i: int, j: int|
                #![trigger front[i], front[j]]
                0 <= i < front.len() && 0 <= j < front.len() && i != j implies !within(
                front[i].0,
                front[j].0,
            ) by {
                assert(!within(blobs[i].0, blobs[j].0));
            }
            assert forall|i: int| 0 <= i < front.len() && (#[trigger] front[i]).0.len() == 0 implies
                front.len() == 1 by {
                assert(blobs[i].0.len() == 0);
            }
        }
        lemma_writes(state, front);
        assert(writes(blobs).drop_last() =~= writes(front));
        let mid = after_steps(state, writes(front));
        let end = after_steps(state, writes(blobs));
        assert(end.disk == placed(mid.disk, last.0, last.1));
        assert(blobs[blobs.len() - 1] == last);
        assert forall|i: int| 0 <= i < blobs.len() implies end.disk.contains_key(
            (#[trigger] blobs[i]).0,
        ) && end.disk[blobs[i].0] == blobs[i].1 by {
            if i < front.len() {
                assert(front[i] == blobs[i]);
                assert(!within(blobs[i].0, blobs[blobs.len() - 1].0));
                assert(!within(blobs[blobs.len() - 1].0, blobs[i].0));
            }
        }
        assert forall|k: Seq<char>| #[trigger] end.disk.contains_key(k) implies has_path(blobs, k)
            || (state.disk.contains_key(k) && clear_of(k, blobs) && end.disk[k]
            == state.disk[k]) by {
            if k == last.0 {
                assert(blobs[blobs.len() - 1].0 == k);
            } else {
                assert(mid.disk.contains_key(k));
                if has_path(front, k) {
                    let i = choose|i: int| 0 <= i < front.len() && (#[trigger] front[i]).0 == k;
                    assert(blobs[i].0 == k);
                } else {
                    assert forall|i: int| 0 <= i < blobs.len() implies !within(
                        k,
                        (#[trigger] blobs[i]).0,
                    ) && !below(blobs[i].0, k) by {
                        if i < front.len() {
                            assert(front[i] == blobs[i]);
                        }
                    }
                }
            }
        }
        assert forall|k: Seq<char>| state.disk.contains_key(k) && clear_of(k, blobs) implies
            #[trigger] end.disk.contains_key(k) && end.disk[k] == state.disk[k] by {
            assert forall|i: int| 0 <= i < front.len() implies !within(k, (#[trigger] front[i]).0)
                && !below(front[i].0, k) by {
                assert(front[i] == blobs[i]);
            }
            assert(clear_of(k, front));
            assert(mid.disk.contains_key(k));
            assert(!within(k, blobs[blobs.len() - 1].0) && !below(blobs[blobs.len() - 1].0, k));
        }
    }
}

/// A working tree that showed only the files `shown` shows what `HEAD` holds after it was
/// materialized, and so does the index. `blobs` are the files of `HEAD`.
pub proof fn law_materialized_worktree_shows_head(
    state: Checkout,
    shown: Seq<Seq<char>>,
    blobs: Seq<(Seq<char>, Seq<u8>)>,
)
    requires
        apart(blobs),
        forall|k: Seq<char>| #[trigger] state.head.contains_key(k) <==> has_path(blobs, k),
        forall|i: int|
            0 <= i < blobs.len() ==> state.head[(#[trigger] blobs[i]).0] == blobs[i].1,
        forall|k: Seq<char>| #[trigger] state.disk.contains_key(k) ==> shown.contains(k),
    ensures
        ({
            let end = after_steps(state, materialize_steps(shown, blobs));
            &&& end.head == state.head
            &&& end.disk == state.head
            &&& end.index == state.head
        }),
{
    broadcast use vstd::seq_lib::group_filter_ensures;

    let old_paths = stale(shown, blobs);
    let gone = |p: Seq<char>| !has_path(blobs, p);
    lemma_materialize(state, shown, blobs);
    let end = after_steps(state, materialize_steps(shown, blobs));
    assert forall|k: Seq<char>| #[trigger] end.disk.contains_key(k) implies has_path(blobs, k) by {
        if !has_path(blobs, k) {
            assert(state.disk.contains_key(k));
            assert(shown.contains(k));
            assert(gone(k));
            assert(old_paths.contains(k));
            let i = choose|i: int| 0 <= i < old_paths.len() && old_paths[i] == k;
            assert(!within(k, old_paths[i]));
        }
    }
    assert forall|k: Seq<char>| has_path(blobs, k) implies #[trigger] end.disk.contains_key(k)
        && end.disk[k] == state.head[k] by {
        let i = choose|i: int| 0 <= i < blobs.len() && (#[trigger] blobs[i]).0 == k;
        assert(end.disk.contains_key(blobs[i].0));
    }
    assert(end.disk =~= state.head);
}

proof fn lemma_materialize(
    state: Checkout,
    shown: Seq<Seq<char>>,
    blobs: Seq<(Seq<char>, Seq<u8>)>,
)
    requires
        apart(blobs),
    ensures
        ({
            let end = after_steps(state, materialize_steps(shown, blobs));
            let old_paths = stale(shown, blobs);
            &&& end.head == state.head
            &&& end.index == state.head
            &&& forall|i: int|
                0 <= i < blobs.len() ==> end.disk.contains_key((#[trigger] blobs[i]).0)
                    && end.disk[blobs[i].0] == blobs[i].1
            &&& forall|k: Seq<char>| #[trigger]
                end.disk.contains_key(k) ==> has_path(blobs, k) || (state.disk.contains_key(k)
                    && end.disk[k] == state.disk[k] && forall|i: int|
                    0 <= i < old_paths.len() ==> !within(k, #[trigger] old_paths[i]))
            &&& forall|k: Seq<char>|
                state.disk.contains_key(k) && clear_of(k, blobs) && (forall|i: int|
                    0 <= i < old_paths.len() ==> !within(k, #[trigger] old_paths[i])) ==> #[trigger]
                end.disk.contains_key(k) && end.disk[k] == state.disk[k]
        }),
{
    let old_paths = stale(shown, blobs);
    let reset = seq![Step::ResetIndex];
    assert(reset.drop_last() =~= seq![]);
    assert(after_steps(state, seq![]) == state);
    let s1 = after_steps(state, reset);
    assert(s1 == after_step(state, Step::ResetIndex));
    lemma_after_append(state, reset, deletions(old_paths));
    let s2 = after_steps(s1, deletions(old_paths));
    lemma_deletions(s1, old_paths);
    lemma_after_append(state, reset + deletions(old_paths), writes(blobs));
    lemma_writes(s2, blobs);
    let end = after_steps(s2, writes(blobs));
    assert(end == after_steps(state, materialize_steps(shown, blobs)));
    assert forall|k: Seq<char>| #[trigger] end.disk.contains_key(k) implies has_path(blobs, k) || (
    state.disk.contains_key(k) && end.disk[k] == state.disk[k] && forall|i: int|
        0 <= i < old_paths.len() ==> !within(k, #[trigger] old_paths[i])) by {
        if !has_path(blobs, k) {
            assert(s2.disk.contains_key(k));
        }
    }
    assert forall|k: Seq<char>|
        state.disk.contains_key(k) && clear_of(k, blobs) && (forall|i: int|
            0 <= i < old_paths.len() ==> !within(k, #[trigger] old_paths[i])) implies #[trigger]
    end.disk.contains_key(k) && end.disk[k] == state.disk[k] by {
        assert(s2.disk.contains_key(k));
    }
}

/// Materializing leaves alone the files that are not in the way of what `HEAD` holds and that
/// were not shown before.
pub proof fn law_materializing_keeps_untracked_files(
    state: Checkout,
    shown: Seq<Seq<char>>,
    blobs: Seq<(Seq<char>, Seq<u8>)>,
    k: Seq<char>,
)
    requires
        apart(blobs),
        state.disk.contains_key(k),
        clear_of(k, blobs),
        forall|i: int| 0 <= i < shown.len() ==> !within(k, #[trigger] shown[i]),
    ensures
        after_steps(state, materialize_steps(shown, blobs)).disk.contains_key(k),
        after_steps(state, materialize_steps(shown, blobs)).disk[k] == state.disk[k],
{
    let old_paths = stale(shown, blobs);
    lemma_materialize(state, shown, blobs);
    assert forall|i: int| 0 <= i < old_paths.len() implies !within(k, #[trigger] old_paths[i]) by {
        assert(old_paths.contains(old_paths[i]));
        shown.lemma_filter_contains_rev(|p: Seq<char>| !has_path(blobs, p), old_paths[i]);
        let j = choose|j: int| 0 <= j < shown.len() && shown[j] == old_paths[i];
        assert(!within(k, shown[j]));
    }
}

} // verus!
