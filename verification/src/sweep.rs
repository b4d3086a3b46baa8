//! Going over everything below a folder.
//!
//! A [`Sweep`] holds the directories that are still to be read. Whoever runs it reads the one that
//! comes next and visits its entries one after the other.
use vstd::multiset::Multiset;
use vstd::prelude::*;

verus! {

/// The folders that a sweep goes over.
#[verifier::reject_recursive_types(D)]
pub struct Folders<D> {
    /// The entries of a directory, in the order in which they are read.
    pub entries: spec_fn(D) -> Seq<D>,
    /// Whether an entry is a directory that is to be read too.
    pub descends: spec_fn(D) -> bool,
    /// A bound on how deep a directory is.
    pub depth: spec_fn(D) -> nat,
}

impl<D> Folders<D> {
    /// Whether a directory is deeper than those in it, so that there is an end to them.
    pub open spec fn finite(self) -> bool {
        forall|dir: D, i: int|
            #![trigger (self.entries)(dir)[i]]
            0 <= i < (self.entries)(dir).len() && (self.descends)((self.entries)(dir)[i]) ==> (
            self.depth)((self.entries)(dir)[i]) < (self.depth)(dir)
    }

    /// The entries `listed`, those of a directory of the depth `depth`, and all that is below
    /// them, each as often as it is there.
    pub open spec fn below(self, listed: Seq<D>, depth: nat) -> Multiset<D>
        decreases depth, listed.len(),
    {
        if listed.len() == 0 {
            Multiset::empty()
        } else {
            let entry = listed[0];
            let inside = if (self.descends)(entry) && (self.depth)(entry) < depth {
                self.below((self.entries)(entry), (self.depth)(entry))
            } else {
                Multiset::empty()
            };
            Multiset::singleton(entry).add(inside).add(self.below(listed.drop_first(), depth))
        }
    }

    /// Everything that is below the directory `dir`.
    pub open spec fn all_below(self, dir: D) -> Multiset<D> {
        self.below((self.entries)(dir), (self.depth)(dir))
    }

    /// Everything that is below one of the directories `stack`.
    pub open spec fn below_all(self, stack: Seq<D>) -> Multiset<D>
        decreases stack.len(),
    {
        if stack.len() == 0 {
            Multiset::empty()
        } else {
            self.below_all(stack.drop_last()).add(self.all_below(stack.last()))
        }
    }

    /// How many steps it takes to visit `listed` and all that is below.
    pub open spec fn steps(self, listed: Seq<D>, depth: nat) -> nat
        decreases depth, listed.len(),
    {
        if listed.len() == 0 {
            0
        } else {
            let entry = listed[0];
            let inside = if (self.descends)(entry) && (self.depth)(entry) < depth {
                1 + self.steps((self.entries)(entry), (self.depth)(entry))
            } else {
                0
            };
            1 + inside + self.steps(listed.drop_first(), depth)
        }
    }

    /// How many steps it takes to read the directories `stack` and all that is below.
    pub open spec fn steps_all(self, stack: Seq<D>) -> nat
        decreases stack.len(),
    {
        if stack.len() == 0 {
            0
        } else {
            self.steps_all(stack.drop_last()) + 1 + self.steps(
                (self.entries)(stack.last()),
                (self.depth)(stack.last()),
            )
        }
    }
}

/// How far a sweep has come.
pub struct Sweeping<D> {
    /// The directories that are still to be read.
    pub stack: Seq<D>,
    /// The entries of the directory being read that are still to be visited.
    pub listed: Seq<D>,
    /// The entries that were visited.
    pub visited: Seq<D>,
}

impl<D> Sweeping<D> {
    /// Whether there is nothing left to read or to visit.
    pub open spec fn over(self) -> bool {
        self.stack.len() == 0 && self.listed.len() == 0
    }

    /// The next step: visit the next entry of the directory being read, or else read the last
    /// directory.
    pub open spec fn step(self, folders: Folders<D>) -> Sweeping<D> {
        if self.listed.len() > 0 {
            Sweeping {
                stack: if (folders.descends)(self.listed[0]) {
                    self.stack.push(self.listed[0])
                } else {
                    self.stack
                },
                listed: self.listed.drop_first(),
                visited: self.visited.push(self.listed[0]),
            }
        } else if self.stack.len() > 0 {
            Sweeping {
                stack: self.stack.drop_last(),
                listed: (folders.entries)(self.stack.last()),
                ..self
            }
        } else {
            self
        }
    }

    /// The sweep after `n` more steps.
    pub open spec fn after(self, folders: Folders<D>, n: nat) -> Sweeping<D>
        decreases n,
    {
        if n == 0 {
            self
        } else {
            self.step(folders).after(folders, (n - 1) as nat)
        }
    }
}

/// A sweep that is about to read `root`.
pub open spec fn at_start<D>(root: D) -> Sweeping<D> {
    Sweeping { stack: seq![root], listed: seq![], visited: seq![] }
}

/// The directories that a sweep still has to read. `D` is how the caller names a directory or a
/// file.
#[derive(Debug)]
pub struct Sweep<D> {
    /// The last comes first.
    pub stack: Vec<D>,
}

impl<D> Sweep<D> {
    /// Starts at the folder `root`.
    pub fn new(root: D) -> (r: Self)
        ensures
            r.stack@ == at_start(root).stack,
    {
        let mut stack: Vec<D> = Vec::new();
        stack.push(root);
        assert(stack@ =~= seq![root]);
        Sweep { stack }
    }

    /// The next directory to read; `None` where the sweep is over.
    pub fn next(&mut self) -> (r: Option<D>)
        ensures
            match r {
                Some(dir) => old(self).stack@.len() > 0 && dir == old(self).stack@.last()
                    && final(self).stack@ == old(self).stack@.drop_last(),
                None => old(self).stack@.len() == 0 && final(self).stack@ == old(self).stack@,
            },
            forall|folders: Folders<D>, visited: Seq<D>|
                #![trigger (Sweeping {
                    stack: old(self).stack@,
                    listed: seq![],
                    visited,
                }).step(folders)]
                (Sweeping { stack: old(self).stack@, listed: seq![], visited }).step(folders)
                    == (Sweeping {
                    stack: final(self).stack@,
                    listed: match r {
                        Some(dir) => (folders.entries)(dir),
                        None => seq![],
                    },
                    visited,
                }),
    {
        self.stack.pop()
    }

    /// Visits an entry of the directory that was read; it is to be read too where it `descends`.
    pub fn visit(&mut self, entry: D, descends: bool)
        ensures
            final(self).stack@ == if descends {
                old(self).stack@.push(entry)
            } else {
                old(self).stack@
            },
            forall|folders: Folders<D>, listed: Seq<D>, visited: Seq<D>|
                #![trigger (Sweeping { stack: old(self).stack@, listed, visited }).step(folders)]
                listed.len() > 0 && listed[0] == entry && (folders.descends)(entry) == descends
                    ==> (Sweeping { stack: old(self).stack@, listed, visited }).step(folders) == (
                Sweeping {
                    stack: final(self).stack@,
                    listed: listed.drop_first(),
                    visited: visited.push(entry),
                }),
    {
        if descends {
            self.stack.push(entry);
        }
    }
}

proof fn lemma_visited<D>(folders: Folders<D>, s: Sweeping<D>, depth: nat, n: nat)
    requires
        folders.finite(),
        forall|i: int|
            0 <= i < s.listed.len() && (folders.descends)(#[trigger] s.listed[i]) ==> (
            folders.depth)(s.listed[i]) < depth,
        s.after(folders, n).over(),
    ensures
        s.after(folders, n).visited.to_multiset() == s.visited.to_multiset().add(
            folders.below(s.listed, depth),
        ).add(folders.below_all(s.stack)),
    decreases n,
{
    broadcast use vstd::multiset::group_multiset_axioms;
    broadcast use vstd::seq_lib::group_to_multiset_ensures;

    if n > 0 {
        let t = s.step(folders);
        let rest = (n - 1) as nat;
        if s.listed.len() > 0 {
            let entry = s.listed[0];
            assert forall|i: int|
                0 <= i < t.listed.len() && (folders.descends)(#[trigger] t.listed[i]) implies (
            folders.depth)(t.listed[i]) < depth by {
                assert(t.listed[i] == s.listed[i + 1]);
            }
            lemma_visited(folders, t, depth, rest);
            if (folders.descends)(entry) {
                assert(t.stack.drop_last() =~= s.stack);
            }
            assert(t.visited.to_multiset() =~= s.visited.to_multiset().insert(entry));
        } else if s.stack.len() > 0 {
            let dir = s.stack.last();
            lemma_visited(folders, t, (folders.depth)(dir), rest);
        } else {
            lemma_visited(folders, t, depth, rest);
        }
    }
    assert(s.after(folders, n).visited.to_multiset() =~= s.visited.to_multiset().add(
        folders.below(s.listed, depth),
    ).add(folders.below_all(s.stack)));
}

proof fn lemma_ends<D>(folders: Folders<D>, s: Sweeping<D>, depth: nat, n: nat)
    requires
        folders.finite(),
        forall|i: int|
            0 <= i < s.listed.len() && (folders.descends)(#[trigger] s.listed[i]) ==> (
            folders.depth)(s.listed[i]) < depth,
        n == folders.steps(s.listed, depth) + folders.steps_all(s.stack),
    ensures
        s.after(folders, n).over(),
    decreases n,
{
    if n > 0 {
        let t = s.step(folders);
        let rest = (n - 1) as nat;
        if s.listed.len() > 0 {
            assert forall|i: int|
                0 <= i < t.listed.len() && (folders.descends)(#[trigger] t.listed[i]) implies (
            folders.depth)(t.listed[i]) < depth by {
                assert(t.listed[i] == s.listed[i + 1]);
            }
            if (folders.descends)(s.listed[0]) {
                assert(t.stack.drop_last() =~= s.stack);
            }
            lemma_ends(folders, t, depth, rest);
        } else {
            lemma_ends(folders, t, (folders.depth)(s.stack.last()), rest);
        }
    }
}

/// A sweep visits every entry below its folder exactly as often as it is there, once for each
/// place, and nothing else: no entry of a directory that it reads is left out.
pub proof fn law_sweep_visits_everything_once<D>(folders: Folders<D>, root: D, n: nat)
    requires
        folders.finite(),
        at_start(root).after(folders, n).over(),
    ensures
        at_start(root).after(folders, n).visited.to_multiset() == folders.all_below(root),
{
    broadcast use vstd::multiset::group_multiset_axioms;
    broadcast use vstd::seq_lib::group_to_multiset_ensures;

    let s = at_start(root);
    lemma_visited(folders, s, 0, n);
    assert(s.stack.drop_last() =~= seq![]);
    assert(folders.below_all(s.stack.drop_last()) =~= Multiset::empty());
    assert(s.visited.to_multiset() =~= Multiset::empty());
    assert(at_start(root).after(folders, n).visited.to_multiset() =~= folders.all_below(root));
}

/// A sweep comes to an end.
pub proof fn law_sweep_ends<D>(folders: Folders<D>, root: D)
    requires
        folders.finite(),
    ensures
        exists|n: nat| (#[trigger] at_start(root).after(folders, n)).over(),
{
    let s = at_start(root);
    let n = folders.steps(s.listed, 0) + folders.steps_all(s.stack);
    lemma_ends(folders, s, 0, n);
}

/// Picking the visited entries by a rule picks each of them as often as it is there.
pub proof fn lemma_picked<D>(visited: Seq<D>, picks: spec_fn(D) -> bool)
    ensures
        visited.filter(picks).to_multiset() == visited.to_multiset().filter(picks),
    decreases visited.len(),
{
    broadcast use vstd::multiset::group_multiset_axioms;
    broadcast use vstd::seq_lib::group_to_multiset_ensures;

    reveal(Seq::filter);
    if visited.len() > 0 {
        let before = visited.drop_last();
        lemma_picked(before, picks);
        assert(visited =~= before.push(visited.last()));
        assert(visited.to_multiset() =~= before.to_multiset().insert(visited.last()));
    } else {
        assert(visited.to_multiset() =~= Multiset::empty());
    }
    assert(visited.filter(picks).to_multiset() =~= visited.to_multiset().filter(picks));
}

} // verus!
