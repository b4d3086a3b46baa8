//! The on-disk proxy: what a refresh changed, what a save shows, and what to free while idle.
use crate::mount::ProxyState;
use crate::reconcile::Reconciled;
use crate::sweep::{
    at_start, law_sweep_visits_everything_once, lemma_picked, Folders, Sweep,
};
use crate::text::texts;
use vstd::hash_map::StringHashMap;
use vstd::prelude::*;

verus! {

/// The path and the blob id of each line of a snapshot.
pub open spec fn snapshot(lines: Seq<(String, String, u64)>) -> Seq<(Seq<char>, Seq<char>)> {
    lines.map_values(|l: (String, String, u64)| (l.0@, l.1@))
}

/// The blob id of `path` in a snapshot.
pub open spec fn oid_in(lines: Seq<(Seq<char>, Seq<char>)>, path: Seq<char>) -> Option<Seq<char>>
    decreases lines.len(),
{
    if lines.len() == 0 {
        None
    } else if lines.last().0 == path {
        Some(lines.last().1)
    } else {
        oid_in(lines.drop_last(), path)
    }
}

/// The paths of `after` whose blob id `before` does not have for them.
pub open spec fn changed_since(
    before: Seq<(Seq<char>, Seq<char>)>,
    after: Seq<(Seq<char>, Seq<char>)>,
) -> Seq<Seq<char>>
    decreases after.len(),
{
    if after.len() == 0 {
        seq![]
    } else {
        let rest = changed_since(before, after.drop_last());
        if oid_in(before, after.last().0) == Some(after.last().1) {
            rest
        } else {
            rest.push(after.last().0)
        }
    }
}

/// Whether `prior` tells where the blob id of `path` stands in `lines`.
pub open spec fn remembers(
    prior: Map<Seq<char>, usize>,
    lines: Seq<(Seq<char>, Seq<char>)>,
    path: Seq<char>,
) -> bool {
    match oid_in(lines, path) {
        Some(oid) => prior.contains_key(path) && prior[path] < lines.len()
            && lines[prior[path] as int].1 == oid,
        None => !prior.contains_key(path),
    }
}

/// The paths that changed between two snapshots: a path is changed if its blob id differs, or if
/// it is in `after` but not in `before`. Removed paths are not returned.
pub fn changed_paths(
    before: &Vec<(String, String, u64)>,
    after: &Vec<(String, String, u64)>,
) -> (r: Vec<String>)
    ensures
        texts(r@) == changed_since(snapshot(before@), snapshot(after@)),
{
    let ghost known = snapshot(before@);
    let ghost now = snapshot(after@);
    let mut prior: StringHashMap<usize> = StringHashMap::new();
    let n: usize = before.len();
    let mut i: usize = 0;
    while i < n
        invariant
            i <= n,
            n == before@.len(),
            known == snapshot(before@),
            forall|p: Seq<char>| #[trigger] remembers(prior@, known.take(i as int), p),
        decreases n - i,
    {
        let ghost earlier = prior@;
        prior.insert(before[i].0.clone(), i);
        assert(known.take(i + 1).drop_last() =~= known.take(i as int));
        assert forall|p: Seq<char>| #[trigger] remembers(prior@, known.take(i + 1), p) by {
            assert(remembers(earlier, known.take(i as int), p));
            if p != before@[i as int].0@ && earlier.contains_key(p) {
                let k = earlier[p] as int;
                assert(known.take(i + 1)[k] == known.take(i as int)[k]);
            }
        }
        i += 1;
    }
    assert(known.take(n as int) =~= known);
    let mut r: Vec<String> = Vec::new();
    let m: usize = after.len();
    let mut i: usize = 0;
    while i < m
        invariant
            i <= m,
            n == before@.len(),
            m == after@.len(),
            known == snapshot(before@),
            now == snapshot(after@),
            forall|p: Seq<char>| #[trigger] remembers(prior@, known, p),
            texts(r@) == changed_since(known, now.take(i as int)),
        decreases m - i,
    {
        let ghost so_far = texts(r@);
        let ghost p = after@[i as int].0@;
        assert(now.take(i + 1).drop_last() =~= now.take(i as int));
        assert(remembers(prior@, known, p));
        let same: bool = match prior.get(after[i].0.as_str()) {
            Some(k) => before[*k].1 == after[i].1,
            None => false,
        };
        assert(same == (oid_in(known, p) == Some(after@[i as int].1@)));
        if !same {
            r.push(after[i].0.clone());
            assert(texts(r@) =~= so_far.push(p));
        }
        i += 1;
    }
    assert(now.take(m as int) =~= now);
    r
}

/// The lines of a walk; a walk that failed counts as one that found nothing.
pub open spec fn walked(r: Option<Vec<(String, String, u64)>>) -> Seq<(Seq<char>, Seq<char>)> {
    match r {
        Some(lines) => snapshot(lines@),
        None => seq![],
    }
}

/// What a refresh meets.
pub struct RefreshWorld {
    /// What `HEAD` holds before the fetch.
    pub before: Seq<(Seq<char>, Seq<char>)>,
    /// Whether the fetch moved `HEAD`, or why it failed.
    pub fetch: Result<bool, Seq<char>>,
    /// What `HEAD` holds after the fetch.
    pub after: Seq<(Seq<char>, Seq<char>)>,
}

/// What a refresh comes to: the paths that changed (none if `HEAD` did not move), or why it
/// failed.
pub open spec fn refresh_outcome(world: RefreshWorld) -> Result<Seq<Seq<char>>, Seq<char>> {
    match world.fetch {
        Ok(true) => Ok(changed_since(world.before, world.after)),
        Ok(false) => Ok(seq![]),
        Err(e) => Err(e),
    }
}

/// The paths that a refresh writes into the proxy folder, in this order: those that changed, where
/// the fetch moved `HEAD`.
pub open spec fn refresh_writes(world: RefreshWorld) -> Seq<Seq<char>> {
    match world.fetch {
        Ok(true) => changed_since(world.before, world.after),
        _ => seq![],
    }
}

/// A refresh of the proxy in place.
#[derive(Debug)]
pub enum Refresh {
    /// List what `HEAD` holds.
    Before,
    /// Fetch.
    Fetch { before: Vec<(String, String, u64)> },
    /// List what `HEAD` holds now.
    After { before: Vec<(String, String, u64)> },
    /// Write what `HEAD` holds at the path with this number into the proxy folder.
    Write { changed: Vec<String>, next: usize },
    /// It is over: the paths that changed; a failure comes with its message.
    Done(Result<Vec<String>, String>),
}

impl Refresh {
    /// The path to write is one of those that changed.
    pub open spec fn wf(self) -> bool {
        self matches Refresh::Write { changed, next } ==> next < changed@.len()
    }

    /// What the refresh leads to in `world`.
    pub open spec fn outcome(self, world: RefreshWorld) -> Result<Seq<Seq<char>>, Seq<char>> {
        match self {
            Refresh::Before => refresh_outcome(world),
            Refresh::Fetch { before } => refresh_outcome(
                RefreshWorld { before: snapshot(before@), ..world },
            ),
            Refresh::After { before } => Ok(changed_since(snapshot(before@), world.after)),
            Refresh::Write { changed, .. } => Ok(texts(changed@)),
            Refresh::Done(Ok(changed)) => Ok(texts(changed@)),
            Refresh::Done(Err(e)) => Err(e@),
        }
    }

    /// The paths that the refresh still has to write in `world`.
    pub open spec fn to_write(self, world: RefreshWorld) -> Seq<Seq<char>> {
        match self {
            Refresh::Before => refresh_writes(world),
            Refresh::Fetch { before } => refresh_writes(
                RefreshWorld { before: snapshot(before@), ..world },
            ),
            Refresh::After { before } => changed_since(snapshot(before@), world.after),
            Refresh::Write { changed, next } => texts(changed@).skip(next as int),
            Refresh::Done(_) => seq![],
        }
    }

    /// Starts a refresh.
    pub fn refresh_branch() -> (r: Self)
        ensures
            r is Before,
            r.wf(),
            forall|world: RefreshWorld| #[trigger] r.to_write(world) == refresh_writes(world),
            forall|world: RefreshWorld| #[trigger] r.outcome(world) == refresh_outcome(world),
    {
        Refresh::Before
    }

    /// Goes on with what `HEAD` holds before the fetch.
    pub fn before_is(self, lines: Option<Vec<(String, String, u64)>>) -> (r: Self)
        requires
            self is Before,
        ensures
            r is Fetch,
            forall|world: RefreshWorld|
                world.before == walked(lines) ==> (#[trigger] r.outcome(world)) == self.outcome(
                    world,
                ),
            forall|world: RefreshWorld|
                world.before == walked(lines) ==> (#[trigger] r.to_write(world)) == self.to_write(
                    world,
                ),
    {
        let before: Vec<(String, String, u64)> = match lines {
            Some(lines) => lines,
            None => Vec::new(),
        };
        assert(snapshot(before@) =~= walked(lines));
        Refresh::Fetch { before }
    }

    /// Goes on with what came of the fetch. Where `HEAD` did not move, the refresh is over.
    pub fn fetched(self, moved: Result<bool, String>) -> (r: Self)
        requires
            self is Fetch,
        ensures
            r is After <==> moved == Ok::<bool, String>(true),
            r is Done <==> moved != Ok::<bool, String>(true),
            forall|world: RefreshWorld|
                world.fetch == (match moved {
                    Ok(b) => Ok::<bool, Seq<char>>(b),
                    Err(e) => Err(e@),
                }) ==> (#[trigger] r.outcome(world)) == self.outcome(world),
            forall|world: RefreshWorld|
                world.fetch == (match moved {
                    Ok(b) => Ok::<bool, Seq<char>>(b),
                    Err(e) => Err(e@),
                }) ==> (#[trigger] r.to_write(world)) == self.to_write(world),
    {
        match (self, moved) {
            (Refresh::Fetch { before }, Ok(true)) => Refresh::After { before },
            (_, Err(message)) => Refresh::Done(Err(message)),
            _ => {
                let none: Vec<String> = Vec::new();
                assert(texts(none@) =~= seq![]);
                Refresh::Done(Ok(none))
            },
        }
    }

    /// Goes on with what `HEAD` holds after the fetch: every path that changed is to be written.
    pub fn after_is(self, lines: Option<Vec<(String, String, u64)>>) -> (r: Self)
        requires
            self is After,
        ensures
            r.wf(),
            r is Write || r is Done,
            r is Write <==> changed_since(snapshot(self->After_before@), walked(lines)).len() > 0,
            r matches Refresh::Write { changed, next } ==> next == 0 && texts(changed@)
                == changed_since(snapshot(self->After_before@), walked(lines)),
            forall|world: RefreshWorld|
                world.after == walked(lines) ==> (#[trigger] r.outcome(world)) == self.outcome(
                    world,
                ),
            forall|world: RefreshWorld|
                world.after == walked(lines) ==> (#[trigger] r.to_write(world)) == self.to_write(
                    world,
                ),
    {
        let after: Vec<(String, String, u64)> = match lines {
            Some(lines) => lines,
            None => Vec::new(),
        };
        assert(snapshot(after@) =~= walked(lines));
        match self {
            Refresh::After { before } => {
                let changed: Vec<String> = changed_paths(&before, &after);
                assert(texts(changed@).skip(0) =~= texts(changed@));
                if changed.len() > 0 {
                    Refresh::Write { changed, next: 0 }
                } else {
                    Refresh::Done(Ok(changed))
                }
            },
            other => other,
        }
    }

    /// Goes on behind the path that was just written, whether that succeeded or not.
    pub fn written(self) -> (r: Self)
        requires
            self.wf(),
            self is Write,
        ensures
            r.wf(),
            match (self, r) {
                (
                    Refresh::Write { changed, next },
                    Refresh::Write { changed: c, next: n },
                ) => c == changed && n == next + 1,
                (Refresh::Write { changed, next }, Refresh::Done(Ok(c))) => c == changed && next + 1
                    == changed@.len(),
                _ => false,
            },
            forall|world: RefreshWorld| #[trigger] r.outcome(world) == self.outcome(world),
            forall|world: RefreshWorld| #[trigger]
                r.to_write(world) == self.to_write(world).drop_first(),
    {
        match self {
            Refresh::Write { changed, next } => {
                let total: usize = changed.len();
                assert(texts(changed@).skip(next as int).drop_first() =~= texts(changed@).skip(
                    next + 1,
                ));
                if next + 1 < total {
                    Refresh::Write { changed, next: next + 1 }
                } else {
                    Refresh::Done(Ok(changed))
                }
            },
            other => other,
        }
    }
}

/// A refresh that finds the remote where it was reports nothing.
pub proof fn law_quiet_refresh_reports_nothing(world: RefreshWorld)
    requires
        world.fetch == Ok::<bool, Seq<char>>(false),
    ensures
        refresh_outcome(world) == Ok::<Seq<Seq<char>>, Seq<char>>(seq![]),
{
}

/// A refresh that succeeds writes into the proxy folder exactly the paths that it reports, each of
/// them; one that fails writes nothing.
pub proof fn law_refresh_writes_what_it_reports(world: RefreshWorld)
    ensures
        match refresh_outcome(world) {
            Ok(changed) => refresh_writes(world) == changed,
            Err(_) => refresh_writes(world).len() == 0,
        },
{
}

/// Every path of a snapshot is reported exactly if the earlier snapshot did not have its blob id,
/// and nothing else is reported.
pub proof fn law_changed_paths_are_exact(
    before: Seq<(Seq<char>, Seq<char>)>,
    after: Seq<(Seq<char>, Seq<char>)>,
    path: Seq<char>,
)
    ensures
        changed_since(before, after).contains(path) <==> exists|i: int|
            0 <= i < after.len() && (#[trigger] after[i]).0 == path && oid_in(before, path) != Some(
                after[i].1,
            ),
    decreases after.len(),
{
    if after.len() > 0 {
        let front = after.drop_last();
        let rest = changed_since(before, front);
        law_changed_paths_are_exact(before, front, path);
        if changed_since(before, after).contains(path) {
            let k = choose|k: int|
                0 <= k < changed_since(before, after).len() && changed_since(before, after)[k]
                    == path;
            if k < rest.len() {
                assert(rest[k] == path);
                let i = choose|i: int|
                    0 <= i < front.len() && (#[trigger] front[i]).0 == path && oid_in(before, path)
                        != Some(front[i].1);
                assert(after[i].0 == path);
            } else {
                assert(after[after.len() - 1].0 == path);
            }
        }
        if exists|i: int|
            0 <= i < after.len() && (#[trigger] after[i]).0 == path && oid_in(before, path) != Some(
                after[i].1,
            ) {
            let i = choose|i: int|
                0 <= i < after.len() && (#[trigger] after[i]).0 == path && oid_in(before, path)
                    != Some(after[i].1);
            if i < front.len() {
                assert(front[i].0 == path);
                let k = choose|k: int| 0 <= k < rest.len() && rest[k] == path;
                assert(changed_since(before, after)[k] == path);
            } else {
                assert(changed_since(before, after).last() == path);
            }
        }
    }
}

/// A snapshot in which no path occurs twice has not changed since itself.
pub proof fn law_nothing_changes_by_itself(lines: Seq<(Seq<char>, Seq<char>)>)
    requires
        forall|i: int, j: int|
            #![trigger lines[i], lines[j]]
            0 <= i < j < lines.len() ==> lines[i].0 != lines[j].0,
    ensures
        changed_since(lines, lines).len() == 0,
{
    if changed_since(lines, lines).len() > 0 {
        let path = changed_since(lines, lines)[0];
        assert(changed_since(lines, lines).contains(path));
        law_changed_paths_are_exact(lines, lines, path);
        let i = choose|i: int|
            0 <= i < lines.len() && (#[trigger] lines[i]).0 == path && oid_in(lines, path) != Some(
                lines[i].1,
            );
        lemma_oid_in(lines, i);
    }
}

proof fn lemma_oid_in(lines: Seq<(Seq<char>, Seq<char>)>, i: int)
    requires
        0 <= i < lines.len(),
        forall|j: int, k: int|
            #![trigger lines[j], lines[k]]
            0 <= j < k < lines.len() ==> lines[j].0 != lines[k].0,
    ensures
        oid_in(lines, lines[i].0) == Some(lines[i].1),
    decreases lines.len(),
{
    if i < lines.len() - 1 {
        let front = lines.drop_last();
        assert(lines[i].0 != lines[lines.len() - 1].0);
        assert forall|j: int, k: int|
            #![trigger front[j], front[k]]
            0 <= j < k < front.len() implies front[j].0 != front[k].0 by {
            assert(lines[j].0 != lines[k].0);
        }
        lemma_oid_in(front, i);
    }
}

/// The states that the overlay of a saved file goes through: `Local` once it is committed, and
/// `Synced` once that commit is pushed.
pub open spec fn overlay_states(done: Reconciled, push_succeeds: bool) -> Seq<ProxyState> {
    match done {
        Reconciled::Committed => if push_succeeds {
            seq![ProxyState::Local, ProxyState::Synced]
        } else {
            seq![ProxyState::Local]
        },
        _ => seq![],
    }
}

/// What to do about a saved file.
#[derive(Debug, Clone, Copy, PartialEq, Eq, Structural)]
pub struct SavePlan {
    /// The state to show before the push.
    pub before_push: Option<ProxyState>,
    /// Whether to push.
    pub push: bool,
    /// The state to show once the push has succeeded.
    pub after_push: Option<ProxyState>,
}

/// The states that a plan shows.
pub open spec fn plan_states(plan: SavePlan, push_succeeds: bool) -> Seq<ProxyState> {
    (match plan.before_push {
        Some(state) => seq![state],
        None => seq![],
    }) + (match plan.after_push {
        Some(state) => if plan.push && push_succeeds {
            seq![state]
        } else {
            seq![]
        },
        None => seq![],
    })
}

/// What to do about a file once its save was reconciled. A commit is pushed, also that of a
/// removal; a failed push keeps the commit and leaves the file `Local`.
pub fn on_save(done: Reconciled) -> (plan: SavePlan)
    ensures
        plan.push == (done != Reconciled::Unchanged),
        plan.push == pushes(done),
        forall|push_succeeds: bool| #[trigger]
            plan_states(plan, push_succeeds) == overlay_states(done, push_succeeds),
{
    let plan: SavePlan = match done {
        Reconciled::Committed => SavePlan {
            before_push: Some(ProxyState::Local),
            push: true,
            after_push: Some(ProxyState::Synced),
        },
        Reconciled::Removed => SavePlan { before_push: None, push: true, after_push: None },
        Reconciled::Unchanged => SavePlan { before_push: None, push: false, after_push: None },
    };
    assert forall|push_succeeds: bool| #[trigger]
        plan_states(plan, push_succeeds) == overlay_states(done, push_succeeds) by {
        assert(plan_states(plan, push_succeeds) =~= overlay_states(done, push_succeeds));
    }
    plan
}

/// A file shows as `Synced` only when its change was committed and pushed; with a commit that was
/// not pushed it is left as `Local`.
pub proof fn law_synced_means_pushed(done: Reconciled, push_succeeds: bool)
    ensures
        overlay_states(done, push_succeeds).contains(ProxyState::Synced) <==> done
            == Reconciled::Committed && push_succeeds,
        done == Reconciled::Committed && !push_succeeds ==> overlay_states(
            done,
            push_succeeds,
        ).last() == ProxyState::Local,
        !overlay_states(done, push_succeeds).contains(ProxyState::Remote),
{
    let states = overlay_states(done, push_succeeds);
    if done == Reconciled::Committed && push_succeeds {
        assert(states[1] == ProxyState::Synced);
    }
}

/// The time since the last access; none if it is not known.
pub open spec fn idle_time(idle: Option<u128>) -> u128 {
    match idle {
        Some(t) => t,
        None => 0,
    }
}

/// What a sweep for idle files learns about an entry of the proxy folder.
pub struct ProxyEntry {
    pub name: Seq<char>,
    pub is_dir: bool,
    /// The time since the last access, if it is known.
    pub idle: Option<u128>,
    /// Whether it is a placeholder already.
    pub placeholder: bool,
}

impl ProxyEntry {
    /// Whether it is a directory to look into: any but the git store.
    pub open spec fn looked_into(self) -> bool {
        self.is_dir && self.name != ".git"@
    }

    /// Whether it is a file that was not accessed for `idle_for`.
    pub open spec fn stale(self, idle_for: u128) -> bool {
        !self.is_dir && idle_time(self.idle) >= idle_for
    }

    /// Whether it is to be freed: a stale file that has data to free.
    pub open spec fn freed(self, idle_for: u128) -> bool {
        self.stale(idle_for) && !self.placeholder
    }
}

/// What to do about an entry of the proxy folder while it is idle.
#[derive(Debug)]
pub enum IdleVisit<D> {
    /// Nothing.
    Leave,
    /// The file was not accessed for long enough: find out whether it is a placeholder, and go on
    /// with [`to_free`].
    Stale(D),
}

/// The file to free of one that was not accessed for long enough: a placeholder has nothing to
/// free.
pub fn to_free<D>(entry: D, is_dehydrated: bool) -> (r: Option<D>)
    ensures
        r == if is_dehydrated {
            None
        } else {
            Some(entry)
        },
{
    if is_dehydrated {
        None
    } else {
        Some(entry)
    }
}

/// A sweep over the proxy folder that finds the files to free. `D` is how the caller names a
/// directory or a file.
#[derive(Debug)]
pub struct IdleSweep<D> {
    /// The directories that are still to be read.
    pub sweep: Sweep<D>,
    /// For how long, in nanoseconds, a file must not have been accessed.
    pub idle_for: u128,
}

impl<D> IdleSweep<D> {
    /// Starts at the proxy folder.
    pub fn dehydrate_stale(root: D, idle_for: u128) -> (r: Self)
        ensures
            r.sweep.stack@ == at_start(root).stack,
            r.idle_for == idle_for,
    {
        IdleSweep { sweep: Sweep::new(root), idle_for }
    }

    /// The next directory to read.
    pub fn next(&mut self) -> (r: Option<D>)
        ensures
            final(self).idle_for == old(self).idle_for,
            match r {
                Some(dir) => old(self).sweep.stack@.len() > 0 && dir
                    == old(self).sweep.stack@.last() && final(self).sweep.stack@
                    == old(self).sweep.stack@.drop_last(),
                None => old(self).sweep.stack@.len() == 0 && final(self).sweep.stack@
                    == old(self).sweep.stack@,
            },
    {
        self.sweep.next()
    }

    /// Visits an entry: a directory is to be read too, unless it is the git store; a file is
    /// stale if it was not accessed for long enough. `idle` is the time since the last access, if
    /// it is known; otherwise the file counts as just accessed.
    pub fn visit(
        &mut self,
        entry: D,
        name: &str,
        is_dir: bool,
        idle: Option<u128>,
    ) -> (r: IdleVisit<D>)
        ensures
            final(self).idle_for == old(self).idle_for,
            forall|placeholder: bool|
                {
                    let seen = #[trigger] proxy_entry(name@, is_dir, idle, placeholder);
                    &&& final(self).sweep.stack@ == if seen.looked_into() {
                        old(self).sweep.stack@.push(entry)
                    } else {
                        old(self).sweep.stack@
                    }
                    &&& r == if seen.stale(old(self).idle_for) {
                        IdleVisit::Stale(entry)
                    } else {
                        IdleVisit::Leave
                    }
                },
    {
        if is_dir {
            let store: String = ".git".to_owned();
            let name: String = name.to_owned();
            if name != store {
                self.sweep.visit(entry, true);
            }
            return IdleVisit::Leave;
        }
        let idle: u128 = match idle {
            Some(t) => t,
            None => 0,
        };
        if idle >= self.idle_for {
            IdleVisit::Stale(entry)
        } else {
            IdleVisit::Leave
        }
    }
}

/// An entry of the proxy folder as a sweep learns of it.
pub open spec fn proxy_entry(
    name: Seq<char>,
    is_dir: bool,
    idle: Option<u128>,
    placeholder: bool,
) -> ProxyEntry {
    ProxyEntry { name, is_dir, idle, placeholder }
}

/// A sweep for idle files frees each file below the proxy folder that was not accessed for long
/// enough and is no placeholder exactly once, and nothing else; what is in the git store is not
/// even visited. `learned` says what the sweep learns about an entry.
pub proof fn law_idle_files_are_freed_once<D>(
    folders: Folders<D>,
    learned: spec_fn(D) -> ProxyEntry,
    idle_for: u128,
    root: D,
    n: nat,
)
    requires
        folders.finite(),
        forall|d: D| #[trigger] (folders.descends)(d) == learned(d).looked_into(),
        at_start(root).after(folders, n).over(),
    ensures
        ({
            let visited = at_start(root).after(folders, n).visited;
            let frees = |d: D| learned(d).freed(idle_for);
            &&& visited.to_multiset() == folders.all_below(root)
            &&& visited.filter(frees).to_multiset() == folders.all_below(root).filter(frees)
        }),
{
    let visited = at_start(root).after(folders, n).visited;
    law_sweep_visits_everything_once(folders, root, n);
    lemma_picked(visited, |d: D| learned(d).freed(idle_for));
}

/// A line of the later snapshot is reported exactly if the earlier one does not have that very
/// line, in its place behind those that come before it: `line` is the last one.
pub proof fn law_line_is_reported_unless_it_was_there(
    before: Seq<(Seq<char>, Seq<char>)>,
    after: Seq<(Seq<char>, Seq<char>)>,
    line: (Seq<char>, Seq<char>),
)
    requires
        forall|i: int, j: int|
            #![trigger before[i], before[j]]
            0 <= i < j < before.len() ==> before[i].0 != before[j].0,
    ensures
        before.contains(line) ==> changed_since(before, after.push(line)) == changed_since(
            before,
            after,
        ),
        !before.contains(line) ==> changed_since(before, after.push(line)) == changed_since(
            before,
            after,
        ).push(line.0),
        changed_since(before, seq![]).len() == 0,
{
    assert(after.push(line).drop_last() =~= after);
    if before.contains(line) {
        let i = choose|i: int| 0 <= i < before.len() && before[i] == line;
        lemma_oid_in(before, i);
    } else if oid_in(before, line.0) is Some {
        lemma_oid_is_of_a_line(before, line.0);
    }
}

proof fn lemma_oid_is_of_a_line(lines: Seq<(Seq<char>, Seq<char>)>, path: Seq<char>)
    requires
        oid_in(lines, path) is Some,
    ensures
        lines.contains((path, oid_in(lines, path)->0)),
    decreases lines.len(),
{
    if lines.last().0 == path {
        assert(lines[lines.len() - 1] == (path, oid_in(lines, path)->0));
    } else {
        lemma_oid_is_of_a_line(lines.drop_last(), path);
        let front = lines.drop_last();
        let k = choose|k: int|
            0 <= k < front.len() && front[k] == (path, oid_in(front, path)->0);
        assert(lines[k] == front[k]);
    }
}

/// A refresh that moved `HEAD` reports what changed between what it held before and what it holds
/// now; one that could not fetch reports why, and one that found nothing new reports nothing.
pub proof fn law_refresh_compares_before_and_after(world: RefreshWorld, e: Seq<char>)
    ensures
        world.fetch == Ok::<bool, Seq<char>>(true) ==> refresh_outcome(world) == Ok::<
            Seq<Seq<char>>,
            Seq<char>,
        >(changed_since(world.before, world.after)) && refresh_writes(world) == changed_since(
            world.before,
            world.after,
        ),
        world.fetch == Ok::<bool, Seq<char>>(false) ==> refresh_outcome(world) == Ok::<
            Seq<Seq<char>>,
            Seq<char>,
        >(seq![]),
        world.fetch == Err::<bool, Seq<char>>(e) ==> refresh_outcome(world) == Err::<
            Seq<Seq<char>>,
            Seq<char>,
        >(e),
{
}

/// A snapshot has the path and the blob id of each line of a walk, in its order; a walk that failed
/// found nothing.
pub proof fn law_snapshot_has_every_line(lines: Vec<(String, String, u64)>, i: int)
    ensures
        walked(None).len() == 0,
        walked(Some(lines)).len() == lines@.len(),
        snapshot(lines@).len() == lines@.len(),
        0 <= i < lines@.len() ==> walked(Some(lines))[i] == (lines@[i].0@, lines@[i].1@),
        0 <= i < lines@.len() ==> snapshot(lines@)[i] == (lines@[i].0@, lines@[i].1@),
{
}

/// A committed file shows as `Local`, and then as `Synced` exactly if it was pushed; a removal and
/// an unchanged file show nothing.
pub proof fn law_overlay_follows_the_push(push_succeeds: bool)
    ensures
        overlay_states(Reconciled::Committed, true) == seq![ProxyState::Local, ProxyState::Synced],
        overlay_states(Reconciled::Committed, false) == seq![ProxyState::Local],
        overlay_states(Reconciled::Removed, push_succeeds).len() == 0,
        overlay_states(Reconciled::Unchanged, push_succeeds).len() == 0,
{
}

/// A plan shows its first state at once, and its second only after a push that was made and
/// succeeded.
pub proof fn law_plan_shows_its_states(plan: SavePlan, a: ProxyState, b: ProxyState)
    requires
        plan.before_push == Some(a),
        plan.after_push == Some(b),
    ensures
        plan.push ==> plan_states(plan, true) == seq![a, b],
        plan_states(plan, false) == seq![a],
        !plan.push ==> plan_states(plan, true) == seq![a],
        plan_states(SavePlan { before_push: None, ..plan }, false).len() == 0,
        plan_states(
            SavePlan { before_push: None, after_push: None, ..plan },
            true,
        ).len() == 0,
        plan_states(SavePlan { after_push: None, ..plan }, true) == seq![a],
{
    assert(plan.push ==> plan_states(plan, true) =~= seq![a, b]);
    assert(plan_states(plan, false) =~= seq![a]);
    assert(!plan.push ==> plan_states(plan, true) =~= seq![a]);
    assert(plan_states(SavePlan { after_push: None, ..plan }, true) =~= seq![a]);
}

/// A file is freed exactly if it was last accessed at least `idle_for` ago and has data to free; a
/// file whose last access is not known counts as just accessed; a directory is never freed, and is
/// looked into unless it is the git store.
pub proof fn law_idle_goes_by_the_last_access(entry: ProxyEntry, idle_for: u128, ago: u128)
    ensures
        entry.is_dir ==> !entry.stale(idle_for) && !entry.freed(idle_for),
        entry.looked_into() <==> entry.is_dir && entry.name != ".git"@,
        !entry.is_dir && entry.idle == Some(ago) ==> (entry.stale(idle_for) <==> ago >= idle_for),
        !entry.is_dir && entry.idle is None ==> (entry.stale(idle_for) <==> idle_for == 0),
        entry.freed(idle_for) <==> entry.stale(idle_for) && !entry.placeholder,
{
}

/// What a sweep learns about an entry is what it is told, and what a refresh ends with is what it
/// reports.
pub proof fn law_findings_of_the_proxy_are_taken_as_they_are(
    name: Seq<char>,
    is_dir: bool,
    idle: Option<u128>,
    placeholder: bool,
    world: RefreshWorld,
    changed: Vec<String>,
    message: String,
)
    ensures
        proxy_entry(name, is_dir, idle, placeholder).name == name,
        proxy_entry(name, is_dir, idle, placeholder).is_dir == is_dir,
        proxy_entry(name, is_dir, idle, placeholder).idle == idle,
        proxy_entry(name, is_dir, idle, placeholder).placeholder == placeholder,
        Refresh::Done(Ok(changed)).outcome(world) == Ok::<Seq<Seq<char>>, Seq<char>>(
            texts(changed@),
        ),
        Refresh::Done(Err(message)).outcome(world) == Err::<Seq<Seq<char>>, Seq<char>>(message@),
        Refresh::Done(Ok(changed)).to_write(world).len() == 0,
{
}

/// Whether a save is pushed.
pub open spec fn pushes(done: Reconciled) -> bool {
    done != Reconciled::Unchanged
}

/// Whatever was committed is pushed, a removal too; and where nothing was, nothing is.
pub proof fn law_commits_are_pushed()
    ensures
        pushes(Reconciled::Committed),
        pushes(Reconciled::Removed),
        !pushes(Reconciled::Unchanged),
{
}

} // verus!
