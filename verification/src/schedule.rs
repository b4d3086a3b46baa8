//! Be nice to the remote: batch pushes and pace fetches.
//!
//! The first unpushed change arms a timer. Each further change extends the deadline, but never
//! past a ceiling after the first change, so that a steady stream of edits is pushed in the end.
//! A failed push is retried after a while, and no change brings the retry forward.
//! No fetch is issued while a push is owed.
//!
//! Times and durations are in nanoseconds. The amounts that are scaled by a fraction (the
//! extension of a deadline, the ceiling, a jittered or a grown interval) are computed by the
//! caller and handed in.
use vstd::prelude::*;

verus! {

/// How aggressively a mount is allowed to talk to its remote.
#[derive(Debug, Clone, Copy)]
pub struct SyncPolicy {
    /// Quiet period after the first unpushed change before the batch is pushed.
    pub push_base: u128,
    /// How long to wait before retrying after a failed push.
    pub push_retry: u128,
    /// Base interval between idle fetches.
    pub fetch_base: u128,
    /// Ceiling for the idle-fetch interval.
    pub fetch_max: u128,
}

impl Default for SyncPolicy {
    /// 8 s before a push, 30 s before its retry, fetches every 60 s and at most 300 s apart.
    fn default() -> (r: Self)
        ensures
            r.push_base == 8_000_000_000,
            r.push_retry == 30_000_000_000,
            r.fetch_base == 60_000_000_000,
            r.fetch_max == 300_000_000_000,
    {
        SyncPolicy {
            push_base: 8_000_000_000,
            push_retry: 30_000_000_000,
            fetch_base: 60_000_000_000,
            fetch_max: 300_000_000_000,
        }
    }
}

/// What the mount loop should do this turn, decided by [`SyncScheduler::poll`].
#[derive(Debug, Clone, Copy, PartialEq, Eq, Structural)]
pub enum Tick {
    /// Push the batched commits now, then report the outcome.
    Push,
    /// Fetch from the remote now, then report the outcome.
    Fetch,
    /// Nothing is due; the caller may sleep up to this long before polling again.
    Idle(u128),
}

/// Paces a single mount's push/fetch traffic.
#[derive(Debug)]
pub struct SyncScheduler {
    pub policy: SyncPolicy,
    /// The state of the generator for the jitter; never 0.
    pub rng: u64,
    /// When the current batch of unpushed changes began.
    pub batch_start: Option<u128>,
    /// When the current batch should be pushed; `None` means nothing is waiting to push.
    pub push_deadline: Option<u128>,
    /// Number of follow-up changes since `batch_start`.
    pub changes: u32,
    /// Current idle-fetch interval.
    pub fetch_interval: u128,
    /// When the next idle fetch becomes due.
    pub next_fetch: u128,
}

/// The next state of the generator.
pub open spec fn xorshift(x: u64) -> u64 {
    let a = x ^ (x >> 12);
    let b = a ^ (a << 25);
    b ^ (b >> 27)
}

/// What the generator gives out in the state `x`: a number below 2^53.
pub open spec fn output(x: u64) -> u64 {
    x.wrapping_mul(0x2545_F491_4F6C_DD1D) >> 11
}

/// The state that the generator starts in for `seed`.
pub open spec fn seeded(seed: u64) -> u64 {
    if seed == 0 {
        0x9E37_79B9_7F4A_7C15
    } else {
        seed
    }
}

/// The generator never reaches 0 from another state, where it would stay.
pub proof fn law_generator_never_degenerates(x: u64)
    requires
        x != 0,
    ensures
        xorshift(x) != 0,
{
    let a = x ^ (x >> 12);
    let b = a ^ (a << 25);
    assert(x != 0 ==> x ^ (x >> 12) != 0) by (bit_vector);
    assert(a != 0 ==> a ^ (a << 25) != 0) by (bit_vector);
    assert(b != 0 ==> b ^ (b >> 27) != 0) by (bit_vector);
}

/// The smaller of two times.
pub open spec fn earlier(a: int, b: int) -> int {
    if a <= b {
        a
    } else {
        b
    }
}

/// The larger of two times.
pub open spec fn later(a: int, b: int) -> int {
    if a <= b {
        b
    } else {
        a
    }
}

/// What is due at `now` for the given deadlines.
pub open spec fn due(push_deadline: Option<u128>, next_fetch: u128, now: u128) -> Tick {
    match push_deadline {
        Some(deadline) => if now >= deadline {
            Tick::Push
        } else {
            Tick::Idle((deadline - now) as u128)
        },
        None => if now >= next_fetch {
            Tick::Fetch
        } else {
            Tick::Idle((next_fetch - now) as u128)
        },
    }
}

/// The state after `x`.
fn advance(x: u64) -> (r: u64)
    ensures
        r == xorshift(x),
        x != 0 ==> r != 0,
{
    proof {
        if x != 0 {
            law_generator_never_degenerates(x);
        }
    }
    let a: u64 = x ^ (x >> 12);
    let b: u64 = a ^ (a << 25);
    b ^ (b >> 27)
}

/// What the state `x` gives out.
fn give_out(x: u64) -> (r: u64)
    ensures
        r == output(x),
        r < 0x20_0000_0000_0000,
{
    let v: u64 = x.wrapping_mul(0x2545_F491_4F6C_DD1D);
    assert(v >> 11 < 0x20_0000_0000_0000) by (bit_vector);
    v >> 11
}

/// The state to start in.
fn start_state(seed: u64) -> (r: u64)
    ensures
        r == seeded(seed),
        r != 0,
{
    if seed == 0 {
        0x9E37_79B9_7F4A_7C15
    } else {
        seed
    }
}

/// The first number that the generator gives out for `seed`, below 2^53: from it the caller makes
/// the jitter of the first fetch, which [`SyncScheduler::new`] takes.
pub fn first_rand(seed: u64) -> (r: u64)
    ensures
        r == output(xorshift(seeded(seed))),
        r < 0x20_0000_0000_0000,
{
    give_out(advance(start_state(seed)))
}

impl SyncScheduler {
    /// A batch that has begun has a deadline, and the generator can move on.
    pub open spec fn wf(self) -> bool {
        &&& self.batch_start is Some ==> self.push_deadline is Some
        &&& self.rng != 0
    }

    /// Whether the deadline of the batch is at most `ceiling` after its beginning.
    pub open spec fn capped(self, ceiling: u128) -> bool {
        match (self.batch_start, self.push_deadline) {
            (Some(start), Some(deadline)) => deadline <= start + ceiling,
            _ => true,
        }
    }

    /// Create a scheduler with nothing to push and the first fetch due `first_fetch` from `now`.
    /// `seed` seeds the generator for the jitter (any value; `0` is replaced); its first number,
    /// [`first_rand`], is taken.
    pub fn new(policy: SyncPolicy, now: u128, seed: u64, first_fetch: u128) -> (r: Self)
        requires
            now + first_fetch <= u128::MAX,
        ensures
            r.wf(),
            r.policy == policy,
            r.rng == xorshift(seeded(seed)),
            r.batch_start is None,
            r.push_deadline is None,
            r.changes == 0,
            r.fetch_interval == policy.fetch_base,
            r.next_fetch == now + first_fetch,
    {
        let rng: u64 = advance(start_state(seed));
        SyncScheduler {
            policy,
            rng,
            batch_start: None,
            push_deadline: None,
            changes: 0,
            fetch_interval: policy.fetch_base,
            next_fetch: now + first_fetch,
        }
    }

    /// The next number of the generator, below 2^53: divided by 2^53 it is a fraction from which
    /// the caller makes the jitter.
    pub fn next_rand(&mut self) -> (r: u64)
        requires
            old(self).wf(),
        ensures
            final(self).wf(),
            final(self).rng == xorshift(old(self).rng),
            r == output(final(self).rng),
            r < 0x20_0000_0000_0000,
            *final(self) == (SyncScheduler { rng: final(self).rng, ..*old(self) }),
    {
        self.rng = advance(self.rng);
        give_out(self.rng)
    }

    /// The number of the follow-up change that a change would be now; 0 for the first change of
    /// a batch.
    pub fn next_change(&self) -> (r: u32)
        ensures
            r == coming_change(*self),
            r == if self.batch_start is None {
                0
            } else {
                earlier(self.changes + 1, u32::MAX as int)
            },
    {
        match self.batch_start {
            None => 0,
            Some(_) => if self.changes < u32::MAX {
                self.changes + 1
            } else {
                u32::MAX
            },
        }
    }

    /// Record that a local change was committed and now awaits a push. The first change arms the
    /// batch timer; each later one moves the deadline out by `extension`, but not past `ceiling`
    /// after the first change. A deadline that is already later stays.
    pub fn note_change(&mut self, now: u128, extension: u128, ceiling: u128)
        requires
            old(self).wf(),
            old(self).batch_start is None ==> now + old(self).policy.push_base <= u128::MAX,
            old(self).batch_start matches Some(start) ==> start + ceiling <= u128::MAX && old(
                self,
            ).push_deadline->0 + extension <= u128::MAX,
        ensures
            final(self).wf(),
            *final(self) == changed(*old(self), now, extension, ceiling),
    {
        let changes: u32 = self.next_change();
        match self.batch_start {
            None => {
                self.batch_start = Some(now);
                self.push_deadline = Some(now + self.policy.push_base);
            },
            Some(start) => {
                if let Some(deadline) = self.push_deadline {
                    let cap: u128 = start + ceiling;
                    if deadline + extension <= cap {
                        self.push_deadline = Some(deadline + extension);
                    } else if deadline <= cap {
                        self.push_deadline = Some(cap);
                    }
                }
            },
        }
        self.changes = changes;
        self.fetch_interval = self.policy.fetch_base;
    }

    /// Decide what to do at `now`. A pending push always wins over a fetch.
    pub fn poll(&self, now: u128) -> (r: Tick)
        ensures
            r == due(self.push_deadline, self.next_fetch, now),
    {
        match self.push_deadline {
            Some(deadline) => if now >= deadline {
                Tick::Push
            } else {
                Tick::Idle(deadline - now)
            },
            None => if now >= self.next_fetch {
                Tick::Fetch
            } else {
                Tick::Idle(self.next_fetch - now)
            },
        }
    }

    /// Report that the batched push succeeded: clear the batch, and schedule the next idle fetch
    /// `jittered` from now.
    pub fn note_pushed(&mut self, now: u128, jittered: u128)
        requires
            old(self).wf(),
            now + jittered <= u128::MAX,
        ensures
            final(self).wf(),
            *final(self) == pushed(*old(self), now, jittered),
    {
        self.batch_start = None;
        self.push_deadline = None;
        self.changes = 0;
        self.fetch_interval = self.policy.fetch_base;
        self.next_fetch = now + jittered;
    }

    /// Report that the batched push failed: keep the batch and retry after `push_retry`.
    pub fn note_push_failed(&mut self, now: u128)
        requires
            old(self).wf(),
            now + old(self).policy.push_retry <= u128::MAX,
        ensures
            final(self).wf(),
            *final(self) == push_failed(*old(self), now),
    {
        self.push_deadline = Some(now + self.policy.push_retry);
    }

    /// The idle interval that a completed fetch leads to: `fetch_base` if it brought changes, and
    /// otherwise `grown`, but at most `fetch_max`. From it the caller makes the jittered time that
    /// [`SyncScheduler::note_fetched`] takes.
    pub fn next_interval(&self, brought_changes: bool, grown: u128) -> (r: u128)
        ensures
            r == interval(self.policy, brought_changes, grown),
    {
        if brought_changes {
            self.policy.fetch_base
        } else if self.policy.fetch_max <= grown {
            self.policy.fetch_max
        } else {
            grown
        }
    }

    /// Report a completed fetch: the idle interval becomes what [`SyncScheduler::next_interval`]
    /// tells, and the next idle fetch is due `jittered` from now.
    pub fn note_fetched(&mut self, now: u128, brought_changes: bool, grown: u128, jittered: u128)
        requires
            old(self).wf(),
            now + jittered <= u128::MAX,
        ensures
            final(self).wf(),
            *final(self) == fetched(*old(self), now, brought_changes, grown, jittered),
    {
        self.fetch_interval = self.next_interval(brought_changes, grown);
        self.next_fetch = now + jittered;
    }
}

/// The idle interval after a fetch that did or did not bring changes.
pub open spec fn interval(policy: SyncPolicy, brought_changes: bool, grown: u128) -> u128 {
    if brought_changes {
        policy.fetch_base
    } else {
        earlier(policy.fetch_max as int, grown as int) as u128
    }
}

/// The scheduler after a fetch, the next one being due `jittered` later.
pub open spec fn fetched(
    s: SyncScheduler,
    now: u128,
    brought_changes: bool,
    grown: u128,
    jittered: u128,
) -> SyncScheduler {
    SyncScheduler {
        fetch_interval: interval(s.policy, brought_changes, grown),
        next_fetch: (now + jittered) as u128,
        ..s
    }
}

/// The scheduler after a change, as [`SyncScheduler::note_change`] leaves it.
pub open spec fn changed(
    s: SyncScheduler,
    now: u128,
    extension: u128,
    ceiling: u128,
) -> SyncScheduler {
    match s.batch_start {
        None => SyncScheduler {
            batch_start: Some(now),
            push_deadline: Some((now + s.policy.push_base) as u128),
            changes: 0,
            fetch_interval: s.policy.fetch_base,
            ..s
        },
        Some(start) => SyncScheduler {
            push_deadline: Some(
                later(
                    s.push_deadline->0 as int,
                    earlier(s.push_deadline->0 + extension, start + ceiling),
                ) as u128,
            ),
            changes: earlier(s.changes + 1, u32::MAX as int) as u32,
            fetch_interval: s.policy.fetch_base,
            ..s
        },
    }
}

/// The scheduler after a push that succeeded, the next fetch being due `jittered` later.
pub open spec fn pushed(s: SyncScheduler, now: u128, jittered: u128) -> SyncScheduler {
    SyncScheduler {
        batch_start: None,
        push_deadline: None,
        changes: 0,
        fetch_interval: s.policy.fetch_base,
        next_fetch: (now + jittered) as u128,
        ..s
    }
}

/// The scheduler after a push that failed.
pub open spec fn push_failed(s: SyncScheduler, now: u128) -> SyncScheduler {
    SyncScheduler { push_deadline: Some((now + s.policy.push_retry) as u128), ..s }
}

/// The scheduler after changes at the given times with the given extensions.
pub open spec fn changed_by(
    s: SyncScheduler,
    stream: Seq<(u128, u128)>,
    ceiling: u128,
) -> SyncScheduler
    decreases stream.len(),
{
    if stream.len() == 0 {
        s
    } else {
        changed(
            changed_by(s, stream.drop_last(), ceiling),
            stream.last().0,
            stream.last().1,
            ceiling,
        )
    }
}

/// No fetch is ever due while a push is owed.
pub proof fn law_pending_push_suppresses_fetch(s: SyncScheduler, now: u128)
    requires
        s.push_deadline is Some,
    ensures
        due(s.push_deadline, s.next_fetch, now) != Tick::Fetch,
{
}

/// The first change of a batch is pushed after the quiet period, and not before.
pub proof fn law_first_change_waits_for_quiet(
    s: SyncScheduler,
    first: u128,
    now: u128,
    ceiling: u128,
)
    requires
        s.batch_start is None,
        first + s.policy.push_base <= u128::MAX,
    ensures
        ({
            let armed = changed(s, first, 0, ceiling);
            due(armed.push_deadline, armed.next_fetch, now) == Tick::Push <==> now >= first
                + s.policy.push_base
        }),
{
}

/// However many changes follow the first one, at whatever times and with whatever extensions,
/// the push is due at the ceiling after the first change at the latest, and not before the quiet
/// period after it.
pub proof fn law_steady_edits_are_pushed(
    s: SyncScheduler,
    first: u128,
    stream: Seq<(u128, u128)>,
    ceiling: u128,
    now: u128,
)
    requires
        s.batch_start is None,
        s.policy.push_base <= ceiling,
        first + ceiling <= u128::MAX,
    ensures
        ({
            let end = changed_by(changed(s, first, 0, ceiling), stream, ceiling);
            &&& end.batch_start == Some(first)
            &&& end.capped(ceiling)
            &&& end.push_deadline->0 >= first + s.policy.push_base
            &&& now >= first + ceiling ==> due(end.push_deadline, end.next_fetch, now)
                == Tick::Push
            &&& now < first + s.policy.push_base ==> due(end.push_deadline, end.next_fetch, now)
                is Idle
        }),
    decreases stream.len(),
{
    if stream.len() > 0 {
        law_steady_edits_are_pushed(s, first, stream.drop_last(), ceiling, now);
    }
}

/// With a decay of `num / den`, which is below 1, the ceiling is the quiet period divided by
/// `1 - num / den`, rounded down: a stream of edits is pushed that long after its first one at the
/// latest.
pub proof fn law_decay_bounds_the_batch(
    s: SyncScheduler,
    first: u128,
    stream: Seq<(u128, u128)>,
    num: nat,
    den: nat,
    ceiling: u128,
    now: u128,
)
    requires
        s.batch_start is None,
        num < den,
        ceiling == s.policy.push_base as int * den / (den - num),
        first + ceiling <= u128::MAX,
    ensures
        ({
            let end = changed_by(changed(s, first, 0, ceiling), stream, ceiling);
            &&& now >= first + ceiling ==> due(end.push_deadline, end.next_fetch, now)
                == Tick::Push
            &&& now < first + s.policy.push_base ==> due(end.push_deadline, end.next_fetch, now)
                is Idle
        }),
{
    let base = s.policy.push_base as int;
    let rest = den - num;
    assert(base * den / rest >= base) by (nonlinear_arith)
        requires
            0 < rest <= den,
            base >= 0,
    ;
    law_steady_edits_are_pushed(s, first, stream, ceiling, now);
}

/// A change never moves the deadline of a batch to an earlier time, whether it comes from the
/// edits or from a failed push.
pub proof fn law_change_never_hastens_the_push(
    s: SyncScheduler,
    now: u128,
    extension: u128,
    ceiling: u128,
)
    requires
        s.wf(),
        s.batch_start is Some,
        s.batch_start->0 + ceiling <= u128::MAX,
    ensures
        changed(s, now, extension, ceiling).push_deadline->0 >= s.push_deadline->0,
        s.capped(ceiling) ==> changed(s, now, extension, ceiling).capped(ceiling),
{
}

/// A fetch that is set `jittered` from `now`, which is `interval` give or take the fraction
/// `num / den` of it, is not due before the fraction is taken off, and is due once it is put on,
/// where no push is owed.
pub proof fn law_fetches_stay_within_the_jitter(
    s: SyncScheduler,
    now: u128,
    interval: u128,
    jittered: u128,
    num: nat,
    den: nat,
    t: u128,
)
    requires
        s.push_deadline is None,
        s.next_fetch == now + jittered,
        0 < den,
        interval * (den - num) <= jittered * den <= interval * (den + num),
    ensures
        (t - now) * den < interval * (den - num) ==> due(s.push_deadline, s.next_fetch, t) is Idle,
        (t - now) * den >= interval * (den + num) ==> due(s.push_deadline, s.next_fetch, t)
            == Tick::Fetch,
{
    let passed = t - now;
    if passed * den < interval * (den - num) {
        assert(passed < jittered) by (nonlinear_arith)
            requires
                passed * den < jittered * den,
                0 < den,
        ;
    }
    if passed * den >= interval * (den + num) {
        assert(passed >= jittered) by (nonlinear_arith)
            requires
                passed * den >= jittered * den,
                0 < den,
        ;
    }
}

/// After a fetch the next one is due at the time that was set for it and not before, where no push
/// is owed; a push that is owed stays owed.
pub proof fn law_fetched_waits_for_the_next(
    s: SyncScheduler,
    now: u128,
    brought_changes: bool,
    grown: u128,
    jittered: u128,
    t: u128,
)
    requires
        now + jittered <= u128::MAX,
    ensures
        ({
            let after = fetched(s, now, brought_changes, grown, jittered);
            &&& after.push_deadline == s.push_deadline
            &&& brought_changes ==> after.fetch_interval == s.policy.fetch_base
            &&& !brought_changes ==> after.fetch_interval <= s.policy.fetch_max
            &&& s.push_deadline is None ==> (due(after.push_deadline, after.next_fetch, t)
                == Tick::Fetch <==> t >= now + jittered)
        }),
{
}

/// After a push that succeeded nothing is owed, and a fetch runs once its time has come.
pub proof fn law_pushed_batch_makes_way_for_fetches(s: SyncScheduler, now: u128, jittered: u128)
    requires
        now + jittered <= u128::MAX,
    ensures
        ({
            let after = pushed(s, now, jittered);
            &&& after.batch_start is None
            &&& due(after.push_deadline, after.next_fetch, (now + jittered) as u128) == Tick::Fetch
            &&& forall|t: u128|
                now <= t < now + jittered ==> #[trigger] due(
                    after.push_deadline,
                    after.next_fetch,
                    t,
                ) == Tick::Idle((now + jittered - t) as u128)
        }),
{
}

/// After a failed push the batch is kept: nothing is done before the retry is due, and then it is
/// pushed again.
pub proof fn law_failed_push_is_retried(s: SyncScheduler, now: u128)
    requires
        now + s.policy.push_retry <= u128::MAX,
    ensures
        ({
            let after = push_failed(s, now);
            &&& after.batch_start == s.batch_start
            &&& due(
                after.push_deadline,
                after.next_fetch,
                (now + s.policy.push_retry) as u128,
            ) == Tick::Push
            &&& forall|t: u128|
                now <= t < now + s.policy.push_retry ==> #[trigger] due(
                    after.push_deadline,
                    after.next_fetch,
                    t,
                ) is Idle
        }),
{
}

/// What is due is told by the deadlines: a push from its deadline on, and before that the time that
/// is left until it; without a push owed, a fetch from its time on, and before that the time left.
pub proof fn law_poll_goes_by_the_deadlines(next_fetch: u128, deadline: u128, now: u128)
    ensures
        now >= deadline ==> due(Some(deadline), next_fetch, now) == Tick::Push,
        now < deadline ==> due(Some(deadline), next_fetch, now) == Tick::Idle(
            (deadline - now) as u128,
        ),
        now >= next_fetch ==> due(None, next_fetch, now) == Tick::Fetch,
        now < next_fetch ==> due(None, next_fetch, now) == Tick::Idle((next_fetch - now) as u128),
{
}

/// The first change of a batch begins it and sets its deadline after the quiet period; a later one
/// moves the deadline out by its extension, up to the ceiling after the beginning, and leaves one
/// that is later still where it is. Either way the fetch interval starts anew, and nothing else
/// changes.
pub proof fn law_change_moves_the_deadline(
    s: SyncScheduler,
    now: u128,
    extension: u128,
    ceiling: u128,
    start: u128,
    deadline: u128,
)
    requires
        now + s.policy.push_base <= u128::MAX,
        start + ceiling <= u128::MAX,
        deadline + extension <= u128::MAX,
    ensures
        ({
            let after = changed(s, now, extension, ceiling);
            &&& after.policy == s.policy
            &&& after.rng == s.rng
            &&& after.next_fetch == s.next_fetch
            &&& after.fetch_interval == s.policy.fetch_base
            &&& s.batch_start is None ==> {
                &&& after.batch_start == Some(now)
                &&& after.push_deadline is Some
                &&& after.push_deadline->0 == now + s.policy.push_base
                &&& after.changes == 0
            }
            &&& s.batch_start == Some(start) && s.push_deadline == Some(deadline) ==> {
                &&& after.batch_start == Some(start)
                &&& after.push_deadline is Some
                &&& deadline + extension <= start + ceiling ==> after.push_deadline->0 == deadline
                    + extension
                &&& deadline <= start + ceiling < deadline + extension ==> after.push_deadline->0
                    == start + ceiling
                &&& deadline > start + ceiling ==> after.push_deadline->0 == deadline
                &&& s.changes < u32::MAX ==> after.changes == s.changes + 1
                &&& s.changes == u32::MAX ==> after.changes == u32::MAX
            }
        }),
{
}

/// A push that succeeded ends the batch and starts the fetches anew; one that failed puts the next
/// try off and keeps the batch; a fetch leaves both alone, sets the time of the next one and its
/// interval: the base where it brought changes, and else what it has grown to, up to the maximum.
pub proof fn law_outcomes_set_what_comes_next(
    s: SyncScheduler,
    now: u128,
    jittered: u128,
    grown: u128,
    brought_changes: bool,
)
    requires
        now + jittered <= u128::MAX,
        now + s.policy.push_retry <= u128::MAX,
    ensures
        ({
            let after = pushed(s, now, jittered);
            &&& after.batch_start is None && after.push_deadline is None && after.changes == 0
            &&& after.fetch_interval == s.policy.fetch_base
            &&& after.next_fetch == now + jittered
            &&& after.policy == s.policy && after.rng == s.rng
        }),
        ({
            let after = push_failed(s, now);
            &&& after.push_deadline is Some && after.push_deadline->0 == now + s.policy.push_retry
            &&& after.batch_start == s.batch_start && after.changes == s.changes
            &&& after.fetch_interval == s.fetch_interval && after.next_fetch == s.next_fetch
            &&& after.policy == s.policy && after.rng == s.rng
        }),
        ({
            let after = fetched(s, now, brought_changes, grown, jittered);
            &&& after.next_fetch == now + jittered
            &&& brought_changes ==> after.fetch_interval == s.policy.fetch_base
            &&& !brought_changes && grown <= s.policy.fetch_max ==> after.fetch_interval == grown
            &&& !brought_changes && grown > s.policy.fetch_max ==> after.fetch_interval
                == s.policy.fetch_max
            &&& after.batch_start == s.batch_start && after.push_deadline == s.push_deadline
            &&& after.changes == s.changes
            &&& after.policy == s.policy && after.rng == s.rng
        }),
{
}

/// The generator starts in the seed that it is given, and in another state only for the seed 0.
pub proof fn law_seed_is_the_first_state(seed: u64)
    ensures
        seeded(seed) != 0,
        seed != 0 ==> seeded(seed) == seed,
{
}

/// The generator loses nothing: two states never have the same next one, so that it does not fall
/// into a short cycle from elsewhere. What it gives out is below 2^53.
pub proof fn law_generator_is_reversible(x: u64, y: u64)
    ensures
        xorshift(x) == xorshift(y) ==> x == y,
        xorshift(x) == {
            let a = x ^ (x >> 12);
            let b = a ^ (a << 25);
            b ^ (b >> 27)
        },
        output(x) < 0x20_0000_0000_0000,
        output(x) == x.wrapping_mul(0x2545_F491_4F6C_DD1D) >> 11,
{
    let a = x ^ (x >> 12);
    let c = y ^ (y >> 12);
    let b = a ^ (a << 25);
    let d = c ^ (c << 25);
    assert(b ^ (b >> 27) == d ^ (d >> 27) ==> b == d) by (bit_vector);
    assert(a ^ (a << 25) == c ^ (c << 25) ==> a == c) by (bit_vector);
    assert(x ^ (x >> 12) == y ^ (y >> 12) ==> x == y) by (bit_vector);
    let v = x.wrapping_mul(0x2545_F491_4F6C_DD1D);
    assert(v >> 11 < 0x20_0000_0000_0000u64) by (bit_vector);
}

/// The number of the follow-up change that a change would be.
pub open spec fn coming_change(s: SyncScheduler) -> u32 {
    if s.batch_start is None {
        0
    } else {
        earlier(s.changes + 1, u32::MAX as int) as u32
    }
}

/// The number that a change is told beforehand is the one that it has afterwards.
pub proof fn law_change_has_the_number_it_was_told(
    s: SyncScheduler,
    now: u128,
    extension: u128,
    ceiling: u128,
)
    ensures
        changed(s, now, extension, ceiling).changes == coming_change(s),
        s.batch_start is None ==> coming_change(s) == 0,
        s.batch_start is Some && s.changes < u32::MAX ==> coming_change(s) == s.changes + 1,
{
}

} // verus!
