use bosync::schedule::{first_rand, SyncPolicy, SyncScheduler, Tick};
use std::time::Duration;

const SEC: u128 = 1_000_000_000;
const PUSH_DECAY: f64 = 0.6;
const FETCH_GROWTH: f64 = 1.5;
const FETCH_JITTER: f64 = 0.25;

fn policy() -> SyncPolicy {
    SyncPolicy {
        push_base: 8 * SEC,
        push_retry: 30 * SEC,
        fetch_base: 60 * SEC,
        fetch_max: 300 * SEC,
    }
}

fn scaled(nanos: u128, factor: f64) -> u128 {
    Duration::from_nanos(nanos as u64).mul_f64(factor).as_nanos()
}

fn jittered(base: u128, rand: u64) -> u128 {
    let r = rand as f64 / (1u64 << 53) as f64;
    scaled(base, 1.0 + (2.0 * r - 1.0) * FETCH_JITTER)
}

/// A scheduler with the fractions by which it is paced.
struct Paced {
    s: SyncScheduler,
}

impl Paced {
    fn new(policy: SyncPolicy, now: u128, seed: u64) -> Self {
        let first_fetch = jittered(policy.fetch_base, first_rand(seed));
        Paced { s: SyncScheduler::new(policy, now, seed, first_fetch) }
    }

    fn note_change(&mut self, now: u128) {
        let n = self.s.next_change();
        let extension = scaled(self.s.policy.push_base, PUSH_DECAY.powi(n as i32));
        let ceiling = scaled(self.s.policy.push_base, 1.0 / (1.0 - PUSH_DECAY));
        self.s.note_change(now, extension, ceiling);
    }

    fn note_pushed(&mut self, now: u128) {
        let next = jittered(self.s.policy.fetch_base, self.s.next_rand());
        self.s.note_pushed(now, next);
    }

    fn note_fetched(&mut self, now: u128, brought_changes: bool) {
        let grown = scaled(self.s.fetch_interval, FETCH_GROWTH);
        let interval = self.s.next_interval(brought_changes, grown);
        let next = jittered(interval, self.s.next_rand());
        self.s.note_fetched(now, brought_changes, grown, next);
        assert_eq!(self.s.fetch_interval, interval);
    }

    fn poll(&self, now: u128) -> Tick {
        self.s.poll(now)
    }
}

const T0: u128 = 1_000 * SEC;

#[test]
fn first_change_pushes_after_base() {
    let mut s = Paced::new(policy(), T0, 1);
    s.note_change(T0);
    assert!(matches!(s.poll(T0), Tick::Idle(_)));
    assert_eq!(s.poll(T0 + 8 * SEC), Tick::Push);
}

#[test]
fn bursts_extend_the_deadline_but_converge_to_a_ceiling() {
    let mut s = Paced::new(policy(), T0, 1);
    s.note_change(T0);
    // A long stream of edits, all "at once": the deadline keeps moving but can't pass the cap.
    for _ in 0..100 {
        s.note_change(T0);
    }
    // ceiling = 8 / (1 - 0.6) = 20s.
    assert_eq!(s.poll(T0 + 19 * SEC), Tick::Idle(SEC));
    assert_eq!(s.poll(T0 + 20 * SEC), Tick::Push);
}

#[test]
fn fetch_is_suppressed_while_a_push_is_pending() {
    let mut s = Paced::new(policy(), T0, 1);
    s.note_change(T0);
    // Well past any fetch interval, but a push is owed: never a fetch.
    assert_eq!(s.poll(T0 + 600 * SEC), Tick::Push);
}

#[test]
fn after_push_an_idle_fetch_eventually_runs() {
    let mut s = Paced::new(policy(), T0, 1);
    s.note_change(T0);
    let push_at = T0 + 8 * SEC;
    assert_eq!(s.poll(push_at), Tick::Push);
    s.note_pushed(push_at);
    // Within the next fetch window it's idle; well past it, a fetch is due.
    assert!(matches!(s.poll(push_at + SEC), Tick::Idle(_)));
    assert_eq!(s.poll(push_at + 120 * SEC), Tick::Fetch);
}

#[test]
fn idle_fetch_backs_off_and_resets_on_change() {
    let mut s = Paced::new(policy(), T0, 1);
    // Three quiet fetches: interval grows 60 -> 90 -> 135 -> 202.5 (x 1.5 each, < max).
    let mut now = T0;
    for _ in 0..3 {
        now += 600 * SEC; // force a fetch
        assert_eq!(s.poll(now), Tick::Fetch);
        s.note_fetched(now, false);
    }
    assert_eq!(s.s.fetch_interval, 202_500_000_000);
    // A fetch that brings changes snaps the interval back to base; the next is ~60s out.
    now += 600 * SEC;
    assert_eq!(s.poll(now), Tick::Fetch);
    s.note_fetched(now, true);
    assert!(matches!(s.poll(now), Tick::Idle(_)));
    assert_eq!(s.poll(now + 80 * SEC), Tick::Fetch);
}

#[test]
fn failed_push_retries_after_backoff_not_immediately() {
    let mut s = Paced::new(policy(), T0, 1);
    s.note_change(T0);
    let at = T0 + 8 * SEC;
    assert_eq!(s.poll(at), Tick::Push);
    s.s.note_push_failed(at);
    assert!(matches!(s.poll(at + SEC), Tick::Idle(_)));
    assert_eq!(s.poll(at + 30 * SEC), Tick::Push);
}

#[test]
fn fetch_scheduling_stays_within_jitter_bounds() {
    // Different seeds must all land inside [base*(1-j), base*(1+j)] = [45s, 75s] for base 60s.
    for seed in 1..50u64 {
        let s = Paced::new(policy(), T0, seed);
        // First fetch is `fetch_base` jittered; poll just before/after the bounds.
        assert!(matches!(s.poll(T0 + 44 * SEC), Tick::Idle(_)));
        assert_eq!(s.poll(T0 + 76 * SEC), Tick::Fetch);
    }
}

#[test]
fn default_policy_is_eight_thirty_sixty_threehundred() {
    let p = SyncPolicy::default();
    assert_eq!(
        (p.push_base, p.push_retry, p.fetch_base, p.fetch_max),
        (8 * SEC, 30 * SEC, 60 * SEC, 300 * SEC)
    );
}

#[test]
fn generator_follows_xorshift_and_skips_zero() {
    let mut s = SyncScheduler::new(policy(), 0, 0, SEC);
    let mut x: u64 = 0x9E37_79B9_7F4A_7C15;
    for i in 0..100 {
        x ^= x >> 12;
        x ^= x << 25;
        x ^= x >> 27;
        let expected = x.wrapping_mul(0x2545_F491_4F6C_DD1D) >> 11;
        let given = if i == 0 { first_rand(0) } else { s.next_rand() };
        assert_eq!(given, expected);
        assert_eq!(s.rng, x);
        assert!(expected < 1 << 53);
        assert_ne!(s.rng, 0);
    }
}

#[test]
fn extension_moves_the_deadline_until_the_ceiling() {
    let mut s = SyncScheduler::new(policy(), 0, 7, SEC);
    assert_eq!(s.next_change(), 0);
    s.note_change(100, 0, 1_000 * SEC);
    assert_eq!(s.push_deadline, Some(100 + 8 * SEC));
    assert_eq!(s.next_change(), 1);
    s.note_change(200, 3, 1_000 * SEC);
    assert_eq!(s.push_deadline, Some(103 + 8 * SEC));
    s.note_change(300, 500, 9 * SEC);
    assert_eq!(s.push_deadline, Some(603 + 8 * SEC));
    s.note_change(300, 2 * SEC, 9 * SEC);
    assert_eq!(s.push_deadline, Some(100 + 9 * SEC));
    assert_eq!(s.changes, 3);
}

#[test]
fn backoff_stops_at_the_maximum() {
    let mut s = SyncScheduler::new(policy(), 0, 7, 55 * SEC);
    assert_eq!(s.poll(54 * SEC), Tick::Idle(SEC));
    assert_eq!(s.poll(55 * SEC), Tick::Fetch);
    s.note_fetched(60 * SEC, false, 299 * SEC, 10 * SEC);
    assert_eq!(s.fetch_interval, 299 * SEC);
    assert_eq!(s.next_fetch, 70 * SEC);
    assert_eq!(s.next_interval(false, 448 * SEC), 300 * SEC);
    s.note_fetched(70 * SEC, false, 448 * SEC, 310 * SEC);
    assert_eq!(s.fetch_interval, 300 * SEC);
    assert_eq!(s.poll(379 * SEC), Tick::Idle(SEC));
    assert_eq!(s.poll(380 * SEC), Tick::Fetch);
    s.note_fetched(380 * SEC, true, 448 * SEC, 60 * SEC);
    assert_eq!(s.fetch_interval, 60 * SEC);
}

#[test]
fn a_change_does_not_bring_a_retry_forward() {
    let mut s = Paced::new(policy(), T0, 1);
    s.note_change(T0);
    assert_eq!(s.poll(T0 + 8 * SEC), Tick::Push);
    s.s.note_push_failed(T0 + 8 * SEC);
    s.note_change(T0 + 9 * SEC);
    // The retry is due at 38 s, past the ceiling of 20 s after the first change.
    assert_eq!(s.poll(T0 + 20 * SEC), Tick::Idle(18 * SEC));
    assert_eq!(s.poll(T0 + 37 * SEC), Tick::Idle(SEC));
    assert_eq!(s.poll(T0 + 38 * SEC), Tick::Push);
}
