//! The loop of a live mount: when to reconcile and when to refresh.
use vstd::prelude::*;

verus! {

/// How often, in nanoseconds, the background loop fetches to keep the proxy current.
pub const REFRESH_INTERVAL: u128 = 15_000_000_000;

/// How long, in nanoseconds, the loop waits for the next change: the quiet period after which
/// changed paths are reconciled.
pub const QUIET_PERIOD: u128 = 300_000_000;

/// What the loop waited for.
#[derive(Debug, Clone, Copy, PartialEq, Eq, Structural)]
pub enum LoopEvent {
    /// Paths of the drive changed.
    Changed,
    /// Nothing changed for the quiet period.
    Quiet,
    /// No more changes will come.
    Disconnected,
}

/// What the loop does next.
#[derive(Debug, Clone, Copy, PartialEq, Eq, Structural)]
pub struct LoopTurn {
    /// Add the changed paths to those that are to be reconciled.
    pub collect: bool,
    /// Reconcile the collected paths, and forget them.
    pub reconcile: bool,
    /// Refresh the proxy, and start the interval anew.
    pub refresh: bool,
    /// End the loop.
    pub stop: bool,
}

/// What the loop does next, `elapsed` nanoseconds after the last refresh.
pub open spec fn turn_after(readonly: bool, event: LoopEvent, elapsed: u128) -> LoopTurn {
    LoopTurn {
        collect: !readonly && event == LoopEvent::Changed,
        reconcile: !readonly && event == LoopEvent::Quiet,
        refresh: event == LoopEvent::Quiet && elapsed >= REFRESH_INTERVAL,
        stop: event == LoopEvent::Disconnected,
    }
}

/// What the loop does next, `elapsed` nanoseconds after the last refresh. Changed paths are
/// collected, and reconciled once it is quiet; a read-only mount never reconciles.
pub fn loop_turn(readonly: bool, event: LoopEvent, elapsed: u128) -> (r: LoopTurn)
    ensures
        r == turn_after(readonly, event, elapsed),
{
    match event {
        LoopEvent::Changed => LoopTurn {
            collect: !readonly,
            reconcile: false,
            refresh: false,
            stop: false,
        },
        LoopEvent::Quiet => LoopTurn {
            collect: false,
            reconcile: !readonly,
            refresh: elapsed >= REFRESH_INTERVAL,
            stop: false,
        },
        LoopEvent::Disconnected => LoopTurn {
            collect: false,
            reconcile: false,
            refresh: false,
            stop: true,
        },
    }
}

/// A read-only mount never commits local changes back, but is refreshed like any other.
pub proof fn law_readonly_mount_never_reconciles(event: LoopEvent, elapsed: u128)
    ensures
        !turn_after(true, event, elapsed).reconcile,
        turn_after(true, event, elapsed).refresh == turn_after(false, event, elapsed).refresh,
{
}

/// Changes are collected as they come, and reconciled once it is quiet, for 0.3 seconds; the proxy is refreshed when
/// it is quiet and 15 seconds have passed since the last time; the loop ends when no more changes
/// can come, and only then.
pub proof fn law_loop_reacts_to_its_event(readonly: bool, elapsed: u128)
    ensures
        ({
            let turn = turn_after(readonly, LoopEvent::Changed, elapsed);
            turn.collect == !readonly && !turn.reconcile && !turn.refresh && !turn.stop
        }),
        ({
            let turn = turn_after(readonly, LoopEvent::Quiet, elapsed);
            !turn.collect && turn.reconcile == !readonly && turn.refresh == (elapsed
                >= 15_000_000_000) && !turn.stop
        }),
        ({
            let turn = turn_after(readonly, LoopEvent::Disconnected, elapsed);
            !turn.collect && !turn.reconcile && !turn.refresh && turn.stop
        }),
        QUIET_PERIOD == 300_000_000,
{
}

} // verus!
