//! The cycle schedule: the fixed-cadence phase machine that one sync cycle
//! walks through, and the self-correcting sleep that keeps the cadence from
//! drifting when a cycle's work takes time.

use vstd::prelude::*;

verus! {

/// The cadence of the sync loop, in milliseconds.
pub const LOOP_DURATION_MS: u64 = 10000;

/// The phases of one sync cycle, in order. A cycle never overlaps the next:
/// a new capture begins only after the previous cycle committed and slept.
#[derive(Clone, Copy, PartialEq, Eq, Structural, Debug)]
pub enum Phase {
    Idle,
    Capturing,
    Diffing,
    Dispatching,
    Writing,
    Committing,
    Sleeping,
}

/// The successor of a phase, given whether the stage's work succeeded.
/// A capture failure aborts the cycle — straight to the sleep, nothing
/// committed. A dispatch failure is per-window and never fails the stage.
/// A write failure still commits the fresh fingerprints, so the failed
/// content is not re-embedded while it stays on screen.
pub open spec fn spec_next_phase(p: Phase, stage_ok: bool) -> Phase {
    match p {
        Phase::Idle => Phase::Capturing,
        Phase::Capturing => if stage_ok {
            Phase::Diffing
        } else {
            Phase::Sleeping
        },
        Phase::Diffing => Phase::Dispatching,
        Phase::Dispatching => Phase::Writing,
        Phase::Writing => Phase::Committing,
        Phase::Committing => Phase::Sleeping,
        Phase::Sleeping => Phase::Idle,
    }
}

/// One scheduler step: the phase to enter next, or `None` once shutdown has
/// been requested — the cancellation signal is honoured between stages, never
/// in the middle of one.
pub fn next_phase(p: Phase, stage_ok: bool, cancelled: bool) -> (q: Option<Phase>)
    ensures
        cancelled ==> q is None,
        !cancelled ==> q == Some(spec_next_phase(p, stage_ok)),
{
    if cancelled {
        return None;
    }
    Some(
        match p {
            Phase::Idle => Phase::Capturing,
            Phase::Capturing => if stage_ok {
                Phase::Diffing
            } else {
                Phase::Sleeping
            },
            Phase::Diffing => Phase::Dispatching,
            Phase::Dispatching => Phase::Writing,
            Phase::Writing => Phase::Committing,
            Phase::Committing => Phase::Sleeping,
            Phase::Sleeping => Phase::Idle,
        },
    )
}

/// The self-correcting sleep after one cycle: the rest of the cycle budget
/// when the work fit inside it, nothing when the work ran over — the next
/// cycle then starts at once, with no catch-up of missed ticks.
pub fn sleep_duration_ms(start_ms: u64, end_ms: u64, period_ms: u64) -> (d: u64)
    requires
        start_ms <= end_ms,
    ensures
        end_ms - start_ms < period_ms ==> d == period_ms - (end_ms - start_ms),
        end_ms - start_ms >= period_ms ==> d == 0,
{
    let work = end_ms - start_ms;
    if work < period_ms {
        period_ms - work
    } else {
        0
    }
}

} // verus!
