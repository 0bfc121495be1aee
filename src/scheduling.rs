//! Decisions of the simulation loop: sub-batch sizes, retries with
//! exponential backoff around remote calls, and the order of a cycle's
//! phases. The loop itself, which performs the calls and sleeps, runs
//! outside the library and hands each outcome back here.
use vstd::prelude::*;
use crate::types::{clamp, ProcessingPhase};
use crate::text::{contains_str, contains_text};

verus! {

/// Attempts granted to a remote call before giving up.
pub const MAX_ATTEMPTS: u32 = 3;

/// Backoff before the first retry, in seconds.
pub const INITIAL_BACKOFF_SECS: u64 = 1;

/// Timeout of one cell's thought generation, in seconds.
pub const THOUGHT_TIMEOUT_SECS: u64 = 180;

/// Timeout of a sub-batch, of a batch of thoughts and of a plan, in
/// seconds.
pub const BATCH_TIMEOUT_SECS: u64 = 300;

/// Smallest and largest sub-batch.
pub const MIN_SUB_BATCH: usize = 3;
pub const MAX_SUB_BATCH: usize = 12;

/// Size of the batches of the evolution phase.
pub const BATCH_SIZE: usize = 5;

/// Size of a thought-generation sub-batch for a colony of `total` cells:
/// a tenth of it, rounded half up, clamped to `[3, 12]`.
pub fn sub_batch_size(total: usize) -> (r: usize)
    ensures
        r == clamp((total as int + 5) / 10, MIN_SUB_BATCH as int, MAX_SUB_BATCH as int),
{
    let t = total / 10 + if total % 10 >= 5 { 1 } else { 0 };
    assert(t == (total as int + 5) / 10);
    if t < MIN_SUB_BATCH {
        MIN_SUB_BATCH
    } else if t > MAX_SUB_BATCH {
        MAX_SUB_BATCH
    } else {
        t
    }
}

/// The error text that marks a transient transport failure worth a retry.
pub open spec fn transient_marker() -> Seq<char> {
    "unexpected EOF during chunk size line"@
}

/// Whether an error message marks a transient transport failure.
pub fn is_transient_error(message: &str) -> (r: bool)
    ensures
        r == contains_text(message@, transient_marker()),
{
    contains_str(message, "unexpected EOF during chunk size line")
}

/// How one attempt at a remote call ended.
#[derive(Clone, Copy, Debug, PartialEq, Eq, Structural)]
pub enum AttemptOutcome {
    Succeeded,
    /// Failed with an error; `transient` where the error is worth a retry.
    Failed { transient: bool },
    TimedOut,
}

/// What the loop does next.
#[derive(Clone, Copy, Debug, PartialEq, Eq, Structural)]
pub enum RetryAction {
    /// The call is over; move on.
    Done,
    /// Sleep this many seconds, then call again.
    RetryAfter(u64),
}

/// Attempts left and the backoff before the next retry.
#[derive(Clone, Copy, Debug, PartialEq, Eq, Structural)]
pub struct RetryState {
    pub attempts_left: u32,
    pub delay_secs: u64,
}

/// Outcome counts of a sub-batch.
#[derive(Clone, Copy, Debug, PartialEq, Eq, Structural)]
pub struct BatchCounters {
    pub successes: u64,
    pub errors: u64,
    pub timeouts: u64,
}

impl RetryState {
    /// State before the first attempt.
    pub fn start() -> (r: RetryState)
        ensures
            r.attempts_left == MAX_ATTEMPTS,
            r.delay_secs == INITIAL_BACKOFF_SECS,
    {
        RetryState { attempts_left: MAX_ATTEMPTS, delay_secs: INITIAL_BACKOFF_SECS }
    }
}

impl BatchCounters {
    pub fn new() -> (r: BatchCounters)
        ensures
            r.successes == 0 && r.errors == 0 && r.timeouts == 0,
    {
        BatchCounters { successes: 0, errors: 0, timeouts: 0 }
    }
}

pub open spec fn bump(v: u64) -> u64 {
    if v == u64::MAX {
        v
    } else {
        (v + 1) as u64
    }
}

/// Doubled backoff, saturating.
pub open spec fn doubled(v: u64) -> u64 {
    if v > u64::MAX / 2 {
        u64::MAX
    } else {
        (2 * v) as u64
    }
}

fn bump_exec(v: u64) -> (r: u64)
    ensures
        r == bump(v),
{
    if v == u64::MAX {
        v
    } else {
        v + 1
    }
}

/// Decision after one attempt at generating a cell's thought. Success and
/// timeouts end the call and are counted; a non-transient error ends it as
/// an error; a transient error is retried after the current backoff, which
/// then doubles, while attempts remain; a transient error on the last
/// attempt ends the call as one error.
pub fn thought_attempt_step(
    state: &mut RetryState,
    counters: &mut BatchCounters,
    outcome: AttemptOutcome,
) -> (r: RetryAction)
    requires
        old(state).attempts_left > 0,
    ensures
        match outcome {
            AttemptOutcome::Succeeded => r == RetryAction::Done && *final(counters) == (BatchCounters {
                successes: bump(old(counters).successes),
                ..*old(counters)
            }) && *final(state) == *old(state),
            AttemptOutcome::TimedOut => r == RetryAction::Done && *final(counters) == (BatchCounters {
                timeouts: bump(old(counters).timeouts),
                ..*old(counters)
            }) && *final(state) == *old(state),
            AttemptOutcome::Failed { transient } => if transient && old(state).attempts_left > 1 {
                &&& r == RetryAction::RetryAfter(old(state).delay_secs)
                &&& final(state).attempts_left == old(state).attempts_left - 1
                &&& final(state).delay_secs == doubled(old(state).delay_secs)
                &&& *final(counters) == *old(counters)
            } else if transient {
                &&& r == RetryAction::Done
                &&& final(state).attempts_left == 0
                &&& *final(counters) == (BatchCounters {
                    errors: bump(old(counters).errors),
                    ..*old(counters)
                })
            } else {
                &&& r == RetryAction::Done
                &&& *final(state) == *old(state)
                &&& *final(counters) == (BatchCounters {
                    errors: bump(old(counters).errors),
                    ..*old(counters)
                })
            },
        },
{
    match outcome {
        AttemptOutcome::Succeeded => {
            counters.successes = bump_exec(counters.successes);
            RetryAction::Done
        },
        AttemptOutcome::TimedOut => {
            counters.timeouts = bump_exec(counters.timeouts);
            RetryAction::Done
        },
        AttemptOutcome::Failed { transient } => {
            if transient {
                state.attempts_left = state.attempts_left - 1;
                if state.attempts_left > 0 {
                    let d = state.delay_secs;
                    state.delay_secs = if d > u64::MAX / 2 {
                        u64::MAX
                    } else {
                        2 * d
                    };
                    return RetryAction::RetryAfter(d);
                }
                counters.errors = bump_exec(counters.errors);
                RetryAction::Done
            } else {
                counters.errors = bump_exec(counters.errors);
                RetryAction::Done
            }
        },
    }
}

/// Decision after one attempt at a whole sub-batch: success ends it; an
/// error or a timeout is retried after the current backoff, which then
/// doubles, while attempts remain, and otherwise ends it.
pub fn sub_batch_attempt_step(state: &mut RetryState, succeeded: bool) -> (r: RetryAction)
    requires
        old(state).attempts_left > 0,
    ensures
        succeeded ==> r == RetryAction::Done && *final(state) == *old(state),
        !succeeded ==> final(state).attempts_left == old(state).attempts_left - 1,
        !succeeded && old(state).attempts_left > 1 ==> r == RetryAction::RetryAfter(
            old(state).delay_secs,
        ) && final(state).delay_secs == doubled(old(state).delay_secs),
        !succeeded && old(state).attempts_left == 1 ==> r == RetryAction::Done,
{
    if succeeded {
        return RetryAction::Done;
    }
    state.attempts_left = state.attempts_left - 1;
    if state.attempts_left > 0 {
        let d = state.delay_secs;
        state.delay_secs = if d > u64::MAX / 2 {
            u64::MAX
        } else {
            2 * d
        };
        RetryAction::RetryAfter(d)
    } else {
        RetryAction::Done
    }
}

/// The phase that follows `phase` in cycle `cycle`: thoughts, then plans,
/// then evolution; memory compression only on even cycles; then the cycle
/// rests until the next begins with thoughts.
pub fn next_phase(phase: ProcessingPhase, cycle: u64) -> (r: ProcessingPhase)
    ensures
        phase == ProcessingPhase::ThoughtGeneration ==> r == ProcessingPhase::PlanCreation,
        phase == ProcessingPhase::PlanCreation ==> r == ProcessingPhase::Evolution,
        phase == ProcessingPhase::Evolution && cycle % 2 == 0 ==> r
            == ProcessingPhase::MemoryCompression,
        phase == ProcessingPhase::Evolution && cycle % 2 == 1 ==> r == ProcessingPhase::Active,
        phase == ProcessingPhase::MemoryCompression ==> r == ProcessingPhase::Active,
        phase == ProcessingPhase::Active ==> r == ProcessingPhase::ThoughtGeneration,
{
    match phase {
        ProcessingPhase::ThoughtGeneration => ProcessingPhase::PlanCreation,
        ProcessingPhase::PlanCreation => ProcessingPhase::Evolution,
        ProcessingPhase::Evolution => if cycle % 2 == 0 {
            ProcessingPhase::MemoryCompression
        } else {
            ProcessingPhase::Active
        },
        ProcessingPhase::MemoryCompression => ProcessingPhase::Active,
        ProcessingPhase::Active => ProcessingPhase::ThoughtGeneration,
    }
}

} // verus!
