//! The adaptive bulk delete: deletes in batches whose size grows while the store keeps up
//! and shrinks when it fails, giving up after repeated failures at the smallest batch.
use vstd::prelude::*;

verus! {

/// Consecutive failures at batch size one after which the delete gives up.
pub const MAX_RETRIES: u64 = 10;

/// The largest batch ever requested; growth stops there.
pub const MAX_BATCH: u64 = 0x7fff_ffff_ffff_ffff;

/// The loop's state between two delete attempts.
#[derive(Clone, Copy, Debug, PartialEq, Eq, Structural)]
pub struct RetryState {
    pub batch_size: u64,
    pub consecutive_failures: u64,
}

/// What one attempt to delete up to `batch_size` elements reported.
#[derive(Clone, Copy, Debug, PartialEq, Eq, Structural)]
pub enum DeleteOutcome {
    /// Elements were deleted and more may remain.
    Deleted,
    /// Nothing was left to delete.
    NothingLeft,
    /// The attempt failed.
    Failed,
}

/// What the loop does after an attempt.
#[derive(Clone, Copy, Debug, PartialEq, Eq, Structural)]
pub enum WipeStep {
    /// Attempt again from this state.
    Continue(RetryState),
    /// The store is empty.
    Done,
    /// The store made no progress even at batch size one.
    RetryExhausted,
}

pub open spec fn grown(b: int) -> int {
    if b + 1 + b / 10 > MAX_BATCH {
        MAX_BATCH as int
    } else {
        b + 1 + b / 10
    }
}

pub open spec fn shrunk(b: int) -> int {
    b - (1 + b / 10)
}

/// The step that follows `outcome` in state `s`.
pub open spec fn step_spec(s: RetryState, outcome: DeleteOutcome) -> WipeStep {
    match outcome {
        DeleteOutcome::NothingLeft => WipeStep::Done,
        DeleteOutcome::Deleted => WipeStep::Continue(
            RetryState { batch_size: grown(s.batch_size as int) as u64, consecutive_failures: 0 },
        ),
        DeleteOutcome::Failed => if shrunk(s.batch_size as int) >= 1 {
            WipeStep::Continue(
                RetryState {
                    batch_size: shrunk(s.batch_size as int) as u64,
                    consecutive_failures: s.consecutive_failures,
                },
            )
        } else if s.consecutive_failures + 1 >= MAX_RETRIES {
            WipeStep::RetryExhausted
        } else {
            WipeStep::Continue(
                RetryState { batch_size: 1, consecutive_failures: (s.consecutive_failures + 1) as u64 },
            )
        },
    }
}

impl RetryState {
    /// The batch size is at least one and the failures have not reached the ceiling.
    pub open spec fn wf(&self) -> bool {
        1 <= self.batch_size <= MAX_BATCH && self.consecutive_failures < MAX_RETRIES
    }

    /// The state the loop starts in: a batch of one and no failures.
    pub fn initial() -> (r: RetryState)
        ensures
            r.wf(),
            r.batch_size == 1,
            r.consecutive_failures == 0,
    {
        RetryState { batch_size: 1, consecutive_failures: 0 }
    }

    /// Decides what follows an attempt that reported `outcome`.
    pub fn step(&self, outcome: DeleteOutcome) -> (r: WipeStep)
        requires
            self.wf(),
        ensures
            r == step_spec(*self, outcome),
            r matches WipeStep::Continue(next) ==> next.wf(),
    {
        match outcome {
            DeleteOutcome::NothingLeft => WipeStep::Done,
            DeleteOutcome::Deleted => {
                let step = 1 + self.batch_size / 10;
                let batch_size = if self.batch_size > MAX_BATCH - step {
                    MAX_BATCH
                } else {
                    self.batch_size + step
                };
                WipeStep::Continue(RetryState { batch_size, consecutive_failures: 0 })
            },
            DeleteOutcome::Failed => {
                let step = 1 + self.batch_size / 10;
                if self.batch_size > step {
                    WipeStep::Continue(
                        RetryState {
                            batch_size: self.batch_size - step,
                            consecutive_failures: self.consecutive_failures,
                        },
                    )
                } else if self.consecutive_failures + 1 >= MAX_RETRIES {
                    WipeStep::RetryExhausted
                } else {
                    WipeStep::Continue(
                        RetryState {
                            batch_size: 1,
                            consecutive_failures: self.consecutive_failures + 1,
                        },
                    )
                }
            },
        }
    }
}

/// A successful attempt resets the failures and strictly grows the batch until the cap.
pub proof fn lemma_success_grows(s: RetryState)
    requires
        s.wf(),
        s.batch_size < MAX_BATCH,
    ensures
        step_spec(s, DeleteOutcome::Deleted) matches WipeStep::Continue(n) && n.batch_size
            > s.batch_size && n.consecutive_failures == 0,
{
}

/// The loop stops, successfully, the first time the store reports that nothing is left.
pub proof fn lemma_empty_stops(s: RetryState)
    ensures
        step_spec(s, DeleteOutcome::NothingLeft) == WipeStep::Done,
{
}

/// A failed attempt either shrinks the batch, keeping the failures, or, at batch size one,
/// adds one failure, and gives up exactly when the failures reach the ceiling.
pub proof fn lemma_failure_shrinks(s: RetryState)
    requires
        s.wf(),
    ensures
        s.batch_size > 1 ==> (step_spec(s, DeleteOutcome::Failed) matches WipeStep::Continue(n)
            && 1 <= n.batch_size < s.batch_size && n.consecutive_failures
            == s.consecutive_failures),
        s.batch_size == 1 && s.consecutive_failures + 1 < MAX_RETRIES ==> step_spec(
            s,
            DeleteOutcome::Failed,
        ) == WipeStep::Continue(
            RetryState { batch_size: 1, consecutive_failures: (s.consecutive_failures + 1) as u64 },
        ),
        s.batch_size == 1 && s.consecutive_failures + 1 == MAX_RETRIES ==> step_spec(
            s,
            DeleteOutcome::Failed,
        ) == WipeStep::RetryExhausted,
{
}

/// The step reached after `n` failed attempts from `s`, if the loop is still running.
pub open spec fn after_failures(s: RetryState, n: nat) -> WipeStep
    decreases n,
{
    if n == 0 {
        WipeStep::Continue(s)
    } else {
        match after_failures(s, (n - 1) as nat) {
            WipeStep::Continue(t) => step_spec(t, DeleteOutcome::Failed),
            other => other,
        }
    }
}

/// Against a store that always fails, the loop started at batch size one keeps the batch at
/// one, counts one more failure per attempt, and gives up at exactly the ceiling.
pub proof fn lemma_always_failing(n: nat)
    ensures
        n < MAX_RETRIES ==> after_failures(RetryState { batch_size: 1, consecutive_failures: 0 }, n)
            == WipeStep::Continue(RetryState { batch_size: 1, consecutive_failures: n as u64 }),
        n >= MAX_RETRIES ==> after_failures(
            RetryState { batch_size: 1, consecutive_failures: 0 },
            n,
        ) == WipeStep::RetryExhausted,
    decreases n,
{
    if n > 0 {
        lemma_always_failing((n - 1) as nat);
    }
}

/// The step reached after `n` successful attempts from `s`, if the loop is still running.
pub open spec fn after_successes(s: RetryState, n: nat) -> WipeStep
    decreases n,
{
    if n == 0 {
        WipeStep::Continue(s)
    } else {
        match after_successes(s, (n - 1) as nat) {
            WipeStep::Continue(t) => step_spec(t, DeleteOutcome::Deleted),
            other => other,
        }
    }
}

/// Against a store that always succeeds, the loop started at batch size one keeps running
/// with no failures and a batch that grows by at least one per attempt.
pub proof fn lemma_always_succeeding(n: nat)
    requires
        n < MAX_BATCH,
    ensures
        after_successes(RetryState { batch_size: 1, consecutive_failures: 0 }, n) matches WipeStep::Continue(t)
            && t.consecutive_failures == 0 && n + 1 <= t.batch_size <= MAX_BATCH,
    decreases n,
{
    if n > 0 {
        lemma_always_succeeding((n - 1) as nat);
    }
}

} // verus!
