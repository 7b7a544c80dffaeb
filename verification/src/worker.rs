//! One worker's walk through its chunk: which attempt comes next, when a
//! day is retried, and when the worker gives up.

use crate::date::DateKey;
use crate::text::{date_text, date_to_string, decimal, u32_to_string};
use vstd::string::StringExecFns;
use vstd::prelude::*;

verus! {

/// Why one attempt failed.
#[derive(Clone, Debug, PartialEq, Eq)]
pub enum Cause {
    /// The address of the artifact could not be found.
    Resolve(String),
    /// The artifact could not be fetched.
    Fetch(String),
    /// What was fetched is no image.
    Decode(String),
    /// The file could not be written.
    Write(String),
}

/// The failure that ends a worker: a day has used up its attempts.
#[derive(Clone, Debug, PartialEq, Eq)]
pub struct RetriesExhausted {
    pub date: DateKey,
    pub attempts: u32,
    pub cause: Cause,
}

/// Where one day stands.
#[derive(Clone, Copy, Debug, PartialEq, Eq, Structural)]
pub enum JobState {
    Pending,
    Attempting(u32),
    Succeeded,
    FailedFinal,
}

/// Where a worker stands in its chunk.
#[derive(Clone, Copy, Debug, PartialEq, Eq, Structural)]
pub enum WorkerState {
    /// Attempt number `attempt` on the day at `position` is under way.
    Attempting { position: usize, attempt: u32 },
    /// Every day of the chunk has been fetched.
    Done { fetched: usize },
    /// The day at `position` failed at its last attempt; the days after it
    /// are left alone.
    Failed { position: usize, attempts: u32 },
}

/// What came of one attempt.
#[derive(Clone, Debug, PartialEq, Eq)]
pub enum FetchOutcome {
    Success,
    Failure(Cause),
}

/// What the caller does next.
#[derive(Clone, Debug, PartialEq, Eq)]
pub enum Action {
    /// Make attempt number `attempt` on `date`, the first on that day.
    Attempt { date: DateKey, attempt: u32 },
    /// Warn that attempt `failed_attempt` on `date` failed for `cause`,
    /// then make attempt number `attempt` on the same day.
    Retry { date: DateKey, failed_attempt: u32, cause: Cause, attempt: u32 },
    /// Report that all `fetched` days of the chunk are there.
    Finish { fetched: usize },
    /// Report the failure; no further day of the chunk is attempted.
    Abort(RetriesExhausted),
    /// The worker had ended before; there is nothing to do.
    Rest,
}

impl Cause {
    /// What went wrong, in words.
    pub open spec fn text(self) -> Seq<char> {
        match self {
            Cause::Resolve(text) => text@,
            Cause::Fetch(text) => text@,
            Cause::Decode(text) => text@,
            Cause::Write(text) => text@,
        }
    }

    /// What went wrong, in words.
    pub fn message(&self) -> (r: String)
        ensures
            r@ == self.text(),
    {
        match self {
            Cause::Resolve(text) => text.clone(),
            Cause::Fetch(text) => text.clone(),
            Cause::Decode(text) => text.clone(),
            Cause::Write(text) => text.clone(),
        }
    }
}

impl RetriesExhausted {
    /// The one line that tells the user which day failed, after how many
    /// attempts, and why.
    pub open spec fn text(self) -> Seq<char> {
        date_text(self.date, "-"@, true) + " Failed after "@ + decimal(self.attempts as nat)
            + " attempts: "@ + self.cause.text()
    }

    /// The one line that tells the user which day failed, after how many
    /// attempts, and why.
    pub fn message(&self) -> (r: String)
        ensures
            r@ == self.text(),
    {
        let mut s = date_to_string(self.date, "-", true);
        s.append(" Failed after ");
        let attempts = u32_to_string(self.attempts);
        s.append(attempts.as_str());
        s.append(" attempts: ");
        let cause = self.cause.message();
        s.append(cause.as_str());
        s
    }
}

impl WorkerState {
    /// The states that a worker on a chunk of `len` days with `max_attempts`
    /// attempts a day can be in.
    pub open spec fn wf(self, len: int, max_attempts: int) -> bool {
        match self {
            WorkerState::Attempting { position, attempt } => position < len && 1 <= attempt
                <= max_attempts,
            WorkerState::Done { fetched } => fetched == len,
            WorkerState::Failed { position, attempts } => position < len && attempts
                == max_attempts,
        }
    }

    /// The worker has ended.
    pub open spec fn ended(self) -> bool {
        !(self is Attempting)
    }

    /// Where the day at index `i` of the chunk stands.
    pub open spec fn job_state(self, i: int) -> JobState {
        match self {
            WorkerState::Attempting { position, attempt } => if i < position {
                JobState::Succeeded
            } else if i == position {
                JobState::Attempting(attempt)
            } else {
                JobState::Pending
            },
            WorkerState::Done { fetched } => JobState::Succeeded,
            WorkerState::Failed { position, attempts } => if i < position {
                JobState::Succeeded
            } else if i == position {
                JobState::FailedFinal
            } else {
                JobState::Pending
            },
        }
    }

    /// The number of days fetched so far.
    pub open spec fn fetched(self) -> int {
        match self {
            WorkerState::Attempting { position, attempt } => position as int,
            WorkerState::Done { fetched } => fetched as int,
            WorkerState::Failed { position, attempts } => position as int,
        }
    }

    /// The most attempts that the worker can still make, the one under way
    /// included.
    pub open spec fn attempts_left(self, len: int, max_attempts: int) -> int {
        match self {
            WorkerState::Attempting { position, attempt } => (len - position) * max_attempts
                - attempt + 1,
            _ => 0,
        }
    }
}

/// The state in which a worker begins on a chunk of `len` days.
pub open spec fn initial(len: int) -> WorkerState {
    if len == 0 {
        WorkerState::Done { fetched: 0 }
    } else {
        WorkerState::Attempting { position: 0, attempt: 1 }
    }
}

/// The first thing a worker on `chunk` does.
pub open spec fn initial_action(chunk: Seq<DateKey>) -> Action {
    if chunk.len() == 0 {
        Action::Finish { fetched: 0 }
    } else {
        Action::Attempt { date: chunk[0], attempt: 1 }
    }
}

/// The state after `outcome` has come in, and what to do then.
pub open spec fn next(
    state: WorkerState,
    outcome: FetchOutcome,
    chunk: Seq<DateKey>,
    max_attempts: u32,
) -> (WorkerState, Action) {
    match state {
        WorkerState::Attempting { position, attempt } => match outcome {
            FetchOutcome::Success => if position + 1 < chunk.len() {
                (
                    WorkerState::Attempting { position: (position + 1) as usize, attempt: 1 },
                    Action::Attempt { date: chunk[position + 1], attempt: 1 },
                )
            } else {
                (
                    WorkerState::Done { fetched: (position + 1) as usize },
                    Action::Finish { fetched: (position + 1) as usize },
                )
            },
            FetchOutcome::Failure(cause) => if attempt < max_attempts {
                (
                    WorkerState::Attempting { position, attempt: (attempt + 1) as u32 },
                    Action::Retry {
                        date: chunk[position as int],
                        failed_attempt: attempt,
                        cause,
                        attempt: (attempt + 1) as u32,
                    },
                )
            } else {
                (
                    WorkerState::Failed { position, attempts: attempt },
                    Action::Abort(
                        RetriesExhausted { date: chunk[position as int], attempts: attempt, cause },
                    ),
                )
            },
        },
        _ => (state, Action::Rest),
    }
}

/// Begins a worker on `chunk`: its first state and its first action.
pub fn start(chunk: &Vec<DateKey>) -> (r: (WorkerState, Action))
    ensures
        r.0 == initial(chunk@.len() as int),
        r.1 == initial_action(chunk@),
{
    if chunk.len() == 0 {
        (WorkerState::Done { fetched: 0 }, Action::Finish { fetched: 0 })
    } else {
        (
            WorkerState::Attempting { position: 0, attempt: 1 },
            Action::Attempt { date: chunk[0], attempt: 1 },
        )
    }
}

/// Takes in what came of the attempt under way and says what to do next.
/// After a success the worker goes on to the next day, or ends. After a
/// failure it tries the same day again, unless that was the last attempt
/// allowed: then it ends at once. A worker that has ended stays as it is.
pub fn step(state: WorkerState, outcome: FetchOutcome, chunk: &Vec<DateKey>, max_attempts: u32) -> (r: (
    WorkerState,
    Action,
))
    requires
        state.wf(chunk@.len() as int, max_attempts as int),
    ensures
        r == next(state, outcome, chunk@, max_attempts),
{
    match state {
        WorkerState::Attempting { position, attempt } => match outcome {
            FetchOutcome::Success => {
                let len: usize = chunk.len();
                if position + 1 < len {
                    (
                        WorkerState::Attempting { position: position + 1, attempt: 1 },
                        Action::Attempt { date: chunk[position + 1], attempt: 1 },
                    )
                } else {
                    (
                        WorkerState::Done { fetched: position + 1 },
                        Action::Finish { fetched: position + 1 },
                    )
                }
            },
            FetchOutcome::Failure(cause) => {
                if attempt < max_attempts {
                    (
                        WorkerState::Attempting { position, attempt: attempt + 1 },
                        Action::Retry {
                            date: chunk[position],
                            failed_attempt: attempt,
                            cause,
                            attempt: attempt + 1,
                        },
                    )
                } else {
                    (
                        WorkerState::Failed { position, attempts: attempt },
                        Action::Abort(
                            RetriesExhausted { date: chunk[position], attempts: attempt, cause },
                        ),
                    )
                }
            },
        },
        _ => (state, Action::Rest),
    }
}

/// A worker begins in a state that fits its chunk.
pub proof fn lemma_initial_wf(len: int, max_attempts: int)
    requires
        0 <= len <= usize::MAX,
        max_attempts >= 1,
    ensures
        initial(len).wf(len, max_attempts),
{
}

/// Every step keeps the state fitting the chunk, never undoes a success,
/// never attempts a day beyond the first that failed for good, and brings
/// the worker nearer to its end.
pub proof fn lemma_step(state: WorkerState, outcome: FetchOutcome, chunk: Seq<DateKey>, max_attempts: u32)
    requires
        chunk.len() <= usize::MAX,
        state.wf(chunk.len() as int, max_attempts as int),
    ensures
        next(state, outcome, chunk, max_attempts).0.wf(chunk.len() as int, max_attempts as int),
        state.ended() ==> next(state, outcome, chunk, max_attempts) == (state, Action::Rest),
        next(state, outcome, chunk, max_attempts).0.fetched() >= state.fetched(),
        forall|i: int|
            state.job_state(i) == JobState::Succeeded ==> next(
                state,
                outcome,
                chunk,
                max_attempts,
            ).0.job_state(i) == JobState::Succeeded,
        !state.ended() ==> 0 <= next(state, outcome, chunk, max_attempts).0.attempts_left(
            chunk.len() as int,
            max_attempts as int,
        ) < state.attempts_left(chunk.len() as int, max_attempts as int),
{
    if let WorkerState::Attempting { position, attempt } = state {
        let len = chunk.len() as int;
        let m = max_attempts as int;
        assert((len - position) * m == (len - position - 1) * m + m && (len - position - 1) * m >= 0)
            by (nonlinear_arith)
            requires
                position < len,
                m >= 1,
        ;
    }
}

/// The state of a worker on `chunk` after the outcomes of its attempts so far.
pub open spec fn state_after(chunk: Seq<DateKey>, max_attempts: u32, outcomes: Seq<FetchOutcome>) -> WorkerState
    decreases outcomes.len(),
{
    if outcomes.len() == 0 {
        initial(chunk.len() as int)
    } else {
        next(
            state_after(chunk, max_attempts, outcomes.drop_last()),
            outcomes.last(),
            chunk,
            max_attempts,
        ).0
    }
}

/// Whatever comes of its attempts, a worker stays in a state that fits its
/// chunk, and it has ended once it has made as many attempts as the chunk has
/// days, times the attempts allowed for a day.
pub proof fn lemma_worker_ends(chunk: Seq<DateKey>, max_attempts: u32, outcomes: Seq<FetchOutcome>)
    requires
        chunk.len() <= usize::MAX,
        max_attempts >= 1,
    ensures
        state_after(chunk, max_attempts, outcomes).wf(chunk.len() as int, max_attempts as int),
        state_after(chunk, max_attempts, outcomes).attempts_left(chunk.len() as int, max_attempts as int)
            <= chunk.len() * max_attempts - outcomes.len() || state_after(
            chunk,
            max_attempts,
            outcomes,
        ).ended(),
        outcomes.len() >= chunk.len() * max_attempts ==> state_after(chunk, max_attempts, outcomes).ended(),
    decreases outcomes.len(),
{
    let len = chunk.len() as int;
    let m = max_attempts as int;
    let state = state_after(chunk, max_attempts, outcomes);
    if outcomes.len() == 0 {
        assert(len >= 1 ==> len * m >= 1 && (len - 0) * m == len * m) by (nonlinear_arith)
            requires
                m >= 1,
        ;
        assert(len == 0 ==> len * m == 0) by (nonlinear_arith);
    } else {
        let before = state_after(chunk, max_attempts, outcomes.drop_last());
        lemma_worker_ends(chunk, max_attempts, outcomes.drop_last());
        lemma_step(before, outcomes.last(), chunk, max_attempts);
    }
    if let WorkerState::Attempting { position, attempt } = state {
        assert((len - position) * m >= m) by (nonlinear_arith)
            requires
                position < len,
                m >= 1,
        ;
    }
}

/// Every one of `outcomes` is a failure.
pub open spec fn all_failures(outcomes: Seq<FetchOutcome>) -> bool {
    forall|i: int| 0 <= i < outcomes.len() ==> (#[trigger] outcomes[i]) is Failure
}

/// While every attempt fails, the worker stays on its first day: attempt
/// after attempt, until the last one allowed has failed. Then it has failed
/// for good, and the other days of the chunk are never attempted.
pub proof fn lemma_failures_exhaust(chunk: Seq<DateKey>, max_attempts: u32, outcomes: Seq<FetchOutcome>)
    requires
        1 <= chunk.len(),
        max_attempts >= 1,
        outcomes.len() <= max_attempts,
        all_failures(outcomes),
    ensures
        state_after(chunk, max_attempts, outcomes) == if outcomes.len() < max_attempts {
            WorkerState::Attempting { position: 0, attempt: (outcomes.len() + 1) as u32 }
        } else {
            WorkerState::Failed { position: 0, attempts: max_attempts }
        },
    decreases outcomes.len(),
{
    if outcomes.len() > 0 {
        assert(all_failures(outcomes.drop_last())) by {
            assert forall|i: int| 0 <= i < outcomes.drop_last().len() implies (#[trigger] outcomes.drop_last()[i]) is Failure by {
                assert(outcomes[i] is Failure);
            }
        }
        lemma_failures_exhaust(chunk, max_attempts, outcomes.drop_last());
        assert(outcomes.last() == outcomes[outcomes.len() - 1]);
    }
}

/// A success after failures, within the attempts allowed, completes the
/// first day: the worker goes on to the second day, or ends where the chunk
/// has no other.
pub proof fn lemma_success_after_failures(chunk: Seq<DateKey>, max_attempts: u32, failures: Seq<FetchOutcome>)
    requires
        1 <= chunk.len() <= usize::MAX,
        failures.len() < max_attempts,
        all_failures(failures),
    ensures
        state_after(chunk, max_attempts, failures.push(FetchOutcome::Success)) == if chunk.len() == 1 {
            WorkerState::Done { fetched: 1 }
        } else {
            WorkerState::Attempting { position: 1, attempt: 1 }
        },
{
    lemma_failures_exhaust(chunk, max_attempts, failures);
    let outcomes = failures.push(FetchOutcome::Success);
    assert(outcomes.drop_last() =~= failures);
    assert(outcomes.last() == FetchOutcome::Success);
}

} // verus!
