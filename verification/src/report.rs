//! The outcome of a whole run, made from the outcomes of its workers.

use crate::date::DateKey;
use crate::jobs::{chunk_size, is_chunking, joined, lemma_chunking, lemma_joined_last};
use crate::args::Args;
use crate::worker::RetriesExhausted;
use vstd::prelude::*;
use vstd::string::StringExecFns;

verus! {

/// Why a run failed as a whole.
#[derive(Clone, Debug, PartialEq, Eq)]
pub enum RunError {
    /// The settings allow no attempt at all.
    NoAttempts,
    /// The folder could not be found, made, emptied or listed; no worker was started.
    Directory(String),
    /// A worker gave up on a day.
    Exhausted(RetriesExhausted),
}

impl RunError {
    /// The one diagnostic that the user gets.
    pub open spec fn text(self) -> Seq<char> {
        match self {
            RunError::NoAttempts => "No attempts were allowed :("@,
            RunError::Directory(text) => text@,
            RunError::Exhausted(error) => error.text(),
        }
    }

    /// The one diagnostic that the user gets.
    pub fn message(&self) -> (r: String)
        ensures
            r@ == self.text(),
    {
        match self {
            RunError::NoAttempts => String::from_str("No attempts were allowed :("),
            RunError::Directory(text) => text.clone(),
            RunError::Exhausted(error) => error.message(),
        }
    }
}

/// Whether a run with these settings can begin: it cannot where no attempt
/// is allowed.
pub fn check_settings(args: &Args) -> (r: Result<(), RunError>)
    ensures
        r == if args.attempts > 0 {
            Ok::<(), RunError>(())
        } else {
            Err::<(), RunError>(RunError::NoAttempts)
        },
{
    if args.attempts_allowed() {
        Ok(())
    } else {
        Err(RunError::NoAttempts)
    }
}

/// The outcome of a run as the user sees it: the number of days fetched, or
/// the failure of the first worker that failed.
pub fn run_outcome(results: Vec<Result<usize, RetriesExhausted>>) -> (r: Result<usize, RunError>)
    requires
        total_fetched(results@) <= usize::MAX,
    ensures
        r == match run_result(results@) {
            Ok(n) => Ok::<usize, RunError>(n),
            Err(error) => Err::<usize, RunError>(RunError::Exhausted(error)),
        },
{
    match aggregate(results) {
        Ok(n) => Ok(n),
        Err(error) => Err(RunError::Exhausted(error)),
    }
}

/// The index of the first worker that failed, in the order in which the
/// workers were joined.
pub open spec fn first_failure(results: Seq<Result<usize, RetriesExhausted>>) -> Option<int>
    decreases results.len(),
{
    if results.len() == 0 {
        None
    } else {
        match first_failure(results.drop_last()) {
            Some(i) => Some(i),
            None => if results.last() is Err {
                Some(results.len() - 1)
            } else {
                None
            },
        }
    }
}

/// The number of days that the workers that succeeded have fetched.
pub open spec fn total_fetched(results: Seq<Result<usize, RetriesExhausted>>) -> int
    decreases results.len(),
{
    if results.len() == 0 {
        0
    } else {
        total_fetched(results.drop_last()) + match results.last() {
            Ok(n) => n as int,
            Err(_) => 0,
        }
    }
}

/// The outcome of the run: the first failure among the workers, or, where
/// none failed, the number of days fetched by all of them.
pub open spec fn run_result(results: Seq<Result<usize, RetriesExhausted>>) -> Result<
    usize,
    RetriesExhausted,
> {
    match first_failure(results) {
        Some(i) => results[i],
        None => Ok(total_fetched(results) as usize),
    }
}

/// The first failure is a failure, and every worker before it succeeded;
/// where there is none, every worker succeeded.
pub proof fn lemma_first_failure(results: Seq<Result<usize, RetriesExhausted>>)
    ensures
        match first_failure(results) {
            Some(i) => 0 <= i < results.len() && results[i] is Err && forall|j: int|
                0 <= j < i ==> (#[trigger] results[j]) is Ok,
            None => forall|j: int| 0 <= j < results.len() ==> (#[trigger] results[j]) is Ok,
        },
    decreases results.len(),
{
    if results.len() > 0 {
        let front = results.drop_last();
        lemma_first_failure(front);
        match first_failure(front) {
            Some(i) => {
                assert(front[i] == results[i]);
                assert forall|j: int| 0 <= j < i implies (#[trigger] results[j]) is Ok by {
                    assert(front[j] is Ok);
                }
            },
            None => {
                assert forall|j: int| 0 <= j < results.len() - 1 implies (#[trigger] results[j]) is Ok by {
                    assert(front[j] is Ok);
                }
            },
        }
    }
}

/// The workers joined first have fetched no more than all of them.
proof fn lemma_total_prefix(results: Seq<Result<usize, RetriesExhausted>>, k: int)
    requires
        0 <= k <= results.len(),
    ensures
        0 <= total_fetched(results.take(k)) <= total_fetched(results),
    decreases results.len(),
{
    if results.len() == 0 {
        assert(results.take(k) =~= results);
    } else if k == results.len() {
        assert(results.take(k) =~= results);
        lemma_total_prefix(results.drop_last(), k - 1);
        assert(results.drop_last().take(k - 1) =~= results.drop_last());
    } else {
        lemma_total_prefix(results.drop_last(), k);
        assert(results.drop_last().take(k) =~= results.take(k));
    }
}

/// Makes the outcome of the run from the outcomes of its workers, given in
/// the order in which they were joined. One failure makes the run a failure,
/// whatever the other workers fetched.
pub fn aggregate(results: Vec<Result<usize, RetriesExhausted>>) -> (r: Result<usize, RetriesExhausted>)
    requires
        total_fetched(results@) <= usize::MAX,
    ensures
        r == run_result(results@),
{
    let ghost all = results@;
    let mut joined_results = results;
    let mut sum: usize = 0;
    let mut i: usize = 0;
    while i < joined_results.len()
        invariant
            joined_results@ == all,
            results@ == all,
            i <= all.len(),
            total_fetched(all) <= usize::MAX,
            first_failure(all.take(i as int)) is None,
            sum == total_fetched(all.take(i as int)),
        decreases all.len() - i,
    {
        proof {
            assert(all.take(i + 1).drop_last() =~= all.take(i as int));
            lemma_total_prefix(all, i + 1);
            lemma_first_failure_extends(all, i as int);
        }
        match &joined_results[i] {
            Ok(n) => {
                sum = sum + *n;
            },
            Err(_) => {
                return joined_results.remove(i);
            },
        }
        i = i + 1;
    }
    proof {
        assert(all.take(i as int) =~= all);
    }
    Ok(sum)
}

/// A failure right after a run of successes is the first failure of the whole.
proof fn lemma_first_failure_extends(results: Seq<Result<usize, RetriesExhausted>>, k: int)
    requires
        0 <= k < results.len(),
        first_failure(results.take(k)) is None,
    ensures
        results[k] is Err ==> first_failure(results) == Some(k),
        results[k] is Ok ==> first_failure(results.take(k + 1)) is None,
        results[k] is Err ==> first_failure(results.take(k + 1)) == Some(k),
    decreases results.len(),
{
    assert(results.take(k + 1).drop_last() =~= results.take(k));
    if k + 1 == results.len() {
        assert(results.take(k + 1) =~= results);
    } else {
        assert(results.drop_last().take(k) =~= results.take(k));
        assert(results.drop_last().take(k + 1) =~= results.take(k + 1));
        lemma_first_failure_extends(results.drop_last(), k);
    }
}

/// Where each worker fetched its whole chunk, the run reports as many days
/// as there were to fetch.
pub proof fn lemma_full_success(
    chunks: Seq<Vec<DateKey>>,
    jobs: Seq<DateKey>,
    workers: int,
    results: Seq<Result<usize, RetriesExhausted>>,
)
    requires
        workers >= 1,
        jobs.len() <= usize::MAX,
        is_chunking(chunks, jobs, chunk_size(jobs.len() as int, workers)),
        results.len() == chunks.len(),
        forall|k: int|
            0 <= k < chunks.len() ==> (#[trigger] results[k]) is Ok && results[k]->Ok_0
                == chunks[k]@.len(),
    ensures
        run_result(results) == Ok::<usize, RetriesExhausted>(jobs.len() as usize),
{
    lemma_chunking(chunks, jobs, workers);
    lemma_first_failure(results);
    lemma_total_is_joined_len(chunks, results);
}

/// Workers that each fetched their whole chunk have fetched as many days
/// as the chunks hold together.
proof fn lemma_total_is_joined_len(chunks: Seq<Vec<DateKey>>, results: Seq<Result<usize, RetriesExhausted>>)
    requires
        results.len() == chunks.len(),
        forall|k: int|
            0 <= k < chunks.len() ==> (#[trigger] results[k]) is Ok && results[k]->Ok_0
                == chunks[k]@.len(),
    ensures
        total_fetched(results) == joined(chunks).len(),
    decreases chunks.len(),
{
    lemma_joined_last(chunks);
    if chunks.len() > 0 {
        assert(results.last() == results[results.len() - 1]);
        assert(chunks.last() == chunks[chunks.len() - 1]);
        assert forall|k: int| 0 <= k < chunks.drop_last().len() implies (#[trigger] results.drop_last()[k]) is Ok
            && results.drop_last()[k]->Ok_0 == chunks.drop_last()[k]@.len() by {
            assert(results[k] is Ok);
        }
        lemma_total_is_joined_len(chunks.drop_last(), results.drop_last());
    }
}

} // verus!
