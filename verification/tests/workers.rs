use everygarf::report::{aggregate, check_settings, run_outcome, RunError};
use everygarf::worker::{start, step, Action, Cause, FetchOutcome, RetriesExhausted, WorkerState};
use everygarf::{Args, DateKey};

fn day(year: i32, month: u32, day: u32) -> DateKey {
    DateKey::new(year, month, day).unwrap()
}

fn failure(text: &str) -> FetchOutcome {
    FetchOutcome::Failure(Cause::Fetch(String::from(text)))
}

/// Runs a worker on `chunk`; attempt `n` on a day succeeds where `succeeds(day, n)` says so.
/// Gives back the attempts that were made, the warnings, and how the worker ended.
fn run(
    chunk: &Vec<DateKey>,
    max_attempts: u32,
    succeeds: fn(DateKey, u32) -> bool,
) -> (Vec<(DateKey, u32)>, Vec<(DateKey, u32)>, WorkerState, Action) {
    let mut attempts = Vec::new();
    let mut warnings = Vec::new();
    let (mut state, mut action) = start(chunk);
    loop {
        let (date, attempt) = match &action {
            Action::Attempt { date, attempt } => (*date, *attempt),
            Action::Retry { date, failed_attempt, attempt, .. } => {
                warnings.push((*date, *failed_attempt));
                (*date, *attempt)
            }
            _ => return (attempts, warnings, state, action),
        };
        attempts.push((date, attempt));
        let outcome = if succeeds(date, attempt) { FetchOutcome::Success } else { failure("no route") };
        let next = step(state, outcome, chunk, max_attempts);
        state = next.0;
        action = next.1;
    }
}

#[test]
fn worker_on_an_empty_chunk_ends_at_once() {
    let (state, action) = start(&Vec::new());
    assert_eq!(state, WorkerState::Done { fetched: 0 });
    assert_eq!(action, Action::Finish { fetched: 0 });
}

#[test]
fn worker_begins_with_the_first_attempt_on_the_first_day() {
    let chunk = vec![day(2020, 1, 1), day(2020, 1, 3)];
    let (state, action) = start(&chunk);
    assert_eq!(state, WorkerState::Attempting { position: 0, attempt: 1 });
    assert_eq!(action, Action::Attempt { date: day(2020, 1, 1), attempt: 1 });
}

#[test]
fn retry_succeeds_at_the_third_attempt() {
    let chunk = vec![day(2020, 1, 1)];
    let (attempts, warnings, state, action) = run(&chunk, 3, |_, attempt| attempt >= 3);
    assert_eq!(attempts, vec![(day(2020, 1, 1), 1), (day(2020, 1, 1), 2), (day(2020, 1, 1), 3)]);
    assert_eq!(warnings, vec![(day(2020, 1, 1), 1), (day(2020, 1, 1), 2)]);
    assert_eq!(state, WorkerState::Done { fetched: 1 });
    assert_eq!(action, Action::Finish { fetched: 1 });
}

#[test]
fn retries_exhausted_stop_the_worker_early() {
    let chunk = vec![day(2020, 1, 1), day(2020, 1, 2), day(2020, 1, 3)];
    let (attempts, warnings, state, action) = run(&chunk, 2, |_, _| false);
    assert_eq!(attempts, vec![(day(2020, 1, 1), 1), (day(2020, 1, 1), 2)]);
    assert_eq!(warnings, vec![(day(2020, 1, 1), 1)]);
    assert_eq!(state, WorkerState::Failed { position: 0, attempts: 2 });
    assert_eq!(
        action,
        Action::Abort(RetriesExhausted {
            date: day(2020, 1, 1),
            attempts: 2,
            cause: Cause::Fetch(String::from("no route")),
        })
    );
}

#[test]
fn failure_in_the_middle_keeps_the_earlier_days() {
    let chunk = vec![day(2020, 1, 1), day(2020, 1, 2), day(2020, 1, 3)];
    let (attempts, _, state, _) = run(&chunk, 2, |date, _| date.day != 2);
    assert_eq!(attempts, vec![(day(2020, 1, 1), 1), (day(2020, 1, 2), 1), (day(2020, 1, 2), 2)]);
    assert_eq!(state, WorkerState::Failed { position: 1, attempts: 2 });
}

#[test]
fn worker_fetches_its_chunk_in_order() {
    let chunk = vec![day(2020, 1, 1), day(2020, 1, 3), day(2020, 1, 5)];
    let (attempts, warnings, state, action) = run(&chunk, 1, |_, _| true);
    assert_eq!(attempts, vec![(day(2020, 1, 1), 1), (day(2020, 1, 3), 1), (day(2020, 1, 5), 1)]);
    assert_eq!(warnings, Vec::new());
    assert_eq!(state, WorkerState::Done { fetched: 3 });
    assert_eq!(action, Action::Finish { fetched: 3 });
}

#[test]
fn each_day_starts_again_at_the_first_attempt() {
    let chunk = vec![day(2020, 1, 1), day(2020, 1, 2)];
    let (attempts, _, state, _) = run(&chunk, 3, |_, attempt| attempt == 2);
    assert_eq!(
        attempts,
        vec![(day(2020, 1, 1), 1), (day(2020, 1, 1), 2), (day(2020, 1, 2), 1), (day(2020, 1, 2), 2)]
    );
    assert_eq!(state, WorkerState::Done { fetched: 2 });
}

#[test]
fn single_attempt_fails_for_good_at_once() {
    let chunk = vec![day(2020, 1, 1), day(2020, 1, 2)];
    let state = WorkerState::Attempting { position: 0, attempt: 1 };
    let outcome = FetchOutcome::Failure(Cause::Decode(String::from("not an image")));
    let (state, action) = step(state, outcome, &chunk, 1);
    assert_eq!(state, WorkerState::Failed { position: 0, attempts: 1 });
    assert_eq!(
        action,
        Action::Abort(RetriesExhausted {
            date: day(2020, 1, 1),
            attempts: 1,
            cause: Cause::Decode(String::from("not an image")),
        })
    );
}

#[test]
fn retry_carries_the_cause_and_both_attempt_numbers() {
    let chunk = vec![day(2020, 1, 1)];
    let state = WorkerState::Attempting { position: 0, attempt: 4 };
    let outcome = FetchOutcome::Failure(Cause::Resolve(String::from("marker absent")));
    let (state, action) = step(state, outcome, &chunk, 10);
    assert_eq!(state, WorkerState::Attempting { position: 0, attempt: 5 });
    assert_eq!(
        action,
        Action::Retry {
            date: day(2020, 1, 1),
            failed_attempt: 4,
            cause: Cause::Resolve(String::from("marker absent")),
            attempt: 5,
        }
    );
}

#[test]
fn ended_worker_stays_as_it_is() {
    let chunk = vec![day(2020, 1, 1)];
    let done = WorkerState::Done { fetched: 1 };
    assert_eq!(step(done, FetchOutcome::Success, &chunk, 3), (done, Action::Rest));
    assert_eq!(step(done, failure("late"), &chunk, 3), (done, Action::Rest));
    let failed = WorkerState::Failed { position: 0, attempts: 3 };
    assert_eq!(step(failed, FetchOutcome::Success, &chunk, 3), (failed, Action::Rest));
}

#[test]
fn failure_message_names_day_attempts_and_cause() {
    let error = RetriesExhausted {
        date: day(2020, 1, 5),
        attempts: 10,
        cause: Cause::Write(String::from("Saving image file: disk full")),
    };
    assert_eq!(error.message(), "2020-01-05 Failed after 10 attempts: Saving image file: disk full");
    assert_eq!(Cause::Resolve(String::from("a")).message(), "a");
    assert_eq!(Cause::Fetch(String::from("b")).message(), "b");
    assert_eq!(Cause::Decode(String::from("c")).message(), "c");
    assert_eq!(Cause::Write(String::from("d")).message(), "d");
}

fn exhausted(d: u32) -> RetriesExhausted {
    RetriesExhausted { date: day(2020, 1, d), attempts: 2, cause: Cause::Fetch(String::from("down")) }
}

#[test]
fn run_of_successes_reports_the_total() {
    assert_eq!(aggregate(vec![Ok(2), Ok(1)]), Ok(3));
    assert_eq!(aggregate(vec![Ok(0)]), Ok(0));
    assert_eq!(aggregate(Vec::new()), Ok(0));
    assert_eq!(aggregate(vec![Ok(5), Ok(5), Ok(5), Ok(2)]), Ok(17));
}

#[test]
fn run_with_a_failure_reports_the_first_failure() {
    assert_eq!(aggregate(vec![Ok(2), Err(exhausted(3)), Ok(2)]), Err(exhausted(3)));
    assert_eq!(aggregate(vec![Err(exhausted(1)), Err(exhausted(3))]), Err(exhausted(1)));
    assert_eq!(aggregate(vec![Ok(2), Ok(2), Err(exhausted(5))]), Err(exhausted(5)));
    assert_eq!(aggregate(vec![Ok(usize::MAX), Err(exhausted(5))]), Err(exhausted(5)));
}

#[test]
fn outcome_of_a_run_as_the_user_sees_it() {
    assert_eq!(run_outcome(vec![Ok(2), Ok(1)]), Ok(3));
    assert_eq!(run_outcome(Vec::new()), Ok(0));
    assert_eq!(
        run_outcome(vec![Ok(2), Err(exhausted(3)), Err(exhausted(4))]),
        Err(RunError::Exhausted(exhausted(3)))
    );
}

#[test]
fn settings_without_attempts_are_refused() {
    let mut args = Args::new();
    assert_eq!(check_settings(&args), Ok(()));
    args.attempts = 0;
    assert_eq!(check_settings(&args), Err(RunError::NoAttempts));
}

#[test]
fn run_errors_have_their_messages() {
    assert_eq!(RunError::NoAttempts.message(), "No attempts were allowed :(");
    assert_eq!(
        RunError::Directory(String::from("Failed to read directory at `/x/` - NotFound")).message(),
        "Failed to read directory at `/x/` - NotFound"
    );
    assert_eq!(
        RunError::Exhausted(exhausted(3)).message(),
        "2020-01-03 Failed after 2 attempts: down"
    );
}
