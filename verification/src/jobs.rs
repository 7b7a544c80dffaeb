//! The days still to fetch, and how they are shared among the workers.

use crate::date::{ascending, dates_between, lemma_dates_between, DateKey};
use crate::filename::{
    dates_from_filenames, dates_in_names, has_file, lemma_dates_in_names_members, lemma_file_name_read_back,
};
use crate::filename::date_in_name;
use crate::text::file_name_text;
use vstd::prelude::*;

verus! {

/// The days of `all` that `have` lacks, in the order of `all`.
pub open spec fn missing(all: Seq<DateKey>, have: Seq<DateKey>) -> Seq<DateKey> {
    all.filter(|day: DateKey| !have.contains(day))
}

/// How the days to fetch grow with the wanted days: the last wanted day is
/// added where it is not there yet.
proof fn lemma_missing_last(all: Seq<DateKey>, have: Seq<DateKey>)
    ensures
        all.len() == 0 ==> missing(all, have) == Seq::<DateKey>::empty(),
        all.len() > 0 ==> missing(all, have) == if have.contains(all.last()) {
            missing(all.drop_last(), have)
        } else {
            missing(all.drop_last(), have).push(all.last())
        },
{
    reveal(Seq::filter);
    if all.len() == 0 {
        assert(missing(all, have) =~= Seq::<DateKey>::empty());
    }
}

/// The smaller of two numbers.
pub open spec fn min_of(a: int, b: int) -> int {
    if a <= b {
        a
    } else {
        b
    }
}

/// The number of workers for `jobs` days on a machine of `cpus` processors:
/// no more than either, and no more than the cap where one is set.
pub open spec fn worker_budget(cpus: int, jobs: int, cap: Option<usize>) -> int {
    match cap {
        Some(limit) => min_of(min_of(cpus, jobs), limit as int),
        None => min_of(cpus, jobs),
    }
}

/// The length of a full chunk: `jobs` divided by `workers`, rounded up.
pub open spec fn chunk_size(jobs: int, workers: int) -> int
    recommends
        workers > 0,
{
    if jobs % workers == 0 {
        jobs / workers
    } else {
        jobs / workers + 1
    }
}

/// The number of chunks of length `size` that `jobs` days fill, the last
/// perhaps in part.
pub open spec fn chunk_count(jobs: int, size: int) -> int {
    if size <= 0 {
        0
    } else {
        chunk_size(jobs, size)
    }
}

/// The `k`-th run of `size` days, cut off at the end of `jobs`.
pub open spec fn chunk_of(jobs: Seq<DateKey>, size: int, k: int) -> Seq<DateKey> {
    jobs.subrange(k * size, min_of((k + 1) * size, jobs.len() as int))
}

/// `chunks` is `jobs` cut into consecutive runs of `size` days.
pub open spec fn is_chunking(chunks: Seq<Vec<DateKey>>, jobs: Seq<DateKey>, size: int) -> bool {
    &&& chunks.len() == chunk_count(jobs.len() as int, size)
    &&& forall|k: int| 0 <= k < chunks.len() ==> (#[trigger] chunks[k])@ == chunk_of(jobs, size, k)
}

/// Whether `days` holds `day`.
pub fn contains_date(days: &Vec<DateKey>, day: DateKey) -> (r: bool)
    ensures
        r == days@.contains(day),
{
    let mut i: usize = 0;
    while i < days.len()
        invariant
            i <= days.len(),
            forall|j: int| 0 <= j < i ==> days@[j] != day,
        decreases days.len() - i,
    {
        if days[i] == day {
            return true;
        }
        i = i + 1;
    }
    false
}

/// The days of `all` that are not among `existing`, in the order of `all`.
pub fn missing_dates(all: &Vec<DateKey>, existing: &Vec<DateKey>) -> (r: Vec<DateKey>)
    ensures
        r@ == missing(all@, existing@),
{
    let mut out: Vec<DateKey> = Vec::new();
    let mut i: usize = 0;
    proof {
        lemma_missing_last(all@.take(0), existing@);
    }
    while i < all.len()
        invariant
            i <= all.len(),
            out@ == missing(all@.take(i as int), existing@),
        decreases all.len() - i,
    {
        proof {
            assert(all@.take(i + 1).drop_last() =~= all@.take(i as int));
            lemma_missing_last(all@.take(i + 1), existing@);
        }
        if !contains_date(existing, all[i]) {
            out.push(all[i]);
        }
        i = i + 1;
    }
    proof {
        assert(all@.take(i as int) =~= all@);
    }
    out
}

/// Calls `num_cpus::get`. Trusted: the crate documents that it always
/// returns at least 1; the number itself depends on the machine.
#[verifier::external_body]
fn available_cpus() -> (r: usize)
    ensures
        r >= 1,
{
    num_cpus::get()
}

/// The number of workers for `jobs` days on a machine of `cpus` processors.
pub fn worker_count(cpus: usize, jobs: usize, cap: Option<usize>) -> (r: usize)
    ensures
        r == worker_budget(cpus as int, jobs as int, cap),
{
    let base: usize = if cpus <= jobs {
        cpus
    } else {
        jobs
    };
    match cap {
        Some(limit) => if base <= limit {
            base
        } else {
            limit
        },
        None => base,
    }
}

/// The number of workers for `jobs` days on this machine.
pub fn worker_count_here(jobs: usize, cap: Option<usize>) -> (r: usize)
    ensures
        exists|cpus: int| cpus >= 1 && r == #[trigger] worker_budget(cpus, jobs as int, cap),
{
    let cpus = available_cpus();
    let r = worker_count(cpus, jobs, cap);
    assert(r == worker_budget(cpus as int, jobs as int, cap));
    r
}

/// The length of a full chunk when `jobs` days go to `workers` workers.
pub fn chunk_length(jobs: usize, workers: usize) -> (r: usize)
    requires
        workers >= 1,
    ensures
        r == chunk_size(jobs as int, workers as int),
{
    proof {
        lemma_chunk_size_positive(jobs as int, workers as int);
    }
    if jobs % workers == 0 {
        jobs / workers
    } else {
        jobs / workers + 1
    }
}

/// Cuts `jobs` into consecutive chunks, one for each worker, each of the
/// length that `chunk_size` gives but for the last, which holds what is left.
pub fn partition(jobs: &Vec<DateKey>, workers: usize) -> (r: Vec<Vec<DateKey>>)
    requires
        workers >= 1,
    ensures
        is_chunking(r@, jobs@, chunk_size(jobs@.len() as int, workers as int)),
{
    let total: usize = jobs.len();
    let size: usize = chunk_length(total, workers);
    let mut chunks: Vec<Vec<DateKey>> = Vec::new();
    let mut lo: usize = 0;
    proof {
        lemma_chunk_size_positive(total as int, workers as int);
        lemma_chunk_count_step(total as int, size as int, 0);
    }
    while lo < total
        invariant
            total == jobs@.len(),
            total > 0 ==> size >= 1,
            lo <= total,
            lo < total ==> lo == chunks@.len() * size,
            lo < total ==> chunks@.len() < chunk_count(total as int, size as int),
            lo == total ==> chunks@.len() == chunk_count(total as int, size as int),
            forall|k: int| 0 <= k < chunks@.len() ==> (#[trigger] chunks@[k])@ == chunk_of(jobs@, size as int, k),
        decreases total - lo,
    {
        let ghost k = chunks@.len() as int;
        let hi: usize = if total - lo <= size {
            total
        } else {
            lo + size
        };
        proof {
            assert((k + 1) * size == k * size + size) by (nonlinear_arith);
            lemma_chunk_count_step(total as int, size as int, k + 1);
        }
        let mut chunk: Vec<DateKey> = Vec::new();
        let mut i: usize = lo;
        while i < hi
            invariant
                lo <= i <= hi <= total,
                total == jobs@.len(),
                chunk@ == jobs@.subrange(lo as int, i as int),
            decreases hi - i,
        {
            chunk.push(jobs[i]);
            proof {
                assert(jobs@.subrange(lo as int, i as int).push(jobs@[i as int]) =~= jobs@.subrange(
                    lo as int,
                    i + 1,
                ));
            }
            i = i + 1;
        }
        chunks.push(chunk);
        lo = hi;
    }
    chunks
}

/// The days of `all` for which `names` holds no file.
pub open spec fn jobs_for(all: Seq<DateKey>, names: Seq<String>) -> Seq<DateKey> {
    missing(all, dates_in_names(names))
}

/// `chunks` is the work of a run with the wanted days `all`, the files
/// `names` already there, `cpus` processors and the cap `cap`: nothing where
/// no day is missing, else the missing days cut into chunks for the workers.
pub open spec fn is_plan(
    chunks: Seq<Vec<DateKey>>,
    all: Seq<DateKey>,
    names: Seq<String>,
    cpus: int,
    cap: Option<usize>,
) -> bool {
    let jobs = jobs_for(all, names);
    if jobs.len() == 0 {
        chunks.len() == 0
    } else {
        is_chunking(
            chunks,
            jobs,
            chunk_size(jobs.len() as int, worker_budget(cpus, jobs.len() as int, cap)),
        )
    }
}

/// `chunks` is the work of such a run on a machine with one processor at least.
pub open spec fn is_plan_on_some_machine(
    chunks: Seq<Vec<DateKey>>,
    all: Seq<DateKey>,
    names: Seq<String>,
    cap: Option<usize>,
) -> bool {
    exists|cpus: int| cpus >= 1 && #[trigger] is_plan(chunks, all, names, cpus, cap)
}

/// Plans a run: finds the days of `all` for which `names` holds no file and
/// cuts them into chunks, one for each worker that `cpus` processors and
/// the cap allow.
pub fn plan_chunks(all: &Vec<DateKey>, names: &Vec<String>, cpus: usize, cap: Option<usize>) -> (r: Vec<
    Vec<DateKey>,
>)
    requires
        jobs_for(all@, names@).len() > 0 ==> cpus >= 1 && cap != Some(0usize),
    ensures
        is_plan(r@, all@, names@, cpus as int, cap),
{
    let existing = dates_from_filenames(names);
    let jobs = missing_dates(all, &existing);
    if jobs.len() == 0 {
        return Vec::new();
    }
    let workers = worker_count(cpus, jobs.len(), cap);
    partition(&jobs, workers)
}

/// Plans a run on this machine. `None` where days are missing and the cap
/// allows no worker at all.
pub fn plan_chunks_here(all: &Vec<DateKey>, names: &Vec<String>, cap: Option<usize>) -> (r: Option<
    Vec<Vec<DateKey>>,
>)
    ensures
        r is None <==> jobs_for(all@, names@).len() > 0 && cap == Some(0usize),
        r is Some ==> is_plan_on_some_machine(r->0@, all@, names@, cap),
{
    let existing = dates_from_filenames(names);
    let jobs = missing_dates(all, &existing);
    if jobs.len() == 0 {
        let chunks: Vec<Vec<DateKey>> = Vec::new();
        assert(is_plan(chunks@, all@, names@, 1, cap));
        return Some(chunks);
    }
    let workers = worker_count_at_least_one(jobs.len(), cap);
    match workers {
        Some((cpus, count)) => {
            let chunks = partition(&jobs, count);
            assert(is_plan(chunks@, all@, names@, cpus as int, cap));
            Some(chunks)
        },
        None => None,
    }
}

/// The processors of this machine and the number of workers for `jobs`
/// days on it. `None` where the cap allows no worker.
fn worker_count_at_least_one(jobs: usize, cap: Option<usize>) -> (r: Option<(usize, usize)>)
    requires
        jobs >= 1,
    ensures
        match r {
            Some(pair) => cap != Some(0usize) && pair.0 >= 1 && pair.1 >= 1 && pair.1
                == worker_budget(pair.0 as int, jobs as int, cap),
            None => cap == Some(0usize),
        },
{
    let cpus = available_cpus();
    let count = worker_count(cpus, jobs, cap);
    if count == 0 {
        None
    } else {
        Some((cpus, count))
    }
}

/// With one worker at least and one day at least, a chunk holds one day at least.
pub proof fn lemma_chunk_size_positive(jobs: int, workers: int)
    requires
        workers >= 1,
        jobs >= 0,
    ensures
        jobs >= 1 ==> chunk_size(jobs, workers) >= 1,
        jobs == 0 ==> chunk_size(jobs, workers) == 0,
        chunk_size(jobs, workers) * workers >= jobs,
        chunk_size(jobs, workers) <= jobs,
{
    let q = jobs / workers;
    let r = jobs % workers;
    assert(jobs == workers * q + r && 0 <= r < workers) by {
        vstd::arithmetic::div_mod::lemma_fundamental_div_mod(jobs, workers);
    }
    assert(q >= 0 && (jobs >= 1 && r == 0 ==> q >= 1) && q * workers >= q && (q + 1) * workers
        == q * workers + workers && workers * q == q * workers && (r != 0 ==> q + 1 <= jobs)) by (nonlinear_arith)
        requires
            jobs == workers * q + r,
            0 <= r < workers,
            workers >= 1,
            jobs >= 0,
    ;
}

/// `k` chunks of `size` days reach the end of `jobs` days exactly when `k`
/// is the number of chunks.
proof fn lemma_chunk_count_step(jobs: int, size: int, k: int)
    requires
        jobs >= 0,
        size >= 0,
        size >= 1 || jobs == 0,
        k >= 0,
    ensures
        k * size < jobs ==> k < chunk_count(jobs, size),
        k * size >= jobs ==> k >= chunk_count(jobs, size),
{
    if size >= 1 {
        let q = jobs / size;
        let r = jobs % size;
        vstd::arithmetic::div_mod::lemma_fundamental_div_mod(jobs, size);
        assert((k * size < jobs ==> k < chunk_count(jobs, size)) && (k * size >= jobs ==> k
            >= chunk_count(jobs, size))) by (nonlinear_arith)
            requires
                jobs == size * q + r,
                0 <= r < size,
                size >= 1,
                k >= 0,
                chunk_count(jobs, size) == (if r == 0 {
                    q
                } else {
                    q + 1
                }),
        ;
    } else {
        assert(k * size == 0) by (nonlinear_arith)
            requires
                size == 0,
        ;
    }
}

/// The chunks written one after the other.
pub open spec fn joined(chunks: Seq<Vec<DateKey>>) -> Seq<DateKey> {
    chunks.map_values(|chunk: Vec<DateKey>| chunk@).flatten()
}

/// How the joined chunks grow with the chunks: the last chunk is added at the end.
pub proof fn lemma_joined_last(chunks: Seq<Vec<DateKey>>)
    ensures
        chunks.len() == 0 ==> joined(chunks) == Seq::<DateKey>::empty(),
        chunks.len() > 0 ==> joined(chunks) == joined(chunks.drop_last()) + chunks.last()@,
{
    let views = chunks.map_values(|chunk: Vec<DateKey>| chunk@);
    views.lemma_flatten_and_flatten_alt_are_equivalent();
    if chunks.len() > 0 {
        let front = chunks.drop_last().map_values(|chunk: Vec<DateKey>| chunk@);
        front.lemma_flatten_and_flatten_alt_are_equivalent();
        assert(views.drop_last() =~= front);
        assert(views.last() == chunks.last()@);
    }
}

/// The days to fetch are exactly the wanted days that are not yet there.
pub proof fn lemma_missing_members(all: Seq<DateKey>, have: Seq<DateKey>)
    ensures
        forall|d: DateKey| #[trigger]
            missing(all, have).contains(d) <==> all.contains(d) && !have.contains(d),
        missing(all, have).len() <= all.len(),
    decreases all.len(),
{
    lemma_missing_last(all, have);
    let out = missing(all, have);
    if all.len() > 0 {
        let front = all.drop_last();
        let rest = missing(front, have);
        lemma_missing_members(front, have);
        assert forall|d: DateKey| #[trigger] out.contains(d) <==> all.contains(d) && !have.contains(d) by {
            if out.contains(d) {
                let i = choose|i: int| 0 <= i < out.len() && out[i] == d;
                if i < rest.len() {
                    assert(rest[i] == d);
                    assert(rest.contains(d));
                    let j = choose|j: int| 0 <= j < front.len() && front[j] == d;
                    assert(all[j] == d);
                } else {
                    assert(all[all.len() - 1] == d);
                }
            }
            if all.contains(d) && !have.contains(d) {
                let j = choose|j: int| 0 <= j < all.len() && all[j] == d;
                if j < front.len() {
                    assert(front[j] == d);
                    assert(front.contains(d));
                    assert(rest.contains(d));
                    let i = choose|i: int| 0 <= i < rest.len() && rest[i] == d;
                    assert(out[i] == d);
                } else {
                    assert(out[out.len() - 1] == d);
                }
            }
        }
    }
}

/// Where the wanted days are in ascending order, so are the days to fetch.
pub proof fn lemma_missing_ascending(all: Seq<DateKey>, have: Seq<DateKey>)
    requires
        ascending(all),
    ensures
        ascending(missing(all, have)),
    decreases all.len(),
{
    lemma_missing_last(all, have);
    let out = missing(all, have);
    if all.len() > 0 {
        let front = all.drop_last();
        let rest = missing(front, have);
        assert(ascending(front)) by {
            assert forall|i: int, j: int| 0 <= i < j < front.len() implies (#[trigger] front[i]).is_before(
                #[trigger] front[j],
            ) by {
                assert(all[i].is_before(all[j]));
            }
        }
        lemma_missing_ascending(front, have);
        lemma_missing_members(front, have);
        assert forall|i: int, j: int| 0 <= i < j < out.len() implies (#[trigger] out[i]).is_before(
            #[trigger] out[j],
        ) by {
            if j < rest.len() {
                assert(rest[i].is_before(rest[j]));
            } else {
                assert(rest[i] == out[i]);
                assert(rest.contains(out[i]));
                let p = choose|p: int| 0 <= p < front.len() && front[p] == out[i];
                assert(all[p].is_before(all[all.len() - 1]));
            }
        }
    }
}

/// Days in ascending order hold no day twice.
pub proof fn lemma_ascending_no_duplicates(days: Seq<DateKey>)
    requires
        ascending(days),
    ensures
        days.no_duplicates(),
{
    assert forall|i: int, j: int| 0 <= i < days.len() && 0 <= j < days.len() && i != j implies days[i]
        != days[j] by {
        if i < j {
            assert(days[i].is_before(days[j]));
        } else {
            assert(days[j].is_before(days[i]));
        }
    }
}

/// Where no wanted day occurs twice, no day to fetch occurs twice.
pub proof fn lemma_missing_no_duplicates(all: Seq<DateKey>, have: Seq<DateKey>)
    requires
        all.no_duplicates(),
    ensures
        missing(all, have).no_duplicates(),
    decreases all.len(),
{
    lemma_missing_last(all, have);
    let out = missing(all, have);
    if all.len() > 0 {
        let front = all.drop_last();
        let rest = missing(front, have);
        lemma_missing_no_duplicates(front, have);
        lemma_missing_members(front, have);
        assert forall|i: int, j: int| 0 <= i < out.len() && 0 <= j < out.len() && i != j implies out[i]
            != out[j] by {
            let lo = if i < j {
                i
            } else {
                j
            };
            let hi = if i < j {
                j
            } else {
                i
            };
            if hi < rest.len() {
                assert(rest[lo] != rest[hi]);
            } else {
                assert(rest[lo] == out[lo]);
                assert(rest.contains(out[lo]));
                let p = choose|p: int| 0 <= p < front.len() && front[p] == out[lo];
                assert(all[p] != all[all.len() - 1]);
            }
        }
    }
}

/// Once every wanted day is there, no day is left to fetch.
pub proof fn lemma_nothing_missing(all: Seq<DateKey>, have: Seq<DateKey>)
    requires
        forall|i: int| 0 <= i < all.len() ==> have.contains(#[trigger] all[i]),
    ensures
        missing(all, have) == Seq::<DateKey>::empty(),
{
    let out = missing(all, have);
    lemma_missing_members(all, have);
    if out.len() > 0 {
        assert(out.contains(out[0]));
        let j = choose|j: int| 0 <= j < all.len() && all[j] == out[0];
        assert(have.contains(all[j]));
    }
    assert(out =~= Seq::<DateKey>::empty());
}

/// The first `k` chunks, written one after the other, are the first days of
/// `jobs`: `k` times `size` of them, or all where there are fewer.
proof fn lemma_joined_prefix(chunks: Seq<Vec<DateKey>>, jobs: Seq<DateKey>, size: int, k: int)
    requires
        is_chunking(chunks, jobs, size),
        size >= 1 || jobs.len() == 0,
        size >= 0,
        0 <= k <= chunks.len(),
    ensures
        joined(chunks.take(k)) =~= jobs.subrange(0, min_of(k * size, jobs.len() as int)),
    decreases k,
{
    lemma_joined_last(chunks.take(k));
    if k == 0 {
        assert(0 * size == 0) by (nonlinear_arith);
    } else {
        lemma_joined_prefix(chunks, jobs, size, k - 1);
        lemma_chunk_count_step(jobs.len() as int, size, k - 1);
        assert(chunks.take(k).drop_last() =~= chunks.take(k - 1));
        assert(chunks.take(k).last() == chunks[k - 1]);
        assert((k - 1) * size >= 0 && (k - 1 + 1) * size == (k - 1) * size + size) by (nonlinear_arith)
            requires
                k >= 1,
                size >= 0,
        ;
        assert(chunks[k - 1]@ == chunk_of(jobs, size, k - 1));
    }
}

/// What holds of the chunks that `jobs` is cut into for `workers` workers:
/// there are no more chunks than workers; each holds one day at least and no
/// more than `jobs` divided by `workers`, rounded up; one after the other
/// they are `jobs` again; and where `jobs` holds no day twice, no two chunks
/// share a day.
pub proof fn lemma_chunking(chunks: Seq<Vec<DateKey>>, jobs: Seq<DateKey>, workers: int)
    requires
        workers >= 1,
        is_chunking(chunks, jobs, chunk_size(jobs.len() as int, workers)),
    ensures
        chunks.len() <= workers,
        chunks.len() <= jobs.len(),
        forall|k: int|
            0 <= k < chunks.len() ==> 1 <= (#[trigger] chunks[k])@.len() <= chunk_size(
                jobs.len() as int,
                workers,
            ),
        joined(chunks) == jobs,
        jobs.no_duplicates() ==> forall|a: int, b: int, i: int, j: int|
            0 <= a < b < chunks.len() && 0 <= i < chunks[a]@.len() && 0 <= j < chunks[b]@.len()
                ==> #[trigger] chunks[a]@[i] != #[trigger] chunks[b]@[j],
{
    let total = jobs.len() as int;
    let size = chunk_size(total, workers);
    lemma_chunk_size_positive(total, workers);
    lemma_chunk_count_step(total, size, workers);
    lemma_chunk_count_step(total, size, chunks.len() as int);
    lemma_chunk_count_step(total, size, total);
    assert(total * size >= total) by (nonlinear_arith)
        requires
            size >= 1 || total == 0,
            total >= 0,
    ;
    lemma_joined_prefix(chunks, jobs, size, chunks.len() as int);
    assert(chunks.take(chunks.len() as int) =~= chunks);
    assert(joined(chunks) =~= jobs);
    assert forall|k: int| 0 <= k < chunks.len() implies 1 <= (#[trigger] chunks[k])@.len() <= size by {
        lemma_chunk_bounds(jobs, size, k, chunks.len() as int);
    }
    if jobs.no_duplicates() {
        assert forall|a: int, b: int, i: int, j: int|
            0 <= a < b < chunks.len() && 0 <= i < chunks[a]@.len() && 0 <= j < chunks[b]@.len() implies #[trigger] chunks[a]@[i]
            != #[trigger] chunks[b]@[j] by {
            lemma_chunk_bounds(jobs, size, a, chunks.len() as int);
            lemma_chunk_bounds(jobs, size, b, chunks.len() as int);
            assert((a + 1) * size <= b * size) by (nonlinear_arith)
                requires
                    a + 1 <= b,
                    size >= 0,
            ;
            assert(chunks[a]@[i] == jobs[a * size + i]);
            assert(chunks[b]@[j] == jobs[b * size + j]);
        }
    }
}

/// Where the `k`-th chunk begins and ends among the days of `jobs`.
proof fn lemma_chunk_bounds(jobs: Seq<DateKey>, size: int, k: int, count: int)
    requires
        count == chunk_count(jobs.len() as int, size),
        size >= 1 || jobs.len() == 0,
        size >= 0,
        0 <= k < count,
    ensures
        0 <= k * size < jobs.len(),
        (k + 1) * size == k * size + size,
        1 <= chunk_of(jobs, size, k).len() <= size,
        chunk_of(jobs, size, k).len() == min_of((k + 1) * size, jobs.len() as int) - k * size,
{
    lemma_chunk_count_step(jobs.len() as int, size, k);
    assert(k * size >= 0 && (k + 1) * size == k * size + size) by (nonlinear_arith)
        requires
            k >= 0,
            size >= 0,
    ;
}

/// A run that ends in full success leaves nothing for the next run: once
/// every missing day has its file, beside the files that were there, a new
/// listing of the folder shows no day of `all` as missing. The days are
/// those whose year has four digits.
pub proof fn lemma_rerun_finds_nothing(all: Seq<DateKey>, names: Seq<String>, names_after: Seq<String>)
    requires
        forall|i: int| 0 <= i < all.len() ==> (#[trigger] all[i]).wf() && 1000 <= all[i].year <= 9999,
        forall|k: int|
            0 <= k < names.len() ==> exists|m: int|
                0 <= m < names_after.len() && (#[trigger] names_after[m])@ == (#[trigger] names[k])@,
        forall|i: int|
            0 <= i < jobs_for(all, names).len() ==> has_file(names_after, #[trigger] jobs_for(all, names)[i]),
    ensures
        jobs_for(all, names_after) == Seq::<DateKey>::empty(),
{
    let jobs = jobs_for(all, names);
    let before = dates_in_names(names);
    let after = dates_in_names(names_after);
    lemma_missing_members(all, before);
    lemma_dates_in_names_members(names);
    lemma_dates_in_names_members(names_after);
    assert forall|i: int| 0 <= i < all.len() implies after.contains(#[trigger] all[i]) by {
        let d = all[i];
        assert(all.contains(d));
        if before.contains(d) {
            let k = choose|k: int| 0 <= k < names.len() && date_in_name(#[trigger] names[k]@) == Some(d);
            let m = choose|m: int|
                0 <= m < names_after.len() && (#[trigger] names_after[m])@ == names[k]@;
            assert(date_in_name(names_after[m]@) == Some(d));
        } else {
            assert(jobs.contains(d));
            let j = choose|j: int| 0 <= j < jobs.len() && jobs[j] == d;
            assert(has_file(names_after, jobs[j]));
            let m = choose|m: int|
                0 <= m < names_after.len() && (#[trigger] names_after[m])@ == file_name_text(d);
            lemma_file_name_read_back(d);
            assert(date_in_name(names_after[m]@) == Some(d));
        }
    }
    lemma_nothing_missing(all, after);
}

/// The days to fetch of a range of the calendar: each lies in the range and
/// has no file yet, and they stand in ascending order, so none occurs twice.
pub proof fn lemma_job_set(start: DateKey, end: DateKey, names: Seq<String>)
    requires
        end.wf(),
    ensures
        forall|d: DateKey| #[trigger]
            jobs_for(dates_between(start, end), names).contains(d) <==> dates_between(
                start,
                end,
            ).contains(d) && !dates_in_names(names).contains(d),
        ascending(jobs_for(dates_between(start, end), names)),
        jobs_for(dates_between(start, end), names).no_duplicates(),
{
    let range = dates_between(start, end);
    lemma_dates_between(start, end);
    lemma_missing_members(range, dates_in_names(names));
    lemma_missing_ascending(range, dates_in_names(names));
    lemma_ascending_no_duplicates(jobs_for(range, names));
}

} // verus!
