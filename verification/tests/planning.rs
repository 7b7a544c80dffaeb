use everygarf::jobs::{
    chunk_length, contains_date, missing_dates, partition, plan_chunks, plan_chunks_here, worker_count,
    worker_count_here,
};
use everygarf::text::file_name;
use everygarf::{get_dates_between, DateKey};

fn day(year: i32, month: u32, day: u32) -> DateKey {
    DateKey::new(year, month, day).unwrap()
}

fn january(first: u32, last: u32) -> Vec<DateKey> {
    get_dates_between(day(2020, 1, first), day(2020, 1, last))
}

#[test]
fn contains_finds_a_day() {
    let days = january(1, 5);
    assert!(contains_date(&days, day(2020, 1, 1)));
    assert!(contains_date(&days, day(2020, 1, 5)));
    assert!(!contains_date(&days, day(2020, 1, 6)));
    assert!(!contains_date(&Vec::new(), day(2020, 1, 6)));
}

#[test]
fn missing_days_keep_their_order() {
    let all = january(1, 5);
    let existing = vec![day(2020, 1, 4), day(2020, 1, 2)];
    assert_eq!(missing_dates(&all, &existing), vec![day(2020, 1, 1), day(2020, 1, 3), day(2020, 1, 5)]);
}

#[test]
fn missing_days_are_wanted_and_not_there() {
    let all = january(1, 20);
    let existing = vec![day(2020, 1, 7), day(2019, 1, 1), day(2020, 1, 7), day(2020, 1, 20), day(2020, 2, 1)];
    let jobs = missing_dates(&all, &existing);
    assert_eq!(jobs.len(), 18);
    for (i, job) in jobs.iter().enumerate() {
        assert!(all.contains(job));
        assert!(!existing.contains(job));
        assert!(!jobs[i + 1..].contains(job));
    }
    for date in &all {
        assert!(existing.contains(date) || jobs.contains(date));
    }
}

#[test]
fn nothing_is_missing_when_all_is_there() {
    let all = january(1, 5);
    assert_eq!(missing_dates(&all, &all), Vec::<DateKey>::new());
    assert_eq!(missing_dates(&Vec::new(), &all), Vec::<DateKey>::new());
    assert_eq!(missing_dates(&all, &Vec::new()), all);
}

#[test]
fn worker_count_is_the_least_of_its_bounds() {
    assert_eq!(worker_count(8, 3, None), 3);
    assert_eq!(worker_count(2, 3, None), 2);
    assert_eq!(worker_count(8, 100, Some(4)), 4);
    assert_eq!(worker_count(8, 100, Some(16)), 8);
    assert_eq!(worker_count(8, 2, Some(4)), 2);
    assert_eq!(worker_count(8, 100, Some(0)), 0);
    assert_eq!(worker_count(8, 0, None), 0);
}

#[test]
fn worker_count_on_this_machine() {
    assert_eq!(worker_count_here(1, None), 1);
    assert_eq!(worker_count_here(1000, Some(1)), 1);
    assert_eq!(worker_count_here(0, None), 0);
    let count = worker_count_here(1000, None);
    assert!(1 <= count && count <= 1000);
}

#[test]
fn chunk_length_rounds_up() {
    assert_eq!(chunk_length(3, 2), 2);
    assert_eq!(chunk_length(4, 2), 2);
    assert_eq!(chunk_length(5, 4), 2);
    assert_eq!(chunk_length(10, 3), 4);
    assert_eq!(chunk_length(9, 3), 3);
    assert_eq!(chunk_length(1, 1), 1);
    assert_eq!(chunk_length(0, 4), 0);
    assert_eq!(chunk_length(3, 7), 1);
    assert_eq!(chunk_length(usize::MAX, 1), usize::MAX);
    assert_eq!(chunk_length(usize::MAX, 2), usize::MAX / 2 + 1);
}

#[test]
fn partition_of_three_days_for_two_workers() {
    let jobs = vec![day(2020, 1, 1), day(2020, 1, 3), day(2020, 1, 5)];
    assert_eq!(partition(&jobs, 2), vec![vec![day(2020, 1, 1), day(2020, 1, 3)], vec![day(2020, 1, 5)]]);
}

#[test]
fn partition_may_need_fewer_chunks_than_workers() {
    let jobs = january(1, 5);
    let chunks = partition(&jobs, 4);
    assert_eq!(chunks, vec![january(1, 2), january(3, 4), january(5, 5)]);
}

#[test]
fn partition_of_nothing_is_nothing() {
    assert_eq!(partition(&Vec::new(), 3), Vec::<Vec<DateKey>>::new());
}

#[test]
fn partition_for_one_worker_and_for_many() {
    let jobs = january(1, 7);
    assert_eq!(partition(&jobs, 1), vec![january(1, 7)]);
    let chunks = partition(&jobs, 7);
    assert_eq!(chunks.len(), 7);
    let chunks = partition(&jobs, 100);
    assert_eq!(chunks.len(), 7);
    assert_eq!(chunks[6], vec![day(2020, 1, 7)]);
}

#[test]
fn partition_covers_the_jobs_once_in_bounded_chunks() {
    let jobs = january(1, 31);
    for workers in 1..=31usize {
        let chunks = partition(&jobs, workers);
        let size = (31 + workers - 1) / workers;
        assert!(chunks.len() <= workers);
        let mut joined: Vec<DateKey> = Vec::new();
        for chunk in &chunks {
            assert!(1 <= chunk.len() && chunk.len() <= size);
            for date in chunk {
                assert!(!joined.contains(date));
                joined.push(*date);
            }
        }
        assert_eq!(joined, jobs);
    }
}

#[test]
fn plan_of_the_first_days_of_january() {
    let all = january(1, 5);
    let names = vec![String::from("2020-01-02.png"), String::from("2020-01-04.png")];
    let chunks = plan_chunks(&all, &names, 2, None);
    assert_eq!(chunks, vec![vec![day(2020, 1, 1), day(2020, 1, 3)], vec![day(2020, 1, 5)]]);

    let mut names_after = names.clone();
    for chunk in &chunks {
        for date in chunk {
            names_after.push(file_name(*date));
        }
    }
    assert_eq!(plan_chunks(&all, &names_after, 2, None), Vec::<Vec<DateKey>>::new());
}

#[test]
fn plan_passes_over_names_that_are_no_dates() {
    let all = january(1, 3);
    let names = vec![String::from("2020-13-01.png"), String::from("notadate.png"), String::from("2020-01-03.png")];
    assert_eq!(plan_chunks(&all, &names, 8, Some(1)), vec![vec![day(2020, 1, 1), day(2020, 1, 2)]]);
}

#[test]
fn plan_with_nothing_missing_needs_no_worker() {
    let all = january(1, 2);
    let names = vec![String::from("2020-01-01.png"), String::from("2020-01-02.png")];
    assert_eq!(plan_chunks(&all, &names, 0, Some(0)), Vec::<Vec<DateKey>>::new());
    assert_eq!(plan_chunks_here(&all, &names, Some(0)), Some(Vec::new()));
}

#[test]
fn plan_on_this_machine() {
    let all = january(1, 5);
    let names = vec![String::from("2020-01-02.png")];
    assert_eq!(plan_chunks_here(&all, &names, Some(0)), None);
    assert_eq!(
        plan_chunks_here(&all, &names, Some(1)),
        Some(vec![vec![day(2020, 1, 1), day(2020, 1, 3), day(2020, 1, 4), day(2020, 1, 5)]])
    );
    let chunks = plan_chunks_here(&all, &names, None).unwrap();
    let joined: Vec<DateKey> = chunks.concat();
    assert_eq!(joined, vec![day(2020, 1, 1), day(2020, 1, 3), day(2020, 1, 4), day(2020, 1, 5)]);
}
