use everygarf::date::{all_dates_at, first, is_sunday, last_at};
use everygarf::{get_all_dates, get_dates_between, DateKey, Timestamp};

fn day(year: i32, month: u32, day: u32) -> DateKey {
    DateKey::new(year, month, day).unwrap()
}

fn at(date: DateKey, second: u32, nano: u32) -> Timestamp {
    Timestamp { date, second, nano }
}

#[test]
fn new_accepts_days_of_the_calendar() {
    assert_eq!(DateKey::new(2020, 1, 31), Some(DateKey { year: 2020, month: 1, day: 31 }));
    assert_eq!(DateKey::new(2020, 2, 29), Some(DateKey { year: 2020, month: 2, day: 29 }));
    assert_eq!(DateKey::new(2000, 2, 29), Some(DateKey { year: 2000, month: 2, day: 29 }));
    assert_eq!(DateKey::new(-4, 2, 29), Some(DateKey { year: -4, month: 2, day: 29 }));
    assert_eq!(DateKey::new(262142, 12, 31), Some(DateKey { year: 262142, month: 12, day: 31 }));
    assert_eq!(DateKey::new(-262143, 1, 1), Some(DateKey { year: -262143, month: 1, day: 1 }));
}

#[test]
fn new_rejects_what_is_no_day() {
    assert_eq!(DateKey::new(2021, 2, 29), None);
    assert_eq!(DateKey::new(1900, 2, 29), None);
    assert_eq!(DateKey::new(2020, 13, 1), None);
    assert_eq!(DateKey::new(2020, 0, 1), None);
    assert_eq!(DateKey::new(2020, 1, 0), None);
    assert_eq!(DateKey::new(2020, 4, 31), None);
    assert_eq!(DateKey::new(2020, 1, 32), None);
    assert_eq!(DateKey::new(262143, 1, 1), None);
    assert_eq!(DateKey::new(-262144, 12, 31), None);
}

#[test]
fn order_goes_by_year_then_month_then_day() {
    assert!(day(2019, 12, 31).before(&day(2020, 1, 1)));
    assert!(day(2020, 1, 31).before(&day(2020, 2, 1)));
    assert!(day(2020, 2, 1).before(&day(2020, 2, 2)));
    assert!(!day(2020, 2, 2).before(&day(2020, 2, 2)));
    assert!(!day(2020, 2, 3).before(&day(2020, 2, 2)));
    assert!(day(2020, 2, 2).at_or_before(&day(2020, 2, 2)));
    assert!(!day(2021, 1, 1).at_or_before(&day(2020, 12, 31)));
    assert!(day(2020, 1, 1) < day(2020, 1, 2));
}

#[test]
fn range_crosses_the_end_of_february_in_a_leap_year() {
    let days = get_dates_between(day(2020, 2, 27), day(2020, 3, 2));
    assert_eq!(
        days,
        vec![day(2020, 2, 27), day(2020, 2, 28), day(2020, 2, 29), day(2020, 3, 1), day(2020, 3, 2)]
    );
}

#[test]
fn range_crosses_the_end_of_february_in_a_common_year() {
    let days = get_dates_between(day(2021, 2, 27), day(2021, 3, 1));
    assert_eq!(days, vec![day(2021, 2, 27), day(2021, 2, 28), day(2021, 3, 1)]);
}

#[test]
fn range_crosses_the_end_of_a_year() {
    let days = get_dates_between(day(2019, 12, 30), day(2020, 1, 2));
    assert_eq!(days, vec![day(2019, 12, 30), day(2019, 12, 31), day(2020, 1, 1), day(2020, 1, 2)]);
}

#[test]
fn range_of_one_day_and_of_none() {
    assert_eq!(get_dates_between(day(2020, 5, 5), day(2020, 5, 5)), vec![day(2020, 5, 5)]);
    assert_eq!(get_dates_between(day(2020, 5, 6), day(2020, 5, 5)), Vec::<DateKey>::new());
}

#[test]
fn range_ends_at_the_last_day_there_is() {
    let days = get_dates_between(day(262142, 12, 30), day(262142, 12, 31));
    assert_eq!(days, vec![day(262142, 12, 30), day(262142, 12, 31)]);
}

#[test]
fn range_is_ascending_and_has_every_day_once() {
    let days = get_dates_between(day(1978, 6, 19), day(2020, 1, 1));
    assert_eq!(days.len(), 15172);
    assert_eq!(days[0], day(1978, 6, 19));
    assert_eq!(days[days.len() - 1], day(2020, 1, 1));
    for i in 1..days.len() {
        assert!(days[i - 1].before(&days[i]));
    }
}

#[test]
fn first_artifact_is_of_june_1978() {
    assert_eq!(first(), day(1978, 6, 19));
}

#[test]
fn cutoff_is_today_after_the_hour_of_publication() {
    assert_eq!(last_at(at(day(2020, 1, 5), 32401, 0)), Some(day(2020, 1, 5)));
    assert_eq!(last_at(at(day(2020, 1, 5), 32400, 1)), Some(day(2020, 1, 5)));
    assert_eq!(last_at(at(day(2020, 1, 5), 86399, 999_999_999)), Some(day(2020, 1, 5)));
}

#[test]
fn cutoff_is_yesterday_until_the_hour_of_publication() {
    assert_eq!(last_at(at(day(2020, 1, 5), 32400, 0)), Some(day(2020, 1, 4)));
    assert_eq!(last_at(at(day(2020, 1, 5), 0, 0)), Some(day(2020, 1, 4)));
    assert_eq!(last_at(at(day(2020, 3, 1), 100, 0)), Some(day(2020, 2, 29)));
    assert_eq!(last_at(at(day(2021, 3, 1), 100, 0)), Some(day(2021, 2, 28)));
    assert_eq!(last_at(at(day(2020, 1, 1), 100, 0)), Some(day(2019, 12, 31)));
    assert_eq!(last_at(at(day(2020, 5, 1), 100, 0)), Some(day(2020, 4, 30)));
}

#[test]
fn cutoff_before_the_first_day_there_is() {
    assert_eq!(last_at(at(day(-262143, 1, 1), 0, 0)), None);
    assert_eq!(last_at(at(day(-262143, 1, 1), 40000, 0)), Some(day(-262143, 1, 1)));
}

#[test]
fn archive_at_a_moment_runs_from_the_first_artifact_to_the_cutoff() {
    let days = all_dates_at(at(day(1978, 6, 22), 40000, 0));
    assert_eq!(days, vec![day(1978, 6, 19), day(1978, 6, 20), day(1978, 6, 21), day(1978, 6, 22)]);
    let days = all_dates_at(at(day(1978, 6, 22), 10, 0));
    assert_eq!(days, vec![day(1978, 6, 19), day(1978, 6, 20), day(1978, 6, 21)]);
}

#[test]
fn archive_is_empty_before_the_first_artifact() {
    assert_eq!(all_dates_at(at(day(1978, 6, 19), 10, 0)), Vec::<DateKey>::new());
    assert_eq!(all_dates_at(at(day(1970, 1, 1), 40000, 0)), Vec::<DateKey>::new());
    assert_eq!(all_dates_at(at(day(-262143, 1, 1), 0, 0)), Vec::<DateKey>::new());
    assert_eq!(all_dates_at(at(day(1978, 6, 19), 40000, 0)), vec![day(1978, 6, 19)]);
}

#[test]
fn archive_of_today_starts_at_the_first_artifact() {
    let days = get_all_dates();
    assert!(days.len() > 15172);
    assert_eq!(days[0], day(1978, 6, 19));
    assert_eq!(days[1], day(1978, 6, 20));
    let last = days[days.len() - 1];
    assert_eq!(DateKey::new(last.year, last.month, last.day), Some(last));
}

#[test]
fn sundays_are_told_from_other_days() {
    assert!(is_sunday(day(2024, 1, 7)));
    assert!(is_sunday(day(2020, 1, 5)));
    assert!(!is_sunday(day(1978, 6, 19)));
    assert!(!is_sunday(day(2000, 2, 29)));
    assert!(!is_sunday(day(2024, 1, 6)));
    assert!(!is_sunday(day(2024, 1, 8)));
}
