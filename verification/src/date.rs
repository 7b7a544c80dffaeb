//! Calendar days: the key of one artifact, the order of days, and the range
//! of days that an archive covers.

use chrono::{Datelike, NaiveDate, Timelike, Utc};
use vstd::prelude::*;

verus! {

/// First year that a `chrono::NaiveDate` can hold.
pub const MIN_YEAR: i32 = -262143;

/// Last year that a `chrono::NaiveDate` can hold.
pub const MAX_YEAR: i32 = 262142;

/// Seconds after midnight (UTC) at which the day's artifact counts as published: 09:00:00.
pub const PUBLISH_SECOND: u32 = 32400;

/// Leap years of the proleptic Gregorian calendar.
pub open spec fn is_leap_year(year: int) -> bool {
    year % 4 == 0 && (year % 100 != 0 || year % 400 == 0)
}

/// Number of days of a month; 31 for a month outside 1..=12.
pub open spec fn days_in_month(year: int, month: int) -> int {
    if month == 2 {
        if is_leap_year(year) {
            29
        } else {
            28
        }
    } else if month == 4 || month == 6 || month == 9 || month == 11 {
        30
    } else {
        31
    }
}

/// The days that exist in the calendar and that `chrono::NaiveDate` can hold.
pub open spec fn valid_ymd(year: int, month: int, day: int) -> bool {
    &&& MIN_YEAR <= year <= MAX_YEAR
    &&& 1 <= month <= 12
    &&& 1 <= day <= days_in_month(year, month)
}

/// A calendar day. It names exactly one artifact.
#[derive(Clone, Copy, Debug, PartialEq, Eq, Structural, PartialOrd, Ord, Hash)]
pub struct DateKey {
    pub year: i32,
    pub month: u32,
    pub day: u32,
}

/// A reading of the clock: the day and the time of day, both in UTC.
#[derive(Clone, Copy, Debug, PartialEq, Eq, Structural)]
pub struct Timestamp {
    pub date: DateKey,
    /// Whole seconds since midnight.
    pub second: u32,
    /// Nanoseconds since the last whole second; one billion and more during a leap second.
    pub nano: u32,
}

impl DateKey {
    /// The day exists.
    pub open spec fn wf(self) -> bool {
        valid_ymd(self.year as int, self.month as int, self.day as int)
    }

    /// `self` comes strictly before `other`.
    pub open spec fn is_before(self, other: DateKey) -> bool {
        ||| self.year < other.year
        ||| self.year == other.year && self.month < other.month
        ||| self.year == other.year && self.month == other.month && self.day < other.day
    }

    /// `self` comes before `other` or is the same day.
    pub open spec fn is_at_or_before(self, other: DateKey) -> bool {
        self == other || self.is_before(other)
    }

    /// The day after `self` in the calendar.
    pub open spec fn next(self) -> DateKey {
        if self.day < days_in_month(self.year as int, self.month as int) {
            DateKey { year: self.year, month: self.month, day: (self.day + 1) as u32 }
        } else if self.month < 12 {
            DateKey { year: self.year, month: (self.month + 1) as u32, day: 1 }
        } else {
            DateKey { year: (self.year + 1) as i32, month: 1, day: 1 }
        }
    }

    /// The day before `self` in the calendar.
    pub open spec fn prev(self) -> DateKey {
        if self.day > 1 {
            DateKey { year: self.year, month: self.month, day: (self.day - 1) as u32 }
        } else if self.month > 1 {
            DateKey {
                year: self.year,
                month: (self.month - 1) as u32,
                day: days_in_month(self.year as int, self.month - 1) as u32,
            }
        } else {
            DateKey { year: (self.year - 1) as i32, month: 12, day: 31 }
        }
    }

    /// The day `year`-`month`-`day`, if there is such a day.
    pub fn new(year: i32, month: u32, day: u32) -> (r: Option<DateKey>)
        ensures
            r == if valid_ymd(year as int, month as int, day as int) {
                Some(DateKey { year, month, day })
            } else {
                None::<DateKey>
            },
    {
        if ymd_exists(year, month, day) {
            Some(DateKey { year, month, day })
        } else {
            None
        }
    }

    /// Whether `self` comes strictly before `other`.
    pub fn before(&self, other: &DateKey) -> (r: bool)
        ensures
            r == self.is_before(*other),
    {
        self.year < other.year || (self.year == other.year && (self.month < other.month || (
        self.month == other.month && self.day < other.day)))
    }

    /// Whether `self` comes before `other` or on the same day.
    pub fn at_or_before(&self, other: &DateKey) -> (r: bool)
        ensures
            r == self.is_at_or_before(*other),
    {
        !other.before(self)
    }
}

impl Timestamp {
    /// The day exists and the time of day is one that a clock can show.
    pub open spec fn wf(self) -> bool {
        self.date.wf() && self.second < 86400 && self.nano < 2_000_000_000
    }

    /// The time of day is later than the hour of publication.
    pub open spec fn past_publish(self) -> bool {
        self.second > PUBLISH_SECOND || (self.second == PUBLISH_SECOND && self.nano > 0)
    }

    /// The last day whose artifact is out at this moment: the same day once
    /// the hour of publication has passed, else the day before. `None` where
    /// the day before cannot be represented.
    pub open spec fn cutoff(self) -> Option<DateKey> {
        if self.past_publish() {
            Some(self.date)
        } else if self.date == min_date() {
            None
        } else {
            Some(self.date.prev())
        }
    }
}

/// The first day that can be represented.
pub open spec fn min_date() -> DateKey {
    DateKey { year: MIN_YEAR, month: 1, day: 1 }
}

/// The last day that can be represented.
pub open spec fn max_date() -> DateKey {
    DateKey { year: MAX_YEAR, month: 12, day: 31 }
}

/// Calls `chrono::NaiveDate::from_ymd_opt` and reports whether it made a date.
/// Trusted: chrono makes one exactly for the days of the proleptic Gregorian
/// calendar whose year lies within `MIN_YEAR..=MAX_YEAR`.
#[verifier::external_body]
fn ymd_exists(year: i32, month: u32, day: u32) -> (r: bool)
    ensures
        r == valid_ymd(year as int, month as int, day as int),
{
    NaiveDate::from_ymd_opt(year, month, day).is_some()
}

/// Calls `chrono::NaiveDate::succ_opt`. Trusted: chrono gives the next day of
/// the calendar, and nothing after the last day it can represent.
#[verifier::external_body]
fn day_after(date: DateKey) -> (r: Option<DateKey>)
    requires
        date.wf(),
    ensures
        r == if date == max_date() {
            None::<DateKey>
        } else {
            Some(date.next())
        },
{
    let next = NaiveDate::from_ymd_opt(date.year, date.month, date.day)?.succ_opt()?;
    Some(DateKey { year: next.year(), month: next.month(), day: next.day() })
}

/// Calls `chrono::NaiveDate::pred_opt`. Trusted: chrono gives the previous day
/// of the calendar, and nothing before the first day it can represent.
#[verifier::external_body]
fn day_before(date: DateKey) -> (r: Option<DateKey>)
    requires
        date.wf(),
    ensures
        r == if date == min_date() {
            None::<DateKey>
        } else {
            Some(date.prev())
        },
{
    let prev = NaiveDate::from_ymd_opt(date.year, date.month, date.day)?.pred_opt()?;
    Some(DateKey { year: prev.year(), month: prev.month(), day: prev.day() })
}

/// The day of the week that chrono gives a day of the calendar, as the
/// number of days since Monday.
pub uninterp spec fn days_from_monday(year: int, month: int, day: int) -> int;

/// Calls `chrono::Datelike::weekday` on the date and
/// `chrono::Weekday::num_days_from_monday` on what it gives. Trusted: the
/// number depends on the day alone.
#[verifier::external_body]
fn weekday_of(date: DateKey) -> (r: Option<u32>)
    requires
        date.wf(),
    ensures
        r is Some,
        r->0 == days_from_monday(date.year as int, date.month as int, date.day as int),
{
    let day = NaiveDate::from_ymd_opt(date.year, date.month, date.day)?;
    Some(day.weekday().num_days_from_monday())
}

/// Calls `chrono::Utc::now` and reads the day and the time of day off it.
/// Trusted: the day is one that chrono can represent, the seconds stay below
/// a day's length and the nanoseconds below two billion. chrono stops the
/// program where the system clock stands before 1970.
#[verifier::external_body]
fn utc_now() -> (r: Timestamp)
    ensures
        r.wf(),
{
    let now = Utc::now();
    let day = now.date_naive();
    let time = now.time();
    Timestamp {
        date: DateKey { year: day.year(), month: day.month(), day: day.day() },
        second: time.num_seconds_from_midnight(),
        nano: time.nanosecond(),
    }
}

/// Whether `date` is a Sunday.
pub fn is_sunday(date: DateKey) -> (r: bool)
    requires
        date.wf(),
    ensures
        r == (days_from_monday(date.year as int, date.month as int, date.day as int) == 6),
{
    match weekday_of(date) {
        Some(n) => n == 6,
        None => false,
    }
}

/// The day of the first artifact: 19 June 1978.
pub fn first() -> (r: DateKey)
    ensures
        r == epoch(),
{
    DateKey { year: 1978, month: 6, day: 19 }
}

/// The day of the first artifact.
pub open spec fn epoch() -> DateKey {
    DateKey { year: 1978, month: 6, day: 19 }
}

/// The last day whose artifact is out at the moment `now`.
pub fn last_at(now: Timestamp) -> (r: Option<DateKey>)
    requires
        now.wf(),
    ensures
        r == now.cutoff(),
{
    if now.second > PUBLISH_SECOND || (now.second == PUBLISH_SECOND && now.nano > 0) {
        Some(now.date)
    } else {
        day_before(now.date)
    }
}

/// The days from `start` to `end`, both included, each followed by the next
/// day of the calendar. Empty where `start` comes after `end`.
pub open spec fn dates_between(start: DateKey, end: DateKey) -> Seq<DateKey>
    decreases end.year - start.year + 1, 12 - start.month, 31 - start.day,
{
    if start.wf() && start.is_at_or_before(end) {
        seq![start] + dates_between(start.next(), end)
    } else {
        Seq::empty()
    }
}

/// The days of the archive at the moment `now`: from the first artifact to
/// the cutoff, none where the cutoff lies before the first artifact.
pub open spec fn dates_as_of(now: Timestamp) -> Seq<DateKey> {
    match now.cutoff() {
        Some(end) => dates_between(epoch(), end),
        None => Seq::empty(),
    }
}

/// All days from `start` to `end`, in ascending order.
pub fn get_dates_between(start: DateKey, end: DateKey) -> (r: Vec<DateKey>)
    requires
        start.wf(),
        end.wf(),
    ensures
        r@ == dates_between(start, end),
{
    let mut out: Vec<DateKey> = Vec::new();
    let mut cur = start;
    let mut more = start.at_or_before(&end);
    while more
        invariant
            cur.wf(),
            end.wf(),
            more ==> cur.is_at_or_before(end),
            out@ + (if more {
                dates_between(cur, end)
            } else {
                Seq::empty()
            }) =~= dates_between(start, end),
        decreases (if more { 1int } else { 0int }), end.year - cur.year + 1, 12 - cur.month, 31 - cur.day,
    {
        proof {
            let rest = dates_between(cur.next(), end);
            assert(dates_between(cur, end) =~= seq![cur] + rest);
            assert(!cur.next().is_at_or_before(end) || cur == max_date() ==> rest =~= Seq::empty());
            assert(out@.push(cur) + rest =~= out@ + (seq![cur] + rest));
        }
        out.push(cur);
        match day_after(cur) {
            Some(next) => {
                more = next.at_or_before(&end);
                cur = next;
            },
            None => {
                more = false;
            },
        }
    }
    out
}

/// The days of the archive at the moment `now`.
pub fn all_dates_at(now: Timestamp) -> (r: Vec<DateKey>)
    requires
        now.wf(),
    ensures
        r@ == dates_as_of(now),
{
    match last_at(now) {
        Some(end) => get_dates_between(first(), end),
        None => Vec::new(),
    }
}

/// The days of the archive at this moment, by the system clock.
pub fn get_all_dates() -> (r: Vec<DateKey>)
    ensures
        exists|now: Timestamp| now.wf() && r@ == #[trigger] dates_as_of(now),
{
    let now = utc_now();
    all_dates_at(now)
}

/// Each day comes strictly before the days after it.
pub open spec fn ascending(days: Seq<DateKey>) -> bool {
    forall|i: int, j: int| 0 <= i < j < days.len() ==> (#[trigger] days[i]).is_before(#[trigger] days[j])
}

/// What holds of the days from `start` to `end`: each is a day of the
/// calendar, none before `start` and none after `end`; each is the day after
/// the one before it; they stand in ascending order; and where `start` does
/// not come after `end`, the first is `start` and the last is `end`.
pub proof fn lemma_dates_between(start: DateKey, end: DateKey)
    requires
        end.wf(),
    ensures
        forall|i: int|
            0 <= i < dates_between(start, end).len() ==> {
                let day = #[trigger] dates_between(start, end)[i];
                day.wf() && start.is_at_or_before(day) && day.is_at_or_before(end)
            },
        forall|i: int|
            0 <= i < dates_between(start, end).len() - 1 ==> #[trigger] dates_between(start, end)[i
                + 1] == dates_between(start, end)[i].next(),
        ascending(dates_between(start, end)),
        start.wf() && start.is_at_or_before(end) ==> dates_between(start, end).len() > 0
            && dates_between(start, end).first() == start && dates_between(start, end).last() == end,
    decreases end.year - start.year + 1, 12 - start.month, 31 - start.day,
{
    let days = dates_between(start, end);
    if start.wf() && start.is_at_or_before(end) {
        let tail = dates_between(start.next(), end);
        lemma_dates_between(start.next(), end);
        assert(days =~= seq![start] + tail);
        assert(start.is_before(start.next()));
        assert forall|i: int| 0 <= i < days.len() implies {
            let day = #[trigger] days[i];
            day.wf() && start.is_at_or_before(day) && day.is_at_or_before(end)
        } by {
            if i > 0 {
                assert(days[i] == tail[i - 1]);
            }
        }
        assert forall|i: int| 0 <= i < days.len() - 1 implies #[trigger] days[i + 1] == days[i].next() by {
            assert(days[i + 1] == tail[i]);
            if i > 0 {
                assert(days[i] == tail[i - 1]);
                assert(tail[i - 1 + 1] == tail[i - 1].next());
            } else {
                assert(tail.first() == start.next());
            }
        }
        assert forall|i: int, j: int| 0 <= i < j < days.len() implies (#[trigger] days[i]).is_before(
            #[trigger] days[j],
        ) by {
            assert(days[j] == tail[j - 1]);
            assert(start.next().is_at_or_before(tail[j - 1]));
            if i > 0 {
                assert(days[i] == tail[i - 1]);
                assert(tail[i - 1].is_before(tail[j - 1]));
            }
        }
        if tail.len() > 0 {
            assert(days.last() == tail.last());
        }
    }
}

/// The days are totally ordered: of two days exactly one comes before
/// the other, unless they are the same day; and the order carries over.
pub proof fn lemma_order(a: DateKey, b: DateKey, c: DateKey)
    ensures
        !a.is_before(a),
        a == b || a.is_before(b) || b.is_before(a),
        !(a.is_before(b) && b.is_before(a)),
        a.is_before(b) && b.is_before(c) ==> a.is_before(c),
{
}

/// The day after a day comes right after it: it is a day of the calendar,
/// no day lies between the two, and the day before it is the first again.
pub proof fn lemma_next(day: DateKey, other: DateKey)
    requires
        day.wf(),
        day != max_date(),
    ensures
        day.next().wf(),
        day.is_before(day.next()),
        day.next().prev() == day,
        other.wf() ==> !(day.is_before(other) && other.is_before(day.next())),
{
}

/// The day before a day comes right before it.
pub proof fn lemma_prev(day: DateKey)
    requires
        day.wf(),
        day != min_date(),
    ensures
        day.prev().wf(),
        day.prev().is_before(day),
        day.prev().next() == day,
{
}

} // verus!
