//! The grammar of an artifact's file name, and the days that a listing of
//! file names stands for.

use crate::date::{valid_ymd, DateKey};
use crate::text::{decimal, digit_char, file_name_text, leading_zero_text};
use vstd::prelude::*;
use vstd::string::StrSliceExecFns;

verus! {

/// One of the characters `0` to `9`.
pub open spec fn is_digit(c: char) -> bool {
    48 <= c as u32 <= 57
}

/// The number that a digit stands for.
pub open spec fn digit_value(c: char) -> int {
    c as u32 - 48
}

/// The shape `YYYY-MM-DD.<ext>`: four digits, a hyphen, two digits, a
/// hyphen, two digits, a full stop, and an extension of one character at least.
pub open spec fn has_date_shape(s: Seq<char>) -> bool {
    &&& s.len() >= 12
    &&& is_digit(s[0])
    &&& is_digit(s[1])
    &&& is_digit(s[2])
    &&& is_digit(s[3])
    &&& s[4] == '-'
    &&& is_digit(s[5])
    &&& is_digit(s[6])
    &&& s[7] == '-'
    &&& is_digit(s[8])
    &&& is_digit(s[9])
    &&& s[10] == '.'
}

/// The year that the first four characters spell.
pub open spec fn year_field(s: Seq<char>) -> int {
    1000 * digit_value(s[0]) + 100 * digit_value(s[1]) + 10 * digit_value(s[2]) + digit_value(s[3])
}

/// The month that the characters after the first hyphen spell.
pub open spec fn month_field(s: Seq<char>) -> int {
    10 * digit_value(s[5]) + digit_value(s[6])
}

/// The day that the characters after the second hyphen spell.
pub open spec fn day_field(s: Seq<char>) -> int {
    10 * digit_value(s[8]) + digit_value(s[9])
}

/// The day that a file name stands for: the name has the shape of an
/// artifact's name and its fields are a day of the calendar.
pub open spec fn date_in_name(s: Seq<char>) -> Option<DateKey> {
    if has_date_shape(s) && valid_ymd(year_field(s), month_field(s), day_field(s)) {
        Some(
            DateKey {
                year: year_field(s) as i32,
                month: month_field(s) as u32,
                day: day_field(s) as u32,
            },
        )
    } else {
        None
    }
}

/// The days that a listing stands for, in the listing's order; a name that
/// stands for no day is passed over.
pub open spec fn dates_in_names(names: Seq<String>) -> Seq<DateKey> {
    names.filter_map(|name: String| date_in_name(name@))
}

/// How the days of a listing grow with the listing: the day of the last
/// name is added where the name stands for one.
proof fn lemma_dates_in_names_last(names: Seq<String>)
    ensures
        names.len() == 0 ==> dates_in_names(names) == Seq::<DateKey>::empty(),
        names.len() > 0 ==> dates_in_names(names) == match date_in_name(names.last()@) {
            Some(date) => dates_in_names(names.drop_last()).push(date),
            None => dates_in_names(names.drop_last()),
        },
{
    if names.len() > 0 {
        match date_in_name(names.last()@) {
            Some(date) => {
                assert(dates_in_names(names.drop_last()) + seq![date] =~= dates_in_names(
                    names.drop_last(),
                ).push(date));
            },
            None => {},
        }
    }
}

/// The number that the character at index `i` stands for, if it is a digit.
fn digit_at(s: &str, i: usize) -> (r: Option<u32>)
    requires
        i < s@.len(),
    ensures
        r == if is_digit(s@[i as int]) {
            Some(digit_value(s@[i as int]) as u32)
        } else {
            None::<u32>
        },
{
    let c: u32 = s.get_char(i) as u32;
    if 48 <= c && c <= 57 {
        Some(c - 48)
    } else {
        None
    }
}

/// The number that the `count` characters from index `from` on spell, if
/// all of them are digits.
fn number_at(s: &str, from: usize, count: usize) -> (r: Option<u32>)
    requires
        from + count <= s@.len(),
        from <= 8,
        count <= 4,
    ensures
        r is Some <==> forall|k: int| from <= k < from + count ==> is_digit(#[trigger] s@[k]),
        r is Some ==> r->0 == field_value(s@, from as int, count as int),
{
    let mut value: u32 = 0;
    let mut k: usize = 0;
    while k < count
        invariant
            k <= count <= 4,
            from <= 8,
            from + count <= s@.len(),
            forall|j: int| from <= j < from + k ==> is_digit(#[trigger] s@[j]),
            value == field_value(s@, from as int, k as int),
            value < 10000,
        decreases count - k,
    {
        match digit_at(s, from + k) {
            Some(d) => {
                assert(value <= pow10_bound(k as int)) by {
                    lemma_field_bound(s@, from as int, k as int);
                }
                value = value * 10 + d;
                k = k + 1;
                proof {
                    lemma_field_bound(s@, from as int, k as int);
                }
            },
            None => {
                return None;
            },
        }
    }
    Some(value)
}

/// The number that `count` digits spell, starting at `from`.
pub open spec fn field_value(s: Seq<char>, from: int, count: int) -> int
    decreases count,
{
    if count <= 0 {
        0
    } else {
        10 * field_value(s, from, count - 1) + digit_value(s[from + count - 1])
    }
}

/// The largest number that `k` digits spell.
spec fn pow10_bound(k: int) -> int {
    if k <= 0 {
        0
    } else if k == 1 {
        9
    } else if k == 2 {
        99
    } else if k == 3 {
        999
    } else {
        9999
    }
}

/// Digits spell a number of as many digits at most.
proof fn lemma_field_bound(s: Seq<char>, from: int, count: int)
    requires
        0 <= count <= 4,
        forall|j: int| from <= j < from + count ==> is_digit(#[trigger] s[j]),
    ensures
        0 <= field_value(s, from, count) <= pow10_bound(count),
    decreases count,
{
    if count > 0 {
        lemma_field_bound(s, from, count - 1);
        assert(is_digit(s[from + count - 1]));
    }
}

/// The three fields of a name are the numbers that their digits spell.
proof fn lemma_fields(s: Seq<char>)
    ensures
        field_value(s, 0, 4) == year_field(s),
        field_value(s, 5, 2) == month_field(s),
        field_value(s, 8, 2) == day_field(s),
{
    reveal_with_fuel(field_value, 5);
}

/// The day that a file name stands for, if it stands for one.
pub fn date_from_filename(filename: &str) -> (r: Option<DateKey>)
    ensures
        r == date_in_name(filename@),
        r is Some ==> r->0.wf(),
{
    let len = filename.unicode_len();
    if len < 12 {
        return None;
    }
    proof {
        lemma_fields(filename@);
    }
    if filename.get_char(4) != '-' || filename.get_char(7) != '-' || filename.get_char(10) != '.' {
        return None;
    }
    let year = match number_at(filename, 0, 4) {
        Some(n) => n,
        None => {
            return None;
        },
    };
    let month = match number_at(filename, 5, 2) {
        Some(n) => n,
        None => {
            return None;
        },
    };
    let day = match number_at(filename, 8, 2) {
        Some(n) => n,
        None => {
            return None;
        },
    };
    proof {
        let s = filename@;
        assert(is_digit(s[0]) && is_digit(s[1]) && is_digit(s[2]) && is_digit(s[3]));
        assert(is_digit(s[5]) && is_digit(s[6]));
        assert(is_digit(s[8]) && is_digit(s[9]));
        lemma_field_bound(s, 0, 4);
    }
    DateKey::new(year as i32, month, day)
}

/// The days that a listing of file names stands for, in the listing's order.
pub fn dates_from_filenames(names: &Vec<String>) -> (r: Vec<DateKey>)
    ensures
        r@ == dates_in_names(names@),
{
    let mut out: Vec<DateKey> = Vec::new();
    let mut i: usize = 0;
    proof {
        lemma_dates_in_names_last(names@.take(0));
    }
    while i < names.len()
        invariant
            i <= names.len(),
            out@ == dates_in_names(names@.take(i as int)),
        decreases names.len() - i,
    {
        proof {
            assert(names@.take(i + 1).drop_last() =~= names@.take(i as int));
            lemma_dates_in_names_last(names@.take(i + 1));
        }
        match date_from_filename(names[i].as_str()) {
            Some(date) => {
                out.push(date);
            },
            None => {},
        }
        i = i + 1;
    }
    proof {
        assert(names@.take(i as int) =~= names@);
    }
    out
}

/// `names` holds the file of `date`.
pub open spec fn has_file(names: Seq<String>, date: DateKey) -> bool {
    exists|k: int| 0 <= k < names.len() && (#[trigger] names[k])@ == file_name_text(date)
}

/// A day is among the days of a listing exactly when one of its names
/// stands for that day.
pub proof fn lemma_dates_in_names_members(names: Seq<String>)
    ensures
        forall|d: DateKey| #[trigger]
            dates_in_names(names).contains(d) <==> exists|k: int|
                0 <= k < names.len() && date_in_name(#[trigger] names[k]@) == Some(d),
    decreases names.len(),
{
    let out = dates_in_names(names);
    lemma_dates_in_names_last(names);
    if names.len() == 0 {
        assert forall|d: DateKey| #[trigger] out.contains(d) <==> exists|k: int|
            0 <= k < names.len() && date_in_name(#[trigger] names[k]@) == Some(d) by {}
    } else {
        let front = names.drop_last();
        let rest = dates_in_names(front);
        lemma_dates_in_names_members(front);
        assert forall|d: DateKey| #[trigger] out.contains(d) <==> exists|k: int|
            0 <= k < names.len() && date_in_name(#[trigger] names[k]@) == Some(d) by {
            if out.contains(d) {
                let i = choose|i: int| 0 <= i < out.len() && out[i] == d;
                if i < rest.len() {
                    assert(rest[i] == d);
                    assert(rest.contains(d));
                    let k = choose|k: int|
                        0 <= k < front.len() && date_in_name(#[trigger] front[k]@) == Some(d);
                    assert(date_in_name(names[k]@) == Some(d));
                } else {
                    assert(date_in_name(names[names.len() - 1]@) == Some(d));
                }
            }
            if exists|k: int| 0 <= k < names.len() && date_in_name(#[trigger] names[k]@) == Some(d) {
                let k = choose|k: int|
                    0 <= k < names.len() && date_in_name(#[trigger] names[k]@) == Some(d);
                if k < front.len() {
                    assert(date_in_name(front[k]@) == Some(d));
                    assert(rest.contains(d));
                    let i = choose|i: int| 0 <= i < rest.len() && rest[i] == d;
                    assert(out[i] == d);
                } else {
                    assert(out[out.len() - 1] == d);
                }
            }
        }
    }
}

/// The name of the file written for a day stands for that day, for every
/// day whose year has four digits.
pub proof fn lemma_file_name_read_back(date: DateKey)
    requires
        date.wf(),
        1000 <= date.year <= 9999,
    ensures
        date_in_name(file_name_text(date)) == Some(date),
{
    let y = date.year as nat;
    let m = date.month as nat;
    let d = date.day as nat;
    let s = file_name_text(date);
    lemma_two_digits(m);
    lemma_two_digits(d);
    reveal_with_fuel(decimal, 4);
    assert(decimal(y) =~= seq![
        digit_char((y / 1000) as int),
        digit_char((y / 100 % 10) as int),
        digit_char((y / 10 % 10) as int),
        digit_char((y % 10) as int),
    ]);
    assert(s =~= seq![
        digit_char((y / 1000) as int),
        digit_char((y / 100 % 10) as int),
        digit_char((y / 10 % 10) as int),
        digit_char((y % 10) as int),
        '-',
        digit_char((m / 10) as int),
        digit_char((m % 10) as int),
        '-',
        digit_char((d / 10) as int),
        digit_char((d % 10) as int),
        '.',
        'p',
        'n',
        'g',
    ]);
    lemma_digit_char((y / 1000) as int);
    lemma_digit_char((y / 100 % 10) as int);
    lemma_digit_char((y / 10 % 10) as int);
    lemma_digit_char((y % 10) as int);
    lemma_digit_char((m / 10) as int);
    lemma_digit_char((m % 10) as int);
    lemma_digit_char((d / 10) as int);
    lemma_digit_char((d % 10) as int);
    assert(year_field(s) == y);
    assert(month_field(s) == m);
    assert(day_field(s) == d);
}

/// A number below a hundred, filled to two digits, is its tens and its units.
proof fn lemma_two_digits(n: nat)
    requires
        n <= 99,
    ensures
        leading_zero_text(n) =~= seq![digit_char((n / 10) as int), digit_char((n % 10) as int)],
{
    reveal_with_fuel(decimal, 2);
}

/// The character of a digit is a digit and stands for it.
proof fn lemma_digit_char(k: int)
    requires
        0 <= k <= 9,
    ensures
        is_digit(digit_char(k)),
        digit_value(digit_char(k)) == k,
{
}

} // verus!
