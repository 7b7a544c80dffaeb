//! Numbers and days written out as text: file names and page addresses.

use crate::date::{days_from_monday, is_sunday, DateKey};
use vstd::prelude::*;
use vstd::string::StringExecFns;

verus! {

/// The character of one decimal digit.
pub open spec fn digit_char(d: int) -> char {
    if d == 0 {
        '0'
    } else if d == 1 {
        '1'
    } else if d == 2 {
        '2'
    } else if d == 3 {
        '3'
    } else if d == 4 {
        '4'
    } else if d == 5 {
        '5'
    } else if d == 6 {
        '6'
    } else if d == 7 {
        '7'
    } else if d == 8 {
        '8'
    } else {
        '9'
    }
}

/// A natural number in decimal, without leading zeros.
pub open spec fn decimal(n: nat) -> Seq<char>
    decreases n,
{
    if n < 10 {
        seq![digit_char(n as int)]
    } else {
        decimal(n / 10).push(digit_char((n % 10) as int))
    }
}

/// An integer in decimal, with a minus sign where it is negative.
pub open spec fn signed_decimal(i: int) -> Seq<char> {
    if i < 0 {
        seq!['-'] + decimal((-i) as nat)
    } else {
        decimal(i as nat)
    }
}

/// A number in decimal, with one zero in front where it has a single digit.
pub open spec fn leading_zero_text(n: nat) -> Seq<char> {
    if n < 10 {
        seq!['0'] + decimal(n)
    } else {
        decimal(n)
    }
}

/// What is left of `number` after division by 100 that rounds toward zero,
/// read as an unsigned 32-bit number: a negative remainder wraps around.
pub open spec fn wrapped_remainder_100(number: int) -> nat {
    if number >= 0 {
        (number % 100) as nat
    } else if (-number) % 100 == 0 {
        0
    } else {
        (0x1_0000_0000 - (-number) % 100) as nat
    }
}

/// A day as year, month and day, joined by `separator`; month and day with
/// two digits each where `leading_zeros` is set.
pub open spec fn date_text(date: DateKey, separator: Seq<char>, leading_zeros: bool) -> Seq<char> {
    signed_decimal(date.year as int) + separator + (if leading_zeros {
        leading_zero_text(date.month as nat)
    } else {
        decimal(date.month as nat)
    }) + separator + (if leading_zeros {
        leading_zero_text(date.day as nat)
    } else {
        decimal(date.day as nat)
    })
}

/// The name of the file that holds the artifact of `date`.
pub open spec fn file_name_text(date: DateKey) -> Seq<char> {
    date_text(date, seq!['-'], true) + seq!['.', 'p', 'n', 'g']
}

/// The text of one decimal digit.
fn digit_str(d: u32) -> (r: &'static str)
    requires
        d < 10,
    ensures
        r@ == seq![digit_char(d as int)],
{
    proof {
        reveal_strlit("0");
        reveal_strlit("1");
        reveal_strlit("2");
        reveal_strlit("3");
        reveal_strlit("4");
        reveal_strlit("5");
        reveal_strlit("6");
        reveal_strlit("7");
        reveal_strlit("8");
        reveal_strlit("9");
    }
    let r = match d {
        0 => "0",
        1 => "1",
        2 => "2",
        3 => "3",
        4 => "4",
        5 => "5",
        6 => "6",
        7 => "7",
        8 => "8",
        _ => "9",
    };
    assert(r@ =~= seq![digit_char(d as int)]);
    r
}

/// `n` in decimal.
pub fn u32_to_string(n: u32) -> (r: String)
    ensures
        r@ == decimal(n as nat),
    decreases n,
{
    if n < 10 {
        String::from_str(digit_str(n))
    } else {
        let mut s = u32_to_string(n / 10);
        s.append(digit_str(n % 10));
        assert(s@ =~= decimal(n as nat));
        s
    }
}

/// `n` in decimal, with its sign where it is negative.
pub fn i32_to_string(n: i32) -> (r: String)
    ensures
        r@ == signed_decimal(n as int),
{
    if n < 0 {
        let magnitude: u32 = (-(n as i64)) as u32;
        let mut s = String::from_str("-");
        let digits = u32_to_string(magnitude);
        s.append(digits.as_str());
        proof {
            reveal_strlit("-");
        }
        assert(s@ =~= signed_decimal(n as int));
        s
    } else {
        u32_to_string(n as u32)
    }
}

/// `number` with two digits at least: a single digit gets a zero in front.
pub fn leading_zero(number: u32) -> (r: String)
    ensures
        r@ == leading_zero_text(number as nat),
{
    if number < 10 {
        let mut s = String::from_str("0");
        s.append(digit_str(number));
        proof {
            reveal_strlit("0");
        }
        assert(s@ =~= leading_zero_text(number as nat));
        s
    } else {
        u32_to_string(number)
    }
}

/// The last two digits of a year. A negative year leaves a negative
/// remainder, which wraps around to a large number.
pub fn last_two_digits(number: i32) -> (r: String)
    ensures
        r@ == leading_zero_text(wrapped_remainder_100(number as int)),
{
    let wide: i64 = number as i64;
    let rest: u32 = if wide >= 0 {
        (wide % 100) as u32
    } else {
        let m: i64 = (-wide) % 100;
        if m == 0 {
            0
        } else {
            (0x1_0000_0000i64 - m) as u32
        }
    };
    leading_zero(rest)
}

/// A day as text: year, month and day joined by `separator`, month and day
/// filled to two digits where `leading_zeros` is set.
pub fn date_to_string(date: DateKey, separator: &str, leading_zeros: bool) -> (r: String)
    ensures
        r@ == date_text(date, separator@, leading_zeros),
{
    let mut s = i32_to_string(date.year);
    s.append(separator);
    let month = if leading_zeros {
        leading_zero(date.month)
    } else {
        u32_to_string(date.month)
    };
    s.append(month.as_str());
    s.append(separator);
    let day = if leading_zeros {
        leading_zero(date.day)
    } else {
        u32_to_string(date.day)
    };
    s.append(day.as_str());
    assert(s@ =~= date_text(date, separator@, leading_zeros));
    s
}

/// The name of the file that holds the artifact of `date`: the day with
/// hyphens and two-digit month and day, then `.png`.
pub fn file_name(date: DateKey) -> (r: String)
    ensures
        r@ == file_name_text(date),
{
    let mut s = date_to_string(date, "-", true);
    s.append(".png");
    proof {
        reveal_strlit("-");
        reveal_strlit(".png");
    }
    assert(s@ =~= file_name_text(date));
    s
}

/// The path of the file that holds the artifact of `date` in `folder`,
/// which ends with its separator.
pub fn file_path(folder: &str, date: DateKey) -> (r: String)
    ensures
        r@ == folder@ + file_name_text(date),
{
    let mut s = String::from_str(folder);
    let name = file_name(date);
    s.append(name.as_str());
    s
}

/// The address of the page that shows the artifact of `date`.
pub open spec fn page_url_text(date: DateKey) -> Seq<char> {
    "https://corsproxy.garfieldapp.workers.dev/cors-proxy?https://www.gocomics.com/garfield/"@
        + date_text(date, seq!['/'], false)
}

/// The address of the artifact of `date` at the other source: a JPEG on
/// Sundays, a GIF on the other days.
pub open spec fn fast_url_text(date: DateKey, sunday: bool) -> Seq<char> {
    "https://picayune.uclick.com/comics/ga/"@ + signed_decimal(date.year as int) + "/ga"@
        + leading_zero_text(wrapped_remainder_100(date.year as int)) + leading_zero_text(
        date.month as nat,
    ) + leading_zero_text(date.day as nat) + (if sunday {
        ".jpg"@
    } else {
        ".gif"@
    })
}

/// The address of the page that shows the artifact of `date`.
pub fn page_url(date: DateKey) -> (r: String)
    ensures
        r@ == page_url_text(date),
{
    let mut s = String::from_str(
        "https://corsproxy.garfieldapp.workers.dev/cors-proxy?https://www.gocomics.com/garfield/",
    );
    let day = date_to_string(date, "/", false);
    s.append(day.as_str());
    proof {
        reveal_strlit("/");
    }
    assert("/"@ =~= seq!['/']);
    s
}

/// The address of the artifact of `date` at the other source, for a day
/// that is a Sunday or is none.
pub fn fast_url_for(date: DateKey, sunday: bool) -> (r: String)
    ensures
        r@ == fast_url_text(date, sunday),
{
    let mut s = String::from_str("https://picayune.uclick.com/comics/ga/");
    let year = i32_to_string(date.year);
    s.append(year.as_str());
    s.append("/ga");
    let short_year = last_two_digits(date.year);
    s.append(short_year.as_str());
    let month = leading_zero(date.month);
    s.append(month.as_str());
    let day = leading_zero(date.day);
    s.append(day.as_str());
    if sunday {
        s.append(".jpg");
    } else {
        s.append(".gif");
    }
    s
}

/// The address of the artifact of `date` at the other source.
pub fn fast_url(date: DateKey) -> (r: String)
    requires
        date.wf(),
    ensures
        r@ == fast_url_text(
            date,
            days_from_monday(date.year as int, date.month as int, date.day as int) == 6,
        ),
{
    fast_url_for(date, is_sunday(date))
}

} // verus!
