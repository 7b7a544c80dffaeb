use everygarf::text::{fast_url, fast_url_for, file_name, file_path, i32_to_string, page_url, u32_to_string};
use everygarf::{date_to_string, last_two_digits, leading_zero, DateKey};

fn day(year: i32, month: u32, day: u32) -> DateKey {
    DateKey::new(year, month, day).unwrap()
}

#[test]
fn numbers_are_written_in_decimal() {
    assert_eq!(u32_to_string(0), "0");
    assert_eq!(u32_to_string(7), "7");
    assert_eq!(u32_to_string(10), "10");
    assert_eq!(u32_to_string(1978), "1978");
    assert_eq!(u32_to_string(4294967295), "4294967295");
    assert_eq!(i32_to_string(0), "0");
    assert_eq!(i32_to_string(-5), "-5");
    assert_eq!(i32_to_string(2147483647), "2147483647");
    assert_eq!(i32_to_string(-2147483648), "-2147483648");
}

#[test]
fn leading_zero_fills_to_two_digits() {
    assert_eq!(leading_zero(0), "00");
    assert_eq!(leading_zero(5), "05");
    assert_eq!(leading_zero(9), "09");
    assert_eq!(leading_zero(10), "10");
    assert_eq!(leading_zero(31), "31");
    assert_eq!(leading_zero(123), "123");
}

#[test]
fn last_two_digits_of_a_year() {
    assert_eq!(last_two_digits(1978), "78");
    assert_eq!(last_two_digits(2005), "05");
    assert_eq!(last_two_digits(2000), "00");
    assert_eq!(last_two_digits(7), "07");
    assert_eq!(last_two_digits(0), "00");
}

#[test]
fn last_two_digits_of_a_negative_year_wrap_around() {
    assert_eq!(last_two_digits(-5), "4294967291");
    assert_eq!(last_two_digits(-100), "00");
    assert_eq!(last_two_digits(-199), "4294967197");
    assert_eq!(last_two_digits(-2147483648), "4294967248");
}

#[test]
fn date_to_string_with_and_without_zeros() {
    assert_eq!(date_to_string(day(2020, 1, 5), "-", true), "2020-01-05");
    assert_eq!(date_to_string(day(2020, 1, 5), "/", false), "2020/1/5");
    assert_eq!(date_to_string(day(2020, 11, 25), "-", true), "2020-11-25");
    assert_eq!(date_to_string(day(2020, 11, 25), "", false), "20201125");
    assert_eq!(date_to_string(day(978, 6, 9), "--", true), "978--06--09");
    assert_eq!(date_to_string(day(-4, 2, 29), "-", true), "-4-02-29");
}

#[test]
fn file_name_is_the_day_and_png() {
    assert_eq!(file_name(day(2020, 2, 29)), "2020-02-29.png");
    assert_eq!(file_name(day(1978, 6, 19)), "1978-06-19.png");
    assert_eq!(file_path("/home/jon/garfield/", day(1978, 12, 1)), "/home/jon/garfield/1978-12-01.png");
    assert_eq!(file_path("", day(1978, 12, 1)), "1978-12-01.png");
}

#[test]
fn page_url_has_the_day_without_zeros() {
    assert_eq!(
        page_url(day(2020, 1, 5)),
        "https://corsproxy.garfieldapp.workers.dev/cors-proxy?https://www.gocomics.com/garfield/2020/1/5"
    );
    assert_eq!(
        page_url(day(1978, 12, 25)),
        "https://corsproxy.garfieldapp.workers.dev/cors-proxy?https://www.gocomics.com/garfield/1978/12/25"
    );
}

#[test]
fn fast_url_is_a_jpeg_on_sundays() {
    assert_eq!(fast_url(day(2020, 1, 5)), "https://picayune.uclick.com/comics/ga/2020/ga200105.jpg");
    assert_eq!(fast_url(day(2024, 1, 7)), "https://picayune.uclick.com/comics/ga/2024/ga240107.jpg");
}

#[test]
fn fast_url_is_a_gif_on_other_days() {
    assert_eq!(fast_url(day(1978, 6, 19)), "https://picayune.uclick.com/comics/ga/1978/ga780619.gif");
    assert_eq!(fast_url(day(2005, 11, 30)), "https://picayune.uclick.com/comics/ga/2005/ga051130.gif");
}

#[test]
fn fast_url_for_a_given_kind_of_day() {
    assert_eq!(
        fast_url_for(day(1978, 6, 19), true),
        "https://picayune.uclick.com/comics/ga/1978/ga780619.jpg"
    );
    assert_eq!(
        fast_url_for(day(2020, 1, 5), false),
        "https://picayune.uclick.com/comics/ga/2020/ga200105.gif"
    );
}
