use http::date::{civil_from_days, push_http_date};
use http::decimal::push_decimal;

fn date(secs: u64) -> String {
    let mut buf = Vec::new();
    push_http_date(&mut buf, secs);
    String::from_utf8(buf).unwrap()
}

fn number(n: u64) -> String {
    let mut buf = Vec::new();
    push_decimal(&mut buf, n);
    String::from_utf8(buf).unwrap()
}

#[test]
fn decimal_of_small_and_large_numbers() {
    assert_eq!(number(0), "0");
    assert_eq!(number(9), "9");
    assert_eq!(number(10), "10");
    assert_eq!(number(12345), "12345");
    assert_eq!(number(u64::MAX), "18446744073709551615");
}

#[test]
fn decimal_appends_behind_what_is_there() {
    let mut buf = b"n=".to_vec();
    push_decimal(&mut buf, 42);
    assert_eq!(buf, b"n=42");
}

#[test]
fn the_epoch_is_a_thursday() {
    assert_eq!(date(0), "Thu, 01 Jan 1970 00:00:00 GMT");
}

#[test]
fn the_example_of_the_standard() {
    assert_eq!(date(784111777), "Sun, 06 Nov 1994 08:49:37 GMT");
}

#[test]
fn a_day_ends_and_the_next_begins() {
    assert_eq!(date(86399), "Thu, 01 Jan 1970 23:59:59 GMT");
    assert_eq!(date(86400), "Fri, 02 Jan 1970 00:00:00 GMT");
}

#[test]
fn leap_days() {
    assert_eq!(date(68169599), "Mon, 28 Feb 1972 23:59:59 GMT");
    assert_eq!(date(68169600), "Tue, 29 Feb 1972 00:00:00 GMT");
    assert_eq!(date(951782400), "Tue, 29 Feb 2000 00:00:00 GMT");
    assert_eq!(date(951868799), "Tue, 29 Feb 2000 23:59:59 GMT");
    assert_eq!(date(1709164800), "Thu, 29 Feb 2024 00:00:00 GMT");
}

#[test]
fn a_century_without_a_leap_day() {
    assert_eq!(date(4102444800), "Fri, 01 Jan 2100 00:00:00 GMT");
    assert_eq!(civil_from_days(47540), (2100, 2, 28));
    assert_eq!(civil_from_days(47541), (2100, 3, 1));
}

#[test]
fn the_year_grows_past_four_digits() {
    assert_eq!(date(253402300799), "Fri, 31 Dec 9999 23:59:59 GMT");
    assert_eq!(date(253402300800), "Sat, 01 Jan 10000 00:00:00 GMT");
}

#[test]
fn the_last_moment_that_fits() {
    assert_eq!(date(u64::MAX), "Thu, 09 Nov 584554051223 07:00:15 GMT");
}

#[test]
fn calendar_days_by_number() {
    assert_eq!(civil_from_days(0), (1970, 1, 1));
    assert_eq!(civil_from_days(58), (1970, 2, 28));
    assert_eq!(civil_from_days(59), (1970, 3, 1));
    assert_eq!(civil_from_days(365), (1971, 1, 1));
    assert_eq!(civil_from_days(789), (1972, 2, 29));
    assert_eq!(civil_from_days(10957), (2000, 1, 1));
    assert_eq!(civil_from_days(11016), (2000, 2, 29));
    assert_eq!(civil_from_days(11017), (2000, 3, 1));
    assert_eq!(civil_from_days(19782), (2024, 2, 29));
    assert_eq!(civil_from_days(146096), (2369, 12, 31));
    assert_eq!(civil_from_days(146097), (2370, 1, 1));
    assert_eq!(civil_from_days(2932896), (9999, 12, 31));
    assert_eq!(civil_from_days(u64::MAX), (50505469855535079, 2, 21));
}
