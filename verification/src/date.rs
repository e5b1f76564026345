//! The date of a response, in the fixed-length format that HTTP asks for:
//! `Sun, 06 Nov 1994 08:49:37 GMT`.

use crate::decimal::{decimal, push_decimal, push_two_digits, two_digits};
use crate::text::{push_text, wire};
use vstd::prelude::*;

verus! {

/// Seconds in a day.
pub const DAY: u64 = 86400;

/// Days in 400 years of the Gregorian calendar.
pub const CYCLE: u64 = 146097;

/// Whether year `y` is a leap year.
pub open spec fn is_leap(y: int) -> bool {
    y % 4 == 0 && (y % 100 != 0 || y % 400 == 0)
}

/// How many days year `y` has.
pub open spec fn year_len(y: int) -> int {
    if is_leap(y) {
        366
    } else {
        365
    }
}

/// How many leap years there are from year 1 through year `y`.
pub open spec fn leaps_through(y: int) -> int {
    y / 4 - y / 100 + y / 400
}

/// How many days lie between 1 January 1970 and 1 January of year `y`.
pub open spec fn days_before_year(y: int) -> int {
    365 * (y - 1970) + leaps_through(y - 1) - leaps_through(1969)
}

/// How many days month `m` of year `y` has.
pub open spec fn month_len(y: int, m: int) -> int {
    if m == 2 {
        if is_leap(y) {
            29
        } else {
            28
        }
    } else if m == 4 || m == 6 || m == 9 || m == 11 {
        30
    } else {
        31
    }
}

/// How many days of year `y` lie before the first of month `m`.
pub open spec fn days_before_month(y: int, m: int) -> int
    decreases m,
{
    if m <= 1 {
        0
    } else {
        days_before_month(y, m - 1) + month_len(y, m - 1)
    }
}

/// Whether `y`, `m`, `d` name a day of the calendar, from 1970 on.
pub open spec fn is_date(y: int, m: int, d: int) -> bool {
    y >= 1970 && 1 <= m <= 12 && 1 <= d <= month_len(y, m)
}

/// How many days lie between 1 January 1970 and the day `y`, `m`, `d`.
pub open spec fn day_number(y: int, m: int, d: int) -> int {
    days_before_year(y) + days_before_month(y, m) + d - 1
}

/// The calendar day that lies `days` days after 1 January 1970: the year,
/// the month from 1 and the day of the month from 1.
pub open spec fn civil(days: int) -> (int, int, int) {
    choose|date: (int, int, int)|
        is_date(date.0, date.1, date.2) && day_number(date.0, date.1, date.2) == days
}

/// The day of the week that lies `days` days after 1 January 1970, a
/// Thursday: 0 for Sunday through 6 for Saturday.
pub open spec fn weekday(days: int) -> int {
    (days + 4) % 7
}

/// The three-letter name of day `w` of the week, 0 for Sunday.
pub open spec fn day_name(w: int) -> Seq<char> {
    if w == 0 {
        "Sun"@
    } else if w == 1 {
        "Mon"@
    } else if w == 2 {
        "Tue"@
    } else if w == 3 {
        "Wed"@
    } else if w == 4 {
        "Thu"@
    } else if w == 5 {
        "Fri"@
    } else {
        "Sat"@
    }
}

/// The three-letter name of month `m`, 1 for January.
pub open spec fn month_name(m: int) -> Seq<char> {
    if m == 1 {
        "Jan"@
    } else if m == 2 {
        "Feb"@
    } else if m == 3 {
        "Mar"@
    } else if m == 4 {
        "Apr"@
    } else if m == 5 {
        "May"@
    } else if m == 6 {
        "Jun"@
    } else if m == 7 {
        "Jul"@
    } else if m == 8 {
        "Aug"@
    } else if m == 9 {
        "Sep"@
    } else if m == 10 {
        "Oct"@
    } else if m == 11 {
        "Nov"@
    } else {
        "Dec"@
    }
}

/// The moment `secs` seconds after the start of 1970, UTC, as an HTTP date:
/// day name, comma, day of the month in two digits, month name, year, and
/// the time of day as `hh:mm:ss`, followed by `GMT`.
#[verifier::opaque]
pub open spec fn http_date(secs: nat) -> Seq<u8> {
    let days = (secs / 86400) as int;
    let time = (secs % 86400) as int;
    let (y, m, d) = civil(days);
    wire(day_name(weekday(days))) + wire(", "@) + two_digits(d) + wire(" "@) + wire(month_name(m))
        + wire(" "@) + decimal(y as nat) + wire(" "@) + two_digits(time / 3600) + wire(":"@)
        + two_digits(time % 3600 / 60) + wire(":"@) + two_digits(time % 60) + wire(" GMT"@)
}

/// A year later starts a year's length of days later.
proof fn lemma_next_year(y: int)
    requires
        y >= 1,
    ensures
        days_before_year(y + 1) == days_before_year(y) + year_len(y),
{
}

/// A later year starts later.
proof fn lemma_years_ascend(y1: int, y2: int)
    requires
        1 <= y1 <= y2,
    ensures
        days_before_year(y1) + 365 * (y2 - y1) <= days_before_year(y2),
    decreases y2 - y1,
{
    if y1 < y2 {
        lemma_years_ascend(y1, y2 - 1);
        lemma_next_year(y2 - 1);
    }
}

/// The months of a year add up: what lies before each month, and that the
/// twelve together make the year.
proof fn lemma_months(y: int)
    ensures
        days_before_month(y, 1) == 0,
        days_before_month(y, 2) == 31,
        days_before_month(y, 3) == 31 + month_len(y, 2),
        days_before_month(y, 4) == 62 + month_len(y, 2),
        days_before_month(y, 5) == 92 + month_len(y, 2),
        days_before_month(y, 6) == 123 + month_len(y, 2),
        days_before_month(y, 7) == 153 + month_len(y, 2),
        days_before_month(y, 8) == 184 + month_len(y, 2),
        days_before_month(y, 9) == 215 + month_len(y, 2),
        days_before_month(y, 10) == 245 + month_len(y, 2),
        days_before_month(y, 11) == 276 + month_len(y, 2),
        days_before_month(y, 12) == 306 + month_len(y, 2),
        days_before_month(y, 12) + 31 == year_len(y),
{
    reveal_with_fuel(days_before_month, 13);
}

/// No two days of the calendar lie the same number of days after the start
/// of 1970.
pub proof fn lemma_day_number_unique(y1: int, m1: int, d1: int, y2: int, m2: int, d2: int)
    requires
        is_date(y1, m1, d1),
        is_date(y2, m2, d2),
        day_number(y1, m1, d1) == day_number(y2, m2, d2),
    ensures
        y1 == y2,
        m1 == m2,
        d1 == d2,
{
    lemma_months(y1);
    lemma_months(y2);
    let r1 = days_before_month(y1, m1) + d1 - 1;
    let r2 = days_before_month(y2, m2) + d2 - 1;
    assert(0 <= r1 < year_len(y1));
    assert(0 <= r2 < year_len(y2));
    if y1 < y2 {
        lemma_next_year(y1);
        lemma_years_ascend(y1 + 1, y2);
        assert(false);
    }
    if y2 < y1 {
        lemma_next_year(y2);
        lemma_years_ascend(y2 + 1, y1);
        assert(false);
    }
}

/// The calendar day that lies `days` days after 1 January 1970.
pub fn civil_from_days(days: u64) -> (date: (u64, u8, u8))
    ensures
        is_date(date.0 as int, date.1 as int, date.2 as int),
        day_number(date.0 as int, date.1 as int, date.2 as int) == days,
        (date.0 as int, date.1 as int, date.2 as int) == civil(days as int),
{
    let cycles = days / CYCLE;
    let mut year: u64 = 1970 + 400 * cycles;
    let mut rest: u64 = days % CYCLE;
    assert(days_before_year(year as int) == 146097 * cycles);
    while rest >= year_days(year)
        invariant
            1970 <= year,
            year + rest <= 1970 + 400 * cycles + 146097,
            cycles <= u64::MAX / 146097,
            days == days_before_year(year as int) + rest,
        decreases rest,
    {
        proof {
            lemma_next_year(year as int);
        }
        rest = rest - year_days(year);
        year = year + 1;
    }
    let mut month: u8 = 1;
    proof {
        lemma_months(year as int);
    }
    while rest >= month_days(year, month) as u64
        invariant
            1970 <= year,
            1 <= month <= 12,
            days == days_before_year(year as int) + days_before_month(year as int, month as int)
                + rest,
            days_before_month(year as int, month as int) + rest < year_len(year as int),
            days_before_month(year as int, 12) + 31 == year_len(year as int),
        decreases rest,
    {
        proof {
            reveal_with_fuel(days_before_month, 2);
        }
        rest = rest - month_days(year, month) as u64;
        month = month + 1;
    }
    let day: u8 = (rest + 1) as u8;
    proof {
        let found = (year as int, month as int, day as int);
        assert(is_date(found.0, found.1, found.2) && day_number(found.0, found.1, found.2) == days);
        let chosen = civil(days as int);
        lemma_day_number_unique(found.0, found.1, found.2, chosen.0, chosen.1, chosen.2);
    }
    (year, month, day)
}

/// How many days `year` has.
fn year_days(year: u64) -> (n: u64)
    ensures
        n == year_len(year as int),
{
    if year % 4 == 0 && (year % 100 != 0 || year % 400 == 0) {
        366
    } else {
        365
    }
}

/// How many days month `month` of `year` has.
fn month_days(year: u64, month: u8) -> (n: u8)
    ensures
        n == month_len(year as int, month as int),
{
    if month == 2 {
        if year_days(year) == 366 {
            29
        } else {
            28
        }
    } else if month == 4 || month == 6 || month == 9 || month == 11 {
        30
    } else {
        31
    }
}

/// The name of day `w` of the week, 0 for Sunday.
fn day_text(w: u8) -> (s: &'static str)
    ensures
        s@ == day_name(w as int),
{
    if w == 0 {
        "Sun"
    } else if w == 1 {
        "Mon"
    } else if w == 2 {
        "Tue"
    } else if w == 3 {
        "Wed"
    } else if w == 4 {
        "Thu"
    } else if w == 5 {
        "Fri"
    } else {
        "Sat"
    }
}

/// The name of month `m`, 1 for January.
fn month_text(m: u8) -> (s: &'static str)
    ensures
        s@ == month_name(m as int),
{
    if m == 1 {
        "Jan"
    } else if m == 2 {
        "Feb"
    } else if m == 3 {
        "Mar"
    } else if m == 4 {
        "Apr"
    } else if m == 5 {
        "May"
    } else if m == 6 {
        "Jun"
    } else if m == 7 {
        "Jul"
    } else if m == 8 {
        "Aug"
    } else if m == 9 {
        "Sep"
    } else if m == 10 {
        "Oct"
    } else if m == 11 {
        "Nov"
    } else {
        "Dec"
    }
}

/// Appends the moment `secs` seconds after the start of 1970, UTC, to `buf`
/// as an HTTP date.
pub fn push_http_date(buf: &mut Vec<u8>, secs: u64)
    ensures
        final(buf)@ == old(buf)@ + http_date(secs as nat),
{
    let ghost before = buf@;
    let days = secs / DAY;
    let time = secs % DAY;
    let (year, month, day) = civil_from_days(days);
    push_text(buf, day_text(((days + 4) % 7) as u8));
    push_text(buf, ", ");
    push_two_digits(buf, day);
    push_text(buf, " ");
    push_text(buf, month_text(month));
    push_text(buf, " ");
    push_decimal(buf, year);
    push_text(buf, " ");
    push_two_digits(buf, (time / 3600) as u8);
    push_text(buf, ":");
    push_two_digits(buf, (time % 3600 / 60) as u8);
    push_text(buf, ":");
    push_two_digits(buf, (time % 60) as u8);
    push_text(buf, " GMT");
    assert(buf@ =~= before + http_date(secs as nat)) by {
        reveal(http_date);
    }
}

} // verus!
