use vstd::prelude::*;
use chrono::Datelike;

verus! {

/// A calendar date, without time of day or time zone.
#[derive(Clone, Copy, Debug, PartialEq, Eq, Structural)]
pub struct Date {
    pub year: i32,
    pub month: u32,
    pub day: u32,
}

pub open spec fn is_leap_year(y: int) -> bool {
    (y % 4 == 0 && y % 100 != 0) || y % 400 == 0
}

pub open spec fn days_in_month(y: int, m: int) -> int {
    if m == 2 {
        if is_leap_year(y) {
            29
        } else {
            28
        }
    } else if m == 4 || m == 6 || m == 9 || m == 11 {
        30
    } else {
        31
    }
}

/// Whether month `m` and day `d` of year `y` name a day of the Gregorian calendar.
pub open spec fn is_calendar_date(y: int, m: int, d: int) -> bool {
    1 <= m <= 12 && 1 <= d <= days_in_month(y, m)
}

/// Whether `a` is a strictly later day than `b`.
pub open spec fn later(a: Date, b: Date) -> bool {
    a.year > b.year || (a.year == b.year && (a.month > b.month || (a.month == b.month && a.day
        > b.day)))
}

pub open spec fn digit_value(c: char) -> int {
    c as int - '0' as int
}

pub open spec fn is_digit(c: char) -> bool {
    '0' as int <= c as int <= '9' as int
}

/// Whether `s` has the shape `MM/DD/YYYY`: ten characters, ASCII digits but for the
/// two slashes.
pub open spec fn mdy_shape(s: Seq<char>) -> bool {
    &&& s.len() == 10
    &&& s[2] == '/' && s[5] == '/'
    &&& is_digit(s[0]) && is_digit(s[1]) && is_digit(s[3]) && is_digit(s[4])
    &&& is_digit(s[6]) && is_digit(s[7]) && is_digit(s[8]) && is_digit(s[9])
}

/// The year, month and day that text of the shape `MM/DD/YYYY` spells.
pub open spec fn mdy_parts(s: Seq<char>) -> (int, int, int) {
    (
        digit_value(s[6]) * 1000 + digit_value(s[7]) * 100 + digit_value(s[8]) * 10
            + digit_value(s[9]),
        digit_value(s[0]) * 10 + digit_value(s[1]),
        digit_value(s[3]) * 10 + digit_value(s[4]),
    )
}

/// The date that chrono reads from a text under the format `%m/%d/%Y`, if it reads one.
pub uninterp spec fn date_of_text(s: Seq<char>) -> Option<(int, int, int)>;

/// Relies on chrono's `NaiveDate::parse_from_str` with the format `%m/%d/%Y`. What it
/// returns depends on the text alone; a date it returns is a day of the calendar; and
/// text of the exact shape `MM/DD/YYYY` that spells such a day is read as that day
/// (two digits of month, a slash, two of day, a slash, four of year, nothing after).
#[verifier::external_body]
fn parse_mdy(s: &str) -> (r: Option<Date>)
    ensures
        (r is Some) == (date_of_text(s@) is Some),
        r matches Some(d) ==> date_of_text(s@) == Some(
            (d.year as int, d.month as int, d.day as int),
        ) && is_calendar_date(d.year as int, d.month as int, d.day as int),
        mdy_shape(s@) && is_calendar_date(mdy_parts(s@).0, mdy_parts(s@).1, mdy_parts(s@).2)
            ==> r == Some(
            Date {
                year: mdy_parts(s@).0 as i32,
                month: mdy_parts(s@).1 as u32,
                day: mdy_parts(s@).2 as u32,
            },
        ),
{
    match chrono::NaiveDate::parse_from_str(s, "%m/%d/%Y") {
        Ok(d) => Some(Date { year: d.year(), month: d.month(), day: d.day() }),
        Err(_) => None,
    }
}

/// The date that a metadata `date` value names, read as month/day/year.
pub fn parse_date(s: &str) -> (r: Option<Date>)
    ensures
        match date_of_text(s@) {
            Some((y, m, d)) => r == Some(Date { year: y as i32, month: m as u32, day: d as u32 })
                && y == y as i32 && m == m as u32 && d == d as u32 && is_calendar_date(y, m, d),
            None => r is None,
        },
        mdy_shape(s@) && is_calendar_date(mdy_parts(s@).0, mdy_parts(s@).1, mdy_parts(s@).2)
            ==> r == Some(
            Date {
                year: mdy_parts(s@).0 as i32,
                month: mdy_parts(s@).1 as u32,
                day: mdy_parts(s@).2 as u32,
            },
        ),
{
    parse_mdy(s)
}

/// Whether `a` is a strictly later day than `b`.
pub fn is_later(a: Date, b: Date) -> (r: bool)
    ensures
        r == later(a, b),
{
    a.year > b.year || (a.year == b.year && (a.month > b.month || (a.month == b.month && a.day
        > b.day)))
}

} // verus!
