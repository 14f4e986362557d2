//! Calendar dates.
//!
//! A [`Date`] holds a year, a month and a day of the proleptic Gregorian
//! calendar, in the range that `chrono::NaiveDate` can hold. Arithmetic and
//! formatting are done by `chrono`.

use vstd::prelude::*;
use chrono::{Datelike, NaiveDate, TimeDelta, Weekday};
use crate::text::{decimal, decimal2};

verus! {

/// The first year that a date can have.
pub const MIN_YEAR: i32 = -262143;

/// The last year that a date can have.
pub const MAX_YEAR: i32 = 262142;

/// Whether a year of the proleptic Gregorian calendar has a 29th of February.
pub open spec fn is_leap_year(year: int) -> bool {
    year % 4 == 0 && (year % 100 != 0 || year % 400 == 0)
}

/// The number of days of a month.
pub open spec fn days_in_month(year: int, month: int) -> int {
    if month == 2 {
        if is_leap_year(year) {
            29
        } else {
            28
        }
    } else if month == 4 || month == 6 || month == 9 || month == 11 {
        30
    } else {
        31
    }
}

/// The day exists and its year is in range.
pub open spec fn valid_ymd(year: int, month: int, day: int) -> bool {
    MIN_YEAR <= year <= MAX_YEAR && 1 <= month <= 12 && 1 <= day <= days_in_month(year, month)
}

/// A day of the calendar.
#[derive(Clone, Copy, Debug, PartialEq, Eq)]
pub struct Date {
    year: i32,
    month: u32,
    day: u32,
}

/// The mathematical form of a date: year, month, day.
pub type Ymd = (int, int, int);

impl View for Date {
    type V = Ymd;

    closed spec fn view(&self) -> Ymd {
        (self.year as int, self.month as int, self.day as int)
    }
}

/// The first date is earlier than the second.
pub open spec fn ymd_before(a: Ymd, b: Ymd) -> bool {
    a.0 < b.0 || (a.0 == b.0 && (a.1 < b.1 || (a.1 == b.1 && a.2 < b.2)))
}

/// The strftime patterns with which the library formats and reads dates.
pub open spec fn known_pattern(pattern: Seq<char>) -> bool {
    pattern == "%d-%m-%Y"@ || pattern == "%Y-%m-%d"@ || pattern == "%B %d, %Y"@ || pattern
        == "%Y-%m"@ || pattern == "%Y"@ || pattern == "%B"@ || pattern == "%A"@
}

/// The English name of a day of the week, counted from Monday.
pub open spec fn weekday_name(i: int) -> Seq<char> {
    if i == 0 {
        "Monday"@
    } else if i == 1 {
        "Tuesday"@
    } else if i == 2 {
        "Wednesday"@
    } else if i == 3 {
        "Thursday"@
    } else if i == 4 {
        "Friday"@
    } else if i == 5 {
        "Saturday"@
    } else {
        "Sunday"@
    }
}

/// The English name of a month, counted from 1.
pub open spec fn month_name(month: int) -> Seq<char> {
    if month == 1 {
        "January"@
    } else if month == 2 {
        "February"@
    } else if month == 3 {
        "March"@
    } else if month == 4 {
        "April"@
    } else if month == 5 {
        "May"@
    } else if month == 6 {
        "June"@
    } else if month == 7 {
        "July"@
    } else if month == 8 {
        "August"@
    } else if month == 9 {
        "September"@
    } else if month == 10 {
        "October"@
    } else if month == 11 {
        "November"@
    } else {
        "December"@
    }
}

/// The decimal numeral of `n`, with zeros in front where it has fewer than
/// four digits.
pub open spec fn decimal4(n: nat) -> Seq<char> {
    if n < 10 {
        seq!['0', '0', '0'] + decimal(n)
    } else if n < 100 {
        seq!['0', '0'] + decimal(n)
    } else if n < 1000 {
        seq!['0'] + decimal(n)
    } else {
        decimal(n)
    }
}

/// A year as it is written: with four digits from 0 to 9999; with a sign
/// and at least four digits before and after.
pub open spec fn year_text(year: int) -> Seq<char> {
    if 0 <= year <= 9999 {
        decimal4(year as nat)
    } else if year > 9999 {
        seq!['+'] + decimal(year as nat)
    } else {
        seq!['-'] + decimal4((-year) as nat)
    }
}

/// A date as it is written under one of the patterns of [`known_pattern`]:
/// `%Y` stands for the year, `%m` and `%d` for month and day in two digits,
/// `%B` for the English name of the month, `%A` for that of the day of the
/// week, and every other character for itself.
pub open spec fn formatted_date(year: int, month: int, day: int, pattern: Seq<char>) -> Seq<
    char,
> {
    if pattern == "%d-%m-%Y"@ {
        decimal2(day as nat) + seq!['-'] + decimal2(month as nat) + seq!['-'] + year_text(year)
    } else if pattern == "%Y-%m-%d"@ {
        year_text(year) + seq!['-'] + decimal2(month as nat) + seq!['-'] + decimal2(day as nat)
    } else if pattern == "%B %d, %Y"@ {
        month_name(month) + seq![' '] + decimal2(day as nat) + seq![',', ' '] + year_text(year)
    } else if pattern == "%Y-%m"@ {
        year_text(year) + seq!['-'] + decimal2(month as nat)
    } else if pattern == "%Y"@ {
        year_text(year)
    } else if pattern == "%B"@ {
        month_name(month)
    } else if pattern == "%A"@ {
        weekday_name(weekday_of(year, month, day))
    } else {
        seq![]
    }
}

/// The date that `chrono` finds the given number of days after the date, if it
/// is in range.
pub uninterp spec fn shifted_date(year: int, month: int, day: int, days: int) -> Option<Ymd>;

/// Formats a date with `chrono::NaiveDate::format` under one of the
/// patterns that the library uses. `chrono` writes `%Y` as the year in four
/// digits, with a sign and at least four digits outside of 0 to 9999; `%m`
/// and `%d` as month and day in two digits; `%B` and `%A` as the English
/// names of the month and of the day of the week; and the rest as it stands.
#[verifier::external_body]
fn chrono_format(year: i32, month: u32, day: u32, pattern: &str) -> (text: String)
    requires
        valid_ymd(year as int, month as int, day as int),
        known_pattern(pattern@),
    ensures
        text@ == formatted_date(year as int, month as int, day as int, pattern@),
{
    NaiveDate::from_ymd_opt(year, month, day).unwrap().format(pattern).to_string()
}

/// Adds days to a date with `chrono::NaiveDate::checked_add_signed`, which
/// gives no date where the result would be out of range. The result is a
/// function of the date and the number of days alone; a date that comes back
/// exists in the calendar.
#[verifier::external_body]
fn chrono_add_days(year: i32, month: u32, day: u32, days: i64) -> (r: Option<(i32, u32, u32)>)
    requires
        valid_ymd(year as int, month as int, day as int),
    ensures
        match r {
            Some(d) => shifted_date(year as int, month as int, day as int, days as int) == Some(
                (d.0 as int, d.1 as int, d.2 as int),
            ) && valid_ymd(d.0 as int, d.1 as int, d.2 as int),
            None => shifted_date(year as int, month as int, day as int, days as int).is_none(),
        },
{
    let date = NaiveDate::from_ymd_opt(year, month, day).unwrap();
    let moved = date.checked_add_signed(TimeDelta::try_days(days)?)?;
    Some((moved.year(), moved.month(), moved.day()))
}

/// The day of the week on which `chrono` finds the date: 0 for Monday to 6
/// for Sunday.
pub uninterp spec fn weekday_of(year: int, month: int, day: int) -> int;

/// The ISO week in which `chrono` finds the date: the week's year and its
/// number.
pub uninterp spec fn iso_week_of(year: int, month: int, day: int) -> (int, int);

/// The Monday of an ISO week as `chrono` finds it, if there is such a week
/// in range.
pub uninterp spec fn iso_week_monday(year: int, week: int) -> Option<Ymd>;

/// The Monday of an ISO week: none where no date can have the year.
pub open spec fn monday_of_iso_week(year: int, week: int) -> Option<Ymd> {
    if MIN_YEAR <= year <= MAX_YEAR {
        iso_week_monday(year, week)
    } else {
        None
    }
}

/// The date that `chrono` reads from a text under a strftime pattern, if it
/// reads one.
pub uninterp spec fn parsed_date(text: Seq<char>, pattern: Seq<char>) -> Option<Ymd>;

/// The day of the week, by `chrono::Datelike::weekday` and
/// `Weekday::num_days_from_monday`, which counts from Monday, 0, to Sunday,
/// 6. It is a function of the date alone.
#[verifier::external_body]
fn chrono_weekday(year: i32, month: u32, day: u32) -> (r: u32)
    requires
        valid_ymd(year as int, month as int, day as int),
    ensures
        r == weekday_of(year as int, month as int, day as int),
        r < 7,
{
    NaiveDate::from_ymd_opt(year, month, day).unwrap().weekday().num_days_from_monday()
}

/// The ISO week of a date, by `chrono::Datelike::iso_week`: its year and its
/// number, which is from 1 to 53. It is a function of the date alone.
#[verifier::external_body]
fn chrono_iso_week(year: i32, month: u32, day: u32) -> (r: (i32, u32))
    requires
        valid_ymd(year as int, month as int, day as int),
    ensures
        (r.0 as int, r.1 as int) == iso_week_of(year as int, month as int, day as int),
        1 <= r.1 <= 53,
{
    let week = NaiveDate::from_ymd_opt(year, month, day).unwrap().iso_week();
    (week.year(), week.week())
}

/// The Monday of an ISO week, by `chrono::NaiveDate::from_isoywd_opt`, which
/// gives no date where there is no such week or it is out of range. The
/// result is a function of year and week alone; a date that comes back
/// exists in the calendar. The year must be one that a date can have:
/// `chrono` computes with the year before it tests the range.
#[verifier::external_body]
fn chrono_iso_monday(year: i32, week: u32) -> (r: Option<(i32, u32, u32)>)
    requires
        MIN_YEAR <= year <= MAX_YEAR,
    ensures
        match r {
            Some(d) => iso_week_monday(year as int, week as int) == Some(
                (d.0 as int, d.1 as int, d.2 as int),
            ) && valid_ymd(d.0 as int, d.1 as int, d.2 as int),
            None => iso_week_monday(year as int, week as int).is_none(),
        },
{
    let date = NaiveDate::from_isoywd_opt(year, week, Weekday::Mon)?;
    Some((date.year(), date.month(), date.day()))
}

/// Reads a date with `chrono::NaiveDate::parse_from_str`; a text that it
/// does not take gives no date. The result is a function of text and
/// pattern alone; a date that comes back exists in the calendar.
#[verifier::external_body]
fn chrono_parse(text: &str, pattern: &str) -> (r: Option<(i32, u32, u32)>)
    ensures
        match r {
            Some(d) => parsed_date(text@, pattern@) == Some((d.0 as int, d.1 as int, d.2 as int))
                && valid_ymd(d.0 as int, d.1 as int, d.2 as int),
            None => parsed_date(text@, pattern@).is_none(),
        },
{
    let date = NaiveDate::parse_from_str(text, pattern).ok()?;
    Some((date.year(), date.month(), date.day()))
}

impl Date {
    #[verifier::type_invariant]
    spec fn in_calendar(self) -> bool {
        valid_ymd(self.year as int, self.month as int, self.day as int)
    }

    /// The date of the given year, month and day, if there is such a day and
    /// the year is in range.
    pub fn from_ymd_opt(year: i32, month: u32, day: u32) -> (r: Option<Date>)
        ensures
            valid_ymd(year as int, month as int, day as int) ==> (r matches Some(d) && d@ == (
                year as int,
                month as int,
                day as int,
            )),
            !valid_ymd(year as int, month as int, day as int) ==> r.is_none(),
    {
        if year < MIN_YEAR || year > MAX_YEAR || month < 1 || month > 12 || day < 1 {
            return None;
        }
        let leap = year % 4 == 0 && (year % 100 != 0 || year % 400 == 0);
        let last: u32 = if month == 2 {
            if leap {
                29
            } else {
                28
            }
        } else if month == 4 || month == 6 || month == 9 || month == 11 {
            30
        } else {
            31
        };
        assert(leap == is_leap_year(year as int)) by {
            lemma_leap_rem(year);
        }
        if day > last {
            return None;
        }
        Some(Date { year, month, day })
    }

    /// The year. Every date that the program holds exists in the calendar.
    pub fn year(&self) -> (y: i32)
        ensures
            y == self@.0,
            valid_ymd(self@.0, self@.1, self@.2),
    {
        proof {
            use_type_invariant(self);
        }
        self.year
    }

    /// The month, from 1 to 12.
    pub fn month(&self) -> (m: u32)
        ensures
            m == self@.1,
    {
        self.month
    }

    /// The day of the month, from 1.
    pub fn day(&self) -> (d: u32)
        ensures
            d == self@.2,
    {
        self.day
    }

    /// Whether the date is earlier than `other`.
    pub fn is_before(&self, other: &Date) -> (r: bool)
        ensures
            r == ymd_before(self@, other@),
    {
        self.year < other.year || (self.year == other.year && (self.month < other.month || (
        self.month == other.month && self.day < other.day)))
    }

    /// Whether the two are the same day.
    pub fn same_day(&self, other: &Date) -> (r: bool)
        ensures
            r == (self@ == other@),
    {
        self.year == other.year && self.month == other.month && self.day == other.day
    }

    /// The date as text, under one of the patterns that the library uses.
    pub fn format(&self, pattern: &str) -> (text: String)
        requires
            known_pattern(pattern@),
        ensures
            text@ == formatted_date(self@.0, self@.1, self@.2, pattern@),
    {
        proof {
            use_type_invariant(self);
        }
        chrono_format(self.year, self.month, self.day, pattern)
    }

    /// The date that lies `days` days later (earlier, where `days` is
    /// negative), if that date is in range.
    pub fn checked_add_days(&self, days: i64) -> (r: Option<Date>)
        ensures
            match r {
                Some(d) => shifted_date(self@.0, self@.1, self@.2, days as int) == Some(d@),
                None => shifted_date(self@.0, self@.1, self@.2, days as int).is_none(),
            },
    {
        proof {
            use_type_invariant(self);
        }
        match chrono_add_days(self.year, self.month, self.day, days) {
            Some(d) => Some(Date { year: d.0, month: d.1, day: d.2 }),
            None => None,
        }
    }

    /// The day of the week: 0 for Monday to 6 for Sunday.
    pub fn weekday(&self) -> (r: u32)
        ensures
            r == weekday_of(self@.0, self@.1, self@.2),
            r < 7,
    {
        proof {
            use_type_invariant(self);
        }
        chrono_weekday(self.year, self.month, self.day)
    }

    /// The ISO week of the date: the week's year and its number.
    pub fn iso_week(&self) -> (r: (i32, u32))
        ensures
            (r.0 as int, r.1 as int) == iso_week_of(self@.0, self@.1, self@.2),
            1 <= r.1 <= 53,
    {
        proof {
            use_type_invariant(self);
        }
        chrono_iso_week(self.year, self.month, self.day)
    }

    /// The Monday of the given ISO week, if the year is one that a date can
    /// have and there is such a week in range.
    pub fn from_iso_week_monday(year: i32, week: u32) -> (r: Option<Date>)
        ensures
            date_view(r) == monday_of_iso_week(year as int, week as int),
    {
        if year < MIN_YEAR || year > MAX_YEAR {
            return None;
        }
        match chrono_iso_monday(year, week) {
            Some(d) => Some(Date { year: d.0, month: d.1, day: d.2 }),
            None => None,
        }
    }

    /// The date that a text spells under a strftime pattern, if it spells
    /// one.
    pub fn parse_from_str(text: &str, pattern: &str) -> (r: Option<Date>)
        ensures
            date_view(r) == parsed_date(text@, pattern@),
    {
        match chrono_parse(text, pattern) {
            Some(d) => Some(Date { year: d.0, month: d.1, day: d.2 }),
            None => None,
        }
    }

    /// The Monday of the date's week, if it is in range.
    pub fn week_start(&self) -> (r: Option<Date>)
        ensures
            date_view(r) == monday_of(self@),
    {
        let back = self.weekday();
        self.checked_add_days(-(back as i64))
    }
}

/// The Monday on or before a date: as many days before it as its day of the
/// week counts from Monday.
pub open spec fn monday_of(d: Ymd) -> Option<Ymd> {
    shifted_date(d.0, d.1, d.2, -weekday_of(d.0, d.1, d.2))
}

/// The remainder that Rust computes for a year agrees with the mathematical
/// one on whether it is zero.
proof fn lemma_leap_rem(year: i32)
    ensures
        ((year % 4) as int == 0) == ((year as int) % 4 == 0),
        ((year % 100) as int == 0) == ((year as int) % 100 == 0),
        ((year % 400) as int == 0) == ((year as int) % 400 == 0),
{
}

/// Whether two optional dates are the same.
pub fn same_date(a: &Option<Date>, b: &Option<Date>) -> (r: bool)
    ensures
        r == (date_view(*a) == date_view(*b)),
{
    match (a, b) {
        (Some(x), Some(y)) => x.same_day(y),
        (None, None) => true,
        _ => false,
    }
}

/// The mathematical form of an optional date.
pub open spec fn date_view(d: Option<Date>) -> Option<Ymd> {
    match d {
        Some(x) => Some(x@),
        None => None,
    }
}

} // verus!
