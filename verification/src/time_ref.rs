//! References to days: `today`, `last monday`, `17-01-2025`.

use vstd::prelude::*;
use crate::date::{date_view, parsed_date, shifted_date, weekday_of, Date, Ymd};
use crate::error::DjourError;
use crate::text::{
    chars_of, extend, has_prefix_str, slice, starts_with, str_is, string_of, to_lowercase, trim,
    trim_ws, unicode_lower,
};

verus! {

/// A day of the week.
#[derive(Debug, Clone, Copy, PartialEq, Eq)]
pub enum Weekday {
    Mon,
    Tue,
    Wed,
    Thu,
    Fri,
    Sat,
    Sun,
}

impl Weekday {
    /// The number of days from Monday to the day.
    pub open spec fn number(self) -> int {
        match self {
            Weekday::Mon => 0,
            Weekday::Tue => 1,
            Weekday::Wed => 2,
            Weekday::Thu => 3,
            Weekday::Fri => 4,
            Weekday::Sat => 5,
            Weekday::Sun => 6,
        }
    }

    /// The number of days from Monday to this day of the week.
    pub fn num_days_from_monday(&self) -> (n: u32)
        ensures
            n == self.number(),
    {
        match self {
            Weekday::Mon => 0,
            Weekday::Tue => 1,
            Weekday::Wed => 2,
            Weekday::Thu => 3,
            Weekday::Fri => 4,
            Weekday::Sat => 5,
            Weekday::Sun => 6,
        }
    }
}

/// A reference to a day, to be resolved against the current day.
#[derive(Debug, Clone, PartialEq, Eq)]
pub enum TimeReference {
    Today,
    Yesterday,
    Tomorrow,
    /// The day of the week, today or the last one before today.
    Weekday(Weekday),
    /// The last such day of the week before today.
    LastWeekday(Weekday),
    /// The next such day of the week after today.
    NextWeekday(Weekday),
    SpecificDate(Date),
}

/// The mathematical form of a reference.
pub ghost enum TimeRefView {
    Today,
    Yesterday,
    Tomorrow,
    Weekday(Weekday),
    LastWeekday(Weekday),
    NextWeekday(Weekday),
    SpecificDate(Ymd),
}

impl View for TimeReference {
    type V = TimeRefView;

    open spec fn view(&self) -> TimeRefView {
        match self {
            TimeReference::Today => TimeRefView::Today,
            TimeReference::Yesterday => TimeRefView::Yesterday,
            TimeReference::Tomorrow => TimeRefView::Tomorrow,
            TimeReference::Weekday(w) => TimeRefView::Weekday(*w),
            TimeReference::LastWeekday(w) => TimeRefView::LastWeekday(*w),
            TimeReference::NextWeekday(w) => TimeRefView::NextWeekday(*w),
            TimeReference::SpecificDate(d) => TimeRefView::SpecificDate(d@),
        }
    }
}

/// The day of the week with the given name, in lower case.
pub open spec fn weekday_named(name: Seq<char>) -> Option<Weekday> {
    if name == "monday"@ {
        Some(Weekday::Mon)
    } else if name == "tuesday"@ {
        Some(Weekday::Tue)
    } else if name == "wednesday"@ {
        Some(Weekday::Wed)
    } else if name == "thursday"@ {
        Some(Weekday::Thu)
    } else if name == "friday"@ {
        Some(Weekday::Fri)
    } else if name == "saturday"@ {
        Some(Weekday::Sat)
    } else if name == "sunday"@ {
        Some(Weekday::Sun)
    } else {
        None
    }
}

/// What follows the first five characters.
pub open spec fn after_five(n: Seq<char>) -> Seq<char> {
    n.subrange(5, n.len() as int)
}

/// The reference that a text spells, or the text of the error. The text is
/// read without the white space at its ends and in lower case.
pub open spec fn time_reference(input: Seq<char>) -> Result<TimeRefView, Seq<char>> {
    let n = unicode_lower(trim_ws(input));
    if n == "today"@ || n == "now"@ {
        Ok(TimeRefView::Today)
    } else if n == "yesterday"@ {
        Ok(TimeRefView::Yesterday)
    } else if n == "tomorrow"@ {
        Ok(TimeRefView::Tomorrow)
    } else if weekday_named(n) is Some {
        Ok(TimeRefView::Weekday(weekday_named(n)->0))
    } else if starts_with(n, "last "@) {
        match weekday_named(after_five(n)) {
            Some(w) => Ok(TimeRefView::LastWeekday(w)),
            None => Err("last/next "@ + after_five(n)),
        }
    } else if starts_with(n, "next "@) {
        match weekday_named(after_five(n)) {
            Some(w) => Ok(TimeRefView::NextWeekday(w)),
            None => Err("last/next "@ + after_five(n)),
        }
    } else {
        match parsed_date(n, "%d-%m-%Y"@) {
            Some(d) => Ok(TimeRefView::SpecificDate(d)),
            None => Err(input),
        }
    }
}

/// The day of the week with the given name.
pub fn weekday_from_name(name: &str) -> (r: Option<Weekday>)
    ensures
        r == weekday_named(name@),
{
    if str_is(name, "monday") {
        Some(Weekday::Mon)
    } else if str_is(name, "tuesday") {
        Some(Weekday::Tue)
    } else if str_is(name, "wednesday") {
        Some(Weekday::Wed)
    } else if str_is(name, "thursday") {
        Some(Weekday::Thu)
    } else if str_is(name, "friday") {
        Some(Weekday::Fri)
    } else if str_is(name, "saturday") {
        Some(Weekday::Sat)
    } else if str_is(name, "sunday") {
        Some(Weekday::Sun)
    } else {
        None
    }
}

/// How the days to go are counted.
#[derive(Debug, Clone, Copy, PartialEq, Eq)]
pub enum WeekdayOffset {
    /// To the day itself, or the last one before.
    Current,
    /// To the last one before.
    Last,
    /// To the next one after.
    Next,
}

/// The number of days from a day of the week to the wanted one: back, as a
/// negative number, or forth.
pub open spec fn days_to(current: int, target: int, offset: WeekdayOffset) -> int {
    match offset {
        WeekdayOffset::Current => -((current + 7 - target) % 7),
        WeekdayOffset::Last => if (current + 7 - target) % 7 == 0 {
            -7
        } else {
            -((current + 7 - target) % 7)
        },
        WeekdayOffset::Next => if current == target {
            7
        } else {
            (target + 7 - current) % 7
        },
    }
}

/// Counts the days from a day of the week to the wanted one: see
/// [`days_to`].
pub fn find_weekday(current: u32, target: u32, offset: WeekdayOffset) -> (days: i64)
    requires
        current < 7,
        target < 7,
    ensures
        days == days_to(current as int, target as int, offset),
        -7 <= days <= 7,
{
    match offset {
        WeekdayOffset::Current => {
            let back: u32 = (current + 7 - target) % 7;
            0 - (back as i64)
        },
        WeekdayOffset::Last => {
            let back: u32 = (current + 7 - target) % 7;
            if back == 0 {
                -7
            } else {
                0 - (back as i64)
            }
        },
        WeekdayOffset::Next => {
            if current == target {
                7
            } else {
                ((target + 7 - current) % 7) as i64
            }
        },
    }
}

/// The day that a reference means on a given day, if it is in range.
pub open spec fn resolved(t: TimeRefView, base: Ymd) -> Option<Ymd> {
    let today = weekday_of(base.0, base.1, base.2);
    match t {
        TimeRefView::Today => Some(base),
        TimeRefView::Yesterday => shifted_date(base.0, base.1, base.2, -1),
        TimeRefView::Tomorrow => shifted_date(base.0, base.1, base.2, 1),
        TimeRefView::Weekday(w) => if today == w.number() {
            Some(base)
        } else {
            shifted_date(
                base.0,
                base.1,
                base.2,
                days_to(today, w.number(), WeekdayOffset::Current),
            )
        },
        TimeRefView::LastWeekday(w) => shifted_date(
            base.0,
            base.1,
            base.2,
            days_to(today, w.number(), WeekdayOffset::Last),
        ),
        TimeRefView::NextWeekday(w) => shifted_date(
            base.0,
            base.1,
            base.2,
            days_to(today, w.number(), WeekdayOffset::Next),
        ),
        TimeRefView::SpecificDate(d) => Some(d),
    }
}

impl TimeReference {
    /// Reads a reference: `today`, `now`, `yesterday`, `tomorrow`, the name
    /// of a day of the week, alone or behind `last` or `next`, or a date as
    /// day, month and year.
    pub fn parse(input: &str) -> (r: Result<TimeReference, DjourError>)
        ensures
            match time_reference(input@) {
                Ok(t) => r matches Ok(x) && x@ == t,
                Err(m) => r matches Err(DjourError::InvalidTimeReference(msg)) && msg@ == m,
            },
    {
        let trimmed = string_of(&trim(&chars_of(input)));
        let normalized = to_lowercase(trimmed.as_str());
        let n = normalized.as_str();
        if str_is(n, "today") || str_is(n, "now") {
            return Ok(TimeReference::Today);
        }
        if str_is(n, "yesterday") {
            return Ok(TimeReference::Yesterday);
        }
        if str_is(n, "tomorrow") {
            return Ok(TimeReference::Tomorrow);
        }
        if let Some(w) = weekday_from_name(n) {
            return Ok(TimeReference::Weekday(w));
        }
        let chars = chars_of(n);
        proof {
            reveal_strlit("last ");
            reveal_strlit("next ");
        }
        let last = has_prefix_str(&chars, "last ");
        let next = has_prefix_str(&chars, "next ");
        if last || next {
            let rest = slice(&chars, 5, chars.len());
            return TimeReference::parse_offset_weekday(string_of(&rest).as_str(), last);
        }
        match Date::parse_from_str(n, "%d-%m-%Y") {
            Some(d) => Ok(TimeReference::SpecificDate(d)),
            None => Err(DjourError::InvalidTimeReference(string_of(&chars_of(input)))),
        }
    }

    /// Reads the name of a day of the week that stands behind `last` or
    /// `next`.
    pub fn parse_offset_weekday(day_str: &str, last: bool) -> (r: Result<TimeReference, DjourError>)
        ensures
            match weekday_named(day_str@) {
                Some(w) => r matches Ok(x) && x@ == (if last {
                    TimeRefView::LastWeekday(w)
                } else {
                    TimeRefView::NextWeekday(w)
                }),
                None => r matches Err(DjourError::InvalidTimeReference(msg)) && msg@
                    == "last/next "@ + day_str@,
            },
    {
        match weekday_from_name(day_str) {
            Some(w) => if last {
                Ok(TimeReference::LastWeekday(w))
            } else {
                Ok(TimeReference::NextWeekday(w))
            },
            None => {
                let mut msg = chars_of("last/next ");
                extend(&mut msg, &chars_of(day_str));
                Err(DjourError::InvalidTimeReference(string_of(&msg)))
            },
        }
    }

    /// The day that the reference means on `base_date`, where it is in
    /// range: see [`TimeReference::try_resolve`].
    pub fn resolve(&self, base_date: Date) -> (day: Date)
        requires
            resolved(self@, base_date@) is Some,
        ensures
            Some(day@) == resolved(self@, base_date@),
    {
        match self {
            TimeReference::Today => base_date,
            TimeReference::Yesterday => base_date.checked_add_days(-1).unwrap(),
            TimeReference::Tomorrow => base_date.checked_add_days(1).unwrap(),
            TimeReference::Weekday(w) => {
                let today = base_date.weekday();
                let target = w.num_days_from_monday();
                if today == target {
                    base_date
                } else {
                    base_date.checked_add_days(
                        find_weekday(today, target, WeekdayOffset::Current),
                    ).unwrap()
                }
            },
            TimeReference::LastWeekday(w) => base_date.checked_add_days(
                find_weekday(
                    base_date.weekday(),
                    w.num_days_from_monday(),
                    WeekdayOffset::Last,
                ),
            ).unwrap(),
            TimeReference::NextWeekday(w) => base_date.checked_add_days(
                find_weekday(
                    base_date.weekday(),
                    w.num_days_from_monday(),
                    WeekdayOffset::Next,
                ),
            ).unwrap(),
            TimeReference::SpecificDate(d) => *d,
        }
    }

    /// The day that the reference means on `base_date`, or nothing where
    /// that day is out of range.
    pub fn try_resolve(&self, base_date: Date) -> (r: Option<Date>)
        ensures
            date_view(r) == resolved(self@, base_date@),
    {
        let days: i64 = match self {
            TimeReference::Today => 0,
            TimeReference::Yesterday => -1,
            TimeReference::Tomorrow => 1,
            TimeReference::Weekday(w) => find_weekday(
                base_date.weekday(),
                w.num_days_from_monday(),
                WeekdayOffset::Current,
            ),
            TimeReference::LastWeekday(w) => find_weekday(
                base_date.weekday(),
                w.num_days_from_monday(),
                WeekdayOffset::Last,
            ),
            TimeReference::NextWeekday(w) => find_weekday(
                base_date.weekday(),
                w.num_days_from_monday(),
                WeekdayOffset::Next,
            ),
            TimeReference::SpecificDate(_) => 0,
        };
        let plain = match self {
            TimeReference::Today => true,
            TimeReference::SpecificDate(_) => true,
            TimeReference::Weekday(w) => base_date.weekday() == w.num_days_from_monday(),
            _ => false,
        };
        if plain || base_date.checked_add_days(days).is_some() {
            Some(self.resolve(base_date))
        } else {
            None
        }
    }
}

} // verus!
