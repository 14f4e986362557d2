//! How a journal is divided into files.

use vstd::prelude::*;
use crate::date::{
    date_view, formatted_date, monday_of_iso_week, iso_week_of, monday_of, parsed_date, weekday_of,
    Date, Ymd,
};
use crate::numbers::{
    parse_i32, parse_u32, parsed_i32, parsed_u32, push_decimal2, push_signed, signed_decimal,
};
use crate::paths::{split, split_on};
use crate::text::{
    chars_of, decimal2, ends_with, extend, extend_str, has_prefix_str, has_suffix_str, slice,
    starts_with, str_is, string_of, to_lowercase, unicode_lower, vec_views,
};

verus! {

/// The division of a journal into files.
#[derive(Debug, Clone, Copy, PartialEq, Eq)]
pub enum JournalMode {
    /// One file for each day.
    Daily,
    /// One file for each ISO week.
    Weekly,
    /// One file for each month.
    Monthly,
    /// One file for everything.
    Single,
}

impl JournalMode {
    /// The name of the template of the mode's files.
    pub open spec fn template(self) -> Seq<char> {
        match self {
            JournalMode::Daily => "daily.md"@,
            JournalMode::Weekly => "weekly.md"@,
            JournalMode::Monthly => "monthly.md"@,
            JournalMode::Single => "entry.md"@,
        }
    }

    /// The mode's name, in lower case.
    pub open spec fn name(self) -> Seq<char> {
        match self {
            JournalMode::Daily => "daily"@,
            JournalMode::Weekly => "weekly"@,
            JournalMode::Monthly => "monthly"@,
            JournalMode::Single => "single"@,
        }
    }

    /// The mode with the given name.
    pub open spec fn named(name: Seq<char>) -> Option<JournalMode> {
        if name == "daily"@ {
            Some(JournalMode::Daily)
        } else if name == "weekly"@ {
            Some(JournalMode::Weekly)
        } else if name == "monthly"@ {
            Some(JournalMode::Monthly)
        } else if name == "single"@ {
            Some(JournalMode::Single)
        } else {
            None
        }
    }

    /// What is said of a text that names no mode.
    pub open spec fn invalid(s: Seq<char>) -> Seq<char> {
        "Invalid mode: '"@ + s + "'. Valid modes are: daily, weekly, monthly, single"@
    }

    /// The name of the template from which notes of this mode are made.
    pub fn template_name(&self) -> (name: &'static str)
        ensures
            name@ == self.template(),
    {
        match self {
            JournalMode::Daily => "daily.md",
            JournalMode::Weekly => "weekly.md",
            JournalMode::Monthly => "monthly.md",
            JournalMode::Single => "entry.md",
        }
    }

    /// The mode's name, in lower case.
    pub fn as_str(&self) -> (name: &'static str)
        ensures
            name@ == self.name(),
    {
        match self {
            JournalMode::Daily => "daily",
            JournalMode::Weekly => "weekly",
            JournalMode::Monthly => "monthly",
            JournalMode::Single => "single",
        }
    }

    /// Reads the name of a mode, in any case of letters.
    pub fn parse(s: &str) -> (r: Result<JournalMode, String>)
        ensures
            match JournalMode::named(unicode_lower(s@)) {
                Some(mode) => r == Ok::<JournalMode, String>(mode),
                None => r matches Err(msg) && msg@ == JournalMode::invalid(s@),
            },
    {
        let lower = to_lowercase(s);
        if str_is(lower.as_str(), "daily") {
            Ok(JournalMode::Daily)
        } else if str_is(lower.as_str(), "weekly") {
            Ok(JournalMode::Weekly)
        } else if str_is(lower.as_str(), "monthly") {
            Ok(JournalMode::Monthly)
        } else if str_is(lower.as_str(), "single") {
            Ok(JournalMode::Single)
        } else {
            let mut msg = chars_of("Invalid mode: '");
            extend_str(&mut msg, s);
            extend_str(&mut msg, "'. Valid modes are: daily, weekly, monthly, single");
            Err(string_of(&msg))
        }
    }
}

/// The name of the file of a week: the ISO year and week of the date, then
/// the Monday of the week.
pub open spec fn weekly_filename(d: Ymd, monday: Ymd) -> Seq<char> {
    signed_decimal(iso_week_of(d.0, d.1, d.2).0) + "-W"@ + decimal2(
        iso_week_of(d.0, d.1, d.2).1 as nat,
    ) + "-"@ + formatted_date(monday.0, monday.1, monday.2, "%Y-%m-%d"@) + ".md"@
}

/// A file name without the `.md` at its end, if it ends so.
pub open spec fn stem_of(filename: Seq<char>) -> Option<Seq<char>> {
    if ends_with(filename, ".md"@) {
        Some(filename.subrange(0, filename.len() - 3))
    } else {
        None
    }
}

/// What follows the `W` of a week.
pub open spec fn week_digits(part: Seq<char>) -> Seq<char> {
    part.subrange(1, part.len() as int)
}

/// The day that the stem of a weekly file stands for: the Monday of the
/// week that `YYYY-Www` names, or the date of `YYYY-Www-YYYY-MM-DD` where it
/// is the Monday of that week.
pub open spec fn weekly_date(stem: Seq<char>) -> Option<Ymd> {
    let parts = split_on(stem, '-');
    if (parts.len() == 2 || parts.len() == 5) && starts_with(parts[1], "W"@) {
        match (parsed_i32(parts[0]), parsed_u32(week_digits(parts[1]))) {
            (Some(year), Some(week)) => if parts.len() == 2 {
                monday_of_iso_week(year, week)
            } else {
                match parsed_date(parts[2] + "-"@ + parts[3] + "-"@ + parts[4], "%Y-%m-%d"@) {
                    Some(d) => if iso_week_of(d.0, d.1, d.2) == (year, week) && weekday_of(
                        d.0,
                        d.1,
                        d.2,
                    ) == 0 {
                        Some(d)
                    } else {
                        None
                    },
                    None => None,
                }
            },
            _ => None,
        }
    } else {
        None
    }
}

impl JournalMode {
    /// The date has a file under the mode: the Monday of its week is in
    /// range where the mode is weekly.
    pub open spec fn has_file(self, d: Ymd) -> bool {
        self is Weekly ==> monday_of(d) is Some
    }

    /// The name of the file that holds the date.
    pub open spec fn file_of(self, d: Ymd) -> Seq<char> {
        match self {
            JournalMode::Daily => formatted_date(d.0, d.1, d.2, "%Y-%m-%d"@) + ".md"@,
            JournalMode::Weekly => match monday_of(d) {
                Some(monday) => weekly_filename(d, monday),
                None => seq![],
            },
            JournalMode::Monthly => formatted_date(d.0, d.1, d.2, "%Y-%m"@) + ".md"@,
            JournalMode::Single => "journal.md"@,
        }
    }

    /// The day that a file name stands for under the mode.
    pub open spec fn date_of(self, filename: Seq<char>) -> Option<Ymd> {
        match stem_of(filename) {
            None => None,
            Some(stem) => match self {
                JournalMode::Daily => parsed_date(stem, "%Y-%m-%d"@),
                JournalMode::Weekly => weekly_date(stem),
                JournalMode::Monthly => parsed_date(stem + "-01"@, "%Y-%m-%d"@),
                JournalMode::Single => None,
            },
        }
    }

    /// The name of the file that holds the date, where it has one: see
    /// [`JournalMode::try_filename_for_date`].
    pub fn filename_for_date(&self, date: Date) -> (name: String)
        requires
            self.has_file(date@),
        ensures
            name@ == self.file_of(date@),
    {
        let mut out: Vec<char> = Vec::new();
        match self {
            JournalMode::Daily => {
                extend_str(&mut out, date.format("%Y-%m-%d").as_str());
                extend_str(&mut out, ".md");
            },
            JournalMode::Weekly => {
                let week = date.iso_week();
                let monday = date.week_start().unwrap();
                push_signed(&mut out, week.0);
                extend_str(&mut out, "-W");
                push_decimal2(&mut out, week.1);
                extend_str(&mut out, "-");
                extend_str(&mut out, monday.format("%Y-%m-%d").as_str());
                extend_str(&mut out, ".md");
            },
            JournalMode::Monthly => {
                extend_str(&mut out, date.format("%Y-%m").as_str());
                extend_str(&mut out, ".md");
            },
            JournalMode::Single => {
                extend_str(&mut out, "journal.md");
            },
        }
        string_of(&out)
    }

    /// The name of the file that holds the date, or nothing where the mode
    /// is weekly and the Monday of the date's week is out of range.
    pub fn try_filename_for_date(&self, date: Date) -> (r: Option<String>)
        ensures
            match r {
                Some(name) => self.has_file(date@) && name@ == self.file_of(date@),
                None => !self.has_file(date@),
            },
    {
        let weekly = match self {
            JournalMode::Weekly => true,
            _ => false,
        };
        if weekly && date.week_start().is_none() {
            return None;
        }
        Some(self.filename_for_date(date))
    }

    /// The day that a file name stands for under the mode, if it stands for
    /// one.
    pub fn date_from_filename(&self, filename: &str) -> (r: Option<Date>)
        ensures
            date_view(r) == self.date_of(filename@),
    {
        let name = chars_of(filename);
        proof {
            reveal_strlit(".md");
        }
        if !has_suffix_str(&name, ".md") {
            return None;
        }
        let stem = slice(&name, 0, name.len() - 3);
        match self {
            JournalMode::Daily => Date::parse_from_str(string_of(&stem).as_str(), "%Y-%m-%d"),
            JournalMode::Weekly => {
                let parts = split(&stem, '-');
                let ghost pv = vec_views(parts@);
                if !(parts.len() == 2 || parts.len() == 5) {
                    return None;
                }
                assert(pv[0] == parts@[0]@ && pv[1] == parts@[1]@);
                proof {
                    reveal_strlit("W");
                }
                if !has_prefix_str(&parts[1], "W") {
                    return None;
                }
                let year = match parse_i32(&parts[0]) {
                    Some(y) => y,
                    None => {
                        return None;
                    },
                };
                let week = match parse_u32(&slice(&parts[1], 1, parts[1].len())) {
                    Some(w) => w,
                    None => {
                        return None;
                    },
                };
                if parts.len() == 2 {
                    return Date::from_iso_week_monday(year, week);
                }
                assert(pv[2] == parts@[2]@ && pv[3] == parts@[3]@ && pv[4] == parts@[4]@);
                let mut text: Vec<char> = Vec::new();
                extend(&mut text, &parts[2]);
                extend_str(&mut text, "-");
                extend(&mut text, &parts[3]);
                extend_str(&mut text, "-");
                extend(&mut text, &parts[4]);
                assert(text@ =~= pv[2] + "-"@ + pv[3] + "-"@ + pv[4]);
                match Date::parse_from_str(string_of(&text).as_str(), "%Y-%m-%d") {
                    Some(start) => {
                        let iso = start.iso_week();
                        if iso.0 == year && iso.1 == week && start.weekday() == 0 {
                            Some(start)
                        } else {
                            None
                        }
                    },
                    None => None,
                }
            },
            JournalMode::Monthly => {
                let mut text = stem;
                extend_str(&mut text, "-01");
                Date::parse_from_str(string_of(&text).as_str(), "%Y-%m-%d")
            },
            JournalMode::Single => None,
        }
    }
}

impl Default for JournalMode {
    fn default() -> (mode: JournalMode)
        ensures
            mode == JournalMode::Daily,
    {
        JournalMode::Daily
    }
}

impl std::str::FromStr for JournalMode {
    type Err = String;

    /// Reads the name of a mode, in any case: see [`JournalMode::parse`].
    fn from_str(s: &str) -> (r: Result<JournalMode, String>)
        ensures
            match JournalMode::named(unicode_lower(s@)) {
                Some(mode) => r == Ok::<JournalMode, String>(mode),
                None => r matches Err(msg) && msg@ == JournalMode::invalid(s@),
            },
    {
        JournalMode::parse(s)
    }
}

} // verus!
