//! Templates of new notes.

use vstd::prelude::*;
use crate::date::{formatted_date, iso_week_of, monday_of, shifted_date, Date, Ymd};
use crate::error::DjourError;
use crate::migration::{day_of_week, iso_date, long_date, week_fits, week_in_range};
use crate::numbers::push_decimal2;
use crate::text::{
    chars_of, decimal2, extend_str, replace, replaced, str_is, string_of,
};

verus! {

/// A template: the text of a new note, with placeholders in braces.
#[derive(Debug)]
pub struct Template {
    content: String,
}

/// The template of a daily note.
pub open spec fn daily_template() -> Seq<char> {
    "# {DATE}\n\n"@
}

/// The template of a weekly note.
pub open spec fn weekly_template() -> Seq<char> {
    "# Week {WEEK_NUMBER}, {YEAR} ({WEEK_START_DATE} - {WEEK_END_DATE})\n\n## Monday ({MONDAY_DATE})\n\n\n## Tuesday ({TUESDAY_DATE})\n\n\n## Wednesday ({WEDNESDAY_DATE})\n\n\n## Thursday ({THURSDAY_DATE})\n\n\n## Friday ({FRIDAY_DATE})\n\n\n## Saturday ({SATURDAY_DATE})\n\n\n## Sunday ({SUNDAY_DATE})\n\n"@
}

/// The template of a monthly note.
pub open spec fn monthly_template() -> Seq<char> {
    "# {MONTH} {YEAR}\n\n## Week 1\n\n\n## Week 2\n\n\n## Week 3\n\n\n## Week 4\n\n"@
}

/// The template of an entry of a journal in one file.
pub open spec fn entry_template() -> Seq<char> {
    "---\n\n# {DATE}\n\n"@
}

/// The built-in template of the given name.
pub open spec fn builtin(name: Seq<char>) -> Option<Seq<char>> {
    if name == "daily.md"@ {
        Some(daily_template())
    } else if name == "weekly.md"@ {
        Some(weekly_template())
    } else if name == "monthly.md"@ {
        Some(monthly_template())
    } else if name == "entry.md"@ {
        Some(entry_template())
    } else {
        None
    }
}

impl View for Template {
    type V = Seq<char>;

    closed spec fn view(&self) -> Seq<char> {
        self.content@
    }
}

impl Template {
    /// The template with the given text.
    pub fn new(content: String) -> (t: Template)
        ensures
            t@ == content@,
    {
        Template { content }
    }

    /// The template's text.
    pub fn content(&self) -> (text: &str)
        ensures
            text@ == self@,
    {
        self.content.as_str()
    }

    /// The built-in template of the given name; an error names a name that
    /// is unknown.
    pub fn from_builtin(template_name: &str) -> (r: Result<Template, DjourError>)
        ensures
            match builtin(template_name@) {
                Some(text) => r matches Ok(t) && t@ == text,
                None => r matches Err(DjourError::Template(msg)) && msg@ == "Unknown template: "@
                    + template_name@,
            },
    {
        let content = if str_is(template_name, "daily.md") {
            "# {DATE}\n\n"
        } else if str_is(template_name, "weekly.md") {
            "# Week {WEEK_NUMBER}, {YEAR} ({WEEK_START_DATE} - {WEEK_END_DATE})\n\n## Monday ({MONDAY_DATE})\n\n\n## Tuesday ({TUESDAY_DATE})\n\n\n## Wednesday ({WEDNESDAY_DATE})\n\n\n## Thursday ({THURSDAY_DATE})\n\n\n## Friday ({FRIDAY_DATE})\n\n\n## Saturday ({SATURDAY_DATE})\n\n\n## Sunday ({SUNDAY_DATE})\n\n"
        } else if str_is(template_name, "monthly.md") {
            "# {MONTH} {YEAR}\n\n## Week 1\n\n\n## Week 2\n\n\n## Week 3\n\n\n## Week 4\n\n"
        } else if str_is(template_name, "entry.md") {
            "---\n\n# {DATE}\n\n"
        } else {
            let mut msg = chars_of("Unknown template: ");
            extend_str(&mut msg, template_name);
            return Err(DjourError::Template(string_of(&msg)));
        };
        Ok(Template { content: string_of(&chars_of(content)) })
    }
}

/// The template of the given name: the custom one where the journal has
/// one, whose text is then given, else the built-in one.
pub fn load_template(custom: Option<String>, template_name: &str) -> (r: Result<
    Template,
    DjourError,
>)
    ensures
        match custom {
            Some(text) => r matches Ok(t) && t@ == text@,
            None => match builtin(template_name@) {
                Some(text) => r matches Ok(t) && t@ == text,
                None => r matches Err(DjourError::Template(msg)) && msg@ == "Unknown template: "@
                    + template_name@,
            },
        },
{
    match custom {
        Some(text) => Ok(Template::new(text)),
        None => Template::from_builtin(template_name),
    }
}

// ---------------------------------------------------------------------------
// Filling a template in
// ---------------------------------------------------------------------------

/// A placeholder and what stands for it.
pub type Pair = (Seq<char>, Seq<char>);

/// A text with placeholders replaced, one after the other in the order
/// given; each replacement works on what the one before it left.
pub open spec fn substituted(s: Seq<char>, pairs: Seq<Pair>) -> Seq<char>
    decreases pairs.len(),
{
    if pairs.len() == 0 {
        s
    } else {
        replaced(substituted(s, pairs.drop_last()), pairs.last().0, pairs.last().1)
    }
}

/// The name of day `i` of the week, in capitals.
pub open spec fn weekday_key(i: int) -> Seq<char> {
    if i == 0 {
        "MONDAY"@
    } else if i == 1 {
        "TUESDAY"@
    } else if i == 2 {
        "WEDNESDAY"@
    } else if i == 3 {
        "THURSDAY"@
    } else if i == 4 {
        "FRIDAY"@
    } else if i == 5 {
        "SATURDAY"@
    } else {
        "SUNDAY"@
    }
}

/// The placeholders of a date and its week, before those of the days.
pub open spec fn date_pairs(d: Ymd, monday: Ymd) -> Seq<Pair> {
    seq![
        ("{DATE}"@, long_date(d)),
        ("{ISO_DATE}"@, iso_date(d)),
        ("{YEAR}"@, formatted_date(d.0, d.1, d.2, "%Y"@)),
        ("{MONTH}"@, formatted_date(d.0, d.1, d.2, "%B"@)),
        ("{WEEK_NUMBER}"@, decimal2(iso_week_of(d.0, d.1, d.2).1 as nat)),
        ("{WEEK_START_DATE}"@, long_date(monday)),
        ("{WEEK_END_DATE}"@, long_date(day_of_week(monday, 6))),
        ("{WEEK_START_ISO}"@, iso_date(monday)),
        ("{WEEK_END_ISO}"@, iso_date(day_of_week(monday, 6))),
    ]
}

/// The two placeholders of each day of the week: its date as the notes
/// write it, and as file names write it.
pub open spec fn weekday_pairs(monday: Ymd) -> Seq<Pair> {
    Seq::new(
        14,
        |j: int|
            if j % 2 == 0 {
                (seq!['{'] + weekday_key(j / 2) + "_DATE}"@, long_date(day_of_week(monday, j / 2)))
            } else {
                (seq!['{'] + weekday_key(j / 2) + "_ISO}"@, iso_date(day_of_week(monday, j / 2)))
            },
    )
}

/// All placeholders, in the order in which they are replaced.
pub open spec fn placeholders(d: Ymd, monday: Ymd) -> Seq<Pair> {
    date_pairs(d, monday) + weekday_pairs(monday) + seq![
        ("{DAY_NAME}"@, formatted_date(d.0, d.1, d.2, "%A"@)),
    ]
}

/// A template can be filled in for the date: the week of the date is in
/// range.
pub open spec fn renderable(d: Ymd) -> bool {
    monday_of(d) is Some && week_in_range(monday_of(d)->0)
}

/// The views of a list of placeholders with their values.
pub open spec fn pair_views(v: Seq<(Vec<char>, Vec<char>)>) -> Seq<Pair> {
    Seq::new(v.len(), |i: int| (v[i].0@, v[i].1@))
}

fn key_of_weekday(i: usize) -> (name: &'static str)
    ensures
        name@ == weekday_key(i as int),
{
    if i == 0 {
        "MONDAY"
    } else if i == 1 {
        "TUESDAY"
    } else if i == 2 {
        "WEDNESDAY"
    } else if i == 3 {
        "THURSDAY"
    } else if i == 4 {
        "FRIDAY"
    } else if i == 5 {
        "SATURDAY"
    } else {
        "SUNDAY"
    }
}

fn pair(key: &str, value: Vec<char>) -> (p: (Vec<char>, Vec<char>))
    ensures
        p.0@ == key@,
        p.1@ == value@,
{
    (chars_of(key), value)
}

/// Replaces placeholders one after the other; a placeholder that is empty
/// is passed over.
pub fn substitute(text: Vec<char>, pairs: &Vec<(Vec<char>, Vec<char>)>) -> (r: Vec<char>)
    requires
        forall|i: int| 0 <= i < pairs.len() ==> (#[trigger] pairs@[i]).0@.len() > 0,
    ensures
        r@ == substituted(text@, pair_views(pairs@)),
{
    let ghost all = pair_views(pairs@);
    let ghost start = text@;
    let mut text = text;
    let mut i: usize = 0;
    assert(all.take(0) =~= Seq::<Pair>::empty());
    while i < pairs.len()
        invariant
            i <= pairs.len(),
            all == pair_views(pairs@),
            forall|i: int| 0 <= i < pairs.len() ==> (#[trigger] pairs@[i]).0@.len() > 0,
            text@ == substituted(start, all.take(i as int)),
        decreases pairs.len() - i,
    {
        let ghost next = all.take(i + 1);
        assert(next.drop_last() =~= all.take(i as int));
        assert(next.last() == (pairs@[i as int].0@, pairs@[i as int].1@));
        assert(pairs@[i as int].0@.len() > 0);
        text = replace(&text, &pairs[i].0, &pairs[i].1);
        i += 1;
    }
    assert(all.take(pairs.len() as int) =~= all);
    text
}

impl Template {
    /// The template filled in for a date whose week is in range: see
    /// [`Template::try_render`].
    pub fn render(&self, date: Date) -> (r: String)
        requires
            renderable(date@),
        ensures
            r@ == substituted(self@, placeholders(date@, monday_of(date@)->0)),
    {
        let ghost d = date@;
        let ghost m = monday_of(d)->0;
        let monday = date.week_start().unwrap();
        assert(shifted_date(m.0, m.1, m.2, 6) is Some);
        let sunday = monday.checked_add_days(6).unwrap();
        let mut week: Vec<char> = Vec::new();
        push_decimal2(&mut week, date.iso_week().1);
        proof {
            reveal_strlit("{DATE}");
            reveal_strlit("{ISO_DATE}");
            reveal_strlit("{YEAR}");
            reveal_strlit("{MONTH}");
            reveal_strlit("{WEEK_NUMBER}");
            reveal_strlit("{WEEK_START_DATE}");
            reveal_strlit("{WEEK_END_DATE}");
            reveal_strlit("{WEEK_START_ISO}");
            reveal_strlit("{WEEK_END_ISO}");
            reveal_strlit("{DAY_NAME}");
        }
        let mut pairs: Vec<(Vec<char>, Vec<char>)> = Vec::new();
        pairs.push(pair("{DATE}", chars_of(date.format("%B %d, %Y").as_str())));
        pairs.push(pair("{ISO_DATE}", chars_of(date.format("%Y-%m-%d").as_str())));
        pairs.push(pair("{YEAR}", chars_of(date.format("%Y").as_str())));
        pairs.push(pair("{MONTH}", chars_of(date.format("%B").as_str())));
        pairs.push(pair("{WEEK_NUMBER}", week));
        pairs.push(pair("{WEEK_START_DATE}", chars_of(monday.format("%B %d, %Y").as_str())));
        pairs.push(pair("{WEEK_END_DATE}", chars_of(sunday.format("%B %d, %Y").as_str())));
        pairs.push(pair("{WEEK_START_ISO}", chars_of(monday.format("%Y-%m-%d").as_str())));
        pairs.push(pair("{WEEK_END_ISO}", chars_of(sunday.format("%Y-%m-%d").as_str())));
        assert(pair_views(pairs@) =~= date_pairs(d, m));
        let mut i: usize = 0;
        while i < 7
            invariant
                i <= 7,
                m == monday@,
                week_in_range(m),
                pairs.len() == 9 + 2 * i,
                pair_views(pairs@) == date_pairs(d, m) + weekday_pairs(m).take(2 * i),
                forall|k: int| 0 <= k < pairs.len() ==> (#[trigger] pairs@[k]).0@.len() > 0,
            decreases 7 - i,
        {
            let ghost before = pair_views(pairs@);
            assert(shifted_date(m.0, m.1, m.2, i as int) is Some);
            let day = monday.checked_add_days(i as i64).unwrap();
            let mut long_key: Vec<char> = Vec::new();
            long_key.push('{');
            extend_str(&mut long_key, key_of_weekday(i));
            extend_str(&mut long_key, "_DATE}");
            let mut iso_key: Vec<char> = Vec::new();
            iso_key.push('{');
            extend_str(&mut iso_key, key_of_weekday(i));
            extend_str(&mut iso_key, "_ISO}");
            let long_value = chars_of(day.format("%B %d, %Y").as_str());
            let iso_value = chars_of(day.format("%Y-%m-%d").as_str());
            assert(long_key@ =~= seq!['{'] + weekday_key(i as int) + "_DATE}"@);
            assert(iso_key@ =~= seq!['{'] + weekday_key(i as int) + "_ISO}"@);
            let ghost first: Pair = (long_key@, long_value@);
            let ghost second: Pair = (iso_key@, iso_value@);
            let ghost j = 2 * i as int;
            assert(j % 2 == 0 && j / 2 == i as int && (j + 1) % 2 == 1 && (j + 1) / 2 == i as int);
            assert(day@ == day_of_week(m, i as int));
            assert(weekday_pairs(m)[j] == first);
            assert(weekday_pairs(m)[j + 1] == second);
            pairs.push((long_key, long_value));
            pairs.push((iso_key, iso_value));
            assert(pair_views(pairs@) =~= before.push(first).push(second));
            i += 1;
            assert(weekday_pairs(m).take(2 * i) =~= weekday_pairs(m).take(j).push(first).push(
                second,
            ));
            assert(pair_views(pairs@) =~= date_pairs(d, m) + weekday_pairs(m).take(2 * i));
        }
        assert(weekday_pairs(m).take(14) =~= weekday_pairs(m));
        pairs.push(pair("{DAY_NAME}", chars_of(date.format("%A").as_str())));
        assert(pair_views(pairs@) =~= placeholders(d, m));
        string_of(&substitute(chars_of(self.content.as_str()), &pairs))
    }

    /// The template filled in for a date, or nothing where the week of the
    /// date is out of range.
    pub fn try_render(&self, date: Date) -> (r: Option<String>)
        ensures
            match r {
                Some(text) => renderable(date@) && text@ == substituted(
                    self@,
                    placeholders(date@, monday_of(date@)->0),
                ),
                None => !renderable(date@),
            },
    {
        match date.week_start() {
            Some(monday) => if week_fits(&monday) {
                Some(self.render(date))
            } else {
                None
            },
            None => None,
        }
    }
}

} // verus!
