//! Plans for moving a journal between daily and weekly notes.

use vstd::prelude::*;
use crate::commands::{current_weekly_name, is_current_weekly_filename};
use crate::date::{date_view, formatted_date, monday_of, shifted_date, ymd_before, Date, Ymd};
use crate::error::DjourError;
use crate::migration::{
    debug_list, debug_list_text, inject_daily_into_weekly, injected_note, parse_weekly,
    strip_daily_prefix, week_fits, week_in_range, weekly_note, without_daily_prefix,
};
use crate::output::{note_views, NoteEntry, NoteView};
use crate::template::{placeholders, renderable, substituted, weekly_template, Template};
use crate::text::{chars_of, extend_str, str_views, string_of};

verus! {

/// A daily note that is to be moved into a weekly note.
#[derive(Debug, Clone)]
pub struct DailyEntry {
    pub filename: String,
    pub date: Date,
    /// The note without its heading.
    pub body: String,
}

/// The mathematical form of [`DailyEntry`].
pub ghost struct EntryView {
    pub filename: Seq<char>,
    pub date: Ymd,
    pub body: Seq<char>,
}

impl View for DailyEntry {
    type V = EntryView;

    open spec fn view(&self) -> EntryView {
        EntryView { filename: self.filename@, date: self.date@, body: self.body@ }
    }
}

/// The views of a list of daily notes.
pub open spec fn entry_views(v: Seq<DailyEntry>) -> Seq<EntryView> {
    Seq::new(v.len(), |i: int| v[i]@)
}

/// The daily notes of one week.
#[derive(Debug, Clone)]
pub struct WeekGroup {
    pub week_start: Date,
    pub entries: Vec<DailyEntry>,
}

/// The mathematical form of [`WeekGroup`].
pub ghost struct WeekView {
    pub week_start: Ymd,
    pub entries: Seq<EntryView>,
}

impl View for WeekGroup {
    type V = WeekView;

    open spec fn view(&self) -> WeekView {
        WeekView { week_start: self.week_start@, entries: entry_views(self.entries@) }
    }
}

/// The views of a list of weeks.
pub open spec fn week_views(v: Seq<WeekGroup>) -> Seq<WeekView> {
    Seq::new(v.len(), |i: int| v[i]@)
}

/// The entry that a daily note gives: the note must have a date and begin
/// with the heading of that date.
pub open spec fn entry_of(filename: Seq<char>, date: Option<Ymd>, content: Seq<char>) -> Result<
    EntryView,
    Seq<char>,
> {
    match date {
        None => Err("Daily note missing date: "@ + filename),
        Some(d) => match without_daily_prefix(content, d) {
            Ok(body) => Ok(EntryView { filename, date: d, body }),
            Err(m) => Err(m),
        },
    }
}

/// Reads a daily note as an entry: see [`entry_of`].
pub fn daily_entry(filename: &str, date: Option<Date>, content: &str) -> (r: Result<
    DailyEntry,
    DjourError,
>)
    ensures
        match entry_of(filename@, date_view(date), content@) {
            Ok(e) => r matches Ok(entry) && entry@ == e,
            Err(m) => r matches Err(DjourError::Config(msg)) && msg@ == m,
        },
{
    let date = match date {
        Some(d) => d,
        None => {
            let mut msg = chars_of("Daily note missing date: ");
            extend_str(&mut msg, filename);
            return Err(DjourError::Config(string_of(&msg)));
        },
    };
    match strip_daily_prefix(content, date) {
        Ok(body) => Ok(DailyEntry { filename: string_of(&chars_of(filename)), date, body }),
        Err(e) => Err(e),
    }
}

/// Entries in the order of their dates with one more entry, behind every
/// entry that is not later.
pub open spec fn entry_inserted(sorted: Seq<EntryView>, x: EntryView) -> Seq<EntryView>
    decreases sorted.len(),
{
    if sorted.len() == 0 {
        seq![x]
    } else if ymd_before(x.date, sorted.last().date) {
        entry_inserted(sorted.drop_last(), x).push(sorted.last())
    } else {
        sorted.push(x)
    }
}

/// Weeks in the order of their Mondays with one more entry: it joins its
/// week, or opens it in the right place.
pub open spec fn week_joined(weeks: Seq<WeekView>, x: EntryView, monday: Ymd) -> Seq<WeekView>
    decreases weeks.len(),
{
    if weeks.len() == 0 {
        seq![WeekView { week_start: monday, entries: seq![x] }]
    } else {
        let last = weeks.last();
        if last.week_start == monday {
            weeks.drop_last().push(
                WeekView { week_start: monday, entries: entry_inserted(last.entries, x) },
            )
        } else if ymd_before(last.week_start, monday) {
            weeks.push(WeekView { week_start: monday, entries: seq![x] })
        } else {
            week_joined(weeks.drop_last(), x, monday).push(last)
        }
    }
}

/// The index at which a daily note goes into the first `n` notes of a list:
/// behind the last of them that is not of a later day.
pub open spec fn entry_index(sorted: Seq<EntryView>, x: EntryView, n: int) -> int
    decreases n,
{
    if n <= 0 || n > sorted.len() || !ymd_before(x.date, sorted[n - 1].date) {
        n
    } else {
        entry_index(sorted, x, n - 1)
    }
}

proof fn lemma_entry_index_prefix(sorted: Seq<EntryView>, x: EntryView, n: int)
    requires
        0 <= n < sorted.len(),
    ensures
        entry_index(sorted, x, n) == entry_index(sorted.drop_last(), x, n),
        0 <= entry_index(sorted, x, n) <= n,
    decreases n,
{
    if n > 0 {
        assert(sorted.drop_last()[n - 1] == sorted[n - 1]);
        if ymd_before(x.date, sorted[n - 1].date) {
            lemma_entry_index_prefix(sorted, x, n - 1);
        }
    }
}

proof fn lemma_entry_inserted_at(sorted: Seq<EntryView>, x: EntryView)
    ensures
        0 <= entry_index(sorted, x, sorted.len() as int) <= sorted.len(),
        entry_inserted(sorted, x) == sorted.insert(
            entry_index(sorted, x, sorted.len() as int),
            x,
        ),
    decreases sorted.len(),
{
    if sorted.len() > 0 && ymd_before(x.date, sorted.last().date) {
        let init = sorted.drop_last();
        lemma_entry_inserted_at(init, x);
        lemma_entry_index_prefix(sorted, x, init.len() as int);
        let k = entry_index(init, x, init.len() as int);
        assert(init.insert(k, x).push(sorted.last()) =~= sorted.insert(k, x));
    } else {
        assert(sorted.push(x) =~= sorted.insert(sorted.len() as int, x));
    }
}

/// Puts an entry among the entries of a week, by its date.
pub fn insert_entry(entries: &mut Vec<DailyEntry>, x: DailyEntry)
    ensures
        entry_views(final(entries)@) == entry_inserted(entry_views(old(entries)@), x@),
{
    let ghost before = entry_views(entries@);
    let mut pos: usize = entries.len();
    while pos > 0 && x.date.is_before(&entries[pos - 1].date)
        invariant
            pos <= entries.len(),
            before == entry_views(entries@),
            entry_index(before, x@, before.len() as int) == entry_index(before, x@, pos as int),
        decreases pos,
    {
        assert(before[pos - 1] == entries@[pos - 1]@);
        pos -= 1;
    }
    assert(pos > 0 ==> before[pos - 1] == entries@[pos - 1]@);
    proof {
        lemma_entry_inserted_at(before, x@);
    }
    let ghost xv = x@;
    entries.insert(pos, x);
    assert(entry_views(entries@) =~= before.insert(pos as int, xv));
}

/// The index behind the week of a Monday among the first `n` weeks of a
/// list, or that at which the week would go.
pub open spec fn week_index(weeks: Seq<WeekView>, monday: Ymd, n: int) -> int
    decreases n,
{
    if n <= 0 || n > weeks.len() || weeks[n - 1].week_start == monday || ymd_before(
        weeks[n - 1].week_start,
        monday,
    ) {
        n
    } else {
        week_index(weeks, monday, n - 1)
    }
}

/// The week before index `k` is that of the Monday.
pub open spec fn week_found(weeks: Seq<WeekView>, monday: Ymd, k: int) -> bool {
    0 < k <= weeks.len() && weeks[k - 1].week_start == monday
}

proof fn lemma_week_index_prefix(weeks: Seq<WeekView>, monday: Ymd, n: int)
    requires
        0 <= n < weeks.len(),
    ensures
        week_index(weeks, monday, n) == week_index(weeks.drop_last(), monday, n),
        0 <= week_index(weeks, monday, n) <= n,
    decreases n,
{
    if n > 0 {
        assert(weeks.drop_last()[n - 1] == weeks[n - 1]);
        if !(weeks[n - 1].week_start == monday || ymd_before(weeks[n - 1].week_start, monday)) {
            lemma_week_index_prefix(weeks, monday, n - 1);
        }
    }
}

proof fn lemma_week_joined_at(weeks: Seq<WeekView>, x: EntryView, monday: Ymd)
    ensures
        ({
            let k = week_index(weeks, monday, weeks.len() as int);
            &&& 0 <= k <= weeks.len()
            &&& week_found(weeks, monday, k) ==> week_joined(weeks, x, monday) == weeks.update(
                k - 1,
                WeekView { week_start: monday, entries: entry_inserted(weeks[k - 1].entries, x) },
            )
            &&& !week_found(weeks, monday, k) ==> week_joined(weeks, x, monday) == weeks.insert(
                k,
                WeekView { week_start: monday, entries: seq![x] },
            )
        }),
    decreases weeks.len(),
{
    let n = weeks.len() as int;
    let fresh = WeekView { week_start: monday, entries: seq![x] };
    if n == 0 {
        assert(seq![fresh] =~= weeks.insert(0, fresh));
    } else {
        let last = weeks.last();
        if last.week_start == monday {
            assert(weeks.drop_last().push(
                WeekView { week_start: monday, entries: entry_inserted(last.entries, x) },
            ) =~= weeks.update(
                n - 1,
                WeekView { week_start: monday, entries: entry_inserted(last.entries, x) },
            ));
        } else if ymd_before(last.week_start, monday) {
            assert(weeks.push(fresh) =~= weeks.insert(n, fresh));
        } else {
            let init = weeks.drop_last();
            lemma_week_joined_at(init, x, monday);
            lemma_week_index_prefix(weeks, monday, n - 1);
            let k = week_index(init, monday, n - 1);
            if week_found(init, monday, k) {
                assert(init[k - 1] == weeks[k - 1]);
                assert(init.update(
                    k - 1,
                    WeekView {
                        week_start: monday,
                        entries: entry_inserted(init[k - 1].entries, x),
                    },
                ).push(last) =~= weeks.update(
                    k - 1,
                    WeekView {
                        week_start: monday,
                        entries: entry_inserted(weeks[k - 1].entries, x),
                    },
                ));
            } else {
                if 0 < k {
                    assert(init[k - 1] == weeks[k - 1]);
                }
                assert(init.insert(k, fresh).push(last) =~= weeks.insert(k, fresh));
            }
        }
    }
}

/// Puts an entry into the week that begins with `week_start`: see
/// [`week_joined`].
pub fn add_to_weeks(weeks: &mut Vec<WeekGroup>, entry: DailyEntry, week_start: Date)
    ensures
        week_views(final(weeks)@) == week_joined(week_views(old(weeks)@), entry@, week_start@),
{
    let ghost before = week_views(weeks@);
    let ghost monday = week_start@;
    let ghost xv = entry@;
    let mut pos: usize = weeks.len();
    let mut joins = false;
    while pos > 0
        invariant_except_break
            pos <= weeks.len(),
            before == week_views(weeks@),
            monday == week_start@,
            !joins,
            week_index(before, monday, before.len() as int) == week_index(
                before,
                monday,
                pos as int,
            ),
        ensures
            pos <= weeks.len(),
            before == week_views(weeks@),
            pos == week_index(before, monday, before.len() as int),
            joins == week_found(before, monday, pos as int),
        decreases pos,
    {
        assert(before[pos - 1] == weeks@[pos - 1]@);
        if weeks[pos - 1].week_start.same_day(&week_start) {
            joins = true;
            break ;
        }
        if weeks[pos - 1].week_start.is_before(&week_start) {
            break ;
        }
        pos -= 1;
    }
    proof {
        lemma_week_joined_at(before, xv, monday);
    }
    if joins {
        let mut group = weeks.remove(pos - 1);
        insert_entry(&mut group.entries, entry);
        weeks.insert(pos - 1, group);
        assert(week_views(weeks@) =~= before.update(
            pos - 1,
            WeekView { week_start: monday, entries: entry_inserted(before[pos - 1].entries, xv) },
        ));
    } else {
        let mut entries: Vec<DailyEntry> = Vec::new();
        entries.push(entry);
        assert(entry_views(entries@) =~= seq![xv]);
        weeks.insert(pos, WeekGroup { week_start, entries });
        assert(week_views(weeks@) =~= before.insert(
            pos as int,
            WeekView { week_start: monday, entries: seq![xv] },
        ));
    }
}

/// The day in the middle of a week: three days behind its Monday.
pub open spec fn thursday_of(monday: Ymd) -> Ymd {
    shifted_date(monday.0, monday.1, monday.2, 3)->0
}

/// The text from which the note of a week is built up: the note that is
/// there, which must read as the note of the week, or the template of
/// weekly notes filled in for the middle of the week.
pub open spec fn weekly_base_of(existing: Option<Seq<char>>, monday: Ymd) -> Result<
    Seq<char>,
    Seq<char>,
> {
    match existing {
        Some(content) => match weekly_note(content, monday) {
            Ok(_) => Ok(content),
            Err(m) => Err(m),
        },
        None => Ok(
            substituted(
                weekly_template(),
                placeholders(thursday_of(monday), monday_of(thursday_of(monday))->0),
            ),
        ),
    }
}

/// The note of a week can be built up: the week is in range, and so is the
/// week of its middle.
pub open spec fn week_plannable(monday: Ymd) -> bool {
    week_in_range(monday) && renderable(thursday_of(monday))
}

/// Whether the note of a week can be built up.
pub fn week_can_be_planned(week_start: &Date) -> (r: bool)
    ensures
        r == week_plannable(week_start@),
{
    if !week_fits(week_start) {
        return false;
    }
    let ghost m = week_start@;
    assert(shifted_date(m.0, m.1, m.2, 3) is Some);
    let thursday = week_start.checked_add_days(3).unwrap();
    match thursday.week_start() {
        Some(monday) => week_fits(&monday),
        None => false,
    }
}

/// The view of a string slice that may be missing.
pub open spec fn opt_view(o: Option<&str>) -> Option<Seq<char>> {
    match o {
        Some(s) => Some(s@),
        None => None,
    }
}

/// The text from which the note of a week is built up, where that can be
/// done: see [`weekly_base_of`] and [`try_weekly_base`].
pub fn weekly_base(existing: Option<&str>, week_start: Date) -> (r: Result<String, DjourError>)
    requires
        week_plannable(week_start@),
    ensures
        match weekly_base_of(opt_view(existing), week_start@) {
            Ok(text) => r matches Ok(s) && s@ == text,
            Err(m) => r matches Err(DjourError::Config(msg)) && msg@ == m,
        },
{
    match existing {
        Some(content) => match parse_weekly(content, week_start) {
            Ok(_) => Ok(string_of(&chars_of(content))),
            Err(e) => Err(e),
        },
        None => {
            let ghost m = week_start@;
            assert(shifted_date(m.0, m.1, m.2, 3) is Some);
            let thursday = week_start.checked_add_days(3).unwrap();
            proof {
                reveal_strlit("weekly.md");
                reveal_strlit("daily.md");
                assert("weekly.md"@ != "daily.md"@) by {
                    assert("weekly.md"@[0] != "daily.md"@[0]);
                }
            }
            match Template::from_builtin("weekly.md") {
                Ok(template) => Ok(template.render(thursday)),
                Err(e) => Err(e),
            }
        },
    }
}

/// The text from which the note of a week is built up, or nothing where
/// the week or the week of its middle is out of range.
pub fn try_weekly_base(existing: Option<&str>, week_start: Date) -> (r: Option<
    Result<String, DjourError>,
>)
    ensures
        r is Some <==> week_plannable(week_start@),
        r matches Some(inner) ==> match weekly_base_of(opt_view(existing), week_start@) {
            Ok(text) => inner matches Ok(s) && s@ == text,
            Err(m) => inner matches Err(DjourError::Config(msg)) && msg@ == m,
        },
{
    if week_can_be_planned(&week_start) {
        Some(weekly_base(existing, week_start))
    } else {
        None
    }
}

/// The note of a week after the first `n` entries were put into it, one
/// after the other; the first entry that cannot be put in decides the error.
pub open spec fn with_entries(
    base: Seq<char>,
    monday: Ymd,
    entries: Seq<EntryView>,
    n: int,
) -> Result<Seq<char>, Seq<char>>
    decreases n,
{
    if n <= 0 {
        Ok(base)
    } else {
        match with_entries(base, monday, entries, n - 1) {
            Err(m) => Err(m),
            Ok(text) => injected_note(
                text,
                monday,
                entries[n - 1].date,
                entries[n - 1].filename,
                entries[n - 1].body,
            ),
        }
    }
}

/// Puts the entries of a week into the week's note, where the week is in
/// range: see [`with_entries`] and [`try_inject_entries`].
pub fn inject_entries(base: String, week_start: Date, entries: &Vec<DailyEntry>) -> (r: Result<
    String,
    DjourError,
>)
    requires
        week_in_range(week_start@),
    ensures
        match with_entries(base@, week_start@, entry_views(entries@), entries.len() as int) {
            Ok(text) => r matches Ok(s) && s@ == text,
            Err(m) => r matches Err(DjourError::Config(msg)) && msg@ == m,
        },
{
    let ghost start = base@;
    let ghost es = entry_views(entries@);
    let ghost monday = week_start@;
    let mut updated = base;
    let mut i: usize = 0;
    while i < entries.len()
        invariant
            i <= entries.len(),
            es == entry_views(entries@),
            monday == week_start@,
            start == base@,
            week_in_range(monday),
            with_entries(start, monday, es, i as int) == Ok::<Seq<char>, Seq<char>>(updated@),
        decreases entries.len() - i,
    {
        let e = &entries[i];
        assert(es[i as int] == e@);
        match inject_daily_into_weekly(
            updated.as_str(),
            week_start,
            e.date,
            e.filename.as_str(),
            e.body.as_str(),
        ) {
            Ok(next) => {
                updated = next;
            },
            Err(err) => {
                proof {
                    assert(with_entries(start, monday, es, i + 1) == injected_note(
                        updated@,
                        monday,
                        es[i as int].date,
                        es[i as int].filename,
                        es[i as int].body,
                    ));
                    lemma_with_entries_error(start, monday, es, i + 1, entries.len() as int);
                }
                return Err(err);
            },
        }
        i += 1;
    }
    Ok(updated)
}

/// Once an entry cannot be put in, the error stays.
proof fn lemma_with_entries_error(
    base: Seq<char>,
    monday: Ymd,
    entries: Seq<EntryView>,
    n: int,
    m: int,
)
    requires
        0 < n <= m,
        with_entries(base, monday, entries, n) is Err,
    ensures
        with_entries(base, monday, entries, m) == with_entries(base, monday, entries, n),
    decreases m - n,
{
    if n < m {
        lemma_with_entries_error(base, monday, entries, n, m - 1);
    }
}

/// Puts the entries of a week into the week's note, or gives nothing where
/// the week is out of range.
pub fn try_inject_entries(base: String, week_start: Date, entries: &Vec<DailyEntry>) -> (r: Option<
    Result<String, DjourError>,
>)
    ensures
        r is Some <==> week_in_range(week_start@),
        r matches Some(inner) ==> match with_entries(
            base@,
            week_start@,
            entry_views(entries@),
            entries.len() as int,
        ) {
            Ok(text) => inner matches Ok(s) && s@ == text,
            Err(m) => inner matches Err(DjourError::Config(msg)) && msg@ == m,
        },
{
    if week_fits(&week_start) {
        Some(inject_entries(base, week_start, entries))
    } else {
        None
    }
}

/// A weekly note that is to be split into daily notes.
#[derive(Debug, Clone)]
pub struct WeeklyNote {
    pub filename: String,
    /// The Monday of the note's week.
    pub week_start: Date,
}

/// The mathematical form of [`WeeklyNote`].
pub ghost struct WeeklyNoteView {
    pub filename: Seq<char>,
    pub week_start: Ymd,
}

impl View for WeeklyNote {
    type V = WeeklyNoteView;

    open spec fn view(&self) -> WeeklyNoteView {
        WeeklyNoteView { filename: self.filename@, week_start: self.week_start@ }
    }
}

/// The views of a list of weekly notes.
pub open spec fn weekly_note_views(v: Seq<WeeklyNote>) -> Seq<WeeklyNoteView> {
    Seq::new(v.len(), |i: int| v[i]@)
}

/// Weekly notes in the order of their weeks with one more note, behind
/// every note that is not of a later week.
pub open spec fn weekly_inserted(sorted: Seq<WeeklyNoteView>, x: WeeklyNoteView) -> Seq<
    WeeklyNoteView,
>
    decreases sorted.len(),
{
    if sorted.len() == 0 {
        seq![x]
    } else if ymd_before(x.week_start, sorted.last().week_start) {
        weekly_inserted(sorted.drop_last(), x).push(sorted.last())
    } else {
        sorted.push(x)
    }
}

/// The index at which a weekly note goes into the first `n` notes of a
/// list: behind the last of them that is not of a later week.
pub open spec fn weekly_index(sorted: Seq<WeeklyNoteView>, x: WeeklyNoteView, n: int) -> int
    decreases n,
{
    if n <= 0 || n > sorted.len() || !ymd_before(x.week_start, sorted[n - 1].week_start) {
        n
    } else {
        weekly_index(sorted, x, n - 1)
    }
}

proof fn lemma_weekly_index_prefix(sorted: Seq<WeeklyNoteView>, x: WeeklyNoteView, n: int)
    requires
        0 <= n < sorted.len(),
    ensures
        weekly_index(sorted, x, n) == weekly_index(sorted.drop_last(), x, n),
        0 <= weekly_index(sorted, x, n) <= n,
    decreases n,
{
    if n > 0 {
        assert(sorted.drop_last()[n - 1] == sorted[n - 1]);
        if ymd_before(x.week_start, sorted[n - 1].week_start) {
            lemma_weekly_index_prefix(sorted, x, n - 1);
        }
    }
}

proof fn lemma_weekly_inserted_at(sorted: Seq<WeeklyNoteView>, x: WeeklyNoteView)
    ensures
        0 <= weekly_index(sorted, x, sorted.len() as int) <= sorted.len(),
        weekly_inserted(sorted, x) == sorted.insert(
            weekly_index(sorted, x, sorted.len() as int),
            x,
        ),
    decreases sorted.len(),
{
    if sorted.len() > 0 && ymd_before(x.week_start, sorted.last().week_start) {
        let init = sorted.drop_last();
        lemma_weekly_inserted_at(init, x);
        lemma_weekly_index_prefix(sorted, x, init.len() as int);
        let k = weekly_index(init, x, init.len() as int);
        assert(init.insert(k, x).push(sorted.last()) =~= sorted.insert(k, x));
    } else {
        assert(sorted.push(x) =~= sorted.insert(sorted.len() as int, x));
    }
}

/// Puts a weekly note among the others, by its week.
pub fn insert_weekly(notes: &mut Vec<WeeklyNote>, x: WeeklyNote)
    ensures
        weekly_note_views(final(notes)@) == weekly_inserted(weekly_note_views(old(notes)@), x@),
{
    let ghost before = weekly_note_views(notes@);
    let mut pos: usize = notes.len();
    while pos > 0 && x.week_start.is_before(&notes[pos - 1].week_start)
        invariant
            pos <= notes.len(),
            before == weekly_note_views(notes@),
            weekly_index(before, x@, before.len() as int) == weekly_index(before, x@, pos as int),
        decreases pos,
    {
        assert(before[pos - 1] == notes@[pos - 1]@);
        pos -= 1;
    }
    assert(pos > 0 ==> before[pos - 1] == notes@[pos - 1]@);
    proof {
        lemma_weekly_inserted_at(before, x@);
    }
    let ghost xv = x@;
    notes.insert(pos, x);
    assert(weekly_note_views(notes@) =~= before.insert(pos as int, xv));
}

/// The weekly notes among the notes of a journal, in the order of their
/// weeks: the notes whose names have the form in use. The first of them
/// that has no date decides the error.
pub open spec fn weekly_gathered(notes: Seq<NoteView>) -> Result<Seq<WeeklyNoteView>, Seq<char>>
    decreases notes.len(),
{
    if notes.len() == 0 {
        Ok(seq![])
    } else {
        match weekly_gathered(notes.drop_last()) {
            Err(m) => Err(m),
            Ok(sorted) => {
                let note = notes.last();
                if !current_weekly_name(note.filename) {
                    Ok(sorted)
                } else {
                    match note.date {
                        None => Err("Weekly note missing date: "@ + note.filename),
                        Some(d) => Ok(
                            weekly_inserted(
                                sorted,
                                WeeklyNoteView { filename: note.filename, week_start: d },
                            ),
                        ),
                    }
                }
            },
        }
    }
}

/// The index of the first note from `i` on whose week is also that of the
/// note behind it.
pub open spec fn first_clash(sorted: Seq<WeeklyNoteView>, i: int) -> Option<int>
    decreases sorted.len() - i,
{
    if i < 0 || i + 1 >= sorted.len() {
        None
    } else if sorted[i].week_start == sorted[i + 1].week_start {
        Some(i)
    } else {
        first_clash(sorted, i + 1)
    }
}

/// The names of the notes of a week among the first `n` notes, in order.
pub open spec fn names_of_week(sorted: Seq<WeeklyNoteView>, monday: Ymd, n: int) -> Seq<Seq<char>>
    decreases n,
{
    if n <= 0 || n > sorted.len() {
        seq![]
    } else if sorted[n - 1].week_start == monday {
        names_of_week(sorted, monday, n - 1).push(sorted[n - 1].filename)
    } else {
        names_of_week(sorted, monday, n - 1)
    }
}

/// What is said where several notes stand for one week.
pub open spec fn clash_message(sorted: Seq<WeeklyNoteView>, monday: Ymd) -> Seq<char> {
    "Multiple weekly files found for week starting "@ + formatted_date(
        monday.0,
        monday.1,
        monday.2,
        "%Y-%m-%d"@,
    ) + ": "@ + debug_list_text(names_of_week(sorted, monday, sorted.len() as int))
        + ". Resolve manually and retry."@
}

/// The weekly notes of a journal that are to be split, in the order of
/// their weeks; an error where one of them has no date or two of them stand
/// for one week.
pub open spec fn weekly_notes_in_order(notes: Seq<NoteView>) -> Result<
    Seq<WeeklyNoteView>,
    Seq<char>,
> {
    match weekly_gathered(notes) {
        Err(m) => Err(m),
        Ok(sorted) => match first_clash(sorted, 0) {
            Some(k) => Err(clash_message(sorted, sorted[k].week_start)),
            None => Ok(sorted),
        },
    }
}

fn gather_weekly(notes: &Vec<NoteEntry>) -> (r: Result<Vec<WeeklyNote>, DjourError>)
    ensures
        match weekly_gathered(note_views(notes@)) {
            Ok(s) => r matches Ok(v) && weekly_note_views(v@) == s,
            Err(m) => r matches Err(DjourError::Config(msg)) && msg@ == m,
        },
{
    let ghost all = note_views(notes@);
    let mut out: Vec<WeeklyNote> = Vec::new();
    let mut i: usize = 0;
    assert(all.take(0) =~= Seq::<NoteView>::empty());
    assert(weekly_note_views(out@) =~= Seq::<WeeklyNoteView>::empty());
    while i < notes.len()
        invariant
            i <= notes.len(),
            all == note_views(notes@),
            weekly_gathered(all.take(i as int)) == Ok::<Seq<WeeklyNoteView>, Seq<char>>(
                weekly_note_views(out@),
            ),
        decreases notes.len() - i,
    {
        let note = &notes[i];
        assert(all.take(i + 1).drop_last() =~= all.take(i as int));
        assert(all.take(i + 1).last() == note@);
        if is_current_weekly_filename(note.filename.as_str()) {
            match note.date {
                None => {
                    let mut msg = chars_of("Weekly note missing date: ");
                    extend_str(&mut msg, note.filename.as_str());
                    proof {
                        lemma_gathered_error(all, i + 1);
                    }
                    return Err(DjourError::Config(string_of(&msg)));
                },
                Some(d) => {
                    let name = string_of(&chars_of(note.filename.as_str()));
                    insert_weekly(&mut out, WeeklyNote { filename: name, week_start: d });
                },
            }
        }
        i += 1;
    }
    assert(all.take(notes.len() as int) =~= all);
    Ok(out)
}

/// An error among the first notes is the error of all.
proof fn lemma_gathered_error(notes: Seq<NoteView>, n: int)
    requires
        0 <= n <= notes.len(),
        weekly_gathered(notes.take(n)) is Err,
    ensures
        weekly_gathered(notes) == weekly_gathered(notes.take(n)),
    decreases notes.len() - n,
{
    if n < notes.len() {
        assert(notes.take(n + 1).drop_last() =~= notes.take(n));
        lemma_gathered_error(notes, n + 1);
    } else {
        assert(notes.take(n) =~= notes);
    }
}

fn names_in_week(notes: &Vec<WeeklyNote>, monday: &Date) -> (names: Vec<String>)
    ensures
        str_views(names@) == names_of_week(
            weekly_note_views(notes@),
            monday@,
            notes.len() as int,
        ),
{
    let ghost all = weekly_note_views(notes@);
    let mut names: Vec<String> = Vec::new();
    let mut i: usize = 0;
    assert(str_views(names@) =~= Seq::<Seq<char>>::empty());
    while i < notes.len()
        invariant
            i <= notes.len(),
            all == weekly_note_views(notes@),
            str_views(names@) == names_of_week(all, monday@, i as int),
        decreases notes.len() - i,
    {
        assert(all[i as int] == notes@[i as int]@);
        if notes[i].week_start.same_day(monday) {
            let ghost before = str_views(names@);
            let name = string_of(&chars_of(notes[i].filename.as_str()));
            names.push(name);
            assert(str_views(names@) =~= before.push(all[i as int].filename));
        }
        i += 1;
    }
    names
}

/// Picks the weekly notes of a journal that are to be split and puts them
/// in the order of their weeks: see [`weekly_notes_in_order`].
pub fn weekly_notes_to_split(notes: &Vec<NoteEntry>) -> (r: Result<Vec<WeeklyNote>, DjourError>)
    ensures
        match weekly_notes_in_order(note_views(notes@)) {
            Ok(s) => r matches Ok(v) && weekly_note_views(v@) == s,
            Err(m) => r matches Err(DjourError::Config(msg)) && msg@ == m,
        },
{
    let sorted = match gather_weekly(notes) {
        Ok(v) => v,
        Err(e) => {
            return Err(e);
        },
    };
    let ghost all = weekly_note_views(sorted@);
    let mut i: usize = 0;
    while i < sorted.len() && sorted.len() - i > 1
        invariant
            i <= sorted.len(),
            all == weekly_note_views(sorted@),
            weekly_gathered(note_views(notes@)) == Ok::<Seq<WeeklyNoteView>, Seq<char>>(all),
            first_clash(all, 0) == first_clash(all, i as int),
        decreases sorted.len() - i,
    {
        assert(all[i as int] == sorted@[i as int]@);
        assert(all[i + 1] == sorted@[i + 1]@);
        if sorted[i].week_start.same_day(&sorted[i + 1].week_start) {
            let monday = sorted[i].week_start;
            let names = names_in_week(&sorted, &monday);
            proof {
                reveal_strlit("%Y-%m-%d");
            }
            let mut msg = chars_of("Multiple weekly files found for week starting ");
            extend_str(&mut msg, monday.format("%Y-%m-%d").as_str());
            extend_str(&mut msg, ": ");
            extend_str(&mut msg, debug_list(&names).as_str());
            extend_str(&mut msg, ". Resolve manually and retry.");
            assert(first_clash(all, i as int) == Some(i as int));
            assert(msg@ =~= clash_message(all, monday@));
            return Err(DjourError::Config(string_of(&msg)));
        }
        i += 1;
    }
    Ok(sorted)
}

} // verus!
