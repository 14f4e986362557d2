//! Moving a journal between daily and weekly notes: reading and rewriting
//! the text of the notes.

use vstd::prelude::*;
use crate::error::DjourError;
use crate::date::{
    date_view, formatted_date, iso_week_of, monday_of, shifted_date, weekday_name, weekday_of,
    Date, Ymd,
};
use crate::numbers::{push_decimal2, push_signed, signed_decimal};
use crate::offsets::{
    byte_length, byte_offset, byte_range, char_index, char_index_of, char_len,
    lemma_byte_offset_grows, lemma_byte_offset_step, slice_bytes,
};
use crate::text::{
    blank, chars_of, chars_of_all, contains, contains_seq, decimal, decimal2, ends_with, extend, extend_str,
    find_char, has_prefix, has_prefix_str, has_suffix_str, index_of_char, is_blank, lines,
    lines_of, push_decimal, replace_str, replaced, same, slice, starts_with, str_views, string_of,
    trim, trim_end_by, trim_ws, trimmed_end, vec_views, CharClass,
};

verus! {

/// How the lines of a file end.
#[derive(Debug, Clone, Copy, PartialEq, Eq)]
pub enum NewlineStyle {
    Lf,
    Crlf,
}

impl NewlineStyle {
    /// The line ending.
    pub open spec fn text(self) -> Seq<char> {
        match self {
            NewlineStyle::Lf => "\n"@,
            NewlineStyle::Crlf => "\r\n"@,
        }
    }

    /// The characters that end a line in this style.
    pub fn as_str(&self) -> (s: &'static str)
        ensures
            s@ == self.text(),
    {
        match self {
            NewlineStyle::Lf => "\n",
            NewlineStyle::Crlf => "\r\n",
        }
    }
}

/// What a weekly note must hold: its header, in the one or two ways in
/// which it may be written, and the headings of its seven days.
#[derive(Debug, Clone)]
pub struct WeeklyExpected {
    pub header_variants: Vec<String>,
    pub weekday_headings: Vec<String>,
}

/// The section of one day in a weekly note, in bytes of the note.
#[derive(Debug, Clone)]
pub struct DaySection {
    pub heading: String,
    pub heading_start: usize,
    pub heading_end_with_newline: usize,
    pub content_start: usize,
    pub content_end: usize,
}

/// A weekly note as it was read, in bytes of the note.
#[derive(Debug, Clone)]
pub struct WeeklyParsed {
    pub newline: NewlineStyle,
    pub header_line: String,
    pub header_start: usize,
    pub header_end_with_newline: usize,
    pub days: Vec<DaySection>,
}

/// What is wrong with the text of a weekly note outside of its day
/// sections, if anything: something before the header, no day sections, or
/// something between the header and the first day.
pub open spec fn outside_content(
    content: Seq<char>,
    header_start: int,
    header_end: int,
    first_day: Option<int>,
) -> Option<Seq<char>> {
    if !is_blank(byte_range(content, 0, header_start)) {
        Some("Weekly note has non-whitespace content before the header; aborting migration"@)
    } else {
        match first_day {
            None => Some("Weekly note has no weekday sections"@),
            Some(start) => if !is_blank(byte_range(content, header_end, start)) {
                Some(
                    "Weekly note has content between the header and Monday section; aborting migration"@,
                )
            } else {
                None
            },
        }
    }
}

/// Where the first day section of a note begins.
pub open spec fn first_day_start(parsed: &WeeklyParsed) -> Option<int> {
    if parsed.days@.len() == 0 {
        None
    } else {
        Some(parsed.days@[0].heading_start as int)
    }
}

/// Checks that a weekly note holds nothing but white space before its
/// header and between the header and the first day.
pub fn validate_weekly_no_outside_content(content: &str, parsed: &WeeklyParsed) -> (r: Result<
    (),
    DjourError,
>)
    ensures
        match outside_content(
            content@,
            parsed.header_start as int,
            parsed.header_end_with_newline as int,
            first_day_start(parsed),
        ) {
            Some(m) => r matches Err(DjourError::Config(msg)) && msg@ == m,
            None => r is Ok,
        },
{
    let text = chars_of(content);
    if !blank(&slice_bytes(&text, 0, parsed.header_start)) {
        return Err(
            DjourError::config(
                "Weekly note has non-whitespace content before the header; aborting migration",
            ),
        );
    }
    if parsed.days.len() == 0 {
        return Err(DjourError::config("Weekly note has no weekday sections"));
    }
    let monday_start = parsed.days[0].heading_start;
    if !blank(&slice_bytes(&text, parsed.header_end_with_newline, monday_start)) {
        return Err(
            DjourError::config(
                "Weekly note has content between the header and Monday section; aborting migration",
            ),
        );
    }
    Ok(())
}

/// The marker before what was moved from the file of the given name.
pub open spec fn start_marker(source_filename: Seq<char>) -> Seq<char> {
    "<!-- djour:migrated-from="@ + source_filename + ":start -->"@
}

/// The marker behind what was moved from the file of the given name.
pub open spec fn end_marker(source_filename: Seq<char>) -> Seq<char> {
    "<!-- djour:migrated-from="@ + source_filename + ":end -->"@
}

/// The marker before what was moved from the file of the given name.
pub fn marker_start(source_filename: &str) -> (r: Vec<char>)
    ensures
        r@ == start_marker(source_filename@),
{
    let mut r = chars_of("<!-- djour:migrated-from=");
    extend_str(&mut r, source_filename);
    extend_str(&mut r, ":start -->");
    r
}

/// The marker behind what was moved from the file of the given name.
pub fn marker_end(source_filename: &str) -> (r: Vec<char>)
    ensures
        r@ == end_marker(source_filename@),
{
    let mut r = chars_of("<!-- djour:migrated-from=");
    extend_str(&mut r, source_filename);
    extend_str(&mut r, ":end -->");
    r
}

/// A line that is a migration marker: trimmed, it begins and ends as the
/// markers do.
pub open spec fn is_marker_line(line: Seq<char>) -> bool {
    starts_with(trim_ws(line), "<!-- djour:migrated-from="@) && ends_with(trim_ws(line), "-->"@)
}

/// The lines that are no markers, each with a line feed behind it.
pub open spec fn unmarked(lines: Seq<Seq<char>>) -> Seq<char>
    decreases lines.len(),
{
    if lines.len() == 0 {
        seq![]
    } else if is_marker_line(lines.last()) {
        unmarked(lines.drop_last())
    } else {
        unmarked(lines.drop_last()) + lines.last() + seq!['\n']
    }
}

/// A block without its migration markers, its lines ending in line feeds.
pub open spec fn without_markers(block: Seq<char>) -> Seq<char> {
    unmarked(lines_of(replaced(block, "\r\n"@, "\n"@)))
}

/// Removes the lines that are migration markers; every line that stays
/// ends in a line feed.
pub fn strip_migration_markers(block: &str) -> (r: String)
    ensures
        r@ == without_markers(block@),
{
    proof {
        reveal_strlit("\r\n");
    }
    let text = replace_str(&chars_of(block), "\r\n", "\n");
    let ls = lines(&text);
    let ghost all = vec_views(ls@);
    let mut out: Vec<char> = Vec::new();
    let mut i: usize = 0;
    assert(all.take(0) =~= Seq::<Seq<char>>::empty());
    while i < ls.len()
        invariant
            i <= ls.len(),
            all == vec_views(ls@),
            out@ == unmarked(all.take(i as int)),
        decreases ls.len() - i,
    {
        let ghost next = all.take(i + 1);
        assert(next.drop_last() =~= all.take(i as int));
        assert(next.last() == ls@[i as int]@);
        let trimmed = trim(&ls[i]);
        let marker = has_prefix_str(&trimmed, "<!-- djour:migrated-from=") && has_suffix_str(
            &trimmed,
            "-->",
        );
        if !marker {
            extend(&mut out, &ls[i]);
            out.push('\n');
        }
        i += 1;
    }
    assert(all.take(ls.len() as int) =~= all);
    string_of(&out)
}

// ---------------------------------------------------------------------------
// Lines
// ---------------------------------------------------------------------------

/// The line ending of a text: that of its first line.
pub open spec fn newline_of(s: Seq<char>) -> NewlineStyle {
    let p = index_of_char(s, '\n', 0);
    if 0 < p < s.len() && s[p - 1] == '\r' {
        NewlineStyle::Crlf
    } else {
        NewlineStyle::Lf
    }
}

/// The style in which the lines of a text end.
pub fn detect_newline_style(s: &Vec<char>) -> (style: NewlineStyle)
    ensures
        style == newline_of(s@),
{
    let p = find_char(s, '\n', 0);
    if p < s.len() && p > 0 && s[p - 1] == '\r' {
        NewlineStyle::Crlf
    } else {
        NewlineStyle::Lf
    }
}

/// A text with every line ending in the given style.
pub open spec fn with_newlines(s: Seq<char>, style: NewlineStyle) -> Seq<char> {
    let lf = replaced(s, "\r\n"@, "\n"@);
    match style {
        NewlineStyle::Lf => lf,
        NewlineStyle::Crlf => replaced(lf, "\n"@, "\r\n"@),
    }
}

/// The text with every line ended in the given style.
pub fn normalize_newlines(s: &Vec<char>, style: NewlineStyle) -> (r: Vec<char>)
    ensures
        r@ == with_newlines(s@, style),
{
    proof {
        reveal_strlit("\r\n");
        reveal_strlit("\n");
    }
    let lf = replace_str(s, "\r\n", "\n");
    match style {
        NewlineStyle::Lf => lf,
        NewlineStyle::Crlf => replace_str(&lf, "\n", "\r\n"),
    }
}

/// A line of a text, in characters: where it begins, where it ends, and
/// where the next line begins.
#[derive(Debug, Clone, Copy)]
pub struct LineIdx {
    pub start: usize,
    pub end: usize,
    pub end_with_newline: usize,
}

/// The mathematical form of [`LineIdx`].
pub ghost struct LineView {
    pub start: int,
    pub end: int,
    pub next: int,
}

impl View for LineIdx {
    type V = LineView;

    open spec fn view(&self) -> LineView {
        LineView {
            start: self.start as int,
            end: self.end as int,
            next: self.end_with_newline as int,
        }
    }
}

/// The views of a list of lines.
pub open spec fn line_views(v: Seq<LineIdx>) -> Seq<LineView> {
    Seq::new(v.len(), |i: int| v[i]@)
}

/// The lines from the one that begins at `start`, read from `i` on. A line
/// ends before its line feed, and before the carriage return in front of
/// that; the last line ends with the text, and may be empty.
pub open spec fn line_scan(s: Seq<char>, start: int, i: int) -> Seq<LineView>
    decreases s.len() - i,
{
    if i < 0 || start < 0 || start > i {
        seq![]
    } else if i >= s.len() {
        seq![LineView { start, end: s.len() as int, next: s.len() as int }]
    } else if s[i] == '\n' {
        seq![
            LineView {
                start,
                end: if i > start && s[i - 1] == '\r' {
                    i - 1
                } else {
                    i
                },
                next: i + 1,
            },
        ] + line_scan(s, i + 1, i + 1)
    } else {
        line_scan(s, start, i + 1)
    }
}

/// The lines of a text.
pub open spec fn line_spans(s: Seq<char>) -> Seq<LineView> {
    line_scan(s, 0, 0)
}

/// Every line lies in the text.
pub open spec fn lines_fit(ls: Seq<LineView>, len: int) -> bool {
    forall|i: int|
        0 <= i < ls.len() ==> 0 <= (#[trigger] ls[i]).start <= ls[i].end <= ls[i].next <= len
}

proof fn lemma_line_scan_fits(s: Seq<char>, start: int, i: int)
    requires
        0 <= start <= i <= s.len(),
    ensures
        lines_fit(line_scan(s, start, i), s.len() as int),
    decreases s.len() - i,
{
    if i < s.len() {
        if s[i] == '\n' {
            lemma_line_scan_fits(s, i + 1, i + 1);
            let rest = line_scan(s, i + 1, i + 1);
            let all = line_scan(s, start, i);
            assert forall|k: int| 0 <= k < all.len() implies 0 <= (#[trigger] all[k]).start
                <= all[k].end <= all[k].next <= s.len() by {
                if k > 0 {
                    assert(all[k] == rest[k - 1]);
                }
            }
        } else {
            lemma_line_scan_fits(s, start, i + 1);
        }
    }
}

/// Finds the lines of a text.
pub fn scan_lines(s: &Vec<char>) -> (out: Vec<LineIdx>)
    ensures
        line_views(out@) == line_spans(s@),
        lines_fit(line_views(out@), s.len() as int),
{
    let mut out: Vec<LineIdx> = Vec::new();
    let mut start: usize = 0;
    let mut i: usize = 0;
    assert(line_views(out@) =~= Seq::<LineView>::empty());
    while i < s.len()
        invariant
            start <= i <= s.len(),
            line_spans(s@) == line_views(out@) + line_scan(s@, start as int, i as int),
        decreases s.len() - i,
    {
        if s[i] == '\n' {
            let ghost before = line_views(out@);
            let end: usize = if i > start && s[i - 1] == '\r' {
                i - 1
            } else {
                i
            };
            let line = LineIdx { start, end, end_with_newline: i + 1 };
            out.push(line);
            assert(line_views(out@) =~= before.push(line@));
            i += 1;
            start = i;
            assert(line_views(out@) + line_scan(s@, start as int, i as int) =~= before + (seq![
                line@,
            ] + line_scan(s@, start as int, i as int)));
        } else {
            i += 1;
        }
    }
    let ghost before = line_views(out@);
    let line = LineIdx { start, end: s.len(), end_with_newline: s.len() };
    out.push(line);
    assert(line_views(out@) =~= before + seq![line@]);
    proof {
        lemma_line_scan_fits(s@, 0, 0);
    }
    out
}

/// The byte at which character `i` begins.
pub fn byte_offset_of(s: &Vec<char>, i: usize, total: usize) -> (at: usize)
    requires
        i <= s.len(),
        total == byte_offset(s@, s.len() as int),
    ensures
        at == byte_offset(s@, i as int),
        at <= total,
{
    let mut at: usize = 0;
    let mut k: usize = 0;
    assert(s@.take(0) =~= Seq::<char>::empty());
    proof {
        lemma_byte_offset_grows(s@, 0, s.len() as int);
        if s.len() > 0 {
            lemma_byte_offset_step(s@, 0);
        } else {
            assert(vstd::utf8::encode_utf8(Seq::<char>::empty()) =~= Seq::<u8>::empty());
        }
    }
    while k < i
        invariant
            k <= i <= s.len(),
            total == byte_offset(s@, s.len() as int),
            at == byte_offset(s@, k as int),
            at <= total,
        decreases i - k,
    {
        proof {
            lemma_byte_offset_step(s@, k as int);
            lemma_byte_offset_grows(s@, k + 1, s.len() as int);
        }
        at = at + char_len(s[k]) as usize;
        k += 1;
    }
    at
}

// ---------------------------------------------------------------------------
// What a weekly note must hold
// ---------------------------------------------------------------------------

/// All seven days of the week that begins with `monday` are in range.
pub open spec fn week_in_range(monday: Ymd) -> bool {
    forall|i: int|
        0 <= i < 7 ==> (#[trigger] shifted_date(monday.0, monday.1, monday.2, i)) is Some
}

/// Day `i` of the week that begins with `monday`.
pub open spec fn day_of_week(monday: Ymd, i: int) -> Ymd {
    shifted_date(monday.0, monday.1, monday.2, i)->0
}

/// A day as the notes write it: month, day, year.
pub open spec fn long_date(d: Ymd) -> Seq<char> {
    formatted_date(d.0, d.1, d.2, "%B %d, %Y"@)
}

/// A day as file names write it: year, month, day.
pub open spec fn iso_date(d: Ymd) -> Seq<char> {
    formatted_date(d.0, d.1, d.2, "%Y-%m-%d"@)
}

/// The header of the note of a week, with the given year.
pub open spec fn week_header(monday: Ymd, year: int) -> Seq<char> {
    "# Week "@ + decimal2(iso_week_of(monday.0, monday.1, monday.2).1 as nat) + ", "@
        + signed_decimal(year) + " ("@ + long_date(monday) + " - "@ + long_date(
        day_of_week(monday, 6),
    ) + ")"@
}

/// The headers that the note of a week may have: with the year of its
/// Monday, and with the year of its Sunday where that is another.
pub open spec fn header_variants_of(monday: Ymd) -> Seq<Seq<char>> {
    let a = week_header(monday, monday.0);
    let b = week_header(monday, day_of_week(monday, 6).0);
    if a == b {
        seq![a]
    } else {
        seq![a, b]
    }
}

/// The heading of day `i` in the note of a week.
pub open spec fn weekday_heading(monday: Ymd, i: int) -> Seq<char> {
    "## "@ + weekday_name(i) + " ("@ + long_date(day_of_week(monday, i)) + ")"@
}

/// The headings of the seven days in the note of a week.
pub open spec fn weekday_headings_of(monday: Ymd) -> Seq<Seq<char>> {
    Seq::new(7, |i: int| weekday_heading(monday, i))
}

fn name_of_weekday(i: usize) -> (name: &'static str)
    ensures
        name@ == weekday_name(i as int),
{
    if i == 0 {
        "Monday"
    } else if i == 1 {
        "Tuesday"
    } else if i == 2 {
        "Wednesday"
    } else if i == 3 {
        "Thursday"
    } else if i == 4 {
        "Friday"
    } else if i == 5 {
        "Saturday"
    } else {
        "Sunday"
    }
}

/// Whether all seven days of the week that begins with `monday` are in
/// range.
pub fn week_fits(monday: &Date) -> (r: bool)
    ensures
        r == week_in_range(monday@),
{
    let mut i: i64 = 0;
    while i < 7
        invariant
            0 <= i <= 7,
            forall|j: int|
                0 <= j < i ==> (#[trigger] shifted_date(monday@.0, monday@.1, monday@.2, j))
                    is Some,
        decreases 7 - i,
    {
        if monday.checked_add_days(i).is_none() {
            return false;
        }
        i += 1;
    }
    true
}

/// The Monday of the week of a date, where it is in range: see
/// [`try_week_start`].
pub fn week_start(date: Date) -> (monday: Date)
    requires
        monday_of(date@) is Some,
    ensures
        Some(monday@) == monday_of(date@),
{
    date.week_start().unwrap()
}

/// The Monday of the week of a date, or nothing where it is out of range.
pub fn try_week_start(date: Date) -> (r: Option<Date>)
    ensures
        date_view(r) == monday_of(date@),
{
    if date.week_start().is_some() {
        Some(week_start(date))
    } else {
        None
    }
}

fn week_header_text(monday: &Date, year: i32, sunday: &Date) -> (r: Vec<char>)
    requires
        week_in_range(monday@),
        sunday@ == day_of_week(monday@, 6),
    ensures
        r@ == week_header(monday@, year as int),
{
    let mut r = chars_of("# Week ");
    push_decimal2(&mut r, monday.iso_week().1);
    extend_str(&mut r, ", ");
    push_signed(&mut r, year);
    extend_str(&mut r, " (");
    extend_str(&mut r, monday.format("%B %d, %Y").as_str());
    extend_str(&mut r, " - ");
    extend_str(&mut r, sunday.format("%B %d, %Y").as_str());
    extend_str(&mut r, ")");
    r
}

/// What the note of the week that begins with `week_start` must hold,
/// where the week is in range: see [`try_expected_weekly`].
pub fn expected_weekly(week_start: Date) -> (expected: WeeklyExpected)
    requires
        week_in_range(week_start@),
    ensures
        str_views(expected.header_variants@) == header_variants_of(week_start@),
        str_views(expected.weekday_headings@) == weekday_headings_of(week_start@),
{
    let ghost monday = week_start@;
    assert(shifted_date(monday.0, monday.1, monday.2, 6) is Some);
    let sunday = week_start.checked_add_days(6).unwrap();
    let first = week_header_text(&week_start, week_start.year(), &sunday);
    let alt = week_header_text(&week_start, sunday.year(), &sunday);
    let mut header_variants: Vec<String> = Vec::new();
    header_variants.push(string_of(&first));
    if !same(&alt, &first) {
        header_variants.push(string_of(&alt));
        assert(str_views(header_variants@) =~= seq![first@, alt@]);
    } else {
        assert(str_views(header_variants@) =~= seq![first@]);
    }
    let mut weekday_headings: Vec<String> = Vec::new();
    let mut i: usize = 0;
    while i < 7
        invariant
            i <= 7,
            monday == week_start@,
            week_in_range(monday),
            weekday_headings.len() == i,
            forall|j: int|
                0 <= j < i ==> (#[trigger] weekday_headings@[j])@ == weekday_heading(monday, j),
        decreases 7 - i,
    {
        assert(shifted_date(monday.0, monday.1, monday.2, i as int) is Some);
        let day = week_start.checked_add_days(i as i64).unwrap();
        let mut h = chars_of("## ");
        extend_str(&mut h, name_of_weekday(i));
        extend_str(&mut h, " (");
        extend_str(&mut h, day.format("%B %d, %Y").as_str());
        extend_str(&mut h, ")");
        weekday_headings.push(string_of(&h));
        i += 1;
    }
    assert(str_views(weekday_headings@) =~= weekday_headings_of(monday));
    WeeklyExpected { header_variants, weekday_headings }
}

/// What the note of a week must hold, or nothing where the week is out of
/// range.
pub fn try_expected_weekly(week_start: Date) -> (r: Option<WeeklyExpected>)
    ensures
        match r {
            Some(expected) => week_in_range(week_start@) && str_views(expected.header_variants@)
                == header_variants_of(week_start@) && str_views(expected.weekday_headings@)
                == weekday_headings_of(week_start@),
            None => !week_in_range(week_start@),
        },
{
    if week_fits(&week_start) {
        Some(expected_weekly(week_start))
    } else {
        None
    }
}

// ---------------------------------------------------------------------------
// Daily notes
// ---------------------------------------------------------------------------

/// The beginning of a daily note: the heading of its date and a blank line.
pub open spec fn daily_prefix_of(d: Ymd) -> Seq<char> {
    "# "@ + long_date(d) + "\n\n"@
}

/// The heading with which the daily note of a day begins.
pub fn daily_prefix(date: Date) -> (r: String)
    ensures
        r@ == daily_prefix_of(date@),
{
    let mut r = chars_of("# ");
    extend_str(&mut r, date.format("%B %d, %Y").as_str());
    extend_str(&mut r, "\n\n");
    string_of(&r)
}

/// What is said of a daily note that does not begin as it must.
pub open spec fn bad_daily(d: Ymd) -> Seq<char> {
    "Daily note '"@ + iso_date(d) + "' does not start with the expected built-in header '"@
        + trimmed_end(daily_prefix_of(d), CharClass::Whitespace) + "'"@
}

/// A daily note without its beginning, which may end its lines either way.
pub open spec fn without_daily_prefix(content: Seq<char>, d: Ymd) -> Result<Seq<char>, Seq<char>> {
    let lf = daily_prefix_of(d);
    let crlf = replaced(lf, "\n"@, "\r\n"@);
    if starts_with(content, lf) {
        Ok(content.subrange(lf.len() as int, content.len() as int))
    } else if starts_with(content, crlf) {
        Ok(content.subrange(crlf.len() as int, content.len() as int))
    } else {
        Err(bad_daily(d))
    }
}

/// Takes the beginning off a daily note: see [`without_daily_prefix`].
pub fn strip_daily_prefix(content: &str, date: Date) -> (r: Result<String, DjourError>)
    ensures
        match without_daily_prefix(content@, date@) {
            Ok(rest) => r matches Ok(s) && s@ == rest,
            Err(m) => r matches Err(DjourError::Config(msg)) && msg@ == m,
        },
{
    proof {
        reveal_strlit("\n");
    }
    let text = chars_of(content);
    let lf = chars_of(daily_prefix(date).as_str());
    let crlf = replace_str(&lf, "\n", "\r\n");
    if has_prefix(&text, &lf) {
        Ok(string_of(&slice(&text, lf.len(), text.len())))
    } else if has_prefix(&text, &crlf) {
        Ok(string_of(&slice(&text, crlf.len(), text.len())))
    } else {
        let mut msg = chars_of("Daily note '");
        extend_str(&mut msg, date.format("%Y-%m-%d").as_str());
        extend_str(&mut msg, "' does not start with the expected built-in header '");
        extend(&mut msg, &trim_end_by(&lf, CharClass::Whitespace));
        extend_str(&mut msg, "'");
        Err(DjourError::Config(string_of(&msg)))
    }
}

// ---------------------------------------------------------------------------
// Reading a weekly note
// ---------------------------------------------------------------------------

/// The mathematical form of [`DaySection`].
pub ghost struct DayView {
    pub heading: Seq<char>,
    pub heading_start: int,
    pub heading_end_with_newline: int,
    pub content_start: int,
    pub content_end: int,
}

/// The mathematical form of [`WeeklyParsed`].
pub ghost struct ParsedView {
    pub newline: NewlineStyle,
    pub header_line: Seq<char>,
    pub header_start: int,
    pub header_end_with_newline: int,
    pub days: Seq<DayView>,
}

impl View for DaySection {
    type V = DayView;

    open spec fn view(&self) -> DayView {
        DayView {
            heading: self.heading@,
            heading_start: self.heading_start as int,
            heading_end_with_newline: self.heading_end_with_newline as int,
            content_start: self.content_start as int,
            content_end: self.content_end as int,
        }
    }
}

/// The views of the sections of the days.
pub open spec fn day_views(v: Seq<DaySection>) -> Seq<DayView> {
    Seq::new(v.len(), |i: int| v[i]@)
}

impl View for WeeklyParsed {
    type V = ParsedView;

    open spec fn view(&self) -> ParsedView {
        ParsedView {
            newline: self.newline,
            header_line: self.header_line@,
            header_start: self.header_start as int,
            header_end_with_newline: self.header_end_with_newline as int,
            days: day_views(self.days@),
        }
    }
}

/// How `Debug` writes a list of strings.
pub uninterp spec fn debug_list_text(items: Seq<Seq<char>>) -> Seq<char>;

/// A list of strings as `Debug` writes it, by `format!("{:?}", ..)`. The
/// text is a function of the strings alone; the contract names it and says
/// no more.
#[verifier::external_body]
pub(crate) fn debug_list(items: &Vec<String>) -> (r: String)
    ensures
        r@ == debug_list_text(str_views(items@)),
{
    format!("{:?}", items)
}

/// The text of a line.
pub open spec fn text_of(s: Seq<char>, l: LineView) -> Seq<char> {
    s.subrange(l.start, l.end)
}

/// The index of the first line from `i` on that is not blank, or the number
/// of lines.
pub open spec fn first_filled_idx(s: Seq<char>, ls: Seq<LineView>, i: int) -> int
    decreases ls.len() - i,
{
    if i < 0 || i >= ls.len() {
        ls.len() as int
    } else if !is_blank(text_of(s, ls[i])) {
        i
    } else {
        first_filled_idx(s, ls, i + 1)
    }
}

/// The index of the first line from `i` on with the given text, or the
/// number of lines.
pub open spec fn find_line(s: Seq<char>, ls: Seq<LineView>, text: Seq<char>, i: int) -> int
    decreases ls.len() - i,
{
    if i < 0 || i >= ls.len() {
        ls.len() as int
    } else if text_of(s, ls[i]) == text {
        i
    } else {
        find_line(s, ls, text, i + 1)
    }
}

/// The index of the first line from `j` on that is a heading of `hs` and
/// stands in the text before, or the number of lines.
pub open spec fn first_repeat(s: Seq<char>, ls: Seq<LineView>, hs: Seq<Seq<char>>, j: int) -> int
    decreases ls.len() - j,
{
    if j < 0 || j >= ls.len() {
        ls.len() as int
    } else if hs.contains(text_of(s, ls[j])) && find_line(s, ls, text_of(s, ls[j]), 0) < j {
        j
    } else {
        first_repeat(s, ls, hs, j + 1)
    }
}

/// The index of the first heading from `k` on that is no line of the text,
/// or the number of headings.
pub open spec fn first_missing(s: Seq<char>, ls: Seq<LineView>, hs: Seq<Seq<char>>, k: int) -> int
    decreases hs.len() - k,
{
    if k < 0 || k >= hs.len() {
        hs.len() as int
    } else if find_line(s, ls, hs[k], 0) >= ls.len() {
        k
    } else {
        first_missing(s, ls, hs, k + 1)
    }
}

/// The line of each heading.
pub open spec fn heading_lines(s: Seq<char>, ls: Seq<LineView>, hs: Seq<Seq<char>>) -> Seq<int> {
    Seq::new(hs.len(), |k: int| find_line(s, ls, hs[k], 0))
}

/// The numbers grow.
pub open spec fn ascending(p: Seq<int>) -> bool {
    forall|k: int| 0 <= k < p.len() - 1 ==> #[trigger] p[k] < p[k + 1]
}

/// What is said of a header that is none of those expected.
pub open spec fn header_mismatch(week: Seq<char>, variants: Seq<Seq<char>>, found: Seq<char>) -> Seq<
    char,
> {
    "Weekly note header does not match built-in template for week starting "@ + week
        + ". Expected one of: "@ + debug_list_text(variants) + ". Found: '"@ + found + "'"@
}

/// What is said of a heading that stands twice.
pub open spec fn duplicate_heading(line: Seq<char>, first: int, second: int) -> Seq<char> {
    "Weekly note has duplicate weekday heading '"@ + line + "' at byte offsets "@ + decimal(
        first as nat,
    ) + " and "@ + decimal(second as nat)
}

/// What is said of a heading that is not there.
pub open spec fn missing_heading(heading: Seq<char>) -> Seq<char> {
    "Weekly note is missing expected heading '"@ + heading + "'"@
}

/// The section of heading `k`: from its line to the line of the next
/// heading, or to the end of the text. All places are in bytes.
pub open spec fn day_section(
    s: Seq<char>,
    ls: Seq<LineView>,
    hs: Seq<Seq<char>>,
    k: int,
) -> DayView {
    let p = heading_lines(s, ls, hs);
    DayView {
        heading: hs[k],
        heading_start: byte_offset(s, ls[p[k]].start),
        heading_end_with_newline: byte_offset(s, ls[p[k]].next),
        content_start: byte_offset(s, ls[p[k]].next),
        content_end: if k + 1 < hs.len() {
            byte_offset(s, ls[p[k + 1]].start)
        } else {
            byte_offset(s, s.len() as int)
        },
    }
}

/// A weekly note as it is read, given the headers and headings that it may
/// and must hold. The first line that is not blank must be one of the
/// headers; no heading may stand twice; every heading must stand there, and
/// in the order given.
pub open spec fn weekly_outcome(
    s: Seq<char>,
    variants: Seq<Seq<char>>,
    hs: Seq<Seq<char>>,
    week: Seq<char>,
) -> Result<ParsedView, Seq<char>> {
    let ls = line_spans(s);
    let h = first_filled_idx(s, ls, 0);
    let r = first_repeat(s, ls, hs, 0);
    let m = first_missing(s, ls, hs, 0);
    if h >= ls.len() {
        Err("Weekly note is empty; cannot migrate"@)
    } else if !variants.contains(text_of(s, ls[h])) {
        Err(header_mismatch(week, variants, text_of(s, ls[h])))
    } else if r < ls.len() {
        Err(
            duplicate_heading(
                text_of(s, ls[r]),
                byte_offset(s, ls[find_line(s, ls, text_of(s, ls[r]), 0)].start),
                byte_offset(s, ls[r].start),
            ),
        )
    } else if m < hs.len() {
        Err(missing_heading(hs[m]))
    } else if !ascending(heading_lines(s, ls, hs)) {
        Err("Weekly weekday headings are not in the expected order (Monday..Sunday)"@)
    } else {
        Ok(
            ParsedView {
                newline: newline_of(s),
                header_line: text_of(s, ls[h]),
                header_start: byte_offset(s, ls[h].start),
                header_end_with_newline: byte_offset(s, ls[h].next),
                days: Seq::new(hs.len(), |k: int| day_section(s, ls, hs, k)),
            },
        )
    }
}

/// Whether `x` is one of `list`.
pub fn list_contains(list: &Vec<Vec<char>>, x: &Vec<char>) -> (r: bool)
    ensures
        r == vec_views(list@).contains(x@),
{
    let mut i: usize = 0;
    while i < list.len()
        invariant
            i <= list.len(),
            forall|j: int| 0 <= j < i ==> list@[j]@ != x@,
        decreases list.len() - i,
    {
        if same(&list[i], x) {
            assert(vec_views(list@)[i as int] == x@);
            return true;
        }
        i += 1;
    }
    false
}

fn line_text(text: &Vec<char>, lines: &Vec<LineIdx>, i: usize) -> (r: Vec<char>)
    requires
        i < lines.len(),
        lines_fit(line_views(lines@), text.len() as int),
    ensures
        r@ == text_of(text@, line_views(lines@)[i as int]),
{
    assert(line_views(lines@)[i as int] == lines@[i as int]@);
    slice(text, lines[i].start, lines[i].end)
}

fn find_line_from(text: &Vec<char>, lines: &Vec<LineIdx>, wanted: &Vec<char>) -> (r: usize)
    requires
        lines_fit(line_views(lines@), text.len() as int),
    ensures
        r == find_line(text@, line_views(lines@), wanted@, 0),
        r <= lines.len(),
{
    let ghost ls = line_views(lines@);
    let mut i: usize = 0;
    while i < lines.len()
        invariant
            i <= lines.len(),
            ls == line_views(lines@),
            lines_fit(ls, text.len() as int),
            find_line(text@, ls, wanted@, 0) == find_line(text@, ls, wanted@, i as int),
        decreases lines.len() - i,
    {
        let t = line_text(text, lines, i);
        if same(&t, wanted) {
            return i;
        }
        i += 1;
    }
    i
}

fn find_header(text: &Vec<char>, lines: &Vec<LineIdx>) -> (h: usize)
    requires
        lines_fit(line_views(lines@), text.len() as int),
    ensures
        h == first_filled_idx(text@, line_views(lines@), 0),
        h <= lines.len(),
{
    let ghost ls = line_views(lines@);
    let mut h: usize = 0;
    while h < lines.len() && blank(&line_text(text, lines, h))
        invariant
            h <= lines.len(),
            ls == line_views(lines@),
            lines_fit(ls, text.len() as int),
            first_filled_idx(text@, ls, 0) == first_filled_idx(text@, ls, h as int),
        decreases lines.len() - h,
    {
        h += 1;
    }
    h
}

/// The first line that repeats a heading, with the line that it repeats.
fn find_repeat(text: &Vec<char>, lines: &Vec<LineIdx>, headings: &Vec<Vec<char>>) -> (r: Option<
    (usize, usize),
>)
    requires
        lines_fit(line_views(lines@), text.len() as int),
    ensures
        ({
            let s = text@;
            let ls = line_views(lines@);
            let j = first_repeat(s, ls, vec_views(headings@), 0);
            match r {
                Some((first, second)) => second == j && j < ls.len() && first == find_line(
                    s,
                    ls,
                    text_of(s, ls[j]),
                    0,
                ) && first < second,
                None => j >= ls.len(),
            }
        }),
{
    let ghost s = text@;
    let ghost ls = line_views(lines@);
    let ghost hs = vec_views(headings@);
    let mut j: usize = 0;
    while j < lines.len()
        invariant
            j <= lines.len(),
            ls == line_views(lines@),
            hs == vec_views(headings@),
            s == text@,
            lines_fit(ls, s.len() as int),
            first_repeat(s, ls, hs, 0) == first_repeat(s, ls, hs, j as int),
        decreases lines.len() - j,
    {
        let t = line_text(text, lines, j);
        if list_contains(headings, &t) {
            let first = find_line_from(text, lines, &t);
            if first < j {
                return Some((first, j));
            }
        }
        j += 1;
    }
    None
}

/// The line of every heading, or the first heading that has none.
fn find_headings(text: &Vec<char>, lines: &Vec<LineIdx>, headings: &Vec<Vec<char>>) -> (r: Result<
    Vec<usize>,
    usize,
>)
    requires
        lines_fit(line_views(lines@), text.len() as int),
    ensures
        ({
            let s = text@;
            let ls = line_views(lines@);
            let hs = vec_views(headings@);
            let m = first_missing(s, ls, hs, 0);
            match r {
                Ok(found) => m >= hs.len() && found.len() == hs.len() && forall|i: int|
                    0 <= i < found.len() ==> (#[trigger] found@[i]) == heading_lines(s, ls, hs)[i]
                        && found@[i] < lines.len(),
                Err(k) => k == m && m < hs.len(),
            }
        }),
{
    let ghost s = text@;
    let ghost ls = line_views(lines@);
    let ghost hs = vec_views(headings@);
    let mut found: Vec<usize> = Vec::new();
    let mut k: usize = 0;
    while k < headings.len()
        invariant
            k <= headings.len(),
            ls == line_views(lines@),
            hs == vec_views(headings@),
            s == text@,
            lines_fit(ls, s.len() as int),
            first_missing(s, ls, hs, 0) == first_missing(s, ls, hs, k as int),
            found.len() == k,
            forall|i: int|
                0 <= i < k ==> (#[trigger] found@[i]) == find_line(s, ls, hs[i], 0) && found@[i]
                    < lines.len(),
        decreases headings.len() - k,
    {
        assert(hs[k as int] == headings@[k as int]@);
        let at = find_line_from(text, lines, &headings[k]);
        if at >= lines.len() {
            return Err(k);
        }
        found.push(at);
        k += 1;
    }
    Ok(found)
}

fn grows(found: &Vec<usize>) -> (r: bool)
    ensures
        r == ascending(Seq::new(found.len() as nat, |i: int| found@[i] as int)),
{
    let ghost p = Seq::new(found.len() as nat, |i: int| found@[i] as int);
    let mut w: usize = 0;
    while w < found.len() && found.len() - w > 1
        invariant
            w <= found.len(),
            p == Seq::new(found.len() as nat, |i: int| found@[i] as int),
            forall|i: int| 0 <= i < w ==> #[trigger] p[i] < p[i + 1],
        decreases found.len() - w,
    {
        if found[w] >= found[w + 1] {
            assert(!(p[w as int] < p[w + 1]));
            return false;
        }
        w += 1;
    }
    true
}

fn build_days(
    text: &Vec<char>,
    lines: &Vec<LineIdx>,
    headings: &Vec<Vec<char>>,
    found: &Vec<usize>,
    total: usize,
) -> (days: Vec<DaySection>)
    requires
        lines_fit(line_views(lines@), text.len() as int),
        total == byte_offset(text@, text.len() as int),
        found.len() == headings.len(),
        forall|i: int|
            0 <= i < found.len() ==> (#[trigger] found@[i]) == heading_lines(
                text@,
                line_views(lines@),
                vec_views(headings@),
            )[i] && found@[i] < lines.len(),
    ensures
        day_views(days@) == Seq::new(
            headings.len() as nat,
            |k: int| day_section(text@, line_views(lines@), vec_views(headings@), k),
        ),
{
    let ghost s = text@;
    let ghost ls = line_views(lines@);
    let ghost hs = vec_views(headings@);
    let ghost p = heading_lines(s, ls, hs);
    let mut days: Vec<DaySection> = Vec::new();
    let mut d: usize = 0;
    while d < found.len()
        invariant
            d <= found.len(),
            found.len() == headings.len(),
            ls == line_views(lines@),
            hs == vec_views(headings@),
            s == text@,
            total == byte_offset(s, s.len() as int),
            lines_fit(ls, s.len() as int),
            p == heading_lines(s, ls, hs),
            forall|i: int|
                0 <= i < found.len() ==> (#[trigger] found@[i]) == p[i] && found@[i]
                    < lines.len(),
            days.len() == d,
            forall|i: int| 0 <= i < d ==> (#[trigger] days@[i])@ == day_section(s, ls, hs, i),
        decreases found.len() - d,
    {
        let li = lines[found[d]];
        assert(ls[found@[d as int] as int] == li@);
        assert(hs[d as int] == headings@[d as int]@);
        let heading_start = byte_offset_of(text, li.start, total);
        let after = byte_offset_of(text, li.end_with_newline, total);
        let content_end = if d + 1 < found.len() {
            let next = lines[found[d + 1]];
            assert(ls[found@[d + 1] as int] == next@);
            byte_offset_of(text, next.start, total)
        } else {
            total
        };
        days.push(
            DaySection {
                heading: string_of(&headings[d]),
                heading_start,
                heading_end_with_newline: after,
                content_start: after,
                content_end,
            },
        );
        d += 1;
    }
    assert(day_views(days@) =~= Seq::new(hs.len(), |k: int| day_section(s, ls, hs, k)));
    days
}

/// Reads a weekly note against the headers and headings given: see
/// [`weekly_outcome`].
pub fn parse_weekly_with(content: &str, expected: &WeeklyExpected, week: &str) -> (r: Result<
    WeeklyParsed,
    DjourError,
>)
    ensures
        match weekly_outcome(
            content@,
            str_views(expected.header_variants@),
            str_views(expected.weekday_headings@),
            week@,
        ) {
            Ok(p) => r matches Ok(parsed) && parsed@ == p,
            Err(m) => r matches Err(DjourError::Config(msg)) && msg@ == m,
        },
{
    let text = chars_of(content);
    let total = byte_length(content);
    let variants = chars_of_all(&expected.header_variants);
    let headings = chars_of_all(&expected.weekday_headings);
    let newline = detect_newline_style(&text);
    let lines = scan_lines(&text);
    let ghost s = text@;
    let ghost ls = line_views(lines@);
    let ghost hs = vec_views(headings@);
    let h = find_header(&text, &lines);
    if h >= lines.len() {
        return Err(DjourError::config("Weekly note is empty; cannot migrate"));
    }
    let header_line = line_text(&text, &lines, h);
    if !list_contains(&variants, &header_line) {
        let mut msg = chars_of(
            "Weekly note header does not match built-in template for week starting ",
        );
        extend_str(&mut msg, week);
        extend_str(&mut msg, ". Expected one of: ");
        extend_str(&mut msg, debug_list(&expected.header_variants).as_str());
        extend_str(&mut msg, ". Found: '");
        extend(&mut msg, &header_line);
        extend_str(&mut msg, "'");
        return Err(DjourError::Config(string_of(&msg)));
    }
    if let Some((first, second)) = find_repeat(&text, &lines, &headings) {
        assert(ls[first as int] == lines@[first as int]@);
        assert(ls[second as int] == lines@[second as int]@);
        let mut msg = chars_of("Weekly note has duplicate weekday heading '");
        extend(&mut msg, &line_text(&text, &lines, second));
        extend_str(&mut msg, "' at byte offsets ");
        push_decimal(&mut msg, byte_offset_of(&text, lines[first].start, total));
        extend_str(&mut msg, " and ");
        push_decimal(&mut msg, byte_offset_of(&text, lines[second].start, total));
        return Err(DjourError::Config(string_of(&msg)));
    }
    let found = match find_headings(&text, &lines, &headings) {
        Ok(found) => found,
        Err(k) => {
            assert(hs[k as int] == headings@[k as int]@);
            let mut msg = chars_of("Weekly note is missing expected heading '");
            extend(&mut msg, &headings[k]);
            extend_str(&mut msg, "'");
            return Err(DjourError::Config(string_of(&msg)));
        },
    };
    assert(Seq::new(found.len() as nat, |i: int| found@[i] as int) =~= heading_lines(s, ls, hs));
    if !grows(&found) {
        return Err(
            DjourError::config(
                "Weekly weekday headings are not in the expected order (Monday..Sunday)",
            ),
        );
    }
    let days = build_days(&text, &lines, &headings, &found, total);
    let header = lines[h];
    assert(ls[h as int] == header@);
    Ok(
        WeeklyParsed {
            newline,
            header_line: string_of(&header_line),
            header_start: byte_offset_of(&text, header.start, total),
            header_end_with_newline: byte_offset_of(&text, header.end_with_newline, total),
            days,
        },
    )
}

/// The note of the week that begins with `monday` as it is read.
pub open spec fn weekly_note(s: Seq<char>, monday: Ymd) -> Result<ParsedView, Seq<char>> {
    weekly_outcome(s, header_variants_of(monday), weekday_headings_of(monday), iso_date(monday))
}

/// Reads the note of the week that begins with `week_start`, where the
/// week is in range: see [`weekly_note`] and [`try_parse_weekly`].
pub fn parse_weekly(content: &str, week_start: Date) -> (r: Result<WeeklyParsed, DjourError>)
    requires
        week_in_range(week_start@),
    ensures
        match weekly_note(content@, week_start@) {
            Ok(p) => r matches Ok(parsed) && parsed@ == p,
            Err(m) => r matches Err(DjourError::Config(msg)) && msg@ == m,
        },
{
    let expected = expected_weekly(week_start);
    parse_weekly_with(content, &expected, week_start.format("%Y-%m-%d").as_str())
}

/// Reads the note of a week, or gives nothing where the week is out of
/// range.
pub fn try_parse_weekly(content: &str, week_start: Date) -> (r: Option<
    Result<WeeklyParsed, DjourError>,
>)
    ensures
        r is Some <==> week_in_range(week_start@),
        r matches Some(inner) ==> match weekly_note(content@, week_start@) {
            Ok(p) => inner matches Ok(parsed) && parsed@ == p,
            Err(m) => inner matches Err(DjourError::Config(msg)) && msg@ == m,
        },
{
    if week_fits(&week_start) {
        Some(parse_weekly(content, week_start))
    } else {
        None
    }
}

// ---------------------------------------------------------------------------
// Moving daily notes into a weekly note
// ---------------------------------------------------------------------------

/// The index of the first day from `k` on with the given heading, or the
/// number of days.
pub open spec fn find_day(days: Seq<DayView>, heading: Seq<char>, k: int) -> int
    decreases days.len() - k,
{
    if k < 0 || k >= days.len() {
        days.len() as int
    } else if days[k].heading == heading {
        k
    } else {
        find_day(days, heading, k + 1)
    }
}

/// What is put into a day's section for a daily note: the note's body
/// between the markers of its file, on lines of their own.
pub open spec fn migrated_block(
    newline: NewlineStyle,
    source_filename: Seq<char>,
    body: Seq<char>,
) -> Seq<char> {
    let nl = newline.text();
    let kept = trimmed_end(with_newlines(body, newline), CharClass::LineBreak);
    start_marker(source_filename) + nl + (if kept.len() > 0 {
        kept + nl
    } else {
        seq![]
    }) + end_marker(source_filename) + nl
}

/// The weekly note with a daily note put into the section of its day. The
/// body goes behind what the section holds, before the white space at the
/// section's end; a note that was put there before is not put there again.
pub open spec fn injected(
    s: Seq<char>,
    parsed: ParsedView,
    heading: Seq<char>,
    day: Seq<char>,
    source_filename: Seq<char>,
    body: Seq<char>,
) -> Result<Seq<char>, Seq<char>> {
    let k = find_day(parsed.days, heading, 0);
    if k >= parsed.days.len() {
        Err("Weekly note is missing expected section heading for "@ + day)
    } else {
        let section = byte_range(s, parsed.days[k].content_start, parsed.days[k].content_end);
        let kept = trimmed_end(section, CharClass::Whitespace);
        let at = char_index(s, parsed.days[k].content_start) + kept.len();
        let nl = parsed.newline.text();
        if contains_seq(section, start_marker(source_filename)) {
            if contains_seq(section, end_marker(source_filename)) {
                Ok(s)
            } else {
                Err(
                    "Weekly note contains start marker but missing end marker for '"@
                        + source_filename + "'"@,
                )
            }
        } else {
            Ok(
                s.subrange(0, at) + (if at > 0 && s[at - 1] != '\n' {
                    nl
                } else {
                    seq![]
                }) + migrated_block(parsed.newline, source_filename, body) + (if k
                    < parsed.days.len() - 1 && kept.len() == section.len() {
                    nl
                } else {
                    seq![]
                }) + s.subrange(at, s.len() as int),
            )
        }
    }
}

/// Puts a daily note into a weekly note that was read: see [`injected`].
pub fn inject_into_parsed(
    weekly_content: &str,
    parsed: &WeeklyParsed,
    heading: &str,
    day: &str,
    source_filename: &str,
    daily_body: &str,
) -> (r: Result<String, DjourError>)
    ensures
        match injected(
            weekly_content@,
            parsed@,
            heading@,
            day@,
            source_filename@,
            daily_body@,
        ) {
            Ok(text) => r matches Ok(s) && s@ == text,
            Err(m) => r matches Err(DjourError::Config(msg)) && msg@ == m,
        },
{
    let text = chars_of(weekly_content);
    let wanted = chars_of(heading);
    let ghost days = day_views(parsed.days@);
    let mut k: usize = 0;
    while k < parsed.days.len()
        invariant_except_break
            k <= parsed.days.len(),
            days == day_views(parsed.days@),
            wanted@ == heading@,
            find_day(days, heading@, 0) == find_day(days, heading@, k as int),
        ensures
            k <= parsed.days.len(),
            k == find_day(days, heading@, 0),
        decreases parsed.days.len() - k,
    {
        assert(days[k as int] == parsed.days@[k as int]@);
        if same(&chars_of(parsed.days[k].heading.as_str()), &wanted) {
            break ;
        }
        k += 1;
    }
    if k >= parsed.days.len() {
        let mut msg = chars_of("Weekly note is missing expected section heading for ");
        extend_str(&mut msg, day);
        return Err(DjourError::Config(string_of(&msg)));
    }
    assert(days[k as int] == parsed.days@[k as int]@);
    let section = slice_bytes(&text, parsed.days[k].content_start, parsed.days[k].content_end);
    let start = marker_start(source_filename);
    let end = marker_end(source_filename);
    if contains(&section, &start) {
        if !contains(&section, &end) {
            let mut msg = chars_of(
                "Weekly note contains start marker but missing end marker for '",
            );
            extend_str(&mut msg, source_filename);
            extend_str(&mut msg, "'");
            return Err(DjourError::Config(string_of(&msg)));
        }
        return Ok(string_of(&text));
    }
    let kept = trim_end_by(&section, CharClass::Whitespace);
    let a = char_index_of(&text, parsed.days[k].content_start);
    let b = char_index_of(&text, parsed.days[k].content_end);
    proof {
        crate::text::lemma_back_class_bounds(
            section@,
            CharClass::Whitespace,
            section@.len() as int,
        );
    }
    assert(a + kept.len() <= text.len());
    let at: usize = a + kept.len();
    let nl = parsed.newline.as_str();
    let body = trim_end_by(
        &normalize_newlines(&chars_of(daily_body), parsed.newline),
        CharClass::LineBreak,
    );
    let mut block: Vec<char> = Vec::new();
    extend(&mut block, &start);
    extend_str(&mut block, nl);
    if body.len() > 0 {
        extend(&mut block, &body);
        extend_str(&mut block, nl);
    }
    extend(&mut block, &end);
    extend_str(&mut block, nl);
    assert(block@ =~= migrated_block(parsed.newline, source_filename@, daily_body@));
    let ghost lead = if at > 0 && text@[at - 1] != '\n' {
        nl@
    } else {
        Seq::<char>::empty()
    };
    let ghost tail = if k < parsed.days.len() - 1 && kept.len() == section.len() {
        nl@
    } else {
        Seq::<char>::empty()
    };
    let mut out = slice(&text, 0, at);
    if at > 0 && text[at - 1] != '\n' {
        extend_str(&mut out, nl);
    }
    assert(out@ =~= text@.subrange(0, at as int) + lead);
    extend(&mut out, &block);
    if k < parsed.days.len() - 1 && kept.len() == section.len() {
        extend_str(&mut out, nl);
    }
    assert(out@ =~= text@.subrange(0, at as int) + lead + block@ + tail);
    extend(&mut out, &slice(&text, at, text.len()));
    assert(out@ =~= text@.subrange(0, at as int) + lead + block@ + tail + text@.subrange(
        at as int,
        text.len() as int,
    ));
    Ok(string_of(&out))
}

/// What putting a daily note into the note of a week gives: the note is
/// read, and the daily note goes into the section of its day of the week.
pub open spec fn injected_note(
    s: Seq<char>,
    monday: Ymd,
    day: Ymd,
    source_filename: Seq<char>,
    body: Seq<char>,
) -> Result<Seq<char>, Seq<char>> {
    match weekly_note(s, monday) {
        Err(m) => Err(m),
        Ok(parsed) => injected(
            s,
            parsed,
            weekday_heading(monday, weekday_of(day.0, day.1, day.2)),
            iso_date(day),
            source_filename,
            body,
        ),
    }
}

/// Puts the body of a daily note into the note of its week, where the week
/// is in range: see [`injected_note`] and [`try_inject_daily_into_weekly`].
pub fn inject_daily_into_weekly(
    weekly_content: &str,
    week_start: Date,
    day: Date,
    source_filename: &str,
    daily_body: &str,
) -> (r: Result<String, DjourError>)
    requires
        week_in_range(week_start@),
    ensures
        match injected_note(
            weekly_content@,
            week_start@,
            day@,
            source_filename@,
            daily_body@,
        ) {
            Ok(text) => r matches Ok(s) && s@ == text,
            Err(m) => r matches Err(DjourError::Config(msg)) && msg@ == m,
        },
{
    let parsed = match parse_weekly(weekly_content, week_start) {
        Ok(p) => p,
        Err(e) => {
            return Err(e);
        },
    };
    let expected = expected_weekly(week_start);
    let w = day.weekday() as usize;
    assert(str_views(expected.weekday_headings@)[w as int] == expected.weekday_headings@[w as int]@);
    inject_into_parsed(
        weekly_content,
        &parsed,
        expected.weekday_headings[w].as_str(),
        day.format("%Y-%m-%d").as_str(),
        source_filename,
        daily_body,
    )
}

/// Puts the body of a daily note into the note of its week, or gives
/// nothing where the week is out of range.
pub fn try_inject_daily_into_weekly(
    weekly_content: &str,
    week_start: Date,
    day: Date,
    source_filename: &str,
    daily_body: &str,
) -> (r: Option<Result<String, DjourError>>)
    ensures
        r is Some <==> week_in_range(week_start@),
        r matches Some(inner) ==> match injected_note(
            weekly_content@,
            week_start@,
            day@,
            source_filename@,
            daily_body@,
        ) {
            Ok(text) => inner matches Ok(s) && s@ == text,
            Err(m) => inner matches Err(DjourError::Config(msg)) && msg@ == m,
        },
{
    if week_fits(&week_start) {
        Some(inject_daily_into_weekly(weekly_content, week_start, day, source_filename, daily_body))
    } else {
        None
    }
}

// ---------------------------------------------------------------------------
// Splitting a weekly note into daily notes
// ---------------------------------------------------------------------------

/// The body of day `i` of a weekly note: its section without migration
/// markers.
pub open spec fn daily_body(s: Seq<char>, parsed: ParsedView, i: int) -> Seq<char> {
    without_markers(byte_range(s, parsed.days[i].content_start, parsed.days[i].content_end))
}

/// Where the first day of a note that was read begins.
pub open spec fn first_day_of(parsed: ParsedView) -> Option<int> {
    if parsed.days.len() == 0 {
        None
    } else {
        Some(parsed.days[0].heading_start)
    }
}

/// What hinders the splitting of the note of a week, if anything: that it
/// cannot be read, or that it holds text outside of its days.
pub open spec fn split_hindrance(s: Seq<char>, monday: Ymd) -> Option<Seq<char>> {
    match weekly_note(s, monday) {
        Err(m) => Some(m),
        Ok(parsed) => outside_content(
            s,
            parsed.header_start,
            parsed.header_end_with_newline,
            first_day_of(parsed),
        ),
    }
}

/// The bodies of the days of the note of a week, each with its date, where
/// the week is in range: see [`try_split_weekly_into_daily_bodies`].
pub fn split_weekly_into_daily_bodies(weekly_content: &str, week_start: Date) -> (r: Result<
    Vec<(Date, String)>,
    DjourError,
>)
    requires
        week_in_range(week_start@),
    ensures
        match split_hindrance(weekly_content@, week_start@) {
            Some(m) => r matches Err(DjourError::Config(msg)) && msg@ == m,
            None => r matches Ok(bodies) && weekly_note(weekly_content@, week_start@) matches Ok(
                parsed,
            ) && bodies.len() == parsed.days.len() && forall|i: int|
                0 <= i < bodies.len() ==> (#[trigger] bodies@[i]).0@ == day_of_week(week_start@, i)
                    && bodies@[i].1@ == daily_body(weekly_content@, parsed, i),
        },
{
    let parsed = match parse_weekly(weekly_content, week_start) {
        Ok(p) => p,
        Err(e) => {
            return Err(e);
        },
    };
    assert(first_day_start(&parsed) == first_day_of(parsed@)) by {
        if parsed.days@.len() > 0 {
            assert(parsed@.days[0] == parsed.days@[0]@);
        }
    }
    match validate_weekly_no_outside_content(weekly_content, &parsed) {
        Ok(()) => {},
        Err(e) => {
            return Err(e);
        },
    }
    let text = chars_of(weekly_content);
    let ghost monday = week_start@;
    let ghost pv = parsed@;
    assert(pv.days.len() == 7);
    let mut out: Vec<(Date, String)> = Vec::new();
    let mut i: usize = 0;
    while i < parsed.days.len()
        invariant
            i <= parsed.days.len(),
            parsed.days.len() == 7,
            pv == parsed@,
            monday == week_start@,
            week_in_range(monday),
            text@ == weekly_content@,
            out.len() == i,
            forall|j: int|
                0 <= j < i ==> (#[trigger] out@[j]).0@ == day_of_week(monday, j) && out@[j].1@
                    == daily_body(weekly_content@, pv, j),
        decreases parsed.days.len() - i,
    {
        assert(shifted_date(monday.0, monday.1, monday.2, i as int) is Some);
        let day = week_start.checked_add_days(i as i64).unwrap();
        let section = &parsed.days[i];
        assert(pv.days[i as int] == section@);
        let raw = slice_bytes(&text, section.content_start, section.content_end);
        let cleaned = strip_migration_markers(string_of(&raw).as_str());
        out.push((day, cleaned));
        i += 1;
    }
    Ok(out)
}

/// The bodies of the days of the note of a week, or nothing where the week
/// is out of range.
pub fn try_split_weekly_into_daily_bodies(weekly_content: &str, week_start: Date) -> (r: Option<
    Result<Vec<(Date, String)>, DjourError>,
>)
    ensures
        r is Some <==> week_in_range(week_start@),
        r matches Some(inner) ==> match split_hindrance(weekly_content@, week_start@) {
            Some(m) => inner matches Err(DjourError::Config(msg)) && msg@ == m,
            None => inner matches Ok(bodies) && weekly_note(
                weekly_content@,
                week_start@,
            ) matches Ok(parsed) && bodies.len() == parsed.days.len() && forall|i: int|
                0 <= i < bodies.len() ==> (#[trigger] bodies@[i]).0@ == day_of_week(week_start@, i)
                    && bodies@[i].1@ == daily_body(weekly_content@, parsed, i),
        },
{
    if week_fits(&week_start) {
        Some(split_weekly_into_daily_bodies(weekly_content, week_start))
    } else {
        None
    }
}

} // verus!
