//! What the journal's commands decide and compute, given what was read
//! from the file system.

use vstd::prelude::*;
use crate::compiler::{
    filtered, lex_before, text_before, CompilationDateStyle, CompilationFormat, TagCompiler,
};
use crate::date::{date_view, parsed_date, ymd_before, Date, Ymd};
use crate::error::DjourError;
use crate::events::markdown_events;
use crate::extractor::{extracted, Setting};
use crate::fragment::{fragment_views, FragmentView, TaggedContent};
use crate::migration::{daily_prefix, daily_prefix_of};
use crate::mode::{stem_of, JournalMode};
use crate::numbers::all_digits;
use crate::outline::section_bodies;
use crate::output::{note_views, NoteEntry, NoteView};
use crate::parser::TagParser;
use crate::paths::{
    components, components_of, file_name, file_name_of, join, joined, rooted, split, split_on,
};
use crate::query::{parsed, TagQuery};
use crate::render::{dates_in_range, document};
use crate::services::{sanitize_filename, sanitized, RetagFileChange, RetagReport};
use crate::text::{
    blank, chars_of, ends_with, extend, extend_str, has_suffix_str, is_ascii_digit, is_blank,
    slice, str_is, string_of, to_lowercase, trim_start_by, trimmed_start, unicode_lower, vec_views,
    CharClass,
};

verus! {

// ---------------------------------------------------------------------------
// Arguments
// ---------------------------------------------------------------------------

/// What is said of a date that cannot be read.
pub open spec fn bad_date(s: Seq<char>) -> Seq<char> {
    "Invalid date format: "@ + s + ". Use DD-MM-YYYY"@
}

/// The date that an argument gives, if there is an argument: day, month,
/// year.
pub open spec fn cli_date(value: Option<Seq<char>>) -> Result<Option<Ymd>, Seq<char>> {
    match value {
        None => Ok(None),
        Some(s) => match parsed_date(s, "%d-%m-%Y"@) {
            Some(d) => Ok(Some(d)),
            None => Err(bad_date(s)),
        },
    }
}

/// The view of a string that may be missing.
pub open spec fn opt_string_view(value: Option<String>) -> Option<Seq<char>> {
    match value {
        Some(s) => Some(s@),
        None => None,
    }
}

/// Reads a date given as an argument: see [`cli_date`].
pub fn parse_cli_date(value: Option<String>) -> (r: Result<Option<Date>, DjourError>)
    ensures
        match cli_date(opt_string_view(value)) {
            Ok(d) => r matches Ok(x) && date_view(x) == d,
            Err(m) => r matches Err(DjourError::Config(msg)) && msg@ == m,
        },
{
    match value {
        None => Ok(None),
        Some(s) => match Date::parse_from_str(s.as_str(), "%d-%m-%Y") {
            Some(d) => Ok(Some(d)),
            None => {
                let mut msg = chars_of("Invalid date format: ");
                extend_str(&mut msg, s.as_str());
                extend_str(&mut msg, ". Use DD-MM-YYYY");
                Err(DjourError::Config(string_of(&msg)))
            },
        },
    }
}

/// The layout that a name gives, in any case of letters.
pub open spec fn format_named(name: Seq<char>) -> Option<CompilationFormat> {
    if unicode_lower(name) == "chronological"@ {
        Some(CompilationFormat::Chronological)
    } else if unicode_lower(name) == "grouped"@ {
        Some(CompilationFormat::Grouped)
    } else {
        None
    }
}

/// Reads the name of a layout.
pub fn parse_format(format: &str) -> (r: Result<CompilationFormat, DjourError>)
    ensures
        match format_named(format@) {
            Some(f) => r == Ok::<CompilationFormat, DjourError>(f),
            None => r matches Err(DjourError::Config(msg)) && msg@ == "Invalid format: "@
                + format@ + ". Use 'chronological' or 'grouped'"@,
        },
{
    let lower = to_lowercase(format);
    if str_is(lower.as_str(), "chronological") {
        Ok(CompilationFormat::Chronological)
    } else if str_is(lower.as_str(), "grouped") {
        Ok(CompilationFormat::Grouped)
    } else {
        let mut msg = chars_of("Invalid format: ");
        extend_str(&mut msg, format);
        extend_str(&mut msg, ". Use 'chronological' or 'grouped'");
        Err(DjourError::Config(string_of(&msg)))
    }
}

// ---------------------------------------------------------------------------
// Listing notes
// ---------------------------------------------------------------------------

/// The note is undated or lies within the days asked for.
pub open spec fn in_days(n: NoteView, from: Option<Ymd>, to: Option<Ymd>) -> bool {
    match n.date {
        None => true,
        Some(d) => (from matches Some(f) ==> !ymd_before(d, f)) && (to matches Some(t)
            ==> !ymd_before(t, d)),
    }
}

/// The notes within the days asked for, in order.
pub open spec fn within(notes: Seq<NoteView>, from: Option<Ymd>, to: Option<Ymd>) -> Seq<NoteView>
    decreases notes.len(),
{
    if notes.len() == 0 {
        seq![]
    } else if in_days(notes.last(), from, to) {
        within(notes.drop_last(), from, to).push(notes.last())
    } else {
        within(notes.drop_last(), from, to)
    }
}

/// One note is listed before another: the newer one first, dated notes
/// before undated ones, undated ones by their names.
pub open spec fn listed_before(a: NoteView, b: NoteView) -> bool {
    match (a.date, b.date) {
        (Some(da), Some(db)) => ymd_before(db, da),
        (Some(_), None) => true,
        (None, Some(_)) => false,
        (None, None) => lex_before(a.filename, b.filename),
    }
}

/// A list in order with one more note, behind every note that is not
/// listed after it.
pub open spec fn note_inserted(sorted: Seq<NoteView>, x: NoteView) -> Seq<NoteView>
    decreases sorted.len(),
{
    if sorted.len() == 0 {
        seq![x]
    } else if listed_before(x, sorted.last()) {
        note_inserted(sorted.drop_last(), x).push(sorted.last())
    } else {
        sorted.push(x)
    }
}

/// The notes in the order of the list; notes of which none comes before
/// the other stay as they were given.
pub open spec fn newest_first(notes: Seq<NoteView>) -> Seq<NoteView>
    decreases notes.len(),
{
    if notes.len() == 0 {
        seq![]
    } else {
        note_inserted(newest_first(notes.drop_last()), notes.last())
    }
}

/// At most `limit` notes from the beginning of the list.
pub open spec fn limited(notes: Seq<NoteView>, limit: Option<usize>) -> Seq<NoteView> {
    match limit {
        Some(n) => if n < notes.len() {
            notes.take(n as int)
        } else {
            notes
        },
        None => notes,
    }
}

/// The list of notes that is shown: those within the days asked for, the
/// newest first, no more than the limit.
pub open spec fn selected(
    notes: Seq<NoteView>,
    from: Option<Ymd>,
    to: Option<Ymd>,
    limit: Option<usize>,
) -> Seq<NoteView> {
    limited(newest_first(within(notes, from, to)), limit)
}

/// The index at which a note goes into the first `n` notes of a list:
/// behind the last of them that it is not listed before.
pub open spec fn note_index(sorted: Seq<NoteView>, x: NoteView, n: int) -> int
    decreases n,
{
    if n <= 0 || n > sorted.len() || !listed_before(x, sorted[n - 1]) {
        n
    } else {
        note_index(sorted, x, n - 1)
    }
}

proof fn lemma_note_index_prefix(sorted: Seq<NoteView>, x: NoteView, n: int)
    requires
        0 <= n < sorted.len(),
    ensures
        note_index(sorted, x, n) == note_index(sorted.drop_last(), x, n),
        0 <= note_index(sorted, x, n) <= n,
    decreases n,
{
    if n > 0 {
        assert(sorted.drop_last()[n - 1] == sorted[n - 1]);
        if listed_before(x, sorted[n - 1]) {
            lemma_note_index_prefix(sorted, x, n - 1);
        }
    }
}

proof fn lemma_note_inserted_at(sorted: Seq<NoteView>, x: NoteView)
    ensures
        0 <= note_index(sorted, x, sorted.len() as int) <= sorted.len(),
        note_inserted(sorted, x) == sorted.insert(note_index(sorted, x, sorted.len() as int), x),
    decreases sorted.len(),
{
    if sorted.len() > 0 && listed_before(x, sorted.last()) {
        let init = sorted.drop_last();
        lemma_note_inserted_at(init, x);
        lemma_note_index_prefix(sorted, x, init.len() as int);
        let k = note_index(init, x, init.len() as int);
        assert(init.insert(k, x).push(sorted.last()) =~= sorted.insert(k, x));
    } else {
        assert(sorted.push(x) =~= sorted.insert(sorted.len() as int, x));
    }
}

fn note_in_days(note: &NoteEntry, from: &Option<Date>, to: &Option<Date>) -> (r: bool)
    ensures
        r == in_days(note@, date_view(*from), date_view(*to)),
{
    match &note.date {
        None => true,
        Some(d) => {
            let after = match from {
                Some(f) => !d.is_before(f),
                None => true,
            };
            let before = match to {
                Some(t) => !t.is_before(d),
                None => true,
            };
            after && before
        },
    }
}

fn note_listed_before(a: &NoteEntry, b: &NoteEntry) -> (r: bool)
    ensures
        r == listed_before(a@, b@),
{
    match (&a.date, &b.date) {
        (Some(da), Some(db)) => db.is_before(da),
        (Some(_), None) => true,
        (None, Some(_)) => false,
        (None, None) => text_before(
            &chars_of(a.filename.as_str()),
            &chars_of(b.filename.as_str()),
        ),
    }
}

/// Chooses and orders the notes of a list: see [`selected`].
pub fn select_notes(
    notes: &Vec<NoteEntry>,
    from: Option<Date>,
    to: Option<Date>,
    limit: Option<usize>,
) -> (list: Vec<NoteEntry>)
    ensures
        note_views(list@) == selected(note_views(notes@), date_view(from), date_view(to), limit),
{
    let ghost all = note_views(notes@);
    let ghost f = date_view(from);
    let ghost t = date_view(to);
    let mut kept: Vec<NoteEntry> = Vec::new();
    let mut i: usize = 0;
    assert(all.take(0) =~= Seq::<NoteView>::empty());
    assert(note_views(kept@) =~= Seq::<NoteView>::empty());
    while i < notes.len()
        invariant
            i <= notes.len(),
            all == note_views(notes@),
            f == date_view(from),
            t == date_view(to),
            note_views(kept@) == within(all.take(i as int), f, t),
        decreases notes.len() - i,
    {
        let ghost next = all.take(i + 1);
        assert(next.drop_last() =~= all.take(i as int));
        assert(next.last() == notes@[i as int]@);
        if note_in_days(&notes[i], &from, &to) {
            let ghost before = note_views(kept@);
            let n = NoteEntry::new(notes[i].filename.clone(), notes[i].date);
            kept.push(n);
            assert(note_views(kept@) =~= before.push(n@));
        }
        i += 1;
    }
    assert(all.take(notes.len() as int) =~= all);
    let ghost chosen = note_views(kept@);
    let mut sorted: Vec<NoteEntry> = Vec::new();
    let mut j: usize = 0;
    assert(chosen.take(0) =~= Seq::<NoteView>::empty());
    assert(note_views(sorted@) =~= Seq::<NoteView>::empty());
    while j < kept.len()
        invariant
            j <= kept.len(),
            chosen == note_views(kept@),
            note_views(sorted@) == newest_first(chosen.take(j as int)),
        decreases kept.len() - j,
    {
        let ghost next = chosen.take(j + 1);
        assert(next.drop_last() =~= chosen.take(j as int));
        assert(next.last() == kept@[j as int]@);
        let ghost before = note_views(sorted@);
        let x = NoteEntry::new(kept[j].filename.clone(), kept[j].date);
        let mut pos: usize = sorted.len();
        while pos > 0 && note_listed_before(&x, &sorted[pos - 1])
            invariant
                pos <= sorted.len(),
                before == note_views(sorted@),
                note_index(before, x@, before.len() as int) == note_index(before, x@, pos as int),
            decreases pos,
        {
            assert(before[pos - 1] == sorted@[pos - 1]@);
            pos -= 1;
        }
        assert(pos > 0 ==> before[pos - 1] == sorted@[pos - 1]@);
        proof {
            lemma_note_inserted_at(before, x@);
        }
        sorted.insert(pos, x);
        assert(note_views(sorted@) =~= before.insert(pos as int, x@));
        j += 1;
    }
    assert(chosen.take(kept.len() as int) =~= chosen);
    if let Some(n) = limit {
        if n < sorted.len() {
            let ghost whole = note_views(sorted@);
            sorted.truncate(n);
            assert(note_views(sorted@) =~= whole.take(n as int));
        }
    }
    sorted
}

/// A relative path with `/` between its components, as it is shown.
pub open spec fn shown_path(rel: Seq<char>) -> Seq<char> {
    let head = if rooted(rel) {
        seq![seq!['/']]
    } else if split_on(rel, '/')[0] == seq!['.'] {
        seq![seq!['.']]
    } else {
        seq![]
    };
    joined(head + components(rel))
}

/// The note that a file is under a mode, if it is one: a markdown file
/// whose name stands for a date, or `journal.md` in a journal of one file.
pub open spec fn note_of(mode: JournalMode, rel: Seq<char>) -> Option<NoteView> {
    match file_name_of(rel) {
        None => None,
        Some(leaf) => if !ends_with(leaf, ".md"@) {
            None
        } else if mode is Single {
            if leaf == "journal.md"@ {
                Some(NoteView { filename: shown_path(rel), date: None })
            } else {
                None
            }
        } else {
            match mode.date_of(leaf) {
                Some(d) => Some(NoteView { filename: shown_path(rel), date: Some(d) }),
                None => None,
            }
        },
    }
}

/// A path with `/` between its components: see [`shown_path`].
pub fn normalize_relative_path(rel: &str) -> (r: String)
    ensures
        r@ == shown_path(rel@),
{
    let path = chars_of(rel);
    let parts = components_of(&path);
    let mut all: Vec<Vec<char>> = Vec::new();
    assert(vec_views(all@) =~= Seq::<Seq<char>>::empty());
    if path.len() > 0 && path[0] == '/' {
        let mut root: Vec<char> = Vec::new();
        root.push('/');
        assert(root@ =~= seq!['/']);
        all.push(root);
        assert(vec_views(all@) =~= seq![seq!['/']]);
    } else {
        let pieces = split(&path, '/');
        proof {
            lemma_split_has_first(path@, 0, 0);
        }
        assert(vec_views(pieces@)[0] == pieces@[0]@);
        let first = &pieces[0];
        if first.len() == 1 && first[0] == '.' {
            assert(first@ =~= seq!['.']);
            let mut dot: Vec<char> = Vec::new();
            dot.push('.');
            assert(dot@ =~= seq!['.']);
            all.push(dot);
            assert(vec_views(all@) =~= seq![seq!['.']]);
        }
    }
    let ghost head = vec_views(all@);
    let mut i: usize = 0;
    while i < parts.len()
        invariant
            i <= parts.len(),
            vec_views(all@) == head + vec_views(parts@).take(i as int),
        decreases parts.len() - i,
    {
        let ghost before = vec_views(all@);
        let p = slice(&parts[i], 0, parts[i].len());
        assert(p@ =~= parts@[i as int]@);
        all.push(p);
        assert(vec_views(all@) =~= before.push(p@));
        i += 1;
        assert(vec_views(parts@).take(i as int) =~= vec_views(parts@).take(i - 1).push(p@));
    }
    assert(vec_views(parts@).take(parts.len() as int) =~= vec_views(parts@));
    string_of(&join(&all))
}

proof fn lemma_split_has_first(s: Seq<char>, start: int, i: int)
    requires
        0 <= start <= i <= s.len(),
    ensures
        crate::paths::split_scan(s, '/', start, i).len() >= 1,
    decreases s.len() - i,
{
    if i < s.len() && s[i] != '/' {
        lemma_split_has_first(s, start, i + 1);
    }
}

/// The note that a file is under a mode: see [`note_of`].
pub fn note_entry_from_relative_path(mode: JournalMode, rel: &str) -> (r: Option<NoteEntry>)
    ensures
        match r {
            Some(note) => note_of(mode, rel@) == Some(note@),
            None => note_of(mode, rel@).is_none(),
        },
{
    let leaf = match file_name(&chars_of(rel)) {
        Some(l) => l,
        None => {
            return None;
        },
    };
    if !has_suffix_str(&leaf, ".md") {
        return None;
    }
    match mode {
        JournalMode::Single => {
            if str_is(string_of(&leaf).as_str(), "journal.md") {
                Some(NoteEntry::new(normalize_relative_path(rel), None))
            } else {
                None
            }
        },
        _ => match mode.date_from_filename(string_of(&leaf).as_str()) {
            Some(d) => Some(NoteEntry::new(normalize_relative_path(rel), Some(d))),
            None => None,
        },
    }
}

// ---------------------------------------------------------------------------
// Opening a note
// ---------------------------------------------------------------------------

/// A journal of one file with one more entry: the entry behind what the
/// file holds, on a line of its own.
pub open spec fn with_entry(existing: Seq<char>, entry: Seq<char>) -> Seq<char> {
    if existing.len() == 0 {
        entry
    } else {
        existing + seq!['\n'] + entry
    }
}

/// The text of a note with one more entry at its end.
pub fn append_entry(existing: &str, entry: &str) -> (r: String)
    ensures
        r@ == with_entry(existing@, entry@),
{
    let mut out = chars_of(existing);
    if out.len() > 0 {
        out.push('\n');
    }
    extend_str(&mut out, entry);
    string_of(&out)
}

// ---------------------------------------------------------------------------
// Compiling
// ---------------------------------------------------------------------------

/// A document that was read: its file, its date and its text.
pub struct NoteText {
    pub filename: String,
    pub date: Option<Date>,
    pub content: String,
}

/// The mathematical form of [`NoteText`].
pub ghost struct NoteTextView {
    pub filename: Seq<char>,
    pub date: Option<Ymd>,
    pub content: Seq<char>,
}

impl View for NoteText {
    type V = NoteTextView;

    open spec fn view(&self) -> NoteTextView {
        NoteTextView { filename: self.filename@, date: date_view(self.date), content: self.content@ }
    }
}

/// The views of a list of notes with their texts.
pub open spec fn note_text_views(v: Seq<NoteText>) -> Seq<NoteTextView> {
    Seq::new(v.len(), |i: int| v[i]@)
}

/// The path of a file in a directory: `Path::join`.
pub open spec fn path_in(root: Seq<char>, name: Seq<char>) -> Seq<char> {
    if name.len() > 0 && name[0] == '/' {
        name
    } else if root.len() == 0 || root.last() == '/' {
        root + name
    } else {
        root + seq!['/'] + name
    }
}

/// The path of a file in a directory.
pub fn join_path(root: &str, name: &str) -> (r: String)
    ensures
        r@ == path_in(root@, name@),
{
    let n = chars_of(name);
    if n.len() > 0 && n[0] == '/' {
        return string_of(&n);
    }
    let mut out = chars_of(root);
    if out.len() > 0 && out[out.len() - 1] != '/' {
        out.push('/');
    }
    extend(&mut out, &n);
    string_of(&out)
}

/// The fragments of a document, as they are found where no output file is
/// known.
pub open spec fn fragments_of(root: Seq<char>, note: NoteTextView) -> Seq<FragmentView> {
    extracted(
        Setting {
            bodies: section_bodies(note.content),
            source_file: path_in(root, note.filename),
            date: note.date,
            output: None,
        },
        markdown_events(note.content),
    )
}

/// The fragments of all documents that are not empty, in order.
pub open spec fn all_fragments(root: Seq<char>, notes: Seq<NoteTextView>) -> Seq<FragmentView>
    decreases notes.len(),
{
    if notes.len() == 0 {
        seq![]
    } else if notes.last().content.len() == 0 {
        all_fragments(root, notes.drop_last())
    } else {
        all_fragments(root, notes.drop_last()) + fragments_of(root, notes.last())
    }
}

/// The style of the dates in a compilation of a journal of the given mode.
pub open spec fn date_style_of(mode: JournalMode) -> CompilationDateStyle {
    match mode {
        JournalMode::Weekly => CompilationDateStyle::WeekRange,
        JournalMode::Monthly => CompilationDateStyle::MonthRange,
        _ => CompilationDateStyle::SingleDate,
    }
}

/// The date style under which notes of a mode are compiled.
pub fn date_style_for(mode: JournalMode) -> (style: CompilationDateStyle)
    ensures
        style == date_style_of(mode),
{
    match mode {
        JournalMode::Weekly => CompilationDateStyle::WeekRange,
        JournalMode::Monthly => CompilationDateStyle::MonthRange,
        _ => CompilationDateStyle::SingleDate,
    }
}

/// The error of a compilation, or nothing.
pub ghost enum CompileFailure {
    /// The query cannot be read.
    Query(Seq<char>),
    /// There are no notes, or none of their fragments matches.
    NotFound(Seq<char>),
    /// A date has no header: the end of its range is out of range.
    Range,
}

/// What hinders the compilation of the notes for a query, if anything.
pub open spec fn compile_failure(
    query: Seq<char>,
    root: Seq<char>,
    notes: Seq<NoteTextView>,
    mode: JournalMode,
) -> Option<CompileFailure> {
    match parsed(query) {
        Err(m) => Some(CompileFailure::Query(m)),
        Ok(q) => if notes.len() == 0 {
            Some(CompileFailure::NotFound("No notes found for query: "@ + query))
        } else if filtered(all_fragments(root, notes), q).len() == 0 {
            Some(CompileFailure::NotFound("No content found matching query: "@ + query))
        } else if !dates_in_range(filtered(all_fragments(root, notes), q), date_style_of(mode)) {
            Some(CompileFailure::Range)
        } else {
            None
        },
    }
}

/// The compilation of the notes for a query.
pub open spec fn compiled(
    query: Seq<char>,
    root: Seq<char>,
    notes: Seq<NoteTextView>,
    format: CompilationFormat,
    mode: JournalMode,
    include_context: bool,
) -> Seq<char> {
    document(
        filtered(all_fragments(root, notes), parsed(query)->Ok_0),
        parsed(query)->Ok_0,
        format,
        date_style_of(mode),
        include_context,
        None,
    )
}

/// What is said where a date cannot be shown.
pub open spec fn range_message() -> Seq<char> {
    "A date of the compilation is too close to the end of the calendar"@
}

/// Compiles the notes of a journal for a query: reads the query, finds the
/// fragments of the notes that are not empty, keeps those that match, and
/// writes the compilation in the style of the journal's mode.
pub fn compile_notes(
    query: &str,
    root: &str,
    notes: &Vec<NoteText>,
    format: CompilationFormat,
    mode: JournalMode,
    include_context: bool,
) -> (r: Result<String, DjourError>)
    ensures
        match compile_failure(query@, root@, note_text_views(notes@), mode) {
            Some(CompileFailure::Query(m)) => r matches Err(DjourError::Config(msg)) && msg@ == m,
            Some(CompileFailure::NotFound(m)) => r matches Err(DjourError::TagNotFound(msg))
                && msg@ == m,
            Some(CompileFailure::Range) => r matches Err(DjourError::Config(msg)) && msg@
                == range_message(),
            None => r matches Ok(text) && text@ == compiled(
                query@,
                root@,
                note_text_views(notes@),
                format,
                mode,
                include_context,
            ),
        },
{
    let ghost all = note_text_views(notes@);
    let q = match TagQuery::parse(query) {
        Ok(q) => q,
        Err(e) => {
            return Err(e);
        },
    };
    if notes.len() == 0 {
        let mut msg = chars_of("No notes found for query: ");
        extend_str(&mut msg, query);
        return Err(DjourError::TagNotFound(string_of(&msg)));
    }
    let mut content: Vec<TaggedContent> = Vec::new();
    let mut i: usize = 0;
    assert(all.take(0) =~= Seq::<NoteTextView>::empty());
    assert(fragment_views(content@) =~= Seq::<FragmentView>::empty());
    while i < notes.len()
        invariant
            i <= notes.len(),
            all == note_text_views(notes@),
            fragment_views(content@) == all_fragments(root@, all.take(i as int)),
        decreases notes.len() - i,
    {
        let ghost next = all.take(i + 1);
        assert(next.drop_last() =~= all.take(i as int));
        assert(next.last() == notes@[i as int]@);
        let note = &notes[i];
        proof {
            reveal_strlit("");
            assert(""@.len() == 0);
        }
        if !str_is(note.content.as_str(), "") {
            assert(note.content@.len() > 0) by {
                if note.content@.len() == 0 {
                    assert(note.content@ =~= ""@);
                }
            }
            let ghost before = fragment_views(content@);
            let path = join_path(root, note.filename.as_str());
            let mut found = TagParser::extract_from_markdown(
                note.content.as_str(),
                path.as_str(),
                note.date,
            );
            let ghost added = fragment_views(found@);
            content.append(&mut found);
            assert(fragment_views(content@) =~= before + added);
        }
        i += 1;
    }
    assert(all.take(notes.len() as int) =~= all);
    let kept = TagCompiler::filter(content, &q);
    if kept.len() == 0 {
        let mut msg = chars_of("No content found matching query: ");
        extend_str(&mut msg, query);
        return Err(DjourError::TagNotFound(string_of(&msg)));
    }
    match TagCompiler::compile(kept, &q, format, date_style_for(mode), include_context, None) {
        Some(text) => Ok(text),
        None => Err(
            DjourError::config("A date of the compilation is too close to the end of the calendar"),
        ),
    }
}

/// Where a compilation is written where no file is named: in
/// `compilations`, under the name that the query gives.
pub open spec fn default_output_of(query: Seq<char>) -> Seq<char> {
    "compilations/"@ + sanitized(query) + ".md"@
}

/// The file to which a compilation goes where none is named.
pub fn default_output(query: &str) -> (r: String)
    ensures
        r@ == default_output_of(query@),
{
    let mut out = chars_of("compilations/");
    extend_str(&mut out, sanitize_filename(query).as_str());
    extend_str(&mut out, ".md");
    string_of(&out)
}

// ---------------------------------------------------------------------------
// Replacing tags
// ---------------------------------------------------------------------------

impl RetagReport {
    /// The report of a replacement in which nothing was done yet.
    pub fn new(dry_run: bool) -> (report: RetagReport)
        ensures
            report.scanned_files == 0,
            report.changed_files == 0,
            report.total_replacements == 0,
            report.dry_run == dry_run,
            report.changes@.len() == 0,
    {
        RetagReport {
            scanned_files: 0,
            changed_files: 0,
            total_replacements: 0,
            dry_run,
            changes: Vec::new(),
        }
    }

    /// Takes down what was replaced in a file that was scanned: see
    /// [`recorded`].
    pub fn record(&mut self, filename: &str, replacements: usize)
        ensures
            recorded(*old(self), *final(self), filename@, replacements),
    {
        self.scanned_files = capped_sum(self.scanned_files, 1);
        if replacements > 0 {
            self.changed_files = capped_sum(self.changed_files, 1);
            self.total_replacements = capped_sum(self.total_replacements, replacements);
            let ghost before = self.changes@;
            self.changes.push(
                RetagFileChange { filename: string_of(&chars_of(filename)), replacements },
            );
            assert(self.changes@.drop_last() =~= before);
        }
    }
}

/// What taking down a file does to a report. The file counts as scanned;
/// where something was replaced in it, it counts as changed, its
/// replacements are added, and it is put at the end of the changes. The
/// counts stay where they are once they cannot grow.
pub open spec fn recorded(
    before: RetagReport,
    after: RetagReport,
    filename: Seq<char>,
    replacements: usize,
) -> bool {
    &&& after.dry_run == before.dry_run
    &&& after.scanned_files == add_capped(before.scanned_files, 1)
    &&& replacements == 0 ==> {
        &&& after.changes@ == before.changes@
        &&& after.changed_files == before.changed_files
        &&& after.total_replacements == before.total_replacements
    }
    &&& replacements > 0 ==> {
        &&& after.changes@.len() == before.changes@.len() + 1
        &&& after.changes@.last().filename@ == filename
        &&& after.changes@.last().replacements == replacements
        &&& after.changes@.drop_last() == before.changes@
        &&& after.changed_files == add_capped(before.changed_files, 1)
        &&& after.total_replacements == add_capped(before.total_replacements, replacements)
    }
}

/// The sum of two counts, or the largest count where the sum is larger.
pub open spec fn add_capped(a: usize, b: usize) -> usize {
    if a + b > usize::MAX {
        usize::MAX
    } else {
        (a + b) as usize
    }
}

/// The sum of two counts, or the largest count where the sum is beyond it.
pub fn capped_sum(a: usize, b: usize) -> (r: usize)
    ensures
        r == add_capped(a, b),
{
    if b > usize::MAX - a {
        usize::MAX
    } else {
        a + b
    }
}

// ---------------------------------------------------------------------------
// Moving between modes
// ---------------------------------------------------------------------------

/// What a migration between two modes has to do.
#[derive(Debug, Clone, Copy, PartialEq, Eq)]
pub enum MigrationStep {
    /// The journal is in the mode already.
    Nothing,
    DailyToWeekly,
    WeeklyToDaily,
}

/// What a migration between two modes has to do, if it can be done.
pub open spec fn migration_step(from: JournalMode, to: JournalMode) -> Option<MigrationStep> {
    if from == to {
        Some(MigrationStep::Nothing)
    } else if from is Daily && to is Weekly {
        Some(MigrationStep::DailyToWeekly)
    } else if from is Weekly && to is Daily {
        Some(MigrationStep::WeeklyToDaily)
    } else {
        None
    }
}

/// Decides what a migration has to do; only daily and weekly journals can
/// be turned into each other.
pub fn plan_migration(from: JournalMode, to: JournalMode) -> (r: Result<MigrationStep, DjourError>)
    ensures
        match migration_step(from, to) {
            Some(step) => r == Ok::<MigrationStep, DjourError>(step),
            None => r matches Err(DjourError::Config(msg)) && msg@
                == "Mode migration currently supports only daily <-> weekly"@,
        },
{
    match (from, to) {
        (JournalMode::Daily, JournalMode::Daily) => Ok(MigrationStep::Nothing),
        (JournalMode::Weekly, JournalMode::Weekly) => Ok(MigrationStep::Nothing),
        (JournalMode::Monthly, JournalMode::Monthly) => Ok(MigrationStep::Nothing),
        (JournalMode::Single, JournalMode::Single) => Ok(MigrationStep::Nothing),
        (JournalMode::Daily, JournalMode::Weekly) => Ok(MigrationStep::DailyToWeekly),
        (JournalMode::Weekly, JournalMode::Daily) => Ok(MigrationStep::WeeklyToDaily),
        _ => Err(DjourError::config("Mode migration currently supports only daily <-> weekly")),
    }
}

/// Refuses a migration of a journal with templates of its own.
pub fn refuse_custom_templates(custom_daily: bool, custom_weekly: bool) -> (r: Result<
    (),
    DjourError,
>)
    ensures
        match r {
            Ok(_) => !custom_daily && !custom_weekly,
            Err(e) => (custom_daily || custom_weekly) && (e matches DjourError::Config(msg) && msg@
                == "Mode migration only supports built-in templates. Remove custom templates in .djour/templates/ and retry."@),
        },
{
    if custom_daily || custom_weekly {
        Err(
            DjourError::config(
                "Mode migration only supports built-in templates. Remove custom templates in .djour/templates/ and retry.",
            ),
        )
    } else {
        Ok(())
    }
}

/// The directory of the archive: the one asked for, which must be a
/// relative path, or one named after the time of the migration.
pub open spec fn archive_dir_of(asked: Option<Seq<char>>, stamp: Seq<char>) -> Result<
    Seq<char>,
    Seq<char>,
> {
    match asked {
        Some(p) => if rooted(p) {
            Err("archive-dir must be a relative path within the journal directory"@)
        } else {
            Ok(p)
        },
        None => Ok(".djour/archive/mode-migration-"@ + stamp),
    }
}

/// The view of a string slice that may be missing.
pub open spec fn opt_str(o: Option<&str>) -> Option<Seq<char>> {
    match o {
        Some(s) => Some(s@),
        None => None,
    }
}

/// The directory into which the notes of the old mode are moved.
pub fn resolve_archive_dir(archive_dir: Option<&str>, stamp: &str) -> (r: Result<
    String,
    DjourError,
>)
    ensures
        match archive_dir_of(opt_str(archive_dir), stamp@) {
            Ok(dir) => r matches Ok(s) && s@ == dir,
            Err(m) => r matches Err(DjourError::Config(msg)) && msg@ == m,
        },
{
    match archive_dir {
        Some(p) => {
            let path = chars_of(p);
            if path.len() > 0 && path[0] == '/' {
                Err(
                    DjourError::config(
                        "archive-dir must be a relative path within the journal directory",
                    ),
                )
            } else {
                Ok(string_of(&path))
            }
        },
        None => {
            let mut out = chars_of(".djour/archive/mode-migration-");
            extend_str(&mut out, stamp);
            Ok(string_of(&out))
        },
    }
}

/// The place of a file in the archive.
pub fn archived_path(archive_dir: &str, filename: &str) -> (r: String)
    ensures
        r@ == archive_dir@ + seq!['/'] + filename@,
{
    let mut out = chars_of(archive_dir);
    out.push('/');
    extend_str(&mut out, filename);
    string_of(&out)
}

/// The text of the daily note that a day's section of a weekly note
/// becomes: the heading of the day, then the section without the line
/// breaks at its beginning; nothing where the section is blank.
pub open spec fn daily_note_of(day: Ymd, body: Seq<char>) -> Option<Seq<char>> {
    let kept = trimmed_start(body, CharClass::LineBreak);
    if is_blank(kept) {
        None
    } else {
        Some(daily_prefix_of(day) + kept)
    }
}

/// The daily note that a day's section of a weekly note becomes, if the
/// section is not blank.
pub fn daily_note(day: Date, body: &str) -> (r: Option<String>)
    ensures
        match r {
            Some(text) => daily_note_of(day@, body@) == Some(text@),
            None => daily_note_of(day@, body@).is_none(),
        },
{
    let kept = trim_start_by(&chars_of(body), CharClass::LineBreak);
    if blank(&kept) {
        return None;
    }
    let mut out = chars_of(daily_prefix(day).as_str());
    extend(&mut out, &kept);
    Some(string_of(&out))
}

/// A part of a file name is made of exactly `n` digits.
pub open spec fn digits_of_len(part: Seq<char>, n: int) -> bool {
    part.len() == n && all_digits(part)
}

/// The file name has the form of a weekly note as it is written now:
/// `YYYY-Www-YYYY-MM-DD.md`, with a date that exists.
pub open spec fn current_weekly_name(filename: Seq<char>) -> bool {
    match stem_of(filename) {
        None => false,
        Some(stem) => {
            let parts = split_on(stem, '-');
            &&& parts.len() == 5
            &&& digits_of_len(parts[0], 4)
            &&& parts[1].len() == 3
            &&& parts[1][0] == 'W'
            &&& digits_of_len(parts[1].subrange(1, 3), 2)
            &&& digits_of_len(parts[2], 4)
            &&& digits_of_len(parts[3], 2)
            &&& digits_of_len(parts[4], 2)
            &&& parsed_date(parts[2] + "-"@ + parts[3] + "-"@ + parts[4], "%Y-%m-%d"@) is Some
        },
    }
}

fn is_digits(part: &Vec<char>, n: usize) -> (r: bool)
    ensures
        r == digits_of_len(part@, n as int),
{
    if part.len() != n {
        return false;
    }
    let mut i: usize = 0;
    while i < part.len()
        invariant
            i <= part.len(),
            forall|j: int| 0 <= j < i ==> is_ascii_digit(#[trigger] part@[j]),
        decreases part.len() - i,
    {
        if !('0' <= part[i] && part[i] <= '9') {
            return false;
        }
        i += 1;
    }
    true
}

/// Whether a file name has the form of a weekly note as it is written now.
pub fn is_current_weekly_filename(filename: &str) -> (r: bool)
    ensures
        r == current_weekly_name(filename@),
{
    let name = chars_of(filename);
    proof {
        reveal_strlit(".md");
    }
    if !has_suffix_str(&name, ".md") {
        return false;
    }
    let stem = slice(&name, 0, name.len() - 3);
    let parts = split(&stem, '-');
    let ghost pv = vec_views(parts@);
    if parts.len() != 5 {
        return false;
    }
    assert(pv[0] == parts@[0]@ && pv[1] == parts@[1]@ && pv[2] == parts@[2]@ && pv[3]
        == parts@[3]@ && pv[4] == parts@[4]@);
    if !is_digits(&parts[0], 4) {
        return false;
    }
    let w = &parts[1];
    if w.len() != 3 || w[0] != 'W' || !is_digits(&slice(w, 1, 3), 2) {
        return false;
    }
    if !is_digits(&parts[2], 4) || !is_digits(&parts[3], 2) || !is_digits(&parts[4], 2) {
        return false;
    }
    let mut text: Vec<char> = Vec::new();
    extend(&mut text, &parts[2]);
    extend_str(&mut text, "-");
    extend(&mut text, &parts[3]);
    extend_str(&mut text, "-");
    extend(&mut text, &parts[4]);
    assert(text@ =~= pv[2] + "-"@ + pv[3] + "-"@ + pv[4]);
    Date::parse_from_str(string_of(&text).as_str(), "%Y-%m-%d").is_some()
}

// ---------------------------------------------------------------------------
// Finding the journal
// ---------------------------------------------------------------------------

/// The components of a path with the `.` that may stand at its beginning.
pub open spec fn raw_components(path: Seq<char>) -> Seq<Seq<char>> {
    if !rooted(path) && split_on(path, '/')[0] == seq!['.'] {
        seq![seq!['.']] + components(path)
    } else {
        components(path)
    }
}

/// The directory above a path: the path without its last component; none
/// for the root and for the empty path. `Path::parent`.
pub open spec fn parent_of(path: Seq<char>) -> Option<Seq<char>> {
    let items = raw_components(path);
    if items.len() == 0 {
        None
    } else if rooted(path) {
        Some(seq!['/'] + joined(items.drop_last()))
    } else {
        Some(joined(items.drop_last()))
    }
}

/// The directory above a path: see [`parent_of`].
pub fn parent_dir(path: &str) -> (r: Option<String>)
    ensures
        match r {
            Some(p) => parent_of(path@) == Some(p@),
            None => parent_of(path@).is_none(),
        },
{
    let text = chars_of(path);
    let is_rooted = text.len() > 0 && text[0] == '/';
    let parts = components_of(&text);
    let mut items: Vec<Vec<char>> = Vec::new();
    assert(vec_views(items@) =~= Seq::<Seq<char>>::empty());
    if !is_rooted {
        let pieces = split(&text, '/');
        proof {
            lemma_split_has_first(text@, 0, 0);
        }
        assert(vec_views(pieces@)[0] == pieces@[0]@);
        let first = &pieces[0];
        if first.len() == 1 && first[0] == '.' {
            assert(first@ =~= seq!['.']);
            let mut dot: Vec<char> = Vec::new();
            dot.push('.');
            assert(dot@ =~= seq!['.']);
            items.push(dot);
            assert(vec_views(items@) =~= seq![seq!['.']]);
        }
    }
    let ghost head = vec_views(items@);
    let mut i: usize = 0;
    while i < parts.len()
        invariant
            i <= parts.len(),
            vec_views(items@) == head + vec_views(parts@).take(i as int),
        decreases parts.len() - i,
    {
        let ghost before = vec_views(items@);
        let p = slice(&parts[i], 0, parts[i].len());
        assert(p@ =~= parts@[i as int]@);
        items.push(p);
        assert(vec_views(items@) =~= before.push(p@));
        i += 1;
        assert(vec_views(parts@).take(i as int) =~= vec_views(parts@).take(i - 1).push(p@));
    }
    assert(vec_views(parts@).take(parts.len() as int) =~= vec_views(parts@));
    assert(vec_views(items@) =~= raw_components(path@));
    if items.len() == 0 {
        return None;
    }
    let ghost all = vec_views(items@);
    items.pop();
    assert(vec_views(items@) =~= all.drop_last());
    let mut out: Vec<char> = Vec::new();
    if is_rooted {
        out.push('/');
    }
    extend(&mut out, &join(&items));
    Some(string_of(&out))
}

} // verus!
