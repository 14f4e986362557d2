//! Writing a compilation as markdown.

use vstd::prelude::*;
use crate::compiler::{
    chronological, group_view, group_views, grouped, insert_index, joined_group, joins_at,
    group_index, lemma_inserted_at, lemma_joined_at, shown_name, CompilationDateStyle,
    CompilationFormat, GroupView, TagCompiler,
};
use crate::date::{date_view, formatted_date, same_date, shifted_date, valid_ymd, Date, Ymd};
use crate::fragment::{
    fragment_views, payload_text, rendered_payload, span_gap, FragmentView, TaggedContent,
};
use crate::hierarchy::{ContextView, TagContext};
use crate::links::opt_view;
use crate::parser::opt_str_view;
use crate::query::{printed, QueryView, TagQuery};
use crate::text::{
    blank, char_is_ascii_digit, chars_of, ends_with, extend, extend_str, has_prefix_str,
    has_suffix_str, is_ascii_digit, is_blank, lines, lines_of, repeated, slice, starts_with,
    string_of, trim_start_by, trimmed_start, vec_views, CharClass,
};

verus! {

// ---------------------------------------------------------------------------
// Headers of dates
// ---------------------------------------------------------------------------

/// The first day of the month after that of `d`.
pub open spec fn next_month_start(d: Ymd) -> Ymd {
    if d.1 == 12 {
        (d.0 + 1, 1, 1)
    } else {
        (d.0, d.1 + 1, 1)
    }
}

/// The last day of the month of `d`: the day before the first of the next
/// month, where both are in range.
pub open spec fn month_end(d: Ymd) -> Option<Ymd> {
    let n = next_month_start(d);
    if valid_ymd(n.0, n.1, n.2) {
        shifted_date(n.0, n.1, n.2, -1)
    } else {
        None
    }
}

/// The day with which the range of a header ends, where it is in range.
pub open spec fn range_end(d: Ymd, style: CompilationDateStyle) -> Option<Ymd> {
    match style {
        CompilationDateStyle::SingleDate => Some(d),
        CompilationDateStyle::WeekRange => shifted_date(d.0, d.1, d.2, 6),
        CompilationDateStyle::MonthRange => month_end(d),
    }
}

/// A day as a compilation shows it: day, month, year.
pub open spec fn date_text(d: Ymd) -> Seq<char> {
    formatted_date(d.0, d.1, d.2, "%d-%m-%Y"@)
}

/// The text of a date header: the day, or the day and the end of its range.
pub open spec fn date_header(d: Ymd, style: CompilationDateStyle) -> Seq<char> {
    match style {
        CompilationDateStyle::SingleDate => date_text(d),
        _ => match range_end(d, style) {
            Some(e) => date_text(d) + " to "@ + date_text(e),
            None => date_text(d),
        },
    }
}

/// Every dated fragment has a header under the style: the end of its range
/// is a date in range.
pub open spec fn dates_in_range(fs: Seq<FragmentView>, style: CompilationDateStyle) -> bool {
    forall|i: int|
        0 <= i < fs.len() ==> ((#[trigger] fs[i]).date matches Some(d) ==> range_end(d, style)
            is Some)
}

// ---------------------------------------------------------------------------
// Spacing
// ---------------------------------------------------------------------------

/// The first line from `i` on that is not blank; nothing where all are.
pub open spec fn first_filled_line(lines: Seq<Seq<char>>, i: int) -> Seq<char>
    decreases lines.len() - i,
{
    if i < 0 || i >= lines.len() {
        seq![]
    } else if !is_blank(lines[i]) {
        lines[i]
    } else {
        first_filled_line(lines, i + 1)
    }
}

/// The end of the run of digits that begins at `i`.
pub open spec fn digits_end(s: Seq<char>, i: int) -> int
    decreases s.len() - i,
{
    if 0 <= i < s.len() && is_ascii_digit(s[i]) {
        digits_end(s, i + 1)
    } else {
        i
    }
}

/// The line begins as an item of a numbered list: digits, `.` or `)`, a
/// space.
pub open spec fn numbered(line: Seq<char>) -> bool {
    let e = digits_end(line, 0);
    e > 0 && e + 1 < line.len() && (line[e] == '.' || line[e] == ')') && line[e + 1] == ' '
}

/// The text looks like a list item: its first line that is not blank
/// begins, after white space, with `- `, `* `, `+ ` or as a numbered item.
pub open spec fn looks_like_item(content: Seq<char>) -> bool {
    let line = trimmed_start(first_filled_line(lines_of(content), 0), CharClass::Whitespace);
    starts_with(line, "- "@) || starts_with(line, "* "@) || starts_with(line, "+ "@) || numbered(
        line,
    )
}

/// Two fragments that follow each other are set without a blank line
/// between them: plain paragraphs of one document and one date that both
/// look like list items.
pub open spec fn tight(current: FragmentView, next: FragmentView) -> bool {
    &&& current.source_file == next.source_file
    &&& current.date == next.date
    &&& current.context is Paragraph
    &&& next.context is Paragraph
    &&& looks_like_item(payload_text(current.payload))
    &&& looks_like_item(payload_text(next.payload))
}

/// What stands behind fragment `idx`: the gap of the source where this and
/// the next fragment are neighbouring spans of one text; else a line feed
/// where the two are tight; else a blank line.
pub open spec fn separator(items: Seq<FragmentView>, idx: int) -> Seq<char> {
    if idx + 1 >= items.len() || idx < 0 {
        seq!['\n', '\n']
    } else {
        match span_gap(items[idx].payload, items[idx + 1].payload) {
            Some(gap) => gap,
            None => if tight(items[idx], items[idx + 1]) {
                seq!['\n']
            } else {
                seq!['\n', '\n']
            },
        }
    }
}

/// The heading that shows a fragment's section, two levels below the
/// section's own; nothing where it is not asked for, the fragment stands
/// under no heading, or the heading is blank.
pub open spec fn context_heading(f: FragmentView, include_context: bool) -> Seq<char> {
    match f.context {
        ContextView::Section { heading, level } => if include_context && !is_blank(heading) {
            repeated(seq!['#'], level + 2) + seq![' '] + heading + seq!['\n', '\n']
        } else {
            seq![]
        },
        ContextView::Paragraph => seq![],
    }
}

/// One fragment as it is written: its context heading, its body, and what
/// stands behind it.
pub open spec fn entry(
    items: Seq<FragmentView>,
    idx: int,
    include_context: bool,
    output: Option<Seq<char>>,
) -> Seq<char> {
    context_heading(items[idx], include_context) + rendered_payload(
        items[idx].payload,
        items[idx].source_file,
        output,
    ) + separator(items, idx)
}

/// The first `n` fragments of a list as they are written, one after the
/// other.
pub open spec fn entries(
    items: Seq<FragmentView>,
    n: int,
    include_context: bool,
    output: Option<Seq<char>>,
) -> Seq<char>
    decreases n,
{
    if n <= 0 {
        seq![]
    } else {
        entries(items, n - 1, include_context, output) + entry(
            items,
            n - 1,
            include_context,
            output,
        )
    }
}

// ---------------------------------------------------------------------------
// The chronological layout
// ---------------------------------------------------------------------------

/// The header before a fragment of date `current` that follows one of date
/// `previous`: a date header where the date changes, `Undated` where the
/// dated fragments end.
pub open spec fn day_header(
    previous: Option<Ymd>,
    current: Option<Ymd>,
    style: CompilationDateStyle,
) -> Seq<char> {
    if current == previous {
        seq![]
    } else {
        match current {
            Some(d) => "\n## "@ + date_header(d, style) + "\n\n"@,
            None => "\n## Undated\n\n"@,
        }
    }
}

/// The date of the fragment before index `idx`.
pub open spec fn date_before(items: Seq<FragmentView>, idx: int) -> Option<Ymd> {
    if idx <= 0 || idx > items.len() {
        None
    } else {
        items[idx - 1].date
    }
}

/// The first `n` fragments in the chronological layout.
pub open spec fn chronological_body(
    items: Seq<FragmentView>,
    n: int,
    style: CompilationDateStyle,
    include_context: bool,
    output: Option<Seq<char>>,
) -> Seq<char>
    decreases n,
{
    if n <= 0 {
        seq![]
    } else {
        chronological_body(items, n - 1, style, include_context, output) + day_header(
            date_before(items, n - 1),
            items[n - 1].date,
            style,
        ) + entry(items, n - 1, include_context, output)
    }
}

// ---------------------------------------------------------------------------
// The grouped layout
// ---------------------------------------------------------------------------

/// The date of the first dated fragment from `i` on.
pub open spec fn first_date(items: Seq<FragmentView>, i: int) -> Option<Ymd>
    decreases items.len() - i,
{
    if i < 0 || i >= items.len() {
        None
    } else if items[i].date is Some {
        items[i].date
    } else {
        first_date(items, i + 1)
    }
}

/// The header of a group: the name of the file, and under a style of ranges
/// the range of the group's first date.
pub open spec fn group_header(g: GroupView, style: CompilationDateStyle) -> Seq<char> {
    match first_date(g.items, 0) {
        Some(d) => if style is SingleDate {
            "\n## From: "@ + g.name + "\n\n"@
        } else {
            "\n## From: "@ + g.name + " ("@ + date_header(d, style) + ")\n\n"@
        },
        None => "\n## From: "@ + g.name + "\n\n"@,
    }
}

/// The first `n` groups in the grouped layout.
pub open spec fn grouped_body(
    groups: Seq<GroupView>,
    n: int,
    style: CompilationDateStyle,
    include_context: bool,
    output: Option<Seq<char>>,
) -> Seq<char>
    decreases n,
{
    if n <= 0 {
        seq![]
    } else {
        grouped_body(groups, n - 1, style, include_context, output) + group_header(
            groups[n - 1],
            style,
        ) + entries(groups[n - 1].items, groups[n - 1].items.len() as int, include_context, output)
    }
}

// ---------------------------------------------------------------------------
// The document
// ---------------------------------------------------------------------------

/// The title of a compilation.
pub open spec fn title(q: QueryView) -> Seq<char> {
    "# Compilation: "@ + printed(q) + "\n\n"@
}

/// A text with at most one line feed at its end where it had two.
pub open spec fn one_blank_less(s: Seq<char>) -> Seq<char> {
    if ends_with(s, "\n\n"@) {
        s.drop_last()
    } else {
        s
    }
}

/// The compilation of the fragments for a query.
pub open spec fn document(
    fs: Seq<FragmentView>,
    q: QueryView,
    format: CompilationFormat,
    style: CompilationDateStyle,
    include_context: bool,
    output: Option<Seq<char>>,
) -> Seq<char> {
    if fs.len() == 0 {
        title(q) + "*No matching content found.*\n"@
    } else {
        match format {
            CompilationFormat::Chronological => {
                let items = chronological(fs);
                one_blank_less(
                    title(q) + chronological_body(
                        items,
                        items.len() as int,
                        style,
                        include_context,
                        output,
                    ),
                )
            },
            CompilationFormat::Grouped => {
                let groups = grouped(fs);
                one_blank_less(
                    title(q) + grouped_body(
                        groups,
                        groups.len() as int,
                        style,
                        include_context,
                        output,
                    ),
                )
            },
        }
    }
}

// ---------------------------------------------------------------------------
// Ranges outlast ordering and grouping
// ---------------------------------------------------------------------------

/// Ordering fragments leaves their dates in range.
pub proof fn lemma_chronological_in_range(fs: Seq<FragmentView>, style: CompilationDateStyle)
    requires
        dates_in_range(fs, style),
    ensures
        dates_in_range(chronological(fs), style),
        chronological(fs).len() == fs.len(),
    decreases fs.len(),
{
    if fs.len() > 0 {
        let init = fs.drop_last();
        assert(dates_in_range(init, style)) by {
            assert forall|i: int| 0 <= i < init.len() implies ((#[trigger] init[i]).date matches Some(
                d,
            ) ==> range_end(d, style) is Some) by {
                assert(init[i] == fs[i]);
            }
        }
        lemma_chronological_in_range(init, style);
        let sorted = chronological(init);
        let x = fs.last();
        assert(x == fs[fs.len() - 1]);
        lemma_inserted_at(sorted, x);
        let k = insert_index(sorted, x, sorted.len() as int);
        let r = sorted.insert(k, x);
        assert forall|i: int| 0 <= i < r.len() implies ((#[trigger] r[i]).date matches Some(d)
            ==> range_end(d, style) is Some) by {
            if i < k {
                assert(r[i] == sorted[i]);
            } else if i > k {
                assert(r[i] == sorted[i - 1]);
            }
        }
    }
}

/// Every fragment of every group has a header under the style.
pub open spec fn groups_in_range(groups: Seq<GroupView>, style: CompilationDateStyle) -> bool {
    forall|i: int| 0 <= i < groups.len() ==> dates_in_range((#[trigger] groups[i]).items, style)
}

/// Grouping fragments leaves their dates in range.
pub proof fn lemma_grouped_in_range(fs: Seq<FragmentView>, style: CompilationDateStyle)
    requires
        dates_in_range(fs, style),
    ensures
        groups_in_range(grouped(fs), style),
    decreases fs.len(),
{
    if fs.len() > 0 {
        let init = fs.drop_last();
        assert(dates_in_range(init, style)) by {
            assert forall|i: int| 0 <= i < init.len() implies ((#[trigger] init[i]).date matches Some(
                d,
            ) ==> range_end(d, style) is Some) by {
                assert(init[i] == fs[i]);
            }
        }
        lemma_grouped_in_range(init, style);
        let groups = grouped(init);
        let f = fs.last();
        assert(f == fs[fs.len() - 1]);
        lemma_joined_at(groups, f);
        let name = shown_name(f.source_file);
        let k = group_index(groups, name, groups.len() as int);
        let r = joined_group(groups, f);
        assert forall|i: int| 0 <= i < r.len() implies dates_in_range(
            (#[trigger] r[i]).items,
            style,
        ) by {
            if joins_at(groups, name, k) {
                if i == k - 1 {
                    let old_items = groups[k - 1].items;
                    let items = r[i].items;
                    assert(dates_in_range(old_items, style));
                    assert forall|j: int| 0 <= j < items.len() implies ((
                    #[trigger] items[j]).date matches Some(d) ==> range_end(d, style) is Some) by {
                        if j < old_items.len() {
                            assert(items[j] == old_items[j]);
                        }
                    }
                } else {
                    assert(r[i] == groups[i]);
                }
            } else {
                if i < k {
                    assert(r[i] == groups[i]);
                } else if i > k {
                    assert(r[i] == groups[i - 1]);
                } else {
                    let items = r[i].items;
                    assert(items =~= seq![f]);
                }
            }
        }
    }
}

// ---------------------------------------------------------------------------
// Carrying it out
// ---------------------------------------------------------------------------

/// The date of the first dated fragment.
fn first_dated(items: &Vec<TaggedContent>) -> (r: Option<Date>)
    ensures
        date_view(r) == first_date(fragment_views(items@), 0),
{
    let ghost fs = fragment_views(items@);
    let mut i: usize = 0;
    while i < items.len()
        invariant
            i <= items.len(),
            fs == fragment_views(items@),
            first_date(fs, 0) == first_date(fs, i as int),
        decreases items.len() - i,
    {
        assert(fs[i as int] == items@[i as int]@);
        if items[i].date.is_some() {
            return items[i].date;
        }
        i += 1;
    }
    None
}

/// Whether every dated fragment has a header under the style.
fn all_in_range(items: &Vec<TaggedContent>, style: CompilationDateStyle) -> (r: bool)
    ensures
        r == dates_in_range(fragment_views(items@), style),
{
    let ghost fs = fragment_views(items@);
    let mut i: usize = 0;
    while i < items.len()
        invariant
            i <= items.len(),
            fs == fragment_views(items@),
            forall|j: int|
                0 <= j < i ==> ((#[trigger] fs[j]).date matches Some(d) ==> range_end(d, style)
                    is Some),
        decreases items.len() - i,
    {
        assert(fs[i as int] == items@[i as int]@);
        if let Some(d) = items[i].date {
            if TagCompiler::range_end_of(&d, style).is_none() {
                return false;
            }
        }
        i += 1;
    }
    true
}

impl TagCompiler {
    /// The last day of the month of `date`, if it is in range.
    pub fn end_of_month(date: &Date) -> (r: Option<Date>)
        ensures
            date_view(r) == month_end(date@),
    {
        let year = date.year();
        let month = date.month();
        let (next_year, next_month) = if month == 12 {
            (year + 1, 1u32)
        } else {
            (year, month + 1)
        };
        match Date::from_ymd_opt(next_year, next_month, 1) {
            Some(first_next) => first_next.checked_add_days(-1),
            None => None,
        }
    }

    /// The day with which the range of a date's header ends, if it is in
    /// range.
    pub fn range_end_of(date: &Date, style: CompilationDateStyle) -> (r: Option<Date>)
        ensures
            date_view(r) == range_end(date@, style),
    {
        match style {
            CompilationDateStyle::SingleDate => Some(*date),
            CompilationDateStyle::WeekRange => date.checked_add_days(6),
            CompilationDateStyle::MonthRange => TagCompiler::end_of_month(date),
        }
    }

    /// The text of a date header, where the end of the range is in range.
    pub fn format_date_header(date: &Date, style: CompilationDateStyle) -> (r: Option<Vec<char>>)
        ensures
            match r {
                Some(text) => range_end(date@, style) is Some && text@ == date_header(date@, style),
                None => range_end(date@, style).is_none(),
            },
    {
        let end = match TagCompiler::range_end_of(date, style) {
            Some(e) => e,
            None => {
                return None;
            },
        };
        let mut text = chars_of(date.format("%d-%m-%Y").as_str());
        match style {
            CompilationDateStyle::SingleDate => {},
            _ => {
                extend_str(&mut text, " to ");
                extend_str(&mut text, end.format("%d-%m-%Y").as_str());
            },
        }
        Some(text)
    }

    /// Whether the text looks like a list item: see [`looks_like_item`].
    pub fn looks_like_list_item(content: &Vec<char>) -> (r: bool)
        ensures
            r == looks_like_item(content@),
    {
        let ls = lines(content);
        let ghost lv = vec_views(ls@);
        let mut i: usize = 0;
        let mut first: Vec<char> = Vec::new();
        while i < ls.len()
            invariant_except_break
                i <= ls.len(),
                lv == vec_views(ls@),
                first_filled_line(lv, 0) == first_filled_line(lv, i as int),
                first@ == Seq::<char>::empty(),
            ensures
                first@ == first_filled_line(lv, 0),
            decreases ls.len() - i,
        {
            assert(lv[i as int] == ls@[i as int]@);
            if !blank(&ls[i]) {
                first = slice(&ls[i], 0, ls[i].len());
                assert(first@ =~= ls@[i as int]@);
                break ;
            }
            i += 1;
        }
        let line = trim_start_by(&first, CharClass::Whitespace);
        if has_prefix_str(&line, "- ") || has_prefix_str(&line, "* ") || has_prefix_str(
            &line,
            "+ ",
        ) {
            return true;
        }
        let mut e: usize = 0;
        while e < line.len() && char_is_ascii_digit(line[e])
            invariant
                e <= line.len(),
                digits_end(line@, 0) == digits_end(line@, e as int),
            decreases line.len() - e,
        {
            e += 1;
        }
        e > 0 && e < line.len() && e + 1 < line.len() && (line[e] == '.' || line[e] == ')')
            && line[e + 1] == ' '
    }

    /// Whether two fragments that follow each other are set without a
    /// blank line between them: see [`tight`].
    pub fn should_keep_tight_spacing(current: &TaggedContent, next: &TaggedContent) -> (r: bool)
        ensures
            r == tight(current@, next@),
    {
        current.source_file == next.source_file && same_date(&current.date, &next.date)
            && !current.context.is_section() && !next.context.is_section()
            && TagCompiler::looks_like_list_item(&current.raw_payload_content())
            && TagCompiler::looks_like_list_item(&next.raw_payload_content())
    }

    /// What stands behind fragment `idx` of `items`: see [`separator`].
    pub fn content_separator(items: &Vec<TaggedContent>, idx: usize) -> (r: Vec<char>)
        ensures
            r@ == separator(fragment_views(items@), idx as int),
    {
        let ghost fs = fragment_views(items@);
        let mut blank_line: Vec<char> = Vec::new();
        blank_line.push('\n');
        blank_line.push('\n');
        assert(blank_line@ =~= seq!['\n', '\n']);
        if idx >= items.len() || idx + 1 >= items.len() {
            return blank_line;
        }
        assert(fs[idx as int] == items@[idx as int]@);
        assert(fs[idx + 1] == items@[idx + 1]@);
        if let Some(gap) = items[idx].span_gap_to(&items[idx + 1]) {
            return gap;
        }
        if TagCompiler::should_keep_tight_spacing(&items[idx], &items[idx + 1]) {
            let mut one: Vec<char> = Vec::new();
            one.push('\n');
            assert(one@ =~= seq!['\n']);
            one
        } else {
            blank_line
        }
    }

    /// Writes fragment `idx` of `items`: see [`entry`].
    fn write_entry(
        out: &mut Vec<char>,
        items: &Vec<TaggedContent>,
        idx: usize,
        include_context: bool,
        output_file: Option<&Vec<char>>,
    )
        requires
            idx < items.len(),
        ensures
            final(out)@ == old(out)@ + entry(
                fragment_views(items@),
                idx as int,
                include_context,
                opt_view(output_file),
            ),
    {
        let ghost fs = fragment_views(items@);
        let ghost before = out@;
        let tc = &items[idx];
        assert(fs[idx as int] == tc@);
        let ghost heading_text = context_heading(tc@, include_context);
        match &tc.context {
            TagContext::Section { heading, level } => {
                let h = chars_of(heading.as_str());
                if include_context && !blank(&h) {
                    let ghost start = out@;
                    let mut k: usize = 0;
                    while k < *level
                        invariant
                            k <= *level,
                            out@ == start + repeated(seq!['#'], k as nat),
                        decreases *level - k,
                    {
                        out.push('#');
                        k += 1;
                        assert(out@ =~= start + repeated(seq!['#'], k as nat));
                    }
                    out.push('#');
                    out.push('#');
                    assert(out@ =~= start + repeated(seq!['#'], (*level + 2) as nat)) by {
                        assert(repeated(seq!['#'], (*level + 2) as nat) =~= repeated(
                            seq!['#'],
                            (*level + 1) as nat,
                        ) + seq!['#']);
                        assert(repeated(seq!['#'], (*level + 1) as nat) =~= repeated(
                            seq!['#'],
                            *level as nat,
                        ) + seq!['#']);
                    }
                    out.push(' ');
                    extend(out, &h);
                    out.push('\n');
                    out.push('\n');
                    assert(out@ =~= before + heading_text);
                } else {
                    assert(out@ =~= before + heading_text);
                }
            },
            TagContext::Paragraph => {
                assert(out@ =~= before + heading_text);
            },
        }
        let body = tc.rendered_content_for_output(output_file);
        extend(out, &body);
        let sep = TagCompiler::content_separator(items, idx);
        extend(out, &sep);
        assert(out@ =~= before + (heading_text + body@ + sep@));
    }

    /// Writes all fragments of `items`: see [`entries`].
    fn write_entries(
        out: &mut Vec<char>,
        items: &Vec<TaggedContent>,
        include_context: bool,
        output_file: Option<&Vec<char>>,
    )
        ensures
            final(out)@ == old(out)@ + entries(
                fragment_views(items@),
                items.len() as int,
                include_context,
                opt_view(output_file),
            ),
    {
        let ghost fs = fragment_views(items@);
        let ghost out_view = opt_view(output_file);
        let mut idx: usize = 0;
        assert(out@ =~= old(out)@ + Seq::<char>::empty());
        while idx < items.len()
            invariant
                idx <= items.len(),
                fs == fragment_views(items@),
                out_view == opt_view(output_file),
                out@ == old(out)@ + entries(fs, idx as int, include_context, out_view),
            decreases items.len() - idx,
        {
            let ghost before = out@;
            TagCompiler::write_entry(out, items, idx, include_context, output_file);
            idx += 1;
            assert(out@ =~= old(out)@ + (entries(fs, idx - 1, include_context, out_view) + entry(
                fs,
                idx - 1,
                include_context,
                out_view,
            )));
        }
    }

    /// Writes the fragments in the chronological layout.
    pub fn markdown_chronological(
        content: Vec<TaggedContent>,
        date_style: CompilationDateStyle,
        include_context: bool,
        output_file: Option<&Vec<char>>,
        out: &mut Vec<char>,
    )
        requires
            dates_in_range(fragment_views(content@), date_style),
        ensures
            final(out)@ == old(out)@ + chronological_body(
                chronological(fragment_views(content@)),
                content.len() as int,
                date_style,
                include_context,
                opt_view(output_file),
            ),
    {
        proof {
            lemma_chronological_in_range(fragment_views(content@), date_style);
        }
        let sorted = TagCompiler::sort_chronological(content);
        let ghost fs = fragment_views(sorted@);
        let ghost out_view = opt_view(output_file);
        let mut previous: Option<Date> = None;
        let mut idx: usize = 0;
        assert(out@ =~= old(out)@ + Seq::<char>::empty());
        while idx < sorted.len()
            invariant
                idx <= sorted.len(),
                fs == fragment_views(sorted@),
                out_view == opt_view(output_file),
                dates_in_range(fs, date_style),
                date_view(previous) == date_before(fs, idx as int),
                out@ == old(out)@ + chronological_body(
                    fs,
                    idx as int,
                    date_style,
                    include_context,
                    out_view,
                ),
            decreases sorted.len() - idx,
        {
            let ghost before = out@;
            let tc = &sorted[idx];
            assert(fs[idx as int] == tc@);
            let ghost header = day_header(date_before(fs, idx as int), tc@.date, date_style);
            if !same_date(&tc.date, &previous) {
                match &tc.date {
                    Some(date) => {
                        let text = TagCompiler::format_date_header(date, date_style);
                        extend_str(out, "\n## ");
                        extend(out, &text.unwrap());
                        extend_str(out, "\n\n");
                    },
                    None => {
                        extend_str(out, "\n## Undated\n\n");
                    },
                }
            }
            assert(out@ =~= before + header);
            previous = tc.date;
            TagCompiler::write_entry(out, &sorted, idx, include_context, output_file);
            idx += 1;
            assert(out@ =~= old(out)@ + (chronological_body(
                fs,
                idx - 1,
                date_style,
                include_context,
                out_view,
            ) + header + entry(fs, idx - 1, include_context, out_view)));
        }
    }

    /// Writes the fragments in the grouped layout.
    pub fn markdown_grouped(
        content: Vec<TaggedContent>,
        date_style: CompilationDateStyle,
        include_context: bool,
        output_file: Option<&Vec<char>>,
        out: &mut Vec<char>,
    )
        requires
            dates_in_range(fragment_views(content@), date_style),
        ensures
            final(out)@ == old(out)@ + grouped_body(
                grouped(fragment_views(content@)),
                grouped(fragment_views(content@)).len() as int,
                date_style,
                include_context,
                opt_view(output_file),
            ),
    {
        proof {
            lemma_grouped_in_range(fragment_views(content@), date_style);
        }
        let groups = TagCompiler::group_by_file(content);
        let ghost gs = group_views(groups@);
        let ghost out_view = opt_view(output_file);
        let mut k: usize = 0;
        assert(out@ =~= old(out)@ + Seq::<char>::empty());
        while k < groups.len()
            invariant
                k <= groups.len(),
                gs == group_views(groups@),
                out_view == opt_view(output_file),
                groups_in_range(gs, date_style),
                out@ == old(out)@ + grouped_body(gs, k as int, date_style, include_context, out_view),
            decreases groups.len() - k,
        {
            let ghost before = out@;
            let group = &groups[k];
            assert(gs[k as int] == group_view(*group));
            let ghost header = group_header(gs[k as int], date_style);
            let items = &group.1;
            extend_str(out, "\n## From: ");
            extend_str(out, group.0.as_str());
            let dated = first_dated(items);
            match (dated, date_style) {
                (_, CompilationDateStyle::SingleDate) => {},
                (None, _) => {},
                (Some(date), _) => {
                    let ghost fs = fragment_views(items@);
                    proof {
                        lemma_first_date_in_range(fs, 0, date_style);
                    }
                    let text = TagCompiler::format_date_header(&date, date_style);
                    extend_str(out, " (");
                    extend(out, &text.unwrap());
                    extend_str(out, ")");
                    proof {
                        reveal_strlit(")\n\n");
                        reveal_strlit(")");
                        reveal_strlit("\n\n");
                        assert(")\n\n"@ =~= ")"@ + "\n\n"@);
                    }
                },
            }
            extend_str(out, "\n\n");
            assert(out@ =~= before + header);
            TagCompiler::write_entries(out, items, include_context, output_file);
            k += 1;
            assert(out@ =~= old(out)@ + (grouped_body(
                gs,
                k - 1,
                date_style,
                include_context,
                out_view,
            ) + header + entries(
                gs[k - 1].items,
                gs[k - 1].items.len() as int,
                include_context,
                out_view,
            )));
        }
    }

    /// The compilation as markdown, for an output file that is not known.
    pub fn to_markdown(
        content: Vec<TaggedContent>,
        query: &TagQuery,
        format: CompilationFormat,
        date_style: CompilationDateStyle,
        include_context: bool,
    ) -> (text: String)
        requires
            dates_in_range(fragment_views(content@), date_style),
        ensures
            text@ == document(
                fragment_views(content@),
                query@,
                format,
                date_style,
                include_context,
                None,
            ),
    {
        TagCompiler::to_markdown_for_output(
            content,
            query,
            format,
            date_style,
            include_context,
            None,
        )
    }

    /// The compilation as markdown: the title with the query, then the
    /// fragments in the asked layout, or a notice where there are none.
    /// Spans are written with their link destinations rewritten for
    /// `output_file`, where it is given. The text does not end in a blank
    /// line.
    ///
    /// Every dated fragment must have a header under the date style: see
    /// [`TagCompiler::compile`], which tests this first.
    pub fn to_markdown_for_output(
        content: Vec<TaggedContent>,
        query: &TagQuery,
        format: CompilationFormat,
        date_style: CompilationDateStyle,
        include_context: bool,
        output_file: Option<&str>,
    ) -> (text: String)
        requires
            dates_in_range(fragment_views(content@), date_style),
        ensures
            text@ == document(
                fragment_views(content@),
                query@,
                format,
                date_style,
                include_context,
                opt_str_view(output_file),
            ),
    {
        let ghost fs = fragment_views(content@);
        let mut out = chars_of("# Compilation: ");
        extend_str(&mut out, query.to_string().as_str());
        extend_str(&mut out, "\n\n");
        if content.len() == 0 {
            extend_str(&mut out, "*No matching content found.*\n");
            return string_of(&out);
        }
        let target = match output_file {
            Some(o) => Some(chars_of(o)),
            None => None,
        };
        let target_ref = match &target {
            Some(t) => Some(t),
            None => None,
        };
        assert(opt_view(target_ref) == opt_str_view(output_file));
        match format {
            CompilationFormat::Chronological => {
                proof {
                    lemma_chronological_in_range(fs, date_style);
                }
                TagCompiler::markdown_chronological(
                    content,
                    date_style,
                    include_context,
                    target_ref,
                    &mut out,
                );
            },
            CompilationFormat::Grouped => {
                TagCompiler::markdown_grouped(
                    content,
                    date_style,
                    include_context,
                    target_ref,
                    &mut out,
                );
            },
        }
        let ghost whole = out@;
        assert(whole =~= title(query@) + match format {
            CompilationFormat::Chronological => chronological_body(
                chronological(fs),
                chronological(fs).len() as int,
                date_style,
                include_context,
                opt_str_view(output_file),
            ),
            CompilationFormat::Grouped => grouped_body(
                grouped(fs),
                grouped(fs).len() as int,
                date_style,
                include_context,
                opt_str_view(output_file),
            ),
        });
        proof {
            reveal_strlit("\n\n");
        }
        if has_suffix_str(&out, "\n\n") {
            out.pop();
            assert(out@ =~= whole.drop_last());
        }
        string_of(&out)
    }

    /// The compilation as markdown, or nothing where some dated fragment has
    /// no header under the date style because the end of its range is no
    /// date in range.
    pub fn compile(
        content: Vec<TaggedContent>,
        query: &TagQuery,
        format: CompilationFormat,
        date_style: CompilationDateStyle,
        include_context: bool,
        output_file: Option<&str>,
    ) -> (r: Option<String>)
        ensures
            match r {
                Some(text) => dates_in_range(fragment_views(content@), date_style) && text@
                    == document(
                    fragment_views(content@),
                    query@,
                    format,
                    date_style,
                    include_context,
                    opt_str_view(output_file),
                ),
                None => !dates_in_range(fragment_views(content@), date_style),
            },
    {
        if !all_in_range(&content, date_style) {
            return None;
        }
        match output_file {
            Some(_) => Some(
                TagCompiler::to_markdown_for_output(
                    content,
                    query,
                    format,
                    date_style,
                    include_context,
                    output_file,
                ),
            ),
            None => Some(
                TagCompiler::to_markdown(content, query, format, date_style, include_context),
            ),
        }
    }
}

/// The first date of fragments that all have headers has one.
proof fn lemma_first_date_in_range(fs: Seq<FragmentView>, i: int, style: CompilationDateStyle)
    requires
        dates_in_range(fs, style),
        0 <= i,
    ensures
        first_date(fs, i) matches Some(d) ==> range_end(d, style) is Some,
    decreases fs.len() - i,
{
    if i < fs.len() {
        if fs[i].date is Some {
        } else {
            lemma_first_date_in_range(fs, i + 1, style);
        }
    }
}

} // verus!
