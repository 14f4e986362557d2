//! The outline of a document as its source text shows it: the lines that are
//! headings, and the body of each heading's section.

use vstd::prelude::*;
use crate::text::{
    extend, line_pieces, lines, lines_of, lines_scan, pieces_scan, repeat, repeated, slice, trim,
    trim_by, trim_end_by, trim_ws, trimmed, trimmed_end, vec_views, CharClass,
};

verus! {

// ---------------------------------------------------------------------------
// Lines
// ---------------------------------------------------------------------------

/// The text cut after every line feed.
pub fn split_lines_inclusive(s: &Vec<char>) -> (out: Vec<Vec<char>>)
    ensures
        vec_views(out@) == line_pieces(s@),
{
    let mut out: Vec<Vec<char>> = Vec::new();
    let mut start: usize = 0;
    let mut i: usize = 0;
    assert(vec_views(out@) =~= Seq::<Seq<char>>::empty());
    while i < s.len()
        invariant
            start <= i <= s.len(),
            line_pieces(s@) == vec_views(out@) + pieces_scan(s@, start as int, i as int),
        decreases s.len() - i,
    {
        if s[i] == '\n' {
            let ghost before = vec_views(out@);
            let piece = slice(s, start, i + 1);
            out.push(piece);
            assert(vec_views(out@) =~= before.push(piece@));
            i += 1;
            start = i;
            assert(vec_views(out@) + pieces_scan(s@, start as int, i as int) =~= before + (seq![
                piece@,
            ] + pieces_scan(s@, start as int, i as int)));
        } else {
            i += 1;
        }
    }
    if start < s.len() {
        let ghost before = vec_views(out@);
        let piece = slice(s, start, s.len());
        out.push(piece);
        assert(vec_views(out@) =~= before + seq![piece@]);
    } else {
        assert(vec_views(out@) + Seq::<Seq<char>>::empty() =~= vec_views(out@));
    }
    out
}

/// The number of characters equal to `c` from index `i` on, before the first
/// other character.
pub open spec fn run_length(s: Seq<char>, c: char, i: int) -> nat
    decreases s.len() - i,
{
    if 0 <= i < s.len() && s[i] == c {
        1 + run_length(s, c, i + 1)
    } else {
        0
    }
}

fn count_run(s: &Vec<char>, c: char, from: usize) -> (n: usize)
    requires
        from <= s.len(),
    ensures
        n == run_length(s@, c, from as int),
        from + n <= s.len(),
{
    let mut i: usize = from;
    while i < s.len() && s[i] == c
        invariant
            from <= i <= s.len(),
            run_length(s@, c, from as int) == (i - from) + run_length(s@, c, i as int),
        decreases s.len() - i,
    {
        i += 1;
    }
    i - from
}

/// A line without the line ending behind it.
pub open spec fn line_body(line: Seq<char>) -> Seq<char> {
    trimmed_end(line, CharClass::LineBreak)
}

/// The level of the ATX heading that a line is, if it is one: at most three
/// spaces, one to six `#`, then a space or a tab.
pub open spec fn heading_level_of(line: Seq<char>) -> Option<nat> {
    let body = line_body(line);
    let indent = run_length(body, ' ', 0);
    let level = run_length(body, '#', indent as int);
    let after = indent + level;
    if indent > 3 || level == 0 || level > 6 {
        None
    } else if after < body.len() && (body[after as int] == ' ' || body[after as int] == '\t') {
        Some(level)
    } else {
        None
    }
}

/// The code fence that a line opens or closes, if it is one: at most three
/// spaces, then three or more backticks or tildes. Given are the fence's
/// character and its length.
pub open spec fn fence_of(line: Seq<char>) -> Option<(char, nat)> {
    let body = line_body(line);
    let indent = run_length(body, ' ', 0);
    if indent > 3 || indent >= body.len() {
        None
    } else {
        let c = body[indent as int];
        let count = run_length(body, c, indent as int);
        if (c == '`' || c == '~') && count >= 3 {
            Some((c, count))
        } else {
            None
        }
    }
}

fn body_of_line(line: &Vec<char>) -> (body: Vec<char>)
    ensures
        body@ == line_body(line@),
{
    trim_end_by(line, CharClass::LineBreak)
}

/// The level of the heading that a line holds, if it holds one.
pub fn parse_atx_heading_level(line: &Vec<char>) -> (r: Option<usize>)
    ensures
        match r {
            Some(level) => heading_level_of(line@) == Some(level as nat),
            None => heading_level_of(line@).is_none(),
        },
{
    let body = body_of_line(line);
    let indent = count_run(&body, ' ', 0);
    if indent > 3 {
        return None;
    }
    let level = count_run(&body, '#', indent);
    if level == 0 || level > 6 {
        return None;
    }
    let after = indent + level;
    if after < body.len() && (body[after] == ' ' || body[after] == '\t') {
        Some(level)
    } else {
        None
    }
}

/// The fence that a line opens or closes: its character and its length.
pub fn parse_fence_marker(line: &Vec<char>) -> (r: Option<(char, usize)>)
    ensures
        match r {
            Some(f) => fence_of(line@) == Some((f.0, f.1 as nat)),
            None => fence_of(line@).is_none(),
        },
{
    let body = body_of_line(line);
    let indent = count_run(&body, ' ', 0);
    if indent > 3 || indent >= body.len() {
        return None;
    }
    let c = body[indent];
    if c != '`' && c != '~' {
        return None;
    }
    let count = count_run(&body, c, indent);
    if count < 3 {
        return None;
    }
    Some((c, count))
}

// ---------------------------------------------------------------------------
// Heading lines
// ---------------------------------------------------------------------------

/// A line that is a heading: its level and where the line begins and ends.
#[derive(Debug, Clone, Copy)]
pub struct HeadingSpan {
    pub level: usize,
    pub line_start: usize,
    pub line_end: usize,
}

/// The mathematical form of a heading line.
pub ghost struct HeadingSpanView {
    pub level: nat,
    pub line_start: int,
    pub line_end: int,
}

impl View for HeadingSpan {
    type V = HeadingSpanView;

    open spec fn view(&self) -> HeadingSpanView {
        HeadingSpanView {
            level: self.level as nat,
            line_start: self.line_start as int,
            line_end: self.line_end as int,
        }
    }
}

/// The views of a list of headings.
pub open spec fn span_views(v: Seq<HeadingSpan>) -> Seq<HeadingSpanView> {
    Seq::new(v.len(), |i: int| v[i]@)
}

/// The fence that is open after a line, given the one that was open before.
pub open spec fn fence_after(open: Option<(char, nat)>, line: Seq<char>) -> Option<(char, nat)> {
    match open {
        Some((c, n)) => match fence_of(line) {
            Some((mc, mn)) => if mc == c && mn >= n {
                None
            } else {
                open
            },
            None => open,
        },
        None => fence_of(line),
    }
}

/// The heading lines among the pieces from `k` on, where piece `k` begins
/// at `offset` and `open` is the code fence that is open there. Inside a
/// fence no line is a heading.
pub open spec fn spans_from(
    pieces: Seq<Seq<char>>,
    k: int,
    offset: int,
    open: Option<(char, nat)>,
) -> Seq<HeadingSpanView>
    decreases pieces.len() - k,
{
    if k < 0 || k >= pieces.len() {
        seq![]
    } else {
        let line = pieces[k];
        let next = offset + line.len();
        let rest = spans_from(pieces, k + 1, next, fence_after(open, line));
        if open.is_none() && fence_of(line).is_none() && heading_level_of(line) is Some {
            seq![
                HeadingSpanView {
                    level: heading_level_of(line)->0,
                    line_start: offset,
                    line_end: next,
                },
            ] + rest
        } else {
            rest
        }
    }
}

/// The heading lines of a text, in order.
pub open spec fn heading_spans(s: Seq<char>) -> Seq<HeadingSpanView> {
    spans_from(line_pieces(s), 0, 0, None)
}

/// The view of a fence that may be missing.
pub open spec fn fence_view(f: Option<(char, usize)>) -> Option<(char, nat)> {
    match f {
        Some((c, n)) => Some((c, n as nat)),
        None => None,
    }
}

/// The pieces of a text lie in it one behind the other.
proof fn lemma_pieces_total(s: Seq<char>, start: int, i: int)
    requires
        0 <= start <= i <= s.len(),
    ensures
        total_len(pieces_scan(s, start, i)) == s.len() - start,
    decreases s.len() - i,
{
    let ps = pieces_scan(s, start, i);
    assert(total_len(Seq::<Seq<char>>::empty()) == 0);
    if i >= s.len() {
        if start < s.len() {
            assert(ps =~= seq![s.subrange(start, s.len() as int)]);
            assert(ps[0].len() == s.len() - start);
            assert(ps.drop_first() =~= Seq::<Seq<char>>::empty());
        }
    } else if s[i] == '\n' {
        lemma_pieces_total(s, i + 1, i + 1);
        let rest = pieces_scan(s, i + 1, i + 1);
        assert(ps =~= seq![s.subrange(start, i + 1)] + rest);
        assert(ps[0].len() == i + 1 - start);
        assert(ps.drop_first() =~= rest);
    } else {
        lemma_pieces_total(s, start, i + 1);
    }
}

proof fn lemma_total_len_nonneg(pieces: Seq<Seq<char>>)
    ensures
        total_len(pieces) >= 0,
    decreases pieces.len(),
{
    if pieces.len() > 0 {
        lemma_total_len_nonneg(pieces.drop_first());
    }
}

/// The lengths of the pieces, added up.
pub open spec fn total_len(pieces: Seq<Seq<char>>) -> int
    decreases pieces.len(),
{
    if pieces.len() == 0 {
        0
    } else {
        pieces[0].len() + total_len(pieces.drop_first())
    }
}

proof fn lemma_total_len_from(pieces: Seq<Seq<char>>, k: int)
    requires
        0 <= k <= pieces.len(),
    ensures
        total_len(pieces.skip(k)) <= total_len(pieces),
        k < pieces.len() ==> total_len(pieces.skip(k)) == pieces[k].len() + total_len(
            pieces.skip(k + 1),
        ),
    decreases k,
{
    if k < pieces.len() {
        assert(pieces.skip(k).drop_first() =~= pieces.skip(k + 1));
    }
    if k > 0 {
        lemma_total_len_from(pieces, k - 1);
        assert(pieces.skip(k - 1).drop_first() =~= pieces.skip(k));
    } else {
        assert(pieces.skip(0) =~= pieces);
    }
}

/// Finds the lines that are ATX headings, outside of fenced code.
pub fn collect_heading_spans(content: &Vec<char>) -> (spans: Vec<HeadingSpan>)
    ensures
        span_views(spans@) == heading_spans(content@),
{
    let pieces = split_lines_inclusive(content);
    let ghost ps = vec_views(pieces@);
    let mut spans: Vec<HeadingSpan> = Vec::new();
    let mut offset: usize = 0;
    let mut open: Option<(char, usize)> = None;
    let mut k: usize = 0;
    assert(span_views(spans@) =~= Seq::<HeadingSpanView>::empty());
    proof {
        lemma_pieces_total(content@, 0, 0);
        lemma_total_len_from(ps, 0);
    }
    while k < pieces.len()
        invariant
            k <= pieces.len(),
            ps == vec_views(pieces@),
            offset + total_len(ps.skip(k as int)) == content.len(),
            heading_spans(content@) == span_views(spans@) + spans_from(
                ps,
                k as int,
                offset as int,
                fence_view(open),
            ),
        decreases pieces.len() - k,
    {
        let line = &pieces[k];
        assert(ps[k as int] == line@);
        proof {
            lemma_total_len_from(ps, k as int);
            lemma_total_len_nonneg(ps.skip(k + 1));
        }
        let next: usize = offset + line.len();
        let fence = parse_fence_marker(line);
        let ghost before = span_views(spans@);
        match open {
            Some((c, n)) => {
                if let Some((mc, mn)) = fence {
                    if mc == c && mn >= n {
                        open = None;
                    }
                }
            },
            None => {
                if fence.is_some() {
                    open = fence;
                } else if let Some(level) = parse_atx_heading_level(line) {
                    let span = HeadingSpan { level, line_start: offset, line_end: next };
                    spans.push(span);
                    assert(span_views(spans@) =~= before.push(span@));
                    assert(span_views(spans@) + spans_from(
                        ps,
                        k + 1,
                        next as int,
                        fence_view(open),
                    ) =~= before + (seq![span@] + spans_from(
                        ps,
                        k + 1,
                        next as int,
                        fence_view(open),
                    )));
                }
            },
        }
        offset = next;
        k += 1;
    }
    assert(span_views(spans@) + Seq::<HeadingSpanView>::empty() =~= span_views(spans@));
    spans
}

// ---------------------------------------------------------------------------
// Section bodies
// ---------------------------------------------------------------------------

/// Where the section of a heading of `level` ends: at the first heading line
/// from `j` on whose level does not exceed it, or at `len`.
pub open spec fn section_end(spans: Seq<HeadingSpanView>, level: nat, j: int, len: int) -> int
    decreases spans.len() - j,
{
    if j < 0 || j >= spans.len() {
        len
    } else if spans[j].level <= level {
        spans[j].line_start
    } else {
        section_end(spans, level, j + 1, len)
    }
}

/// The text between two indices, both held within the text.
pub open spec fn clamped(s: Seq<char>, start: int, end: int) -> Seq<char> {
    let a = if start < 0 {
        0
    } else if start > s.len() {
        s.len() as int
    } else {
        start
    };
    let b = if end < 0 {
        0
    } else if end > s.len() {
        s.len() as int
    } else {
        end
    };
    if a <= b {
        s.subrange(a, b)
    } else {
        seq![]
    }
}

/// What stands under a heading: the text from the end of the heading's line
/// to the next heading of the same or a higher rank, without the line breaks
/// at its ends.
pub open spec fn section_body(s: Seq<char>, spans: Seq<HeadingSpanView>, idx: int) -> Seq<char> {
    trimmed(
        clamped(
            s,
            spans[idx].line_end,
            section_end(spans, spans[idx].level, idx + 1, s.len() as int),
        ),
        CharClass::LineBreak,
    )
}

/// The bodies of all sections of a text, in the order of their headings.
pub open spec fn section_bodies(s: Seq<char>) -> Seq<Seq<char>> {
    Seq::new(heading_spans(s).len(), |i: int| section_body(s, heading_spans(s), i))
}

/// A text without the line breaks at its ends.
pub fn trim_section_body(raw: &Vec<char>) -> (r: Vec<char>)
    ensures
        r@ == trimmed(raw@, CharClass::LineBreak),
{
    trim_by(raw, CharClass::LineBreak)
}

/// The body of every section of `content`, in the order of the headings.
pub fn extract_section_bodies_in_order(content: &Vec<char>) -> (bodies: Vec<Vec<char>>)
    ensures
        vec_views(bodies@) == section_bodies(content@),
{
    let headings = collect_heading_spans(content);
    let ghost spans = span_views(headings@);
    let len = content.len();
    let mut bodies: Vec<Vec<char>> = Vec::new();
    let mut idx: usize = 0;
    while idx < headings.len()
        invariant
            idx <= headings.len(),
            len == content.len(),
            spans == span_views(headings@),
            spans == heading_spans(content@),
            bodies.len() == idx,
            forall|i: int| 0 <= i < idx ==> bodies@[i]@ == section_body(content@, spans, i),
        decreases headings.len() - idx,
    {
        let heading = headings[idx];
        assert(spans[idx as int] == heading@);
        let mut end: usize = len;
        let mut j: usize = idx + 1;
        while j < headings.len()
            invariant_except_break
                idx < j <= headings.len(),
                spans == span_views(headings@),
                section_end(spans, heading.level as nat, idx + 1, len as int) == section_end(
                    spans,
                    heading.level as nat,
                    j as int,
                    len as int,
                ),
                end == len,
            ensures
                end == section_end(spans, heading.level as nat, idx + 1, len as int),
            decreases headings.len() - j,
        {
            assert(spans[j as int] == headings@[j as int]@);
            if headings[j].level <= heading.level {
                end = headings[j].line_start;
                break ;
            }
            j += 1;
        }
        let a: usize = if heading.line_end > len {
            len
        } else {
            heading.line_end
        };
        let b: usize = if end > len {
            len
        } else {
            end
        };
        let raw = if a <= b {
            slice(content, a, b)
        } else {
            Vec::new()
        };
        assert(raw@ == clamped(
            content@,
            heading.line_end as int,
            section_end(spans, heading.level as nat, idx + 1, len as int),
        ));
        bodies.push(trim_section_body(&raw));
        idx += 1;
    }
    assert(vec_views(bodies@) =~= section_bodies(content@));
    bodies
}

// ---------------------------------------------------------------------------
// List items
// ---------------------------------------------------------------------------

/// The lines of a list item after its first: each behind a line feed, and
/// behind the indent unless it is empty.
pub open spec fn continued(lines: Seq<Seq<char>>, indent: Seq<char>) -> Seq<char>
    decreases lines.len(),
{
    if lines.len() == 0 {
        seq![]
    } else {
        continued(lines.drop_last(), indent) + seq!['\n'] + (if lines.last().len() == 0 {
            seq![]
        } else {
            indent + lines.last()
        })
    }
}

/// The indent of a list item at nesting depth `depth`: two spaces for each
/// level below the first.
pub open spec fn item_indent(depth: nat) -> Seq<char> {
    repeated(seq![' ', ' '], if depth == 0 {
        0
    } else {
        (depth - 1) as nat
    })
}

/// A list item as markdown: the trimmed text behind `- ` at the indent of its
/// depth, its further lines two more spaces in. Nothing for a blank text.
pub open spec fn list_item_markdown(text: Seq<char>, depth: nat) -> Seq<char> {
    let t = trim_ws(text);
    let ls = lines_of(t);
    let base = item_indent(depth);
    if t.len() == 0 {
        seq![]
    } else if ls.len() == 0 || ls[0].len() == 0 {
        base + seq!['-'] + continued(ls.skip(1), base + seq![' ', ' '])
    } else {
        base + seq!['-', ' '] + ls[0] + continued(ls.skip(1), base + seq![' ', ' '])
    }
}

/// The text of a list item as markdown, indented for its depth.
pub fn format_list_item_markdown(item_text: &Vec<char>, depth: usize) -> (r: Vec<char>)
    ensures
        r@ == list_item_markdown(item_text@, depth as nat),
{
    let t = trim(item_text);
    if t.len() == 0 {
        return Vec::new();
    }
    let mut unit: Vec<char> = Vec::new();
    unit.push(' ');
    unit.push(' ');
    assert(unit@ =~= seq![' ', ' ']);
    let base = repeat(&unit, if depth == 0 {
        0
    } else {
        depth - 1
    });
    let mut indent: Vec<char> = Vec::new();
    extend(&mut indent, &base);
    extend(&mut indent, &unit);
    assert(indent@ =~= base@ + seq![' ', ' ']);
    let ls = lines(&t);
    let ghost lv = vec_views(ls@);
    let mut r: Vec<char> = Vec::new();
    extend(&mut r, &base);
    r.push('-');
    if ls.len() > 0 && ls[0].len() > 0 {
        r.push(' ');
        extend(&mut r, &ls[0]);
        assert(lv[0] == ls@[0]@);
        assert(r@ =~= base@ + seq!['-', ' '] + lv[0]);
    } else {
        if ls.len() > 0 {
            assert(lv[0] == ls@[0]@);
        }
        assert(r@ =~= base@ + seq!['-']);
    }
    let ghost head = r@;
    let mut i: usize = 1;
    assert(lv.skip(1).take(0) =~= Seq::<Seq<char>>::empty());
    while i < ls.len()
        invariant
            1 <= i,
            lv == vec_views(ls@),
            i <= ls.len() || ls.len() == 0,
            r@ == head + continued(lv.skip(1).take(i - 1), indent@),
        decreases ls.len() - i,
    {
        let ghost done = lv.skip(1).take(i - 1);
        let ghost next = lv.skip(1).take(i as int);
        assert(next.drop_last() =~= done);
        assert(next.last() == ls@[i as int]@);
        let ghost before = r@;
        r.push('\n');
        if ls[i].len() > 0 {
            extend(&mut r, &indent);
            extend(&mut r, &ls[i]);
            assert(r@ =~= before + seq!['\n'] + (indent@ + ls@[i as int]@));
        } else {
            assert(r@ =~= before + seq!['\n'] + Seq::<char>::empty());
        }
        i += 1;
    }
    proof {
        lemma_lines_not_empty(t@, 0, 0);
        assert(lv.skip(1).take(ls.len() - 1) =~= lv.skip(1));
    }
    r
}

/// A text that is not empty has a line.
proof fn lemma_lines_not_empty(s: Seq<char>, start: int, i: int)
    requires
        0 <= start <= i <= s.len(),
        start < s.len(),
    ensures
        lines_scan(s, start, i).len() >= 1,
    decreases s.len() - i,
{
    if i < s.len() && s[i] != '\n' {
        lemma_lines_not_empty(s, start, i + 1);
    }
}

} // verus!
