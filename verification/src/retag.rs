//! Replacing one tag by another in markdown text, outside of code.

use vstd::prelude::*;
use crate::events::{
    markdown_placed_events, placed_views, read_placed_events, EventView, MdEvent, MdTag, MdTagEnd,
    PlacedEvent, PlacedView, TagView,
};
use crate::hashtag::{lemma_tag_end, tag_end, tag_starts};
use crate::offsets::{
    byte_length, byte_offset, byte_range, char_index, char_index_from, char_index_of,
    lemma_char_index_from, slice_bytes, utf8_len,
};
use crate::query::{tag_char};
use crate::text::{
    chars_of, eq_ignore_case, equal_ignore_case, extend, slice, string_of,
};

verus! {

/// What replacing a tag gave: the new text and the number of tags replaced.
#[derive(Debug, Clone, PartialEq, Eq)]
pub struct RetagResult {
    pub content: String,
    pub replacements: usize,
}

// ---------------------------------------------------------------------------
// Plain text
// ---------------------------------------------------------------------------

/// The tag that begins at `i` is the one to replace.
pub open spec fn is_target(s: Seq<char>, i: int, from: Seq<char>) -> bool {
    tag_starts(s, i) && eq_ignore_case(s.subrange(i + 1, tag_end(s, i + 1)), from)
}

/// The text from `i` on with every tag named `from`, in any case of
/// letters, replaced by `#` and `to`.
pub open spec fn retagged_from(s: Seq<char>, from: Seq<char>, to: Seq<char>, i: int) -> Seq<char>
    decreases s.len() - i,
{
    if i < 0 || i >= s.len() {
        seq![]
    } else if tag_starts(s, i) {
        let e = tag_end(s, i + 1);
        proof {
            lemma_tag_end(s, i + 1);
        }
        (if is_target(s, i, from) {
            seq!['#'] + to
        } else {
            s.subrange(i, e)
        }) + retagged_from(s, from, to, e)
    } else {
        seq![s[i]] + retagged_from(s, from, to, i + 1)
    }
}

/// The number of tags named `from` from `i` on.
pub open spec fn targets_from(s: Seq<char>, from: Seq<char>, i: int) -> nat
    decreases s.len() - i,
{
    if i < 0 || i >= s.len() {
        0
    } else if tag_starts(s, i) {
        let e = tag_end(s, i + 1);
        proof {
            lemma_tag_end(s, i + 1);
        }
        (if is_target(s, i, from) {
            1nat
        } else {
            0nat
        }) + targets_from(s, from, e)
    } else {
        targets_from(s, from, i + 1)
    }
}

/// There are no more tags than characters.
pub proof fn lemma_targets_bound(s: Seq<char>, from: Seq<char>, i: int)
    requires
        0 <= i <= s.len(),
    ensures
        targets_from(s, from, i) <= s.len() - i,
    decreases s.len() - i,
{
    if i < s.len() {
        if tag_starts(s, i) {
            lemma_tag_end(s, i + 1);
            lemma_targets_bound(s, from, tag_end(s, i + 1));
        } else {
            lemma_targets_bound(s, from, i + 1);
        }
    }
}

/// Replaces the tag in a piece of text that holds no code.
pub fn retag_chunk(chunk: &Vec<char>, from_tag: &Vec<char>, to_tag: &Vec<char>) -> (r: (
    Vec<char>,
    usize,
))
    ensures
        r.0@ == retagged_from(chunk@, from_tag@, to_tag@, 0),
        r.1 == targets_from(chunk@, from_tag@, 0),
        r.1 <= chunk.len(),
{
    let mut out: Vec<char> = Vec::new();
    let mut count: usize = 0;
    let mut i: usize = 0;
    proof {
        lemma_targets_bound(chunk@, from_tag@, 0);
    }
    while i < chunk.len()
        invariant
            i <= chunk.len(),
            count + targets_from(chunk@, from_tag@, i as int) == targets_from(chunk@, from_tag@, 0),
            targets_from(chunk@, from_tag@, 0) <= chunk.len(),
            retagged_from(chunk@, from_tag@, to_tag@, 0) == out@ + retagged_from(
                chunk@,
                from_tag@,
                to_tag@,
                i as int,
            ),
        decreases chunk.len() - i,
    {
        let ghost before = out@;
        if chunk[i] == '#' && i + 1 < chunk.len() && tag_char(chunk[i + 1]) {
            let mut e: usize = i + 1;
            while e < chunk.len() && tag_char(chunk[e])
                invariant
                    i + 1 <= e <= chunk.len(),
                    tag_end(chunk@, i + 1) == tag_end(chunk@, e as int),
                decreases chunk.len() - e,
            {
                e += 1;
            }
            let name = slice(chunk, i + 1, e);
            let ghost piece;
            if equal_ignore_case(&name, from_tag) {
                out.push('#');
                extend(&mut out, to_tag);
                count += 1;
                proof {
                    piece = seq!['#'] + to_tag@;
                }
            } else {
                let whole = slice(chunk, i, e);
                extend(&mut out, &whole);
                proof {
                    piece = whole@;
                }
            }
            assert(out@ + retagged_from(chunk@, from_tag@, to_tag@, e as int) =~= before + (piece
                + retagged_from(chunk@, from_tag@, to_tag@, e as int)));
            i = e;
        } else {
            out.push(chunk[i]);
            assert(out@ + retagged_from(chunk@, from_tag@, to_tag@, i + 1) =~= before + (seq![
                chunk@[i as int],
            ] + retagged_from(chunk@, from_tag@, to_tag@, i + 1)));
            i += 1;
        }
    }
    assert(out@ + Seq::<char>::empty() =~= out@);
    (out, count)
}

// ---------------------------------------------------------------------------
// Ranges of code
// ---------------------------------------------------------------------------

/// A range of bytes.
pub type ByteRange = (usize, usize);

/// The view of a range of bytes.
pub open spec fn range_view(r: ByteRange) -> (int, int) {
    (r.0 as int, r.1 as int)
}

/// The views of a list of ranges.
pub open spec fn range_views(v: Seq<ByteRange>) -> Seq<(int, int)> {
    Seq::new(v.len(), |i: int| range_view(v[i]))
}

/// One range comes before another: by its start, then by its end.
pub open spec fn range_before(a: (int, int), b: (int, int)) -> bool {
    a.0 < b.0 || (a.0 == b.0 && a.1 < b.1)
}

/// Ranges in order with one more range, behind every range that does not
/// come after it.
pub open spec fn range_inserted(sorted: Seq<(int, int)>, x: (int, int)) -> Seq<(int, int)>
    decreases sorted.len(),
{
    if sorted.len() == 0 {
        seq![x]
    } else if range_before(x, sorted.last()) {
        range_inserted(sorted.drop_last(), x).push(sorted.last())
    } else {
        sorted.push(x)
    }
}

/// The ranges in order.
pub open spec fn ranges_sorted(rs: Seq<(int, int)>) -> Seq<(int, int)>
    decreases rs.len(),
{
    if rs.len() == 0 {
        seq![]
    } else {
        range_inserted(ranges_sorted(rs.drop_last()), rs.last())
    }
}

/// Ranges in order, those that touch or overlap joined into one.
pub open spec fn ranges_joined(sorted: Seq<(int, int)>) -> Seq<(int, int)>
    decreases sorted.len(),
{
    if sorted.len() == 0 {
        seq![]
    } else {
        let m = ranges_joined(sorted.drop_last());
        let r = sorted.last();
        if m.len() > 0 && r.0 <= m.last().1 {
            if r.1 > m.last().1 {
                m.drop_last().push((m.last().0, r.1))
            } else {
                m
            }
        } else {
            m.push(r)
        }
    }
}

/// The ranges in order and joined where they touch or overlap.
pub open spec fn ranges_merged(rs: Seq<(int, int)>) -> Seq<(int, int)> {
    ranges_joined(ranges_sorted(rs))
}

/// The index at which a range goes into the first `n` ranges of a list:
/// behind the last of them that it does not come before.
pub open spec fn range_index(sorted: Seq<(int, int)>, x: (int, int), n: int) -> int
    decreases n,
{
    if n <= 0 || n > sorted.len() || !range_before(x, sorted[n - 1]) {
        n
    } else {
        range_index(sorted, x, n - 1)
    }
}

proof fn lemma_range_index_prefix(sorted: Seq<(int, int)>, x: (int, int), n: int)
    requires
        0 <= n < sorted.len(),
    ensures
        range_index(sorted, x, n) == range_index(sorted.drop_last(), x, n),
        0 <= range_index(sorted, x, n) <= n,
    decreases n,
{
    if n > 0 {
        assert(sorted.drop_last()[n - 1] == sorted[n - 1]);
        if range_before(x, sorted[n - 1]) {
            lemma_range_index_prefix(sorted, x, n - 1);
        }
    }
}

proof fn lemma_range_inserted_at(sorted: Seq<(int, int)>, x: (int, int))
    ensures
        0 <= range_index(sorted, x, sorted.len() as int) <= sorted.len(),
        range_inserted(sorted, x) == sorted.insert(range_index(sorted, x, sorted.len() as int), x),
    decreases sorted.len(),
{
    if sorted.len() > 0 && range_before(x, sorted.last()) {
        let init = sorted.drop_last();
        lemma_range_inserted_at(init, x);
        lemma_range_index_prefix(sorted, x, init.len() as int);
        let k = range_index(init, x, init.len() as int);
        assert(init.insert(k, x).push(sorted.last()) =~= sorted.insert(k, x));
    } else {
        assert(sorted.push(x) =~= sorted.insert(sorted.len() as int, x));
    }
}

/// Puts ranges in order and joins those that touch or overlap.
pub fn merge_ranges(ranges: Vec<ByteRange>) -> (merged: Vec<ByteRange>)
    ensures
        range_views(merged@) == ranges_merged(range_views(ranges@)),
{
    let ghost all = range_views(ranges@);
    let mut sorted: Vec<ByteRange> = Vec::new();
    let mut i: usize = 0;
    assert(all.take(0) =~= Seq::<(int, int)>::empty());
    assert(range_views(sorted@) =~= Seq::<(int, int)>::empty());
    while i < ranges.len()
        invariant
            i <= ranges.len(),
            all == range_views(ranges@),
            range_views(sorted@) == ranges_sorted(all.take(i as int)),
        decreases ranges.len() - i,
    {
        let ghost next = all.take(i + 1);
        assert(next.drop_last() =~= all.take(i as int));
        assert(next.last() == range_view(ranges@[i as int]));
        let ghost before = range_views(sorted@);
        let x = ranges[i];
        let mut pos: usize = sorted.len();
        while pos > 0 && (x.0 < sorted[pos - 1].0 || (x.0 == sorted[pos - 1].0 && x.1 < sorted[pos
            - 1].1))
            invariant
                pos <= sorted.len(),
                before == range_views(sorted@),
                range_index(before, range_view(x), before.len() as int) == range_index(
                    before,
                    range_view(x),
                    pos as int,
                ),
            decreases pos,
        {
            assert(before[pos - 1] == range_view(sorted@[pos - 1]));
            pos -= 1;
        }
        assert(pos > 0 ==> before[pos - 1] == range_view(sorted@[pos - 1]));
        proof {
            lemma_range_inserted_at(before, range_view(x));
        }
        sorted.insert(pos, x);
        assert(range_views(sorted@) =~= before.insert(pos as int, range_view(x)));
        i += 1;
    }
    assert(all.take(ranges.len() as int) =~= all);
    let ghost sv = range_views(sorted@);
    let mut merged: Vec<ByteRange> = Vec::new();
    let mut j: usize = 0;
    assert(sv.take(0) =~= Seq::<(int, int)>::empty());
    assert(range_views(merged@) =~= Seq::<(int, int)>::empty());
    while j < sorted.len()
        invariant
            j <= sorted.len(),
            sv == range_views(sorted@),
            range_views(merged@) == ranges_joined(sv.take(j as int)),
        decreases sorted.len() - j,
    {
        let ghost next = sv.take(j + 1);
        assert(next.drop_last() =~= sv.take(j as int));
        assert(next.last() == range_view(sorted@[j as int]));
        let ghost before = range_views(merged@);
        let r = sorted[j];
        let n = merged.len();
        if n > 0 {
            assert(before.last() == range_view(merged@[n - 1]));
        }
        if n > 0 && r.0 <= merged[n - 1].1 {
            if r.1 > merged[n - 1].1 {
                let last = merged.pop().unwrap();
                merged.push((last.0, r.1));
                assert(range_views(merged@) =~= before.drop_last().push((last.0 as int, r.1 as int)));
            }
        } else {
            merged.push(r);
            assert(range_views(merged@) =~= before.push(range_view(r)));
        }
        j += 1;
    }
    assert(sv.take(sorted.len() as int) =~= sv);
    merged
}

/// The ranges of code among the first `n` events, and the start of the code
/// block that is open after them.
pub open spec fn code_ranges(events: Seq<PlacedView>, n: int) -> (Seq<(int, int)>, Option<int>)
    decreases n,
{
    if n <= 0 || n > events.len() {
        (seq![], None)
    } else {
        let (ranges, open) = code_ranges(events, n - 1);
        let e = events[n - 1];
        match e.event {
            EventView::Start(TagView::CodeBlock(_)) => (ranges, Some(e.start)),
            EventView::End(MdTagEnd::CodeBlock) => match open {
                Some(start) => (ranges.push((start, e.end)), None),
                None => (ranges, None),
            },
            EventView::Code(_) => (ranges.push((e.start, e.end)), open),
            _ => (ranges, open),
        }
    }
}

/// The ranges of a text in which no tag is replaced: its code blocks, each
/// from its start to its end, and its inline code; a code block that does
/// not end in the events reaches to `len`. The ranges are in order and
/// joined where they touch or overlap.
pub open spec fn excluded(events: Seq<PlacedView>, len: int) -> Seq<(int, int)> {
    let (ranges, open) = code_ranges(events, events.len() as int);
    ranges_merged(
        match open {
            Some(start) => ranges.push((start, len)),
            None => ranges,
        },
    )
}

/// Finds the ranges of code in a document's events: see [`excluded`].
pub fn excluded_ranges(events: &Vec<PlacedEvent>, len: usize) -> (r: Vec<ByteRange>)
    ensures
        range_views(r@) == excluded(placed_views(events@), len as int),
{
    let ghost all = placed_views(events@);
    let mut ranges: Vec<ByteRange> = Vec::new();
    let mut open: Option<usize> = None;
    let mut i: usize = 0;
    assert(range_views(ranges@) =~= Seq::<(int, int)>::empty());
    while i < events.len()
        invariant
            i <= events.len(),
            all == placed_views(events@),
            code_ranges(all, i as int) == (
                range_views(ranges@),
                match open {
                    Some(s) => Some(s as int),
                    None => None,
                },
            ),
        decreases events.len() - i,
    {
        let ghost before = range_views(ranges@);
        let e = &events[i];
        assert(all[i as int] == e@);
        match &e.event {
            MdEvent::Start(MdTag::CodeBlock(_)) => {
                open = Some(e.start);
            },
            MdEvent::End(MdTagEnd::CodeBlock) => {
                if let Some(start) = open {
                    ranges.push((start, e.end));
                    assert(range_views(ranges@) =~= before.push((start as int, e.end as int)));
                }
                open = None;
            },
            MdEvent::Code(_) => {
                ranges.push((e.start, e.end));
                assert(range_views(ranges@) =~= before.push((e.start as int, e.end as int)));
            },
            _ => {},
        }
        i += 1;
    }
    if let Some(start) = open {
        let ghost before = range_views(ranges@);
        ranges.push((start, len));
        assert(range_views(ranges@) =~= before.push((start as int, len as int)));
    }
    merge_ranges(ranges)
}

// ---------------------------------------------------------------------------
// Markdown
// ---------------------------------------------------------------------------

/// A range that is taken as it stands: it begins where the text before it
/// ended or later, and does not end before it begins.
pub open spec fn in_order(r: (int, int), cursor: int) -> bool {
    cursor <= r.0 && r.0 <= r.1
}

/// The text from byte `cursor` on with the tag replaced outside of the
/// ranges from `k` on, which are kept as they stand.
pub open spec fn retag_outside(
    s: Seq<char>,
    ranges: Seq<(int, int)>,
    k: int,
    cursor: int,
    from: Seq<char>,
    to: Seq<char>,
) -> Seq<char>
    decreases ranges.len() - k,
{
    if k < 0 || k >= ranges.len() {
        retagged_from(s.subrange(char_index(s, cursor), s.len() as int), from, to, 0)
    } else if in_order(ranges[k], cursor) {
        retagged_from(byte_range(s, cursor, ranges[k].0), from, to, 0) + byte_range(
            s,
            ranges[k].0,
            ranges[k].1,
        ) + retag_outside(s, ranges, k + 1, ranges[k].1, from, to)
    } else {
        retag_outside(s, ranges, k + 1, cursor, from, to)
    }
}

/// The number of tags replaced by [`retag_outside`].
pub open spec fn targets_outside(
    s: Seq<char>,
    ranges: Seq<(int, int)>,
    k: int,
    cursor: int,
    from: Seq<char>,
) -> nat
    decreases ranges.len() - k,
{
    if k < 0 || k >= ranges.len() {
        targets_from(s.subrange(char_index(s, cursor), s.len() as int), from, 0)
    } else if in_order(ranges[k], cursor) {
        targets_from(byte_range(s, cursor, ranges[k].0), from, 0) + targets_outside(
            s,
            ranges,
            k + 1,
            ranges[k].1,
            from,
        )
    } else {
        targets_outside(s, ranges, k + 1, cursor, from)
    }
}

/// A later byte does not lie in an earlier character.
pub proof fn lemma_char_index_grows(s: Seq<char>, i: int, at: int, a: int, b: int)
    requires
        0 <= i <= s.len(),
        a <= b,
    ensures
        char_index_from(s, i, at, a) <= char_index_from(s, i, at, b),
    decreases s.len() - i,
{
    lemma_char_index_from(s, i, at, b);
    if i < s.len() && at < a {
        lemma_char_index_grows(s, i + 1, at + utf8_len(s[i]), a, b);
    }
}

/// Replaces a tag in text whose ranges of code are given: outside of the
/// ranges every tag named `from_tag`, in any case of letters, becomes `#`
/// and `to_tag`; the ranges are kept as they stand.
pub fn retag_with_ranges(
    text: &Vec<char>,
    ranges: &Vec<ByteRange>,
    from_tag: &Vec<char>,
    to_tag: &Vec<char>,
) -> (r: (Vec<char>, usize))
    ensures
        r.0@ == retag_outside(text@, range_views(ranges@), 0, 0, from_tag@, to_tag@),
        r.1 == targets_outside(text@, range_views(ranges@), 0, 0, from_tag@),
{
    let ghost rs = range_views(ranges@);
    let mut out: Vec<char> = Vec::new();
    let mut count: usize = 0;
    let mut cursor: usize = 0;
    let mut k: usize = 0;
    while k < ranges.len()
        invariant
            k <= ranges.len(),
            rs == range_views(ranges@),
            count <= char_index(text@, cursor as int) <= text.len(),
            retag_outside(text@, rs, 0, 0, from_tag@, to_tag@) == out@ + retag_outside(
                text@,
                rs,
                k as int,
                cursor as int,
                from_tag@,
                to_tag@,
            ),
            targets_outside(text@, rs, 0, 0, from_tag@) == count + targets_outside(
                text@,
                rs,
                k as int,
                cursor as int,
                from_tag@,
            ),
        decreases ranges.len() - k,
    {
        let ghost before = out@;
        let range = ranges[k];
        assert(rs[k as int] == range_view(range));
        if cursor <= range.0 && range.0 <= range.1 {
            proof {
                lemma_char_index_grows(text@, 0, 0, cursor as int, range.0 as int);
                lemma_char_index_grows(text@, 0, 0, range.0 as int, range.1 as int);
                lemma_char_index_from(text@, 0, 0, range.1 as int);
            }
            let chunk = slice_bytes(text, cursor, range.0);
            let (new_chunk, n) = retag_chunk(&chunk, from_tag, to_tag);
            let code = slice_bytes(text, range.0, range.1);
            extend(&mut out, &new_chunk);
            extend(&mut out, &code);
            count += n;
            cursor = range.1;
            assert(out@ + retag_outside(text@, rs, k + 1, cursor as int, from_tag@, to_tag@)
                =~= before + (new_chunk@ + code@ + retag_outside(
                text@,
                rs,
                k + 1,
                cursor as int,
                from_tag@,
                to_tag@,
            )));
        }
        k += 1;
    }
    let start = char_index_of(text, cursor);
    let rest = slice(text, start, text.len());
    let (new_rest, n) = retag_chunk(&rest, from_tag, to_tag);
    extend(&mut out, &new_rest);
    count += n;
    (out, count)
}

/// The text with the tag replaced outside of code: see [`retag_outside`]
/// and [`excluded`]. Nothing is replaced where the two tags are the same up
/// to the case of their letters.
pub open spec fn retagged(
    s: Seq<char>,
    events: Seq<PlacedView>,
    len: int,
    from: Seq<char>,
    to: Seq<char>,
) -> (Seq<char>, nat) {
    if s.len() == 0 || eq_ignore_case(from, to) {
        (s, 0)
    } else {
        (
            retag_outside(s, excluded(events, len), 0, 0, from, to),
            targets_outside(s, excluded(events, len), 0, 0, from),
        )
    }
}

/// Replaces a tag in markdown whose events are given: see [`retagged`].
pub fn retag_events(
    markdown: &str,
    events: &Vec<PlacedEvent>,
    from_tag: &str,
    to_tag: &str,
) -> (r: RetagResult)
    ensures
        (r.content@, r.replacements as nat) == retagged(
            markdown@,
            placed_views(events@),
            byte_offset(markdown@, markdown@.len() as int),
            from_tag@,
            to_tag@,
        ),
{
    let text = chars_of(markdown);
    let from = chars_of(from_tag);
    let to = chars_of(to_tag);
    if text.len() == 0 || equal_ignore_case(&from, &to) {
        return RetagResult { content: string_of(&text), replacements: 0 };
    }
    let ranges = excluded_ranges(events, byte_length(markdown));

    let (content, replacements) = retag_with_ranges(&text, &ranges, &from, &to);
    RetagResult { content: string_of(&content), replacements }
}

/// Replaces every tag named `from_tag`, in any case of letters, by `to_tag`,
/// but not inside code blocks and inline code, and counts the tags
/// replaced.
///
/// The ranges of code are those of the events that `pulldown_cmark` reads
/// from `markdown`.
pub fn retag_markdown(markdown: &str, from_tag: &str, to_tag: &str) -> (r: RetagResult)
    ensures
        (r.content@, r.replacements as nat) == retagged(
            markdown@,
            markdown_placed_events(markdown@),
            byte_offset(markdown@, markdown@.len() as int),
            from_tag@,
            to_tag@,
        ),
{
    let events = read_placed_events(markdown);
    retag_events(markdown, &events, from_tag, to_tag)
}

} // verus!
