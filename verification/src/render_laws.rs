//! How every compilation ends.

use vstd::prelude::*;
use crate::compiler::{
    chronological, group_index, grouped, insert_index, joined_group, joins_at, lemma_inserted_at,
    lemma_joined_at, shown_name, CompilationDateStyle, CompilationFormat, GroupView,
};
use crate::fragment::{rendered_payload, FragmentView};
use crate::query::QueryView;
use crate::render::{
    chronological_body, day_header, date_before, document, entries, entry, group_header,
    grouped_body, separator, title,
};
use crate::text::ends_with;

verus! {

/// The fragment, as it is written, ends in a character that is no line
/// feed.
pub open spec fn firm(f: FragmentView, output: Option<Seq<char>>) -> bool {
    let text = rendered_payload(f.payload, f.source_file, output);
    text.len() > 0 && text.last() != '\n'
}

/// Every fragment of the list is firm.
pub open spec fn all_firm(fs: Seq<FragmentView>, output: Option<Seq<char>>) -> bool {
    forall|i: int| 0 <= i < fs.len() ==> firm(#[trigger] fs[i], output)
}

/// Every group holds a fragment, and all its fragments are firm.
pub open spec fn groups_firm(groups: Seq<GroupView>, output: Option<Seq<char>>) -> bool {
    forall|i: int|
        0 <= i < groups.len() ==> (#[trigger] groups[i]).items.len() > 0 && all_firm(
            groups[i].items,
            output,
        )
}

/// The text ends in a blank line and in no more than one.
pub open spec fn closed(s: Seq<char>) -> bool {
    s.len() >= 3 && s[s.len() - 1] == '\n' && s[s.len() - 2] == '\n' && s[s.len() - 3] != '\n'
}

proof fn lemma_closed_behind(a: Seq<char>, b: Seq<char>)
    requires
        closed(b),
    ensures
        closed(a + b),
{
    let s = a + b;
    assert(s[s.len() - 1] == b[b.len() - 1]);
    assert(s[s.len() - 2] == b[b.len() - 2]);
    assert(s[s.len() - 3] == b[b.len() - 3]);
}

/// The last fragment of a list, as it is written, is closed.
proof fn lemma_last_entry_closed(
    items: Seq<FragmentView>,
    include_context: bool,
    output: Option<Seq<char>>,
)
    requires
        items.len() > 0,
        firm(items.last(), output),
    ensures
        closed(entry(items, items.len() - 1, include_context, output)),
{
    let idx = items.len() - 1;
    let text = rendered_payload(items[idx].payload, items[idx].source_file, output);
    assert(separator(items, idx) == seq!['\n', '\n']);
    let tail = text + seq!['\n', '\n'];
    assert(tail[tail.len() - 3] == text.last());
    assert(closed(tail));
    let e = entry(items, idx, include_context, output);
    assert(e =~= crate::render::context_heading(items[idx], include_context) + tail);
    lemma_closed_behind(crate::render::context_heading(items[idx], include_context), tail);
}

proof fn lemma_chronological_firm(fs: Seq<FragmentView>, output: Option<Seq<char>>)
    requires
        all_firm(fs, output),
    ensures
        all_firm(chronological(fs), output),
        chronological(fs).len() == fs.len(),
    decreases fs.len(),
{
    if fs.len() > 0 {
        let init = fs.drop_last();
        assert(all_firm(init, output)) by {
            assert forall|i: int| 0 <= i < init.len() implies firm(#[trigger] init[i], output) by {
                assert(init[i] == fs[i]);
            }
        }
        lemma_chronological_firm(init, output);
        let sorted = chronological(init);
        let x = fs.last();
        assert(x == fs[fs.len() - 1]);
        lemma_inserted_at(sorted, x);
        let k = insert_index(sorted, x, sorted.len() as int);
        let r = sorted.insert(k, x);
        assert forall|i: int| 0 <= i < r.len() implies firm(#[trigger] r[i], output) by {
            if i < k {
                assert(r[i] == sorted[i]);
            } else if i > k {
                assert(r[i] == sorted[i - 1]);
            }
        }
    }
}

proof fn lemma_grouped_firm(fs: Seq<FragmentView>, output: Option<Seq<char>>)
    requires
        all_firm(fs, output),
    ensures
        groups_firm(grouped(fs), output),
        fs.len() > 0 ==> grouped(fs).len() > 0,
    decreases fs.len(),
{
    if fs.len() > 0 {
        let init = fs.drop_last();
        assert(all_firm(init, output)) by {
            assert forall|i: int| 0 <= i < init.len() implies firm(#[trigger] init[i], output) by {
                assert(init[i] == fs[i]);
            }
        }
        lemma_grouped_firm(init, output);
        let groups = grouped(init);
        let f = fs.last();
        assert(f == fs[fs.len() - 1]);
        lemma_joined_at(groups, f);
        let name = shown_name(f.source_file);
        let k = group_index(groups, name, groups.len() as int);
        let r = joined_group(groups, f);
        assert forall|i: int| 0 <= i < r.len() implies (#[trigger] r[i]).items.len() > 0
            && all_firm(r[i].items, output) by {
            if joins_at(groups, name, k) {
                if i == k - 1 {
                    let old_items = groups[k - 1].items;
                    let items = r[i].items;
                    assert(all_firm(old_items, output));
                    assert forall|j: int| 0 <= j < items.len() implies firm(
                        #[trigger] items[j],
                        output,
                    ) by {
                        if j < old_items.len() {
                            assert(items[j] == old_items[j]);
                        }
                    }
                } else {
                    assert(r[i] == groups[i]);
                }
            } else {
                if i < k {
                    assert(r[i] == groups[i]);
                } else if i > k {
                    assert(r[i] == groups[i - 1]);
                } else {
                    let items = r[i].items;
                    assert(items =~= seq![f]);
                }
            }
        }
    }
}

/// A closed text loses one line feed and then ends in one line feed behind
/// a character that is none.
proof fn lemma_closed_text_ends(s: Seq<char>)
    requires
        closed(s),
    ensures
        ends_with(s, "\n\n"@),
        ends_with(s.drop_last(), "\n"@),
        !ends_with(s.drop_last(), "\n\n"@),
{
    reveal_strlit("\n\n");
    reveal_strlit("\n");
    let n = s.len() as int;
    assert(s.subrange(n - 2, n) =~= "\n\n"@);
    let t = s.drop_last();
    assert(t.subrange(n - 2, n - 1) =~= "\n"@);
    if ends_with(t, "\n\n"@) {
        assert(t.subrange(n - 3, n - 1)[0] == '\n');
        assert(t.subrange(n - 3, n - 1)[0] == s[n - 3]);
    }
}

/// A compilation of fragments ends in one line feed and in no blank line,
/// in either layout, where every fragment as it is written ends in a
/// character that is no line feed.
pub proof fn lemma_document_ends_in_one_line_feed(
    fs: Seq<FragmentView>,
    q: QueryView,
    format: CompilationFormat,
    style: CompilationDateStyle,
    include_context: bool,
    output: Option<Seq<char>>,
)
    requires
        fs.len() > 0,
        all_firm(fs, output),
    ensures
        ends_with(document(fs, q, format, style, include_context, output), "\n"@),
        !ends_with(document(fs, q, format, style, include_context, output), "\n\n"@),
{
    match format {
        CompilationFormat::Chronological => {
            lemma_chronological_firm(fs, output);
            let items = chronological(fs);
            let n = items.len() as int;
            assert(firm(items[n - 1], output));
            lemma_last_entry_closed(items, include_context, output);
            let body = chronological_body(items, n, style, include_context, output);
            let head = chronological_body(items, n - 1, style, include_context, output)
                + day_header(date_before(items, n - 1), items[n - 1].date, style);
            assert(body == head + entry(items, n - 1, include_context, output));
            lemma_closed_behind(head, entry(items, n - 1, include_context, output));
            lemma_closed_behind(title(q), body);
            lemma_closed_text_ends(title(q) + body);
        },
        CompilationFormat::Grouped => {
            lemma_grouped_firm(fs, output);
            let groups = grouped(fs);
            let n = groups.len() as int;
            let items = groups[n - 1].items;
            let m = items.len() as int;
            assert(m > 0 && all_firm(items, output));
            assert(firm(items[m - 1], output));
            lemma_last_entry_closed(items, include_context, output);
            let last = entry(items, m - 1, include_context, output);
            let written = entries(items, m, include_context, output);
            assert(written == entries(items, m - 1, include_context, output) + last);
            lemma_closed_behind(entries(items, m - 1, include_context, output), last);
            let body = grouped_body(groups, n, style, include_context, output);
            let head = grouped_body(groups, n - 1, style, include_context, output) + group_header(
                groups[n - 1],
                style,
            );
            assert(body == head + written);
            lemma_closed_behind(head, written);
            lemma_closed_behind(title(q), body);
            lemma_closed_text_ends(title(q) + body);
        },
    }
}

} // verus!
