//! What holds of every walk through a document.

use vstd::prelude::*;
use crate::events::{EventView, MdTagEnd, TagView};
use crate::extractor::{
    appended, closing_item, end_code_block, end_heading, end_image, end_item, end_link,
    end_paragraph, extracted, found, html, item_fragments, item_local_tags, start_image,
    start_item, start_link, step, top_tags, walked, with_item_text, Setting, Walk,
};
use crate::fragment::FragmentView;
use crate::hierarchy::{
    inherited_tags, lemma_merged, merged, stacked_tags, SectionView,
};

verus! {

/// No fragment of the list carries a tag twice.
pub open spec fn clean_tags(fs: Seq<FragmentView>) -> bool {
    forall|i: int| 0 <= i < fs.len() ==> (#[trigger] fs[i]).tags.no_duplicates()
}

/// No fragment that the walk holds, found or waiting in an open list item,
/// carries a tag twice.
pub open spec fn tidy(w: Walk) -> bool {
    &&& clean_tags(w.results)
    &&& forall|k: int| 0 <= k < w.items.len() ==> clean_tags((#[trigger] w.items[k]).children)
}

proof fn lemma_inherited_clean(sections: Seq<SectionView>, local: Seq<Seq<char>>)
    ensures
        inherited_tags(sections).no_duplicates(),
        merged(inherited_tags(sections), local).no_duplicates(),
{
    lemma_merged(seq![], stacked_tags(sections));
    lemma_merged(inherited_tags(sections), local);
}

proof fn lemma_clean_push(fs: Seq<FragmentView>, f: FragmentView)
    requires
        clean_tags(fs),
        f.tags.no_duplicates(),
    ensures
        clean_tags(fs.push(f)),
{
    let r = fs.push(f);
    assert forall|i: int| 0 <= i < r.len() implies (#[trigger] r[i]).tags.no_duplicates() by {
        if i < fs.len() {
            assert(r[i] == fs[i]);
        }
    }
}

proof fn lemma_clean_concat(a: Seq<FragmentView>, b: Seq<FragmentView>)
    requires
        clean_tags(a),
        clean_tags(b),
    ensures
        clean_tags(a + b),
{
    let r = a + b;
    assert forall|i: int| 0 <= i < r.len() implies (#[trigger] r[i]).tags.no_duplicates() by {
        if i < a.len() {
            assert(r[i] == a[i]);
        } else {
            assert(r[i] == b[i - a.len()]);
        }
    }
}

proof fn lemma_appended_tidy(w: Walk, piece: Seq<char>)
    requires
        tidy(w),
    ensures
        tidy(appended(w, piece)),
{
    let a = appended(w, piece);
    assert forall|k: int| 0 <= k < a.items.len() implies clean_tags(
        (#[trigger] a.items[k]).children,
    ) by {
        assert(a.items[k].children == w.items[k].children);
    }
}

proof fn lemma_item_text_tidy(w: Walk, text: Seq<char>)
    requires
        tidy(w),
    ensures
        tidy(Walk { items: with_item_text(w.items, text), ..w }),
        tidy(Walk { items: with_item_text(w.items, text), in_code_block: false, ..w }),
{
    let items = with_item_text(w.items, text);
    assert forall|k: int| 0 <= k < items.len() implies clean_tags(
        (#[trigger] items[k]).children,
    ) by {
        assert(items[k].children == w.items[k].children);
    }
}

proof fn lemma_end_item_tidy(cfg: Setting, w: Walk)
    requires
        tidy(w),
    ensures
        tidy(end_item(cfg, w)),
{
    let item = closing_item(w);
    let local = item_local_tags(w);
    lemma_inherited_clean(w.sections, local);
    assert(clean_tags(item.children)) by {
        if w.items.len() > 0 {
            assert(item == w.items[w.items.len() - 1]);
        }
    }
    let out = item_fragments(cfg, w);
    assert(clean_tags(out)) by {
        let all = merged(inherited_tags(w.sections), local);
        let own = seq![found(cfg, w, all, seq![])];
        assert forall|i: int| 0 <= i < out.len() implies (#[trigger] out[i]).tags.no_duplicates() by {
            if out.len() == item.children.len() + 1 {
                if i == 0 {
                } else {
                    assert(out[i] == item.children[i - 1]);
                }
            } else {
                assert(out[i] == item.children[i]);
            }
        }
    }
    let r = end_item(cfg, w);
    if w.items.len() > 1 {
        let rest = w.items.drop_last();
        let parent = rest.last();
        assert(parent == w.items[w.items.len() - 2]);
        lemma_clean_concat(parent.children, out);
        assert forall|k: int| 0 <= k < r.items.len() implies clean_tags(
            (#[trigger] r.items[k]).children,
        ) by {
            if k < r.items.len() - 1 {
                assert(r.items[k] == w.items[k]);
            }
        }
    } else {
        lemma_clean_concat(w.results, out);
        if w.items.len() == 1 {
            assert(r.items.len() == 0);
        }
    }
}

proof fn lemma_end_heading_tidy(cfg: Setting, w: Walk)
    requires
        tidy(w),
    ensures
        tidy(end_heading(cfg, w)),
{
    let r = end_heading(cfg, w);
    lemma_inherited_clean(r.sections, seq![]);
    if r.results.len() == w.results.len() + 1 {
        lemma_clean_push(w.results, r.results.last());
        assert(r.results =~= w.results.push(r.results.last()));
    }
}

proof fn lemma_end_paragraph_tidy(cfg: Setting, w: Walk)
    requires
        tidy(w),
    ensures
        tidy(end_paragraph(cfg, w)),
{
    let r = end_paragraph(cfg, w);
    if w.items.len() > 0 {
        assert forall|k: int| 0 <= k < r.items.len() implies clean_tags(
            (#[trigger] r.items[k]).children,
        ) by {
            assert(r.items[k].children == w.items[k].children);
        }
    } else if r.results.len() == w.results.len() + 1 {
        lemma_inherited_clean(
            w.sections,
            merged(top_tags(w.list_tags), crate::hashtag::tag_names(w.paragraph)),
        );
        lemma_clean_push(w.results, r.results.last());
        assert(r.results =~= w.results.push(r.results.last()));
    }
}

proof fn lemma_html_tidy(cfg: Setting, w: Walk, raw_html: Seq<char>)
    requires
        tidy(w),
    ensures
        tidy(html(cfg, w, raw_html)),
{
    let r = html(cfg, w, raw_html);
    let rewritten = crate::links::html_rewritten(raw_html, cfg.source_file, cfg.output);
    if w.in_code_block || w.in_heading || w.in_paragraph || w.items.len() > 0 {
        lemma_appended_tidy(w, rewritten);
    } else if r.results.len() == w.results.len() + 1 {
        lemma_inherited_clean(
            w.sections,
            merged(top_tags(w.list_tags), crate::hashtag::tag_names(rewritten)),
        );
        lemma_clean_push(w.results, r.results.last());
        assert(r.results =~= w.results.push(r.results.last()));
    }
}

proof fn lemma_end_code_block_tidy(cfg: Setting, w: Walk)
    requires
        tidy(w),
    ensures
        tidy(end_code_block(cfg, w)),
{
    let r = end_code_block(cfg, w);
    let block = crate::extractor::fenced(w.code_info, w.code_text);
    if w.items.len() > 0 {
        lemma_item_text_tidy(
            w,
            crate::extractor::with_block(w.items.last().text, block),
        );
    } else {
        match w.pending_target {
            Some(idx) => {
                if 0 <= idx < w.results.len() {
                    assert forall|i: int| 0 <= i < r.results.len() implies (
                    #[trigger] r.results[i]).tags.no_duplicates() by {
                        if i == idx {
                            assert(r.results[i].tags == w.results[idx].tags);
                        } else {
                            assert(r.results[i] == w.results[i]);
                        }
                    }
                }
            },
            None => {
                if r.results.len() == w.results.len() + 1 {
                    lemma_inherited_clean(w.sections, top_tags(w.list_tags));
                    lemma_clean_push(w.results, r.results.last());
                    assert(r.results =~= w.results.push(r.results.last()));
                }
            },
        }
    }
}

proof fn lemma_inline_tidy(cfg: Setting, w: Walk, dest_url: Seq<char>, title: Seq<char>)
    requires
        tidy(w),
    ensures
        tidy(start_link(cfg, w, dest_url, title)),
        tidy(start_image(cfg, w, dest_url, title)),
        tidy(end_link(w)),
        tidy(end_image(w)),
{
    lemma_appended_tidy(w, seq!['[']);
    lemma_appended_tidy(w, seq!['!', '[']);
    if w.inlines.len() > 0 {
        let popped = Walk { inlines: w.inlines.drop_last(), ..w };
        match w.inlines.last() {
            crate::extractor::InlineView::Link { destination, title } => {
                lemma_appended_tidy(popped, crate::links::link_tail(destination, title));
            },
            crate::extractor::InlineView::Image { destination, title } => {
                lemma_appended_tidy(popped, crate::links::link_tail(destination, title));
            },
        }
    }
}

proof fn lemma_start_item_tidy(w: Walk)
    requires
        tidy(w),
    ensures
        tidy(start_item(w)),
{
    let r = start_item(w);
    assert forall|k: int| 0 <= k < r.items.len() implies clean_tags(
        (#[trigger] r.items[k]).children,
    ) by {
        if k < w.items.len() {
            assert(r.items[k] == w.items[k]);
        }
    }
}

/// An event leaves no fragment with a tag twice where there was none.
pub proof fn lemma_step_tidy(cfg: Setting, w: Walk, e: EventView)
    requires
        tidy(w),
    ensures
        tidy(step(cfg, w, e)),
{
    match e {
        EventView::Start(tag) => match tag {
            TagView::List => {},
            TagView::Item => {
                lemma_start_item_tidy(w);
            },
            TagView::Heading(level) => {},
            TagView::Paragraph => {},
            TagView::Link { dest_url, title } => {
                lemma_inline_tidy(cfg, w, dest_url, title);
            },
            TagView::Image { dest_url, title } => {
                lemma_inline_tidy(cfg, w, dest_url, title);
            },
            TagView::CodeBlock(info) => {},
            TagView::Other => {},
        },
        EventView::End(tag) => match tag {
            MdTagEnd::List => {},
            MdTagEnd::Item => {
                lemma_end_item_tidy(cfg, w);
            },
            MdTagEnd::Heading => {
                lemma_end_heading_tidy(cfg, w);
            },
            MdTagEnd::Paragraph => {
                lemma_end_paragraph_tidy(cfg, w);
            },
            MdTagEnd::Link => {
                lemma_inline_tidy(cfg, w, seq![], seq![]);
            },
            MdTagEnd::Image => {
                lemma_inline_tidy(cfg, w, seq![], seq![]);
            },
            MdTagEnd::CodeBlock => {
                lemma_end_code_block_tidy(cfg, w);
            },
            MdTagEnd::Other => {},
        },
        EventView::Text(text) => {
            lemma_appended_tidy(w, text);
        },
        EventView::Code(code) => {
            lemma_appended_tidy(w, crate::extractor::code_span(code));
        },
        EventView::Html(raw_html) => {
            lemma_html_tidy(cfg, w, raw_html);
        },
        EventView::InlineHtml(raw_html) => {
            lemma_html_tidy(cfg, w, raw_html);
        },
        EventView::SoftBreak => {
            lemma_appended_tidy(w, seq!['\n']);
        },
        EventView::HardBreak => {
            lemma_appended_tidy(w, seq!['\n']);
        },
        EventView::Other => {},
    }
}

/// Whatever the events of a document are, no fragment that the walk finds
/// carries a tag twice: the tags of a fragment are a list without
/// duplicates, inherited tags first.
pub proof fn lemma_fragments_have_no_tag_twice(cfg: Setting, events: Seq<EventView>)
    ensures
        tidy(walked(cfg, events)),
        clean_tags(extracted(cfg, events)),
    decreases events.len(),
{
    if events.len() > 0 {
        lemma_fragments_have_no_tag_twice(cfg, events.drop_last());
        lemma_step_tidy(cfg, walked(cfg, events.drop_last()), events.last());
    }
}

} // verus!
