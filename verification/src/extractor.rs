//! The walk through a document that finds its tagged fragments.
//!
//! The walk is a state machine: [`step`] says what each event does to the
//! state [`Walk`], and [`Extractor`] carries the state out.

use vstd::prelude::*;
use crate::date::{date_view, Date, Ymd};
use crate::events::{EventView, MdEvent, MdTag, MdTagEnd, TagView};
use crate::fragment::{fragment_views, ContentPayload, FragmentView, PayloadView, TaggedContent};
use crate::hashtag::{outside_tags, tag_names, tags_in, without_tags};
use crate::hierarchy::{
    any_tagged, clone_tags, extend_unique, inherited_tags, innermost, merged, after_heading,
    ContextView, SectionStack, SectionView, TagContext,
};
use crate::links::{
    html_rewritten, link_or_image_tail, link_tail, opt_view, rewrite_html_targets, rewrite_target,
    rewritten_target,
};
use crate::outline::{format_list_item_markdown, list_item_markdown};
use crate::text::{
    blank, chars_of, ends_with, extend, extend_str, has_suffix_str, is_blank, slice, str_views,
    string_of, strings_of, trim, trim_ws, vec_views,
};

verus! {

// ---------------------------------------------------------------------------
// The state
// ---------------------------------------------------------------------------

/// A list item that is open: its text so far, the tags found in it, and the
/// fragments of the items nested in it.
pub struct OpenItem {
    pub text: Vec<char>,
    pub tags: Vec<String>,
    pub children: Vec<TaggedContent>,
}

/// The mathematical form of [`OpenItem`].
pub ghost struct OpenItemView {
    pub text: Seq<char>,
    pub tags: Seq<Seq<char>>,
    pub children: Seq<FragmentView>,
}

impl View for OpenItem {
    type V = OpenItemView;

    open spec fn view(&self) -> OpenItemView {
        OpenItemView {
            text: self.text@,
            tags: str_views(self.tags@),
            children: fragment_views(self.children@),
        }
    }
}

/// A link or an image that is open: what will close it.
pub enum InlineConstruct {
    Link { destination: Vec<char>, title: Vec<char> },
    Image { destination: Vec<char>, title: Vec<char> },
}

/// The mathematical form of [`InlineConstruct`].
pub ghost enum InlineView {
    Link { destination: Seq<char>, title: Seq<char> },
    Image { destination: Seq<char>, title: Seq<char> },
}

impl View for InlineConstruct {
    type V = InlineView;

    open spec fn view(&self) -> InlineView {
        match self {
            InlineConstruct::Link { destination, title } => InlineView::Link {
                destination: destination@,
                title: title@,
            },
            InlineConstruct::Image { destination, title } => InlineView::Image {
                destination: destination@,
                title: title@,
            },
        }
    }
}

/// What the walk is given and never changes.
pub ghost struct Setting {
    /// The bodies of the document's sections, in the order of the headings.
    pub bodies: Seq<Seq<char>>,
    pub source_file: Seq<char>,
    pub date: Option<Ymd>,
    /// The file that the fragments will be written to, if it is known.
    pub output: Option<Seq<char>>,
}

/// The state of the walk.
pub ghost struct Walk {
    /// The fragments found so far.
    pub results: Seq<FragmentView>,
    /// The open sections.
    pub sections: Seq<SectionView>,
    /// For each open list, the tags that its items inherit.
    pub list_tags: Seq<Seq<Seq<char>>>,
    /// The open list items, the outermost first.
    pub items: Seq<OpenItemView>,
    /// The tags of a paragraph of nothing but tags, for a list that follows.
    pub pending_list_tags: Option<Seq<Seq<char>>>,
    pub paragraph: Seq<char>,
    pub in_paragraph: bool,
    pub heading_text: Seq<char>,
    pub in_heading: bool,
    pub heading_level: nat,
    pub code_text: Seq<char>,
    pub code_info: Seq<char>,
    pub in_code_block: bool,
    /// The fragment of the paragraph just closed, to which a code block that
    /// follows is joined.
    pub pending_target: Option<int>,
    /// The open links and images.
    pub inlines: Seq<InlineView>,
    /// The number of headings closed so far.
    pub heading_index: nat,
}

/// The state at the beginning of a document.
pub open spec fn initial() -> Walk {
    Walk {
        results: seq![],
        sections: seq![],
        list_tags: seq![],
        items: seq![],
        pending_list_tags: None,
        paragraph: seq![],
        in_paragraph: false,
        heading_text: seq![],
        in_heading: false,
        heading_level: 0,
        code_text: seq![],
        code_info: seq![],
        in_code_block: false,
        pending_target: None,
        inlines: seq![],
        heading_index: 0,
    }
}

// ---------------------------------------------------------------------------
// What the events do
// ---------------------------------------------------------------------------

/// The tags that the innermost open list hands to its items.
pub open spec fn top_tags(lists: Seq<Seq<Seq<char>>>) -> Seq<Seq<char>> {
    if lists.len() == 0 {
        seq![]
    } else {
        lists.last()
    }
}

/// The context of a fragment found under the open sections.
pub open spec fn context_of(sections: Seq<SectionView>) -> ContextView {
    innermost(sections)
}

/// Whether a unit is a fragment of its own. Under a section with a tag of
/// its own the section's body is a fragment already, so the unit must add a
/// tag itself; elsewhere an inherited tag is enough.
pub open spec fn should_emit(
    sections: Seq<SectionView>,
    local: Seq<Seq<char>>,
    all: Seq<Seq<char>>,
) -> bool {
    if any_tagged(sections) {
        local.len() > 0
    } else {
        all.len() > 0
    }
}

/// A fragment with a literal body, found at the current point.
pub open spec fn found(cfg: Setting, w: Walk, tags: Seq<Seq<char>>, text: Seq<char>) -> FragmentView {
    FragmentView {
        tags,
        payload: PayloadView::Literal(text),
        source_file: cfg.source_file,
        date: cfg.date,
        context: context_of(w.sections),
    }
}

/// A block joined to a text: behind a blank line, unless the text is blank.
pub open spec fn with_block(text: Seq<char>, block: Seq<char>) -> Seq<char> {
    if is_blank(text) {
        text + block
    } else {
        text + seq!['\n', '\n'] + block
    }
}

/// The items with `text` in place of the innermost item's text.
pub open spec fn with_item_text(items: Seq<OpenItemView>, text: Seq<char>) -> Seq<OpenItemView> {
    if items.len() == 0 {
        items
    } else {
        items.update(items.len() - 1, OpenItemView { text, ..items.last() })
    }
}

/// The state after a piece of inline markdown: it goes to the code block,
/// the heading, the paragraph or the list item that is open, in this order
/// of choice.
pub open spec fn appended(w: Walk, piece: Seq<char>) -> Walk {
    if w.in_code_block {
        Walk { code_text: w.code_text + piece, ..w }
    } else if w.in_heading {
        Walk { heading_text: w.heading_text + piece, ..w }
    } else if w.in_paragraph {
        Walk { paragraph: w.paragraph + piece, ..w }
    } else if w.items.len() > 0 {
        Walk { items: with_item_text(w.items, w.items.last().text + piece), ..w }
    } else {
        w
    }
}

/// A list opens. Inside an item it takes the tags of the item and of the
/// item's list; elsewhere those that wait for it, if any do.
pub open spec fn start_list(w: Walk) -> Walk {
    if w.items.len() == 0 {
        let inherited = match w.pending_list_tags {
            Some(t) => t,
            None => seq![],
        };
        Walk {
            pending_target: None,
            pending_list_tags: None,
            list_tags: w.list_tags.push(inherited),
            ..w
        }
    } else {
        let item = w.items.last();
        let inherited = merged(merged(top_tags(w.list_tags), item.tags), tag_names(item.text));
        Walk { pending_target: None, list_tags: w.list_tags.push(inherited), ..w }
    }
}

/// A list closes, and its tags go with it.
pub open spec fn end_list(w: Walk) -> Walk {
    if w.list_tags.len() == 0 {
        w
    } else {
        Walk { list_tags: w.list_tags.drop_last(), ..w }
    }
}

/// An item opens, with no text yet.
pub open spec fn start_item(w: Walk) -> Walk {
    Walk {
        pending_target: None,
        items: w.items.push(OpenItemView { text: seq![], tags: seq![], children: seq![] }),
        ..w
    }
}

/// The item that closes: the innermost, or an empty one where none is open.
pub open spec fn closing_item(w: Walk) -> OpenItemView {
    if w.items.len() == 0 {
        OpenItemView { text: seq![], tags: seq![], children: seq![] }
    } else {
        w.items.last()
    }
}

/// The tags that a closing item adds to those of its sections: those of its
/// list, then its own.
pub open spec fn item_local_tags(w: Walk) -> Seq<Seq<char>> {
    let item = closing_item(w);
    merged(top_tags(w.list_tags), merged(item.tags, tag_names(item.text)))
}

/// The fragments that a closing item hands on: its own, where it is one,
/// then those of the items nested in it.
pub open spec fn item_fragments(cfg: Setting, w: Walk) -> Seq<FragmentView> {
    let item = closing_item(w);
    let local = item_local_tags(w);
    let all = merged(inherited_tags(w.sections), local);
    if !is_blank(outside_tags(item.text)) && should_emit(w.sections, local, all) {
        seq![found(cfg, w, all, list_item_markdown(trim_ws(item.text), w.items.len()))]
            + item.children
    } else {
        item.children
    }
}

/// An item closes. Its fragments go to the item that holds it, or, where
/// none does, to the fragments found.
pub open spec fn end_item(cfg: Setting, w: Walk) -> Walk {
    let out = item_fragments(cfg, w);
    if w.items.len() > 1 {
        let rest = w.items.drop_last();
        let parent = rest.last();
        Walk {
            items: rest.update(
                rest.len() - 1,
                OpenItemView { children: parent.children + out, ..parent },
            ),
            ..w
        }
    } else if w.items.len() == 1 {
        Walk { items: w.items.drop_last(), results: w.results + out, ..w }
    } else {
        Walk { results: w.results + out, ..w }
    }
}

/// A heading opens.
pub open spec fn start_heading(w: Walk, level: nat) -> Walk {
    Walk {
        pending_target: None,
        in_heading: true,
        heading_level: level,
        heading_text: seq![],
        pending_list_tags: None,
        ..w
    }
}

/// The body of the section whose heading closes.
pub open spec fn current_body(cfg: Setting, w: Walk) -> Seq<char> {
    if w.heading_index < cfg.bodies.len() {
        cfg.bodies[w.heading_index as int]
    } else {
        seq![]
    }
}

/// A heading closes: its tags are read, it becomes the innermost section,
/// and where it carries a tag and its body is not blank the body is found as a
/// fragment.
pub open spec fn end_heading(cfg: Setting, w: Walk) -> Walk {
    let tags = tag_names(w.heading_text);
    let clean = trim_ws(outside_tags(w.heading_text));
    let body = current_body(cfg, w);
    let sections = after_heading(
        w.sections,
        SectionView { level: w.heading_level, heading: clean, tags },
    );
    let entered = Walk {
        in_heading: false,
        heading_index: w.heading_index + 1,
        sections,
        ..w
    };
    if tags.len() > 0 && !is_blank(body) {
        Walk {
            results: w.results.push(
                FragmentView {
                    tags: inherited_tags(sections),
                    payload: PayloadView::Literal(body),
                    source_file: cfg.source_file,
                    date: cfg.date,
                    context: ContextView::Section { heading: clean, level: w.heading_level },
                },
            ),
            ..entered
        }
    } else {
        entered
    }
}

/// A paragraph opens.
pub open spec fn start_paragraph(w: Walk) -> Walk {
    Walk {
        pending_target: None,
        in_paragraph: true,
        paragraph: seq![],
        pending_list_tags: None,
        ..w
    }
}

/// A paragraph closes. In an item its text joins the item's; elsewhere it is
/// found as a fragment where it is to be emitted.
pub open spec fn end_paragraph(cfg: Setting, w: Walk) -> Walk {
    let tags = tag_names(w.paragraph);
    let clean = outside_tags(w.paragraph);
    let raw = trim_ws(w.paragraph);
    let local = merged(top_tags(w.list_tags), tags);
    if w.items.len() > 0 {
        let item = w.items.last();
        let text = if is_blank(clean) {
            item.text
        } else {
            with_block(item.text, raw)
        };
        Walk {
            in_paragraph: false,
            pending_list_tags: None,
            items: w.items.update(
                w.items.len() - 1,
                OpenItemView { text, tags: merged(item.tags, tags), ..item },
            ),
            ..w
        }
    } else if is_blank(clean) && tags.len() > 0 {
        Walk { in_paragraph: false, pending_list_tags: Some(tags), ..w }
    } else {
        let all = merged(inherited_tags(w.sections), local);
        if !is_blank(clean) && should_emit(w.sections, local, all) {
            Walk {
                in_paragraph: false,
                pending_list_tags: None,
                results: w.results.push(found(cfg, w, all, raw)),
                pending_target: Some(w.results.len() as int),
                ..w
            }
        } else {
            Walk { in_paragraph: false, pending_list_tags: None, ..w }
        }
    }
}

/// A link opens: what follows is its label, until it closes.
pub open spec fn start_link(cfg: Setting, w: Walk, dest_url: Seq<char>, title: Seq<char>) -> Walk {
    let destination = rewritten_target(dest_url, cfg.source_file, cfg.output);
    let a = appended(w, seq!['[']);
    Walk { inlines: a.inlines.push(InlineView::Link { destination, title }), ..a }
}

/// An image opens: what follows is its label, until it closes.
pub open spec fn start_image(cfg: Setting, w: Walk, dest_url: Seq<char>, title: Seq<char>) -> Walk {
    let destination = rewritten_target(dest_url, cfg.source_file, cfg.output);
    let a = appended(w, seq!['!', '[']);
    Walk { inlines: a.inlines.push(InlineView::Image { destination, title }), ..a }
}

/// A link closes and is written out as markdown where it stood.
pub open spec fn end_link(w: Walk) -> Walk {
    if w.inlines.len() == 0 {
        w
    } else {
        let popped = Walk { inlines: w.inlines.drop_last(), ..w };
        match w.inlines.last() {
            InlineView::Link { destination, title } => appended(
                popped,
                link_tail(destination, title),
            ),
            _ => popped,
        }
    }
}

/// An image closes and is written out as markdown where it stood.
pub open spec fn end_image(w: Walk) -> Walk {
    if w.inlines.len() == 0 {
        w
    } else {
        let popped = Walk { inlines: w.inlines.drop_last(), ..w };
        match w.inlines.last() {
            InlineView::Image { destination, title } => appended(
                popped,
                link_tail(destination, title),
            ),
            _ => popped,
        }
    }
}

/// An inline code span as markdown.
pub open spec fn code_span(code: Seq<char>) -> Seq<char> {
    seq!['`'] + code + seq!['`']
}

/// Raw HTML, with the targets of its `src` and `href` attributes rewritten.
pub open spec fn html(cfg: Setting, w: Walk, raw_html: Seq<char>) -> Walk {
    let rewritten = html_rewritten(raw_html, cfg.source_file, cfg.output);
    if w.in_code_block || w.in_heading || w.in_paragraph || w.items.len() > 0 {
        appended(w, rewritten)
    } else {
        let local = merged(top_tags(w.list_tags), tag_names(rewritten));
        let all = merged(inherited_tags(w.sections), local);
        if !is_blank(outside_tags(rewritten)) && should_emit(w.sections, local, all) {
            Walk { results: w.results.push(found(cfg, w, all, trim_ws(rewritten))), ..w }
        } else {
            w
        }
    }
}

/// A code block opens.
pub open spec fn start_code_block(w: Walk, info: Option<Seq<char>>) -> Walk {
    Walk {
        in_code_block: true,
        code_text: seq![],
        code_info: match info {
            Some(i) => i,
            None => seq![],
        },
        ..w
    }
}

/// A code block as markdown: between fences of three backticks, the trimmed
/// info string behind the first, the code ending in a line feed.
pub open spec fn fenced(info: Seq<char>, code: Seq<char>) -> Seq<char> {
    seq!['`', '`', '`'] + trim_ws(info) + seq!['\n'] + code + (if ends_with(code, seq!['\n']) {
        seq![]
    } else {
        seq!['\n']
    }) + seq!['`', '`', '`']
}

/// A fragment with `block` joined to its literal body.
pub open spec fn fragment_with_block(f: FragmentView, block: Seq<char>) -> FragmentView {
    match f.payload {
        PayloadView::Literal(text) => FragmentView {
            payload: PayloadView::Literal(with_block(text, block)),
            ..f
        },
        _ => f,
    }
}

/// A code block closes. In an item its fenced text joins the item's.
/// Elsewhere it joins the fragment that waits for it, or is found as a
/// fragment of its own where it is to be emitted.
pub open spec fn end_code_block(cfg: Setting, w: Walk) -> Walk {
    let block = fenced(w.code_info, w.code_text);
    let closed = Walk { in_code_block: false, ..w };
    if w.items.len() > 0 {
        Walk { items: with_item_text(w.items, with_block(w.items.last().text, block)), ..closed }
    } else {
        match w.pending_target {
            Some(idx) => if 0 <= idx < w.results.len() {
                Walk {
                    results: w.results.update(idx, fragment_with_block(w.results[idx], block)),
                    ..closed
                }
            } else {
                closed
            },
            None => {
                let local = top_tags(w.list_tags);
                let all = merged(inherited_tags(w.sections), local);
                if should_emit(w.sections, local, all) {
                    Walk { results: w.results.push(found(cfg, closed, all, block)), ..closed }
                } else {
                    closed
                }
            },
        }
    }
}

/// A line break: a space in a heading, a line feed elsewhere.
pub open spec fn line_break(w: Walk) -> Walk {
    if w.in_heading && !w.in_code_block {
        Walk { heading_text: w.heading_text + seq![' '], ..w }
    } else {
        appended(w, seq!['\n'])
    }
}

/// The state after an event.
pub open spec fn step(cfg: Setting, w: Walk, e: EventView) -> Walk {
    match e {
        EventView::Start(tag) => match tag {
            TagView::List => start_list(w),
            TagView::Item => start_item(w),
            TagView::Heading(level) => start_heading(w, level),
            TagView::Paragraph => start_paragraph(w),
            TagView::Link { dest_url, title } => start_link(cfg, w, dest_url, title),
            TagView::Image { dest_url, title } => start_image(cfg, w, dest_url, title),
            TagView::CodeBlock(info) => start_code_block(w, info),
            TagView::Other => w,
        },
        EventView::End(tag) => match tag {
            MdTagEnd::List => end_list(w),
            MdTagEnd::Item => end_item(cfg, w),
            MdTagEnd::Heading => end_heading(cfg, w),
            MdTagEnd::Paragraph => end_paragraph(cfg, w),
            MdTagEnd::Link => end_link(w),
            MdTagEnd::Image => end_image(w),
            MdTagEnd::CodeBlock => end_code_block(cfg, w),
            MdTagEnd::Other => w,
        },
        EventView::Text(text) => appended(w, text),
        EventView::Code(code) => appended(w, code_span(code)),
        EventView::Html(raw_html) => html(cfg, w, raw_html),
        EventView::InlineHtml(raw_html) => html(cfg, w, raw_html),
        EventView::SoftBreak => line_break(w),
        EventView::HardBreak => line_break(w),
        EventView::Other => w,
    }
}

/// The state after a run of events, from the beginning of a document.
pub open spec fn walked(cfg: Setting, events: Seq<EventView>) -> Walk
    decreases events.len(),
{
    if events.len() == 0 {
        initial()
    } else {
        step(cfg, walked(cfg, events.drop_last()), events.last())
    }
}

/// The fragments of a document with the given events.
pub open spec fn extracted(cfg: Setting, events: Seq<EventView>) -> Seq<FragmentView> {
    walked(cfg, events).results
}

/// Every event closes at most one heading.
pub proof fn lemma_step_headings(cfg: Setting, w: Walk, e: EventView)
    ensures
        w.heading_index <= step(cfg, w, e).heading_index <= w.heading_index + 1,
{
}

// ---------------------------------------------------------------------------
// Carrying it out
// ---------------------------------------------------------------------------

/// The views of a stack of tag lists.
pub open spec fn tag_lists(v: Seq<Vec<String>>) -> Seq<Seq<Seq<char>>> {
    Seq::new(v.len(), |i: int| str_views(v[i]@))
}

/// The views of the open items.
pub open spec fn item_views(v: Seq<OpenItem>) -> Seq<OpenItemView> {
    Seq::new(v.len(), |i: int| v[i]@)
}

/// The views of the open links and images.
pub open spec fn inline_views(v: Seq<InlineConstruct>) -> Seq<InlineView> {
    Seq::new(v.len(), |i: int| v[i]@)
}

/// The view of a tag list that may be missing.
pub open spec fn opt_tags(o: Option<Vec<String>>) -> Option<Seq<Seq<char>>> {
    match o {
        Some(t) => Some(str_views(t@)),
        None => None,
    }
}

/// An index that may be missing, as an integer.
pub open spec fn opt_index(o: Option<usize>) -> Option<int> {
    match o {
        Some(i) => Some(i as int),
        None => None,
    }
}

/// The view of a text that may be missing.
pub open spec fn opt_chars(o: Option<Vec<char>>) -> Option<Seq<char>> {
    match o {
        Some(v) => Some(v@),
        None => None,
    }
}

/// The walk through one document.
pub struct Extractor {
    pub bodies: Vec<Vec<char>>,
    pub source_file: Vec<char>,
    pub date: Option<Date>,
    pub output_file: Option<Vec<char>>,
    pub results: Vec<TaggedContent>,
    pub sections: SectionStack,
    pub list_tags: Vec<Vec<String>>,
    pub items: Vec<OpenItem>,
    pub pending_list_tags: Option<Vec<String>>,
    pub paragraph: Vec<char>,
    pub in_paragraph: bool,
    pub heading_text: Vec<char>,
    pub in_heading: bool,
    pub heading_level: usize,
    pub code_text: Vec<char>,
    pub code_info: Vec<char>,
    pub in_code_block: bool,
    pub pending_target: Option<usize>,
    pub inlines: Vec<InlineConstruct>,
    pub heading_index: usize,
}

impl View for Extractor {
    type V = Walk;

    open spec fn view(&self) -> Walk {
        Walk {
            results: fragment_views(self.results@),
            sections: self.sections@,
            list_tags: tag_lists(self.list_tags@),
            items: item_views(self.items@),
            pending_list_tags: opt_tags(self.pending_list_tags),
            paragraph: self.paragraph@,
            in_paragraph: self.in_paragraph,
            heading_text: self.heading_text@,
            in_heading: self.in_heading,
            heading_level: self.heading_level as nat,
            code_text: self.code_text@,
            code_info: self.code_info@,
            in_code_block: self.in_code_block,
            pending_target: opt_index(self.pending_target),
            inlines: inline_views(self.inlines@),
            heading_index: self.heading_index as nat,
        }
    }
}

impl Extractor {
    /// What the walk was given.
    pub open spec fn setting(&self) -> Setting {
        Setting {
            bodies: vec_views(self.bodies@),
            source_file: self.source_file@,
            date: date_view(self.date),
            output: opt_chars(self.output_file),
        }
    }

    /// The walk at the beginning of a document.
    pub fn new(
        bodies: Vec<Vec<char>>,
        source_file: Vec<char>,
        date: Option<Date>,
        output_file: Option<Vec<char>>,
    ) -> (x: Extractor)
        ensures
            x@ == initial(),
            x.setting() == (Setting {
                bodies: vec_views(bodies@),
                source_file: source_file@,
                date: date_view(date),
                output: opt_chars(output_file),
            }),
    {
        let x = Extractor {
            bodies,
            source_file,
            date,
            output_file,
            results: Vec::new(),
            sections: SectionStack::new(),
            list_tags: Vec::new(),
            items: Vec::new(),
            pending_list_tags: None,
            paragraph: Vec::new(),
            in_paragraph: false,
            heading_text: Vec::new(),
            in_heading: false,
            heading_level: 0,
            code_text: Vec::new(),
            code_info: Vec::new(),
            in_code_block: false,
            pending_target: None,
            inlines: Vec::new(),
            heading_index: 0,
        };
        assert(x@.results =~= Seq::<FragmentView>::empty());
        assert(x@.list_tags =~= Seq::<Seq<Seq<char>>>::empty());
        assert(x@.items =~= Seq::<OpenItemView>::empty());
        assert(x@.inlines =~= Seq::<InlineView>::empty());
        x
    }

    fn top_list_tags(&self) -> (tags: Vec<String>)
        ensures
            str_views(tags@) == top_tags(self@.list_tags),
    {
        let n = self.list_tags.len();
        if n == 0 {
            let tags: Vec<String> = Vec::new();
            assert(str_views(tags@) =~= Seq::<Seq<char>>::empty());
            tags
        } else {
            assert(self@.list_tags.last() == str_views(self.list_tags@[n - 1]@));
            clone_tags(&self.list_tags[n - 1])
        }
    }

    fn context(&self) -> (c: TagContext)
        ensures
            c@ == context_of(self@.sections),
    {
        self.sections.current_context()
    }

    fn emits(&self, local: &Vec<String>, all: &Vec<String>) -> (r: bool)
        ensures
            r == should_emit(self@.sections, str_views(local@), str_views(all@)),
    {
        if self.sections.in_explicit_tagged_section() {
            local.len() > 0
        } else {
            all.len() > 0
        }
    }

    fn fragment(&self, tags: Vec<String>, text: &Vec<char>) -> (f: TaggedContent)
        ensures
            f@ == found(self.setting(), self@, str_views(tags@), text@),
    {
        TaggedContent::new(
            tags,
            string_of(text),
            string_of(&self.source_file),
            self.date,
            self.context(),
        )
    }

    fn all_tags(&self, local: &Vec<String>) -> (all: Vec<String>)
        ensures
            str_views(all@) == merged(inherited_tags(self@.sections), str_views(local@)),
    {
        let mut all = self.sections.current_tags();
        extend_unique(&mut all, local);
        all
    }

    fn output(&self) -> (o: Option<&Vec<char>>)
        ensures
            opt_view(o) == self.setting().output,
    {
        match &self.output_file {
            Some(v) => Some(v),
            None => None,
        }
    }

    fn set_item_text(&mut self, text: Vec<char>)
        requires
            old(self).items.len() > 0,
        ensures
            final(self)@ == (Walk { items: with_item_text(old(self)@.items, text@), ..old(self)@ }),
            final(self).setting() == old(self).setting(),
    {
        let ghost before = self@.items;
        let mut item = self.items.pop().unwrap();
        assert(item@ == before.last());
        item.text = text;
        self.items.push(item);
        assert(self@.items =~= with_item_text(before, text@));
    }

    fn append_active(&mut self, piece: &Vec<char>)
        ensures
            final(self)@ == appended(old(self)@, piece@),
            final(self).setting() == old(self).setting(),
    {
        if self.in_code_block {
            extend(&mut self.code_text, piece);
        } else if self.in_heading {
            extend(&mut self.heading_text, piece);
        } else if self.in_paragraph {
            extend(&mut self.paragraph, piece);
        } else if self.items.len() > 0 {
            let n = self.items.len();
            assert(self@.items.last() == self.items@[n - 1]@);
            let mut text = slice(&self.items[n - 1].text, 0, self.items[n - 1].text.len());
            assert(text@ =~= self.items@[n - 1].text@);
            extend(&mut text, piece);
            self.set_item_text(text);
        }
    }

    fn start_list(&mut self)
        ensures
            final(self)@ == start_list(old(self)@),
            final(self).setting() == old(self).setting(),
    {
        let ghost before = self@;
        self.pending_target = None;
        let n = self.items.len();
        let inherited = if n == 0 {
            let mut taken: Option<Vec<String>> = None;
            std::mem::swap(&mut taken, &mut self.pending_list_tags);
            match taken {
                Some(t) => t,
                None => {
                    let t: Vec<String> = Vec::new();
                    assert(str_views(t@) =~= Seq::<Seq<char>>::empty());
                    t
                },
            }
        } else {
            let mut inherited = self.top_list_tags();
            assert(before.items.last() == self.items@[n - 1]@);
            extend_unique(&mut inherited, &self.items[n - 1].tags);
            let text_tags = strings_of(&tags_in(&self.items[n - 1].text));
            extend_unique(&mut inherited, &text_tags);
            inherited
        };
        self.list_tags.push(inherited);
        assert(self@.list_tags =~= start_list(before).list_tags);
    }

    fn end_list(&mut self)
        ensures
            final(self)@ == end_list(old(self)@),
            final(self).setting() == old(self).setting(),
    {
        let ghost before = self@;
        if self.list_tags.len() > 0 {
            self.list_tags.pop();
            assert(self@.list_tags =~= before.list_tags.drop_last());
        }
    }

    fn start_item(&mut self)
        ensures
            final(self)@ == start_item(old(self)@),
            final(self).setting() == old(self).setting(),
    {
        let ghost before = self@;
        self.pending_target = None;
        let item = OpenItem { text: Vec::new(), tags: Vec::new(), children: Vec::new() };
        assert(item@.tags =~= Seq::<Seq<char>>::empty());
        assert(item@.children =~= Seq::<FragmentView>::empty());
        self.items.push(item);
        assert(self@.items =~= start_item(before).items);
    }

    fn end_item(&mut self)
        ensures
            final(self)@ == end_item(old(self).setting(), old(self)@),
            final(self).setting() == old(self).setting(),
    {
        let ghost before = self@;
        let ghost cfg = self.setting();
        let depth = self.items.len();
        let list_top = self.top_list_tags();
        let item = if depth > 0 {
            let item = self.items.pop().unwrap();
            assert(item@ == before.items.last());
            assert(self@.items =~= before.items.drop_last());
            item
        } else {
            let item = OpenItem { text: Vec::new(), tags: Vec::new(), children: Vec::new() };
            assert(item@.tags =~= Seq::<Seq<char>>::empty());
            assert(item@.children =~= Seq::<FragmentView>::empty());
            item
        };
        assert(item@ == closing_item(before));
        let OpenItem { text, tags, children } = item;
        let mut item_tags = tags;
        let text_tags = strings_of(&tags_in(&text));
        extend_unique(&mut item_tags, &text_tags);
        let mut local = list_top;
        extend_unique(&mut local, &item_tags);
        assert(str_views(local@) == item_local_tags(before));
        let all = self.all_tags(&local);
        let emit = self.emits(&local, &all);
        let clean = without_tags(&text);
        let raw = trim(&text);
        let mut out: Vec<TaggedContent> = Vec::new();
        assert(fragment_views(out@) =~= Seq::<FragmentView>::empty());
        if !blank(&clean) && emit {
            let body = format_list_item_markdown(&raw, depth);
            let f = self.fragment(all, &body);
            assert(f@ == found(cfg, before, str_views(all@), body@));
            out.push(f);
            assert(fragment_views(out@) =~= seq![f@]);
        }
        append_fragments(&mut out, children);
        assert(fragment_views(out@) =~= item_fragments(cfg, before));
        if depth > 1 {
            let ghost rest = self@.items;
            let mut parent = self.items.pop().unwrap();
            assert(parent@ == rest.last());
            append_fragments(&mut parent.children, out);
            self.items.push(parent);
            assert(self@.items =~= end_item(cfg, before).items);
        } else {
            append_fragments(&mut self.results, out);
        }
    }

    fn start_heading(&mut self, level: usize)
        ensures
            final(self)@ == start_heading(old(self)@, level as nat),
            final(self).setting() == old(self).setting(),
    {
        self.pending_target = None;
        self.in_heading = true;
        self.heading_level = level;
        self.heading_text = Vec::new();
        self.pending_list_tags = None;
    }

    fn end_heading(&mut self)
        requires
            old(self).heading_index < usize::MAX,
        ensures
            final(self)@ == end_heading(old(self).setting(), old(self)@),
            final(self).setting() == old(self).setting(),
    {
        let ghost before = self@;
        let ghost cfg = self.setting();
        self.in_heading = false;
        let tags = strings_of(&tags_in(&self.heading_text));
        let clean = trim(&without_tags(&self.heading_text));
        let body = if self.heading_index < self.bodies.len() {
            let b = &self.bodies[self.heading_index];
            let copy = slice(b, 0, b.len());
            assert(copy@ =~= b@);
            copy
        } else {
            Vec::new()
        };
        assert(body@ == current_body(cfg, before));
        self.heading_index += 1;
        let tagged = tags.len() > 0;
        let level = self.heading_level;
        self.sections.push_heading(level, string_of(&clean).as_str(), tags);
        if tagged && !blank(&body) {
            let f = TaggedContent::new(
                self.sections.current_tags(),
                string_of(&body),
                string_of(&self.source_file),
                self.date,
                TagContext::Section { heading: string_of(&clean), level },
            );
            let ghost old_results = self@.results;
            self.results.push(f);
            assert(self@.results =~= old_results.push(f@));
        }
    }

    fn start_paragraph(&mut self)
        ensures
            final(self)@ == start_paragraph(old(self)@),
            final(self).setting() == old(self).setting(),
    {
        self.pending_target = None;
        self.in_paragraph = true;
        self.paragraph = Vec::new();
        self.pending_list_tags = None;
    }

    fn end_paragraph(&mut self)
        ensures
            final(self)@ == end_paragraph(old(self).setting(), old(self)@),
            final(self).setting() == old(self).setting(),
    {
        let ghost before = self@;
        let ghost cfg = self.setting();
        self.in_paragraph = false;
        let tags = strings_of(&tags_in(&self.paragraph));
        let clean = without_tags(&self.paragraph);
        let raw = trim(&self.paragraph);
        let mut local = self.top_list_tags();
        extend_unique(&mut local, &tags);
        if self.items.len() > 0 {
            let mut item = self.items.pop().unwrap();
            assert(item@ == before.items.last());
            extend_unique(&mut item.tags, &tags);
            if !blank(&clean) {
                if !blank(&item.text) {
                    item.text.push('\n');
                    item.text.push('\n');
                }
                extend(&mut item.text, &raw);
                assert(item.text@ =~= with_block(before.items.last().text, raw@));
            }
            self.items.push(item);
            self.pending_list_tags = None;
            assert(self@.items =~= end_paragraph(cfg, before).items);
        } else if blank(&clean) && tags.len() > 0 {
            self.pending_list_tags = Some(tags);
        } else {
            let all = self.all_tags(&local);
            if !blank(&clean) && self.emits(&local, &all) {
                let f = self.fragment(all, &raw);
                let ghost old_results = self@.results;
                let n = self.results.len();
                self.results.push(f);
                assert(self@.results =~= old_results.push(f@));
                self.pending_target = Some(n);
            }
            self.pending_list_tags = None;
        }
    }

    fn start_inline(&mut self, dest_url: &String, title: &String, image: bool)
        ensures
            final(self)@ == (if image {
                start_image(old(self).setting(), old(self)@, dest_url@, title@)
            } else {
                start_link(old(self).setting(), old(self)@, dest_url@, title@)
            }),
            final(self).setting() == old(self).setting(),
    {
        let ghost before = self@;
        let ghost cfg = self.setting();
        let destination = rewrite_target(
            &chars_of(dest_url.as_str()),
            &self.source_file,
            self.output(),
        );
        let title = chars_of(title.as_str());
        let mut open: Vec<char> = Vec::new();
        if image {
            open.push('!');
        }
        open.push('[');
        if image {
            assert(open@ =~= seq!['!', '[']);
        } else {
            assert(open@ =~= seq!['[']);
        }
        self.append_active(&open);
        let ghost mid = self@.inlines;
        if image {
            self.inlines.push(InlineConstruct::Image { destination, title });
            assert(self@.inlines =~= mid.push(InlineView::Image { destination: destination@, title: title@ }));
        } else {
            self.inlines.push(InlineConstruct::Link { destination, title });
            assert(self@.inlines =~= mid.push(InlineView::Link { destination: destination@, title: title@ }));
        }
    }

    fn end_inline(&mut self, image: bool)
        ensures
            final(self)@ == (if image {
                end_image(old(self)@)
            } else {
                end_link(old(self)@)
            }),
            final(self).setting() == old(self).setting(),
    {
        let ghost before = self@;
        if self.inlines.len() > 0 {
            let top = self.inlines.pop().unwrap();
            assert(top@ == before.inlines.last());
            assert(self@.inlines =~= before.inlines.drop_last());
            match top {
                InlineConstruct::Link { destination, title } => {
                    if !image {
                        let tail = link_or_image_tail(&destination, &title);
                        self.append_active(&tail);
                    }
                },
                InlineConstruct::Image { destination, title } => {
                    if image {
                        let tail = link_or_image_tail(&destination, &title);
                        self.append_active(&tail);
                    }
                },
            }
        }
    }

    fn html(&mut self, raw_html: &String)
        ensures
            final(self)@ == html(old(self).setting(), old(self)@, raw_html@),
            final(self).setting() == old(self).setting(),
    {
        let ghost before = self@;
        let rewritten = rewrite_html_targets(
            &chars_of(raw_html.as_str()),
            &self.source_file,
            self.output(),
        );
        if self.in_code_block || self.in_heading || self.in_paragraph || self.items.len() > 0 {
            self.append_active(&rewritten);
        } else {
            let tags = strings_of(&tags_in(&rewritten));
            let mut local = self.top_list_tags();
            extend_unique(&mut local, &tags);
            let all = self.all_tags(&local);
            let clean = without_tags(&rewritten);
            let raw = trim(&rewritten);
            if !blank(&clean) && self.emits(&local, &all) {
                let f = self.fragment(all, &raw);
                let ghost old_results = self@.results;
                self.results.push(f);
                assert(self@.results =~= old_results.push(f@));
            }
        }
    }

    fn start_code_block(&mut self, info: &Option<String>)
        ensures
            final(self)@ == start_code_block(
                old(self)@,
                match info {
                    Some(s) => Some(s@),
                    None => None,
                },
            ),
            final(self).setting() == old(self).setting(),
    {
        self.in_code_block = true;
        self.code_text = Vec::new();
        self.code_info = match info {
            Some(s) => chars_of(s.as_str()),
            None => Vec::new(),
        };
    }

    fn end_code_block(&mut self)
        ensures
            final(self)@ == end_code_block(old(self).setting(), old(self)@),
            final(self).setting() == old(self).setting(),
    {
        let ghost before = self@;
        let ghost cfg = self.setting();
        self.in_code_block = false;
        let mut block: Vec<char> = Vec::new();
        block.push('`');
        block.push('`');
        block.push('`');
        let info = trim(&self.code_info);
        extend(&mut block, &info);
        block.push('\n');
        extend(&mut block, &self.code_text);
        proof {
            reveal_strlit("\n");
            assert("\n"@ =~= seq!['\n']);
        }
        if !has_suffix_str(&self.code_text, "\n") {
            block.push('\n');
        }
        block.push('`');
        block.push('`');
        block.push('`');
        assert(block@ =~= fenced(before.code_info, before.code_text));
        if self.items.len() > 0 {
            let n = self.items.len();
            assert(self@.items.last() == self.items@[n - 1]@);
            let mut text = slice(&self.items[n - 1].text, 0, self.items[n - 1].text.len());
            assert(text@ =~= self.items@[n - 1].text@);
            push_block(&mut text, &block);
            self.set_item_text(text);
        } else {
            match self.pending_target {
                Some(idx) => {
                    if idx < self.results.len() {
                        let ghost old_results = self@.results;
                        let f = self.results.remove(idx);
                        assert(f@ == old_results[idx as int]);
                        let TaggedContent { tags, payload, source_file, date, context } = f;
                        let payload = match payload {
                            ContentPayload::Literal(text) => {
                                let mut t = chars_of(text.as_str());
                                push_block(&mut t, &block);
                                ContentPayload::Literal(string_of(&t))
                            },
                            other => other,
                        };
                        let g = TaggedContent { tags, payload, source_file, date, context };
                        assert(g@ == fragment_with_block(old_results[idx as int], block@));
                        self.results.insert(idx, g);
                        assert(self@.results =~= old_results.update(idx as int, g@));
                    }
                },
                None => {
                    let local = self.top_list_tags();
                    let all = self.all_tags(&local);
                    if self.emits(&local, &all) {
                        let f = self.fragment(all, &block);
                        let ghost old_results = self@.results;
                        self.results.push(f);
                        assert(self@.results =~= old_results.push(f@));
                    }
                },
            }
        }
    }

    fn line_break(&mut self)
        ensures
            final(self)@ == line_break(old(self)@),
            final(self).setting() == old(self).setting(),
    {
        if self.in_heading && !self.in_code_block {
            self.heading_text.push(' ');
            assert(self.heading_text@ =~= old(self).heading_text@ + seq![' ']);
        } else {
            let mut piece: Vec<char> = Vec::new();
            piece.push('\n');
            assert(piece@ =~= seq!['\n']);
            self.append_active(&piece);
        }
    }

    /// Takes one event.
    pub fn step(&mut self, event: &MdEvent)
        requires
            old(self).heading_index < usize::MAX,
        ensures
            final(self)@ == step(old(self).setting(), old(self)@, event@),
            final(self).setting() == old(self).setting(),
    {
        match event {
            MdEvent::Start(tag) => match tag {
                MdTag::List => self.start_list(),
                MdTag::Item => self.start_item(),
                MdTag::Heading(level) => self.start_heading(*level),
                MdTag::Paragraph => self.start_paragraph(),
                MdTag::Link { dest_url, title } => self.start_inline(dest_url, title, false),
                MdTag::Image { dest_url, title } => self.start_inline(dest_url, title, true),
                MdTag::CodeBlock(info) => self.start_code_block(info),
                MdTag::Other => {},
            },
            MdEvent::End(tag) => match tag {
                MdTagEnd::List => self.end_list(),
                MdTagEnd::Item => self.end_item(),
                MdTagEnd::Heading => self.end_heading(),
                MdTagEnd::Paragraph => self.end_paragraph(),
                MdTagEnd::Link => self.end_inline(false),
                MdTagEnd::Image => self.end_inline(true),
                MdTagEnd::CodeBlock => self.end_code_block(),
                MdTagEnd::Other => {},
            },
            MdEvent::Text(text) => {
                let piece = chars_of(text.as_str());
                self.append_active(&piece);
            },
            MdEvent::Code(code) => {
                let mut piece: Vec<char> = Vec::new();
                piece.push('`');
                extend_str(&mut piece, code.as_str());
                piece.push('`');
                assert(piece@ =~= code_span(code@));
                self.append_active(&piece);
            },
            MdEvent::Html(raw_html) => self.html(raw_html),
            MdEvent::InlineHtml(raw_html) => self.html(raw_html),
            MdEvent::SoftBreak => self.line_break(),
            MdEvent::HardBreak => self.line_break(),
            MdEvent::Other => {},
        }
    }
}

/// Joins a block to a text: see [`with_block`].
fn push_block(text: &mut Vec<char>, block: &Vec<char>)
    ensures
        final(text)@ == with_block(old(text)@, block@),
{
    if !blank(text) {
        text.push('\n');
        text.push('\n');
    }
    extend(text, block);
    assert(text@ =~= with_block(old(text)@, block@));
}

/// Moves the fragments of `more` to the end of `out`.
fn append_fragments(out: &mut Vec<TaggedContent>, more: Vec<TaggedContent>)
    ensures
        fragment_views(final(out)@) == fragment_views(old(out)@) + fragment_views(more@),
{
    let mut more = more;
    let ghost added = more@;
    out.append(&mut more);
    assert(fragment_views(out@) =~= fragment_views(old(out)@) + fragment_views(added));
}

} // verus!
