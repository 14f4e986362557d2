//! Tagged fragments: pieces of a document with the tags that apply to them.

use vstd::prelude::*;
use std::sync::Arc;
use crate::date::{date_view, Date, Ymd};
use crate::hierarchy::{clone_tags, ContextView, TagContext};
use crate::links::{
    html_rewritten, markdown_rewritten, opt_view, rewrite_html_targets, rewrite_markdown_targets,
};
use crate::offsets::{byte_range, slice_bytes};
use crate::text::{blank, chars_of, is_blank, same, str_views, string_of};

verus! {

/// A half-open range of bytes of a source text.
#[derive(Debug, Clone, Copy, PartialEq, Eq)]
pub struct SourceSpan {
    pub start: usize,
    pub end: usize,
}

impl SourceSpan {
    /// The range from byte `start` up to byte `end`.
    pub fn new(start: usize, end: usize) -> (s: SourceSpan)
        ensures
            s.start == start,
            s.end == end,
    {
        SourceSpan { start, end }
    }
}

/// The body of a fragment.
#[derive(Debug, Clone, PartialEq)]
pub enum ContentPayload {
    /// Markdown text put together for the fragment.
    Literal(String),
    /// A range of the source text, which is shared and never changed.
    Span { span: SourceSpan, source: Arc<str> },
}

/// The mathematical form of a payload.
pub ghost enum PayloadView {
    Literal(Seq<char>),
    Span { source: Seq<char>, start: int, end: int },
}

impl View for ContentPayload {
    type V = PayloadView;

    open spec fn view(&self) -> PayloadView {
        match self {
            ContentPayload::Literal(text) => PayloadView::Literal(text@),
            ContentPayload::Span { span, source } => PayloadView::Span {
                source: source@,
                start: span.start as int,
                end: span.end as int,
            },
        }
    }
}

/// The text of a payload as it stands in the source: the literal, or what
/// the span covers.
pub open spec fn payload_text(p: PayloadView) -> Seq<char> {
    match p {
        PayloadView::Literal(text) => text,
        PayloadView::Span { source, start, end } => byte_range(source, start, end),
    }
}

/// What lies between two payloads in the source, where both are spans of
/// the same text, the second begins where the first ends or later, and
/// nothing but white space lies between them.
pub open spec fn span_gap(a: PayloadView, b: PayloadView) -> Option<Seq<char>> {
    match (a, b) {
        (
            PayloadView::Span { source: s1, start: a1, end: e1 },
            PayloadView::Span { source: s2, start: a2, end: e2 },
        ) => {
            if s1 == s2 && e1 <= a2 && is_blank(byte_range(s1, e1, a2)) {
                Some(byte_range(s1, e1, a2))
            } else {
                None
            }
        },
        _ => None,
    }
}

/// The text of a payload as it is written to `output`: a literal as it is; a
/// span as it is where no output file is given, and else with the
/// destinations of its links, images and HTML attributes rewritten.
pub open spec fn rendered_payload(
    p: PayloadView,
    source_file: Seq<char>,
    output: Option<Seq<char>>,
) -> Seq<char> {
    match p {
        PayloadView::Literal(text) => text,
        PayloadView::Span { source, start, end } => match output {
            None => byte_range(source, start, end),
            Some(o) => html_rewritten(
                markdown_rewritten(byte_range(source, start, end), source_file, output),
                source_file,
                output,
            ),
        },
    }
}

/// A piece of content with the tags that apply to it.
#[derive(Debug, Clone, PartialEq)]
pub struct TaggedContent {
    /// The tags, inherited ones first, each once.
    pub tags: Vec<String>,
    /// The body.
    pub payload: ContentPayload,
    /// The document that the fragment comes from.
    pub source_file: String,
    /// The day that the document stands for, if it stands for one.
    pub date: Option<Date>,
    /// Where in the document the fragment stands.
    pub context: TagContext,
}

/// The mathematical form of a fragment.
pub ghost struct FragmentView {
    pub tags: Seq<Seq<char>>,
    pub payload: PayloadView,
    pub source_file: Seq<char>,
    pub date: Option<Ymd>,
    pub context: ContextView,
}

impl View for TaggedContent {
    type V = FragmentView;

    open spec fn view(&self) -> FragmentView {
        FragmentView {
            tags: str_views(self.tags@),
            payload: self.payload@,
            source_file: self.source_file@,
            date: date_view(self.date),
            context: self.context@,
        }
    }
}

/// The views of a list of fragments.
pub open spec fn fragment_views(v: Seq<TaggedContent>) -> Seq<FragmentView> {
    Seq::new(v.len(), |i: int| v[i]@)
}

impl ContentPayload {
    /// A copy of the payload; a span's source text is shared, not copied.
    pub fn copy(&self) -> (p: ContentPayload)
        ensures
            p@ == self@,
    {
        match self {
            ContentPayload::Literal(text) => ContentPayload::Literal(text.clone()),
            ContentPayload::Span { span, source } => ContentPayload::Span {
                span: SourceSpan { start: span.start, end: span.end },
                source: share(source),
            },
        }
    }

    /// The payload's text as it stands in the source.
    pub fn text(&self) -> (t: Vec<char>)
        ensures
            t@ == payload_text(self@),
    {
        match self {
            ContentPayload::Literal(text) => chars_of(text.as_str()),
            ContentPayload::Span { span, source } => {
                let s = chars_of(&**source);
                slice_bytes(&s, span.start, span.end)
            },
        }
    }
}

/// Another handle on a shared text: `Arc::clone`.
#[verifier::external_body]
fn share(source: &Arc<str>) -> (r: Arc<str>)
    ensures
        r@ == source@,
{
    Arc::clone(source)
}

impl TaggedContent {
    /// A fragment whose body is the given markdown text.
    pub fn new(
        tags: Vec<String>,
        content: String,
        source_file: String,
        date: Option<Date>,
        context: TagContext,
    ) -> (f: TaggedContent)
        ensures
            f@ == (FragmentView {
                tags: str_views(tags@),
                payload: PayloadView::Literal(content@),
                source_file: source_file@,
                date: date_view(date),
                context: context@,
            }),
    {
        TaggedContent { tags, payload: ContentPayload::Literal(content), source_file, date, context }
    }

    /// A fragment with the given body.
    pub fn with_payload(
        tags: Vec<String>,
        payload: ContentPayload,
        source_file: String,
        date: Option<Date>,
        context: TagContext,
    ) -> (f: TaggedContent)
        ensures
            f@ == (FragmentView {
                tags: str_views(tags@),
                payload: payload@,
                source_file: source_file@,
                date: date_view(date),
                context: context@,
            }),
    {
        TaggedContent { tags, payload, source_file, date, context }
    }

    /// A copy of the fragment.
    pub fn copy(&self) -> (f: TaggedContent)
        ensures
            f@ == self@,
    {
        TaggedContent {
            tags: clone_tags(&self.tags),
            payload: self.payload.copy(),
            source_file: self.source_file.clone(),
            date: self.date,
            context: self.context.copy(),
        }
    }

    /// The body as it stands in the source.
    pub fn raw_payload_content(&self) -> (t: Vec<char>)
        ensures
            t@ == payload_text(self@.payload),
    {
        self.payload.text()
    }

    /// The body as it stands in the source, as a string.
    pub fn content(&self) -> (t: String)
        ensures
            t@ == payload_text(self@.payload),
    {
        string_of(&self.payload.text())
    }

    /// What lies in the source between this fragment and `next`: see
    /// [`span_gap`].
    pub fn span_gap_to(&self, next: &TaggedContent) -> (gap: Option<Vec<char>>)
        ensures
            match gap {
                Some(g) => span_gap(self@.payload, next@.payload) == Some(g@),
                None => span_gap(self@.payload, next@.payload).is_none(),
            },
    {
        match (&self.payload, &next.payload) {
            (
                ContentPayload::Span { span: s1, source: t1 },
                ContentPayload::Span { span: s2, source: t2 },
            ) => {
                let a = chars_of(&**t1);
                let b = chars_of(&**t2);
                if !same(&a, &b) || s1.end > s2.start {
                    return None;
                }
                let gap = slice_bytes(&a, s1.end, s2.start);
                if blank(&gap) {
                    Some(gap)
                } else {
                    None
                }
            },
            _ => None,
        }
    }

    /// The body as it is written to a compilation at `output_file`: see
    /// [`rendered_payload`].
    pub fn rendered_content_for_output(&self, output_file: Option<&Vec<char>>) -> (t: Vec<char>)
        ensures
            t@ == rendered_payload(self@.payload, self@.source_file, opt_view(output_file)),
    {
        match &self.payload {
            ContentPayload::Literal(text) => chars_of(text.as_str()),
            ContentPayload::Span { span, source } => {
                let raw = self.payload.text();
                match output_file {
                    None => raw,
                    Some(_) => {
                        let file = chars_of(self.source_file.as_str());
                        let md = rewrite_markdown_targets(&raw, &file, output_file);
                        rewrite_html_targets(&md, &file, output_file)
                    },
                }
            },
        }
    }
}

} // verus!
