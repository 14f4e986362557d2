//! The structure of a markdown document as a stream of events.
//!
//! The events are those of `pulldown_cmark`, reduced to what the library
//! reads: texts are held as strings, and every kind of event or tag that the
//! library does not act on is `Other`.

use vstd::prelude::*;
use pulldown_cmark::{CodeBlockKind, Event, Parser, Tag, TagEnd};

verus! {

/// What begins.
#[derive(Debug, Clone, PartialEq)]
pub enum MdTag {
    Paragraph,
    /// A heading of the given level, 1 to 6.
    Heading(usize),
    /// A block of code; a fenced block has an info string, which may be empty.
    CodeBlock(Option<String>),
    List,
    Item,
    Link { dest_url: String, title: String },
    Image { dest_url: String, title: String },
    Other,
}

/// What ends.
#[derive(Debug, Clone, Copy, PartialEq)]
pub enum MdTagEnd {
    Paragraph,
    Heading,
    CodeBlock,
    List,
    Item,
    Link,
    Image,
    Other,
}

/// One step of the walk through a document.
#[derive(Debug, Clone, PartialEq)]
pub enum MdEvent {
    Start(MdTag),
    End(MdTagEnd),
    /// A run of text.
    Text(String),
    /// An inline code span, without its backticks.
    Code(String),
    /// Raw HTML of a block.
    Html(String),
    /// Raw HTML inside running text.
    InlineHtml(String),
    SoftBreak,
    HardBreak,
    Other,
}

/// The mathematical form of [`MdTag`].
pub ghost enum TagView {
    Paragraph,
    Heading(nat),
    CodeBlock(Option<Seq<char>>),
    List,
    Item,
    Link { dest_url: Seq<char>, title: Seq<char> },
    Image { dest_url: Seq<char>, title: Seq<char> },
    Other,
}

/// The mathematical form of [`MdEvent`].
pub ghost enum EventView {
    Start(TagView),
    End(MdTagEnd),
    Text(Seq<char>),
    Code(Seq<char>),
    Html(Seq<char>),
    InlineHtml(Seq<char>),
    SoftBreak,
    HardBreak,
    Other,
}

impl View for MdTag {
    type V = TagView;

    open spec fn view(&self) -> TagView {
        match self {
            MdTag::Paragraph => TagView::Paragraph,
            MdTag::Heading(level) => TagView::Heading(*level as nat),
            MdTag::CodeBlock(info) => TagView::CodeBlock(
                match info {
                    Some(s) => Some(s@),
                    None => None,
                },
            ),
            MdTag::List => TagView::List,
            MdTag::Item => TagView::Item,
            MdTag::Link { dest_url, title } => TagView::Link {
                dest_url: dest_url@,
                title: title@,
            },
            MdTag::Image { dest_url, title } => TagView::Image {
                dest_url: dest_url@,
                title: title@,
            },
            MdTag::Other => TagView::Other,
        }
    }
}

impl View for MdEvent {
    type V = EventView;

    open spec fn view(&self) -> EventView {
        match self {
            MdEvent::Start(tag) => EventView::Start(tag@),
            MdEvent::End(tag) => EventView::End(*tag),
            MdEvent::Text(s) => EventView::Text(s@),
            MdEvent::Code(s) => EventView::Code(s@),
            MdEvent::Html(s) => EventView::Html(s@),
            MdEvent::InlineHtml(s) => EventView::InlineHtml(s@),
            MdEvent::SoftBreak => EventView::SoftBreak,
            MdEvent::HardBreak => EventView::HardBreak,
            MdEvent::Other => EventView::Other,
        }
    }
}

/// The views of a list of events.
pub open spec fn event_views(v: Seq<MdEvent>) -> Seq<EventView> {
    Seq::new(v.len(), |i: int| v[i]@)
}

/// An event with the range of bytes of the source that it came from.
#[derive(Debug, Clone, PartialEq)]
pub struct PlacedEvent {
    pub event: MdEvent,
    pub start: usize,
    pub end: usize,
}

/// The mathematical form of [`PlacedEvent`].
pub ghost struct PlacedView {
    pub event: EventView,
    pub start: int,
    pub end: int,
}

impl View for PlacedEvent {
    type V = PlacedView;

    open spec fn view(&self) -> PlacedView {
        PlacedView { event: self.event@, start: self.start as int, end: self.end as int }
    }
}

/// The views of a list of events with their places.
pub open spec fn placed_views(v: Seq<PlacedEvent>) -> Seq<PlacedView> {
    Seq::new(v.len(), |i: int| v[i]@)
}

/// `pulldown_cmark::Event`, which the library only hands on.
#[verifier::external_type_specification]
#[verifier::external_body]
pub struct ExEvent<'a>(Event<'a>);

/// `pulldown_cmark::Tag`, which the library only hands on.
#[verifier::external_type_specification]
#[verifier::external_body]
pub struct ExTag<'a>(Tag<'a>);

/// `pulldown_cmark::TagEnd`, which the library only hands on.
#[verifier::external_type_specification]
#[verifier::external_body]
pub struct ExTagEnd(TagEnd);

/// The events that `pulldown_cmark` reads from a text with its default
/// options, in the library's form.
pub uninterp spec fn markdown_events(text: Seq<char>) -> Seq<EventView>;

/// The events that `pulldown_cmark` reads from a text with its default
/// options, each with the range of bytes that it came from.
pub uninterp spec fn markdown_placed_events(text: Seq<char>) -> Seq<PlacedView>;

/// The library's form of a `pulldown_cmark::Tag`: the variants that the
/// library reads, with their fields; `Other` for the rest. Every element
/// that opens also closes, and [`tag_end_of`] names every variant.
#[verifier::external_body]
fn tag_of(tag: Tag<'_>) -> MdTag {
    match tag {
        Tag::Paragraph => MdTag::Paragraph,
        Tag::Heading { level, .. } => MdTag::Heading(level as usize),
        Tag::CodeBlock(CodeBlockKind::Fenced(info)) => MdTag::CodeBlock(Some(info.to_string())),
        Tag::CodeBlock(CodeBlockKind::Indented) => MdTag::CodeBlock(None),
        Tag::List(_) => MdTag::List,
        Tag::Item => MdTag::Item,
        Tag::Link { dest_url, title, .. } => MdTag::Link { dest_url: dest_url.to_string(), title: title.to_string() },
        Tag::Image { dest_url, title, .. } => MdTag::Image { dest_url: dest_url.to_string(), title: title.to_string() },
        _ => MdTag::Other,
    }
}

/// The library's form of a `pulldown_cmark::TagEnd`; `Other` for each
/// variant that the library does not read, by name.
#[verifier::external_body]
fn tag_end_of(tag: TagEnd) -> MdTagEnd {
    match tag {
        TagEnd::Paragraph => MdTagEnd::Paragraph,
        TagEnd::Heading(_) => MdTagEnd::Heading,
        TagEnd::CodeBlock => MdTagEnd::CodeBlock,
        TagEnd::List(_) => MdTagEnd::List,
        TagEnd::Item => MdTagEnd::Item,
        TagEnd::Link => MdTagEnd::Link,
        TagEnd::Image => MdTagEnd::Image,
        TagEnd::BlockQuote(_) | TagEnd::HtmlBlock | TagEnd::FootnoteDefinition | TagEnd::DefinitionList | TagEnd::DefinitionListTitle | TagEnd::DefinitionListDefinition | TagEnd::Table | TagEnd::TableHead | TagEnd::TableRow | TagEnd::TableCell | TagEnd::Emphasis | TagEnd::Strong | TagEnd::Strikethrough | TagEnd::Superscript | TagEnd::Subscript | TagEnd::MetadataBlock(_) => MdTagEnd::Other,
    }
}

/// The library's form of a `pulldown_cmark::Event`; `Other` for each
/// variant that the library does not read, by name.
#[verifier::external_body]
fn event_of(event: Event<'_>) -> MdEvent {
    match event {
        Event::Start(tag) => MdEvent::Start(tag_of(tag)),
        Event::End(tag) => MdEvent::End(tag_end_of(tag)),
        Event::Text(text) => MdEvent::Text(text.to_string()),
        Event::Code(code) => MdEvent::Code(code.to_string()),
        Event::Html(html) => MdEvent::Html(html.to_string()),
        Event::InlineHtml(html) => MdEvent::InlineHtml(html.to_string()),
        Event::SoftBreak => MdEvent::SoftBreak,
        Event::HardBreak => MdEvent::HardBreak,
        Event::InlineMath(_) | Event::DisplayMath(_) | Event::FootnoteReference(_) | Event::Rule | Event::TaskListMarker(_) => MdEvent::Other,
    }
}

/// Reads a text with `pulldown_cmark::Parser::new` and hands out its events.
/// The events are a function of the text alone; the contract names them and
/// says no more.
#[verifier::external_body]
pub(crate) fn read_events(content: &str) -> (events: Vec<MdEvent>)
    ensures
        event_views(events@) == markdown_events(content@),
{
    Parser::new(content).map(|event| event_of(event)).collect()
}

/// Reads a text with `pulldown_cmark::Parser::new` and hands out the events
/// of its `into_offset_iter`, each with its range of bytes. They are a
/// function of the text alone; the contract names them and says no more.
#[verifier::external_body]
pub(crate) fn read_placed_events(content: &str) -> (events: Vec<PlacedEvent>)
    ensures
        placed_views(events@) == markdown_placed_events(content@),
{
    Parser::new(content).into_offset_iter().map(
        |(event, range)| PlacedEvent { event: event_of(event), start: range.start, end: range.end },
    ).collect()
}

} // verus!
