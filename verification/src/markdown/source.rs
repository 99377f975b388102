//! The pulldown-cmark event stream, read into the library's own event type.
//!
//! pulldown-cmark is run with only its table extension enabled. Each trusted
//! reader below walks the event stream of the same input and keeps one aspect
//! of every event; [`markdown_events`] puts the aspects back together.

use super::event::{tag_end_of, MdEvent, MdEventView, MdTag, MdTagEnd, MdTagView};
use super::levels::event_levels_ok;
use crate::ir::Align;
use pulldown_cmark::{Alignment, Event, Options, Parser, Tag, TagEnd};
use vstd::prelude::*;

verus! {

/// The event stream that pulldown-cmark (tables enabled) yields for a document,
/// in the library's event model.
pub uninterp spec fn markdown_events_of(input: Seq<char>) -> Seq<MdEventView>;

/// The kind of an event, with the text it carries.
pub enum EventShape {
    Start,
    End,
    Text(String),
    Code(String),
    Html(String),
    InlineHtml(String),
    SoftBreak,
    HardBreak,
    Rule,
    Other,
}

/// Mathematical model of an [`EventShape`].
pub enum EventShapeView {
    Start,
    End,
    Text(Seq<char>),
    Code(Seq<char>),
    Html(Seq<char>),
    InlineHtml(Seq<char>),
    SoftBreak,
    HardBreak,
    Rule,
    Other,
}

impl View for EventShape {
    type V = EventShapeView;

    open spec fn view(&self) -> EventShapeView {
        match *self {
            EventShape::Start => EventShapeView::Start,
            EventShape::End => EventShapeView::End,
            EventShape::Text(t) => EventShapeView::Text(t@),
            EventShape::Code(t) => EventShapeView::Code(t@),
            EventShape::Html(t) => EventShapeView::Html(t@),
            EventShape::InlineHtml(t) => EventShapeView::InlineHtml(t@),
            EventShape::SoftBreak => EventShapeView::SoftBreak,
            EventShape::HardBreak => EventShapeView::HardBreak,
            EventShape::Rule => EventShapeView::Rule,
            EventShape::Other => EventShapeView::Other,
        }
    }
}

pub open spec fn shape_of(e: MdEventView) -> EventShapeView {
    match e {
        MdEventView::Start(_) => EventShapeView::Start,
        MdEventView::End(_) => EventShapeView::End,
        MdEventView::Text(t) => EventShapeView::Text(t),
        MdEventView::Code(t) => EventShapeView::Code(t),
        MdEventView::Html(t) => EventShapeView::Html(t),
        MdEventView::InlineHtml(t) => EventShapeView::InlineHtml(t),
        MdEventView::SoftBreak => EventShapeView::SoftBreak,
        MdEventView::HardBreak => EventShapeView::HardBreak,
        MdEventView::Rule => EventShapeView::Rule,
        MdEventView::Other => EventShapeView::Other,
    }
}

/// The kind of element that a start or end event opens or closes.
pub open spec fn element_kind(e: MdEventView) -> MdTagEnd {
    match e {
        MdEventView::Start(tag) => tag_end_of(tag),
        MdEventView::End(end) => end,
        _ => MdTagEnd::Other,
    }
}

/// Paragraphs, headings, block quotes, code blocks, lists, list items and HTML blocks.
pub open spec fn is_block_kind(k: MdTagEnd) -> bool {
    k is Paragraph || k is Heading || k is BlockQuote || k is CodeBlock || k is List || k is Item
        || k is HtmlBlock
}

/// Tables, rows, cells, emphasis, strong emphasis, links and images.
pub open spec fn is_table_or_inline_kind(k: MdTagEnd) -> bool {
    k is Table || k is TableRow || k is TableCell || k is Emphasis || k is Strong || k is Link
        || k is Image
}

pub open spec fn block_kind_of(e: MdEventView) -> Option<MdTagEnd> {
    if is_block_kind(element_kind(e)) {
        Some(element_kind(e))
    } else {
        None
    }
}

pub open spec fn table_or_inline_kind_of(e: MdEventView) -> Option<MdTagEnd> {
    if is_table_or_inline_kind(element_kind(e)) {
        Some(element_kind(e))
    } else {
        None
    }
}

/// The data that a start tag carries besides its kind.
pub enum TagPayload {
    Nothing,
    ListStart(Option<u64>),
    Alignments(Vec<Align>),
    Url(String),
}

/// Mathematical model of a [`TagPayload`].
pub enum TagPayloadView {
    Nothing,
    ListStart(Option<u64>),
    Alignments(Seq<Align>),
    Url(Seq<char>),
}

impl View for TagPayload {
    type V = TagPayloadView;

    open spec fn view(&self) -> TagPayloadView {
        match *self {
            TagPayload::Nothing => TagPayloadView::Nothing,
            TagPayload::ListStart(s) => TagPayloadView::ListStart(s),
            TagPayload::Alignments(a) => TagPayloadView::Alignments(a@),
            TagPayload::Url(u) => TagPayloadView::Url(u@),
        }
    }
}

pub open spec fn payload_of(e: MdEventView) -> TagPayloadView {
    match e {
        MdEventView::Start(MdTagView::List(start)) => TagPayloadView::ListStart(start),
        MdEventView::Start(MdTagView::Table(a)) => TagPayloadView::Alignments(a),
        MdEventView::Start(MdTagView::Link(url)) => TagPayloadView::Url(url),
        _ => TagPayloadView::Nothing,
    }
}

/// Reads, through `pulldown_cmark::Parser::new_ext` with tables enabled, the kind
/// of every event and the text it carries. Claims: the result is the shape of
/// each event of `markdown_events_of(input)`.
#[verifier::external_body]
fn event_shapes(input: &str) -> (r: Vec<EventShape>)
    ensures
        r@.map_values(|s: EventShape| s@) == markdown_events_of(input@).map_values(
            |e: MdEventView| shape_of(e),
        ),
{
    Parser::new_ext(input, Options::ENABLE_TABLES).map(|event| match event {
        Event::Start(_) => EventShape::Start,
        Event::End(_) => EventShape::End,
        Event::Text(text) => EventShape::Text(text.into_string()),
        Event::Code(text) => EventShape::Code(text.into_string()),
        Event::Html(text) => EventShape::Html(text.into_string()),
        Event::InlineHtml(text) => EventShape::InlineHtml(text.into_string()),
        Event::SoftBreak => EventShape::SoftBreak,
        Event::HardBreak => EventShape::HardBreak,
        Event::Rule => EventShape::Rule,
        _ => EventShape::Other,
    }).collect()
}

/// Reads, through `pulldown_cmark::Parser::new_ext` with tables enabled, the
/// element kind of every start and end event whose element is a paragraph,
/// heading, block quote, code block, list, list item or HTML block (the kind of a
/// start tag is the one `Tag::to_end` gives). Claims: the result is
/// `block_kind_of` of each event of `markdown_events_of(input)`, and heading
/// levels lie in 1 to 6 (`HeadingLevel` has the discriminants `H1 = 1` to `H6`).
#[verifier::external_body]
fn block_kinds(input: &str) -> (r: Vec<Option<MdTagEnd>>)
    ensures
        r@ == markdown_events_of(input@).map_values(|e: MdEventView| block_kind_of(e)),
        forall|i: int|
            #![trigger r@[i]]
            0 <= i < r@.len() ==> (r@[i] matches Some(MdTagEnd::Heading(level)) ==> 1 <= level
                <= 6),
{
    Parser::new_ext(input, Options::ENABLE_TABLES).map(|event| match event {
        Event::Start(tag) => Some(tag.to_end()),
        Event::End(end) => Some(end),
        _ => None,
    }).map(|end| match end {
        Some(TagEnd::Paragraph) => Some(MdTagEnd::Paragraph),
        Some(TagEnd::Heading(level)) => Some(MdTagEnd::Heading(level as u8)),
        Some(TagEnd::BlockQuote(_)) => Some(MdTagEnd::BlockQuote),
        Some(TagEnd::CodeBlock) => Some(MdTagEnd::CodeBlock),
        Some(TagEnd::List(_)) => Some(MdTagEnd::List),
        Some(TagEnd::Item) => Some(MdTagEnd::Item),
        Some(TagEnd::HtmlBlock) => Some(MdTagEnd::HtmlBlock),
        _ => None,
    }).collect()
}

/// Reads, through `pulldown_cmark::Parser::new_ext` with tables enabled, the
/// element kind of every start and end event whose element is a table, table
/// row, table cell, emphasis, strong emphasis, link or image. Claims: the result
/// is `table_or_inline_kind_of` of each event of `markdown_events_of(input)`.
#[verifier::external_body]
fn table_or_inline_kinds(input: &str) -> (r: Vec<Option<MdTagEnd>>)
    ensures
        r@ == markdown_events_of(input@).map_values(|e: MdEventView| table_or_inline_kind_of(e)),
{
    Parser::new_ext(input, Options::ENABLE_TABLES).map(|event| match event {
        Event::Start(tag) => Some(tag.to_end()),
        Event::End(end) => Some(end),
        _ => None,
    }).map(|end| match end {
        Some(TagEnd::Table) => Some(MdTagEnd::Table),
        Some(TagEnd::TableRow) => Some(MdTagEnd::TableRow),
        Some(TagEnd::TableCell) => Some(MdTagEnd::TableCell),
        Some(TagEnd::Emphasis) => Some(MdTagEnd::Emphasis),
        Some(TagEnd::Strong) => Some(MdTagEnd::Strong),
        Some(TagEnd::Link) => Some(MdTagEnd::Link),
        Some(TagEnd::Image) => Some(MdTagEnd::Image),
        _ => None,
    }).collect()
}

/// Reads, through `pulldown_cmark::Parser::new_ext` with tables enabled, what
/// the start tags of lists (first number), tables (column alignments) and links
/// (destination) carry. Claims: the result is `payload_of` of each event of
/// `markdown_events_of(input)`.
#[verifier::external_body]
fn tag_payloads(input: &str) -> (r: Vec<TagPayload>)
    ensures
        r@.map_values(|p: TagPayload| p@) == markdown_events_of(input@).map_values(
            |e: MdEventView| payload_of(e),
        ),
{
    Parser::new_ext(input, Options::ENABLE_TABLES).map(|event| match event {
        Event::Start(Tag::List(start)) => TagPayload::ListStart(start),
        Event::Start(Tag::Link { dest_url, .. }) => TagPayload::Url(dest_url.into_string()),
        Event::Start(Tag::Table(columns)) => TagPayload::Alignments(columns.into_iter().map(|a| match a {
            Alignment::None => Align::Unaligned,
            Alignment::Left => Align::Left,
            Alignment::Center => Align::Center,
            Alignment::Right => Align::Right,
        }).collect()),
        _ => TagPayload::Nothing,
    }).collect()
}

/// Puts an event back together from its shape, kind and payload.
fn assemble(
    shape: EventShape,
    block: Option<MdTagEnd>,
    other: Option<MdTagEnd>,
    payload: TagPayload,
    Ghost(e): Ghost<MdEventView>,
) -> (r: MdEvent)
    requires
        shape@ == shape_of(e),
        block == block_kind_of(e),
        other == table_or_inline_kind_of(e),
        payload@ == payload_of(e),
    ensures
        r@ == e,
{
    let kind = match block {
        Some(k) => k,
        None => match other {
            Some(k) => k,
            None => MdTagEnd::Other,
        },
    };
    match shape {
        EventShape::Start => {
            let tag = match kind {
                MdTagEnd::Paragraph => MdTag::Paragraph,
                MdTagEnd::Heading(level) => MdTag::Heading(level),
                MdTagEnd::BlockQuote => MdTag::BlockQuote,
                MdTagEnd::CodeBlock => MdTag::CodeBlock,
                MdTagEnd::List => match payload {
                    TagPayload::ListStart(start) => MdTag::List(start),
                    _ => MdTag::List(None),
                },
                MdTagEnd::Item => MdTag::Item,
                MdTagEnd::Table => match payload {
                    TagPayload::Alignments(a) => MdTag::Table(a),
                    _ => MdTag::Table(Vec::new()),
                },
                MdTagEnd::TableRow => MdTag::TableRow,
                MdTagEnd::TableCell => MdTag::TableCell,
                MdTagEnd::Emphasis => MdTag::Emphasis,
                MdTagEnd::Strong => MdTag::Strong,
                MdTagEnd::Link => match payload {
                    TagPayload::Url(url) => MdTag::Link(url),
                    _ => MdTag::Link(String::new()),
                },
                MdTagEnd::Image => MdTag::Image,
                MdTagEnd::HtmlBlock => MdTag::HtmlBlock,
                MdTagEnd::Other => MdTag::Other,
            };
            MdEvent::Start(tag)
        },
        EventShape::End => MdEvent::End(kind),
        EventShape::Text(t) => MdEvent::Text(t),
        EventShape::Code(t) => MdEvent::Code(t),
        EventShape::Html(t) => MdEvent::Html(t),
        EventShape::InlineHtml(t) => MdEvent::InlineHtml(t),
        EventShape::SoftBreak => MdEvent::SoftBreak,
        EventShape::HardBreak => MdEvent::HardBreak,
        EventShape::Rule => MdEvent::Rule,
        EventShape::Other => MdEvent::Other,
    }
}

/// The event stream of `input`, in the library's event model.
pub fn markdown_events(input: &str) -> (r: Vec<MdEvent>)
    ensures
        r@.map_values(|e: MdEvent| e@) == markdown_events_of(input@),
        forall|i: int|
            0 <= i < markdown_events_of(input@).len() ==> #[trigger] event_levels_ok(
                markdown_events_of(input@)[i],
            ),
{
    let ghost m = markdown_events_of(input@);
    let mut shapes = event_shapes(input);
    let mut blocks = block_kinds(input);
    let mut others = table_or_inline_kinds(input);
    let mut payloads = tag_payloads(input);
    proof {
        assert(shapes@.map_values(|s: EventShape| s@).len() == m.len());
        assert(payloads@.map_values(|p: TagPayload| p@).len() == m.len());
        assert forall|i: int| 0 <= i < shapes@.len() implies #[trigger] shapes@[i]@ == shape_of(
            m[i],
        ) by {
            assert(shapes@.map_values(|s: EventShape| s@)[i] == shapes@[i]@);
            assert(m.map_values(|e: MdEventView| shape_of(e))[i] == shape_of(m[i]));
        }
        assert forall|i: int| 0 <= i < shapes@.len() implies #[trigger] payloads@[i]@
            == payload_of(m[i]) by {
            assert(payloads@.map_values(|p: TagPayload| p@)[i] == payloads@[i]@);
            assert(m.map_values(|e: MdEventView| payload_of(e))[i] == payload_of(m[i]));
        }
        assert forall|i: int| 0 <= i < shapes@.len() implies #[trigger] blocks@[i]
            == block_kind_of(m[i]) by {
            assert(m.map_values(|e: MdEventView| block_kind_of(e))[i] == block_kind_of(m[i]));
        }
        assert forall|i: int| 0 <= i < m.len() implies #[trigger] event_levels_ok(m[i]) by {
            assert(blocks@[i] == block_kind_of(m[i]));
        }
        assert forall|i: int| 0 <= i < shapes@.len() implies #[trigger] others@[i]
            == table_or_inline_kind_of(m[i]) by {
            assert(m.map_values(|e: MdEventView| table_or_inline_kind_of(e))[i]
                == table_or_inline_kind_of(m[i]));
        }
    }
    let n = shapes.len();
    let mut reversed: Vec<MdEvent> = Vec::new();
    while shapes.len() > 0
        invariant
            n == m.len(),
            shapes@.len() + reversed@.len() == n,
            blocks@.len() == shapes@.len(),
            others@.len() == shapes@.len(),
            payloads@.len() == shapes@.len(),
            forall|i: int| 0 <= i < shapes@.len() ==> #[trigger] shapes@[i]@ == shape_of(m[i]),
            forall|i: int| 0 <= i < shapes@.len() ==> #[trigger] blocks@[i] == block_kind_of(m[i]),
            forall|i: int|
                0 <= i < shapes@.len() ==> #[trigger] others@[i] == table_or_inline_kind_of(m[i]),
            forall|i: int| 0 <= i < shapes@.len() ==> #[trigger] payloads@[i]@ == payload_of(m[i]),
            forall|j: int| 0 <= j < reversed@.len() ==> #[trigger] reversed@[j]@ == m[n - 1 - j],
        decreases shapes@.len(),
    {
        let ghost i = shapes@.len() - 1;
        let shape = shapes.pop().unwrap();
        let block = blocks.pop().unwrap();
        let other = others.pop().unwrap();
        let payload = payloads.pop().unwrap();
        let event = assemble(shape, block, other, payload, Ghost(m[i]));
        reversed.push(event);
    }
    let mut events: Vec<MdEvent> = Vec::new();
    while reversed.len() > 0
        invariant
            n == m.len(),
            events@.len() + reversed@.len() == n,
            forall|j: int| 0 <= j < reversed@.len() ==> #[trigger] reversed@[j]@ == m[n - 1 - j],
            forall|j: int| 0 <= j < events@.len() ==> #[trigger] events@[j]@ == m[j],
        decreases reversed@.len(),
    {
        let event = reversed.pop().unwrap();
        events.push(event);
    }
    proof {
        assert(events@.map_values(|e: MdEvent| e@) =~= m);
    }
    events
}

} // verus!
