//! The library's model of the Markdown event stream, and how one event acts on
//! the parser stack.

use super::close::{close_tag, close_tag_spec};
use super::frame::{stack_view, Frame, FrameView};
use super::open::{open_tag, open_tag_spec};
use super::stack::{
    flush_dangling_paragraph, flush_spec, push_block, push_block_spec, push_code, push_code_spec,
    push_text, push_text_spec,
};
use crate::ir::{Align, Block, BlockView};
use vstd::prelude::*;

verus! {

broadcast use vstd::string::group_string_axioms;

/// The opening tag of an element.
#[derive(Debug)]
pub enum MdTag {
    Paragraph,
    /// A heading of the given level (1 to 6).
    Heading(u8),
    BlockQuote,
    CodeBlock,
    /// A list; ordered lists carry the number of their first item.
    List(Option<u64>),
    Item,
    /// A table with the alignment of each of its columns.
    Table(Vec<Align>),
    TableRow,
    TableCell,
    Emphasis,
    Strong,
    /// A link to the given destination.
    Link(String),
    Image,
    HtmlBlock,
    /// Any element this library does not interpret.
    Other,
}

/// Mathematical model of an [`MdTag`].
pub enum MdTagView {
    Paragraph,
    Heading(u8),
    BlockQuote,
    CodeBlock,
    List(Option<u64>),
    Item,
    Table(Seq<Align>),
    TableRow,
    TableCell,
    Emphasis,
    Strong,
    Link(Seq<char>),
    Image,
    HtmlBlock,
    Other,
}

impl View for MdTag {
    type V = MdTagView;

    open spec fn view(&self) -> MdTagView {
        match *self {
            MdTag::Paragraph => MdTagView::Paragraph,
            MdTag::Heading(level) => MdTagView::Heading(level),
            MdTag::BlockQuote => MdTagView::BlockQuote,
            MdTag::CodeBlock => MdTagView::CodeBlock,
            MdTag::List(start) => MdTagView::List(start),
            MdTag::Item => MdTagView::Item,
            MdTag::Table(a) => MdTagView::Table(a@),
            MdTag::TableRow => MdTagView::TableRow,
            MdTag::TableCell => MdTagView::TableCell,
            MdTag::Emphasis => MdTagView::Emphasis,
            MdTag::Strong => MdTagView::Strong,
            MdTag::Link(url) => MdTagView::Link(url@),
            MdTag::Image => MdTagView::Image,
            MdTag::HtmlBlock => MdTagView::HtmlBlock,
            MdTag::Other => MdTagView::Other,
        }
    }
}

/// The closing tag of an element.
#[derive(Debug, Clone, Copy, PartialEq, Eq)]
pub enum MdTagEnd {
    Paragraph,
    /// The end of a heading of the given level (1 to 6).
    Heading(u8),
    BlockQuote,
    CodeBlock,
    List,
    Item,
    Table,
    TableRow,
    TableCell,
    Emphasis,
    Strong,
    Link,
    Image,
    HtmlBlock,
    /// The end of any element this library does not interpret.
    Other,
}

/// The closing tag that matches an opening tag.
pub open spec fn tag_end_of(tag: MdTagView) -> MdTagEnd {
    match tag {
        MdTagView::Paragraph => MdTagEnd::Paragraph,
        MdTagView::Heading(level) => MdTagEnd::Heading(level),
        MdTagView::BlockQuote => MdTagEnd::BlockQuote,
        MdTagView::CodeBlock => MdTagEnd::CodeBlock,
        MdTagView::List(_) => MdTagEnd::List,
        MdTagView::Item => MdTagEnd::Item,
        MdTagView::Table(_) => MdTagEnd::Table,
        MdTagView::TableRow => MdTagEnd::TableRow,
        MdTagView::TableCell => MdTagEnd::TableCell,
        MdTagView::Emphasis => MdTagEnd::Emphasis,
        MdTagView::Strong => MdTagEnd::Strong,
        MdTagView::Link(_) => MdTagEnd::Link,
        MdTagView::Image => MdTagEnd::Image,
        MdTagView::HtmlBlock => MdTagEnd::HtmlBlock,
        MdTagView::Other => MdTagEnd::Other,
    }
}

/// One event of the Markdown event stream.
#[derive(Debug)]
pub enum MdEvent {
    Start(MdTag),
    End(MdTagEnd),
    Text(String),
    /// An inline code span.
    Code(String),
    /// A line of an HTML block.
    Html(String),
    /// An inline HTML tag.
    InlineHtml(String),
    SoftBreak,
    HardBreak,
    /// A thematic break (horizontal rule).
    Rule,
    /// Any event this library does not interpret.
    Other,
}

/// Mathematical model of an [`MdEvent`].
pub enum MdEventView {
    Start(MdTagView),
    End(MdTagEnd),
    Text(Seq<char>),
    Code(Seq<char>),
    Html(Seq<char>),
    InlineHtml(Seq<char>),
    SoftBreak,
    HardBreak,
    Rule,
    Other,
}

impl View for MdEvent {
    type V = MdEventView;

    open spec fn view(&self) -> MdEventView {
        match *self {
            MdEvent::Start(tag) => MdEventView::Start(tag@),
            MdEvent::End(end) => MdEventView::End(end),
            MdEvent::Text(t) => MdEventView::Text(t@),
            MdEvent::Code(t) => MdEventView::Code(t@),
            MdEvent::Html(t) => MdEventView::Html(t@),
            MdEvent::InlineHtml(t) => MdEventView::InlineHtml(t@),
            MdEvent::SoftBreak => MdEventView::SoftBreak,
            MdEvent::HardBreak => MdEventView::HardBreak,
            MdEvent::Rule => MdEventView::Rule,
            MdEvent::Other => MdEventView::Other,
        }
    }
}

/// Emphasis, strong emphasis, links and images open inside the inline content
/// they belong to.
pub open spec fn is_inline_tag(tag: MdTagView) -> bool {
    tag is Emphasis || tag is Strong || tag is Link || tag is Image
}

/// What one event does to the parser stack.
pub open spec fn apply_event_spec(st: Seq<FrameView>, e: MdEventView) -> Seq<FrameView> {
    match e {
        MdEventView::Start(tag) => open_tag_spec(
            if is_inline_tag(tag) {
                st
            } else {
                flush_spec(st)
            },
            tag,
        ),
        MdEventView::End(end) => close_tag_spec(
            if end is Item {
                flush_spec(st)
            } else {
                st
            },
            end,
        ),
        MdEventView::Text(t) => push_text_spec(st, t),
        MdEventView::Code(t) => push_code_spec(st, t),
        MdEventView::Html(t) => push_text_spec(st, t),
        MdEventView::InlineHtml(t) => push_text_spec(st, t),
        MdEventView::SoftBreak => push_text_spec(st, " "@),
        MdEventView::HardBreak => push_text_spec(st, "\n"@),
        MdEventView::Rule => push_block_spec(st, BlockView::ThematicBreak),
        MdEventView::Other => st,
    }
}

/// Whether an opening tag belongs to inline content.
pub fn is_inline_open(tag: &MdTag) -> (r: bool)
    ensures
        r == is_inline_tag(tag@),
{
    matches!(tag, MdTag::Emphasis | MdTag::Strong | MdTag::Link(_) | MdTag::Image)
}

/// Applies one event to the parser stack.
///
/// Tight list items carry no paragraph events, so their inline content arrives
/// directly inside the item's container, where it opens an implicit paragraph.
/// That paragraph is closed before any other block-level tag opens (inline tags
/// belong inside it) and before the item itself ends.
pub fn apply_event(stack: &mut Vec<Frame>, event: MdEvent)
    ensures
        stack_view(final(stack)@) == apply_event_spec(stack_view(old(stack)@), event@),
{
    match event {
        MdEvent::Start(tag) => {
            if !is_inline_open(&tag) {
                flush_dangling_paragraph(stack);
            }
            open_tag(stack, tag);
        },
        MdEvent::End(end) => {
            if matches!(end, MdTagEnd::Item) {
                flush_dangling_paragraph(stack);
            }
            close_tag(stack, end);
        },
        MdEvent::Text(text) => push_text(stack, text.as_str()),
        MdEvent::Code(text) => push_code(stack, text.as_str()),
        MdEvent::Html(text) => push_text(stack, text.as_str()),
        MdEvent::InlineHtml(text) => push_text(stack, text.as_str()),
        MdEvent::SoftBreak => push_text(stack, " "),
        MdEvent::HardBreak => push_text(stack, "\n"),
        MdEvent::Rule => push_block(stack, Block::ThematicBreak),
        MdEvent::Other => {},
    }
}

} // verus!
