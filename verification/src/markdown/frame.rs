//! Parser stack frames: one variant per open Markdown construct.

use crate::ir::{blocks_view, cells_view, items_view, rows_view, spans_view, Align, Block, BlockView, Span, SpanView};
use vstd::prelude::*;

verus! {

/// A frame of the parser stack.
pub enum Frame {
    /// Root document, list items and block quotes: a plain block container.
    Container(Vec<Block>),
    Paragraph(Vec<Span>),
    Heading(Vec<Span>),
    CodeBlock(String),
    List { ordered: bool, start: u64, items: Vec<Vec<Block>> },
    Emphasis(Vec<Span>),
    Strong(Vec<Span>),
    Link { url: String, spans: Vec<Span> },
    Image { alt: String },
    Table { alignments: Vec<Align>, header: Vec<Vec<Span>>, rows: Vec<Vec<Vec<Span>>> },
    TableRow(Vec<Vec<Span>>),
    TableCell(Vec<Span>),
    /// An HTML block: its content is not rendered, and closing it leaves the
    /// stack as it was before the block opened.
    HtmlBlock,
}

/// Mathematical model of a [`Frame`].
pub enum FrameView {
    Container(Seq<BlockView>),
    Paragraph(Seq<SpanView>),
    Heading(Seq<SpanView>),
    CodeBlock(Seq<char>),
    List { ordered: bool, start: u64, items: Seq<Seq<BlockView>> },
    Emphasis(Seq<SpanView>),
    Strong(Seq<SpanView>),
    Link { url: Seq<char>, spans: Seq<SpanView> },
    Image { alt: Seq<char> },
    Table {
        alignments: Seq<Align>,
        header: Seq<Seq<SpanView>>,
        rows: Seq<Seq<Seq<SpanView>>>,
    },
    TableRow(Seq<Seq<SpanView>>),
    TableCell(Seq<SpanView>),
    HtmlBlock,
}

impl View for Frame {
    type V = FrameView;

    open spec fn view(&self) -> FrameView {
        match *self {
            Frame::Container(bs) => FrameView::Container(blocks_view(bs@)),
            Frame::Paragraph(s) => FrameView::Paragraph(spans_view(s@)),
            Frame::Heading(s) => FrameView::Heading(spans_view(s@)),
            Frame::CodeBlock(t) => FrameView::CodeBlock(t@),
            Frame::List { ordered, start, items } => FrameView::List {
                ordered,
                start,
                items: items_view(items@),
            },
            Frame::Emphasis(s) => FrameView::Emphasis(spans_view(s@)),
            Frame::Strong(s) => FrameView::Strong(spans_view(s@)),
            Frame::Link { url, spans } => FrameView::Link { url: url@, spans: spans_view(spans@) },
            Frame::Image { alt } => FrameView::Image { alt: alt@ },
            Frame::Table { alignments, header, rows } => FrameView::Table {
                alignments: alignments@,
                header: cells_view(header@),
                rows: rows_view(rows@),
            },
            Frame::TableRow(cells) => FrameView::TableRow(cells_view(cells@)),
            Frame::TableCell(s) => FrameView::TableCell(spans_view(s@)),
            Frame::HtmlBlock => FrameView::HtmlBlock,
        }
    }
}

/// The model of a whole stack, bottom first.
pub open spec fn stack_view(st: Seq<Frame>) -> Seq<FrameView> {
    st.map_values(|f: Frame| f@)
}

/// The stack with its top frame replaced by `f`.
pub open spec fn replace_top(st: Seq<FrameView>, f: FrameView) -> Seq<FrameView> {
    st.drop_last().push(f)
}

/// The span list that a span-accumulating frame holds, if the frame is one.
pub open spec fn accumulated_spans(f: FrameView) -> Option<Seq<SpanView>> {
    match f {
        FrameView::Paragraph(s) => Some(s),
        FrameView::Heading(s) => Some(s),
        FrameView::Emphasis(s) => Some(s),
        FrameView::Strong(s) => Some(s),
        FrameView::Link { spans, .. } => Some(spans),
        FrameView::TableCell(s) => Some(s),
        _ => None,
    }
}

/// The same frame holding `spans` in place of its accumulated spans.
pub open spec fn with_spans(f: FrameView, spans: Seq<SpanView>) -> FrameView {
    match f {
        FrameView::Paragraph(_) => FrameView::Paragraph(spans),
        FrameView::Heading(_) => FrameView::Heading(spans),
        FrameView::Emphasis(_) => FrameView::Emphasis(spans),
        FrameView::Strong(_) => FrameView::Strong(spans),
        FrameView::Link { url, .. } => FrameView::Link { url, spans },
        FrameView::TableCell(_) => FrameView::TableCell(spans),
        _ => f,
    }
}

/// Pushing onto a stack pushes the frame's model onto the stack's model.
pub proof fn lemma_stack_view_push(st: Seq<Frame>, f: Frame)
    ensures
        stack_view(st.push(f)) == stack_view(st).push(f@),
{
    assert(stack_view(st.push(f)) =~= stack_view(st).push(f@));
}

/// Dropping the top frame drops its model.
pub proof fn lemma_stack_view_drop_last(st: Seq<Frame>)
    requires
        st.len() > 0,
    ensures
        stack_view(st.drop_last()) == stack_view(st).drop_last(),
        stack_view(st).last() == st.last()@,
{
    assert(stack_view(st.drop_last()) =~= stack_view(st).drop_last());
}

/// Appending a span appends its model.
pub proof fn lemma_spans_view_push(s: Seq<Span>, x: Span)
    ensures
        spans_view(s.push(x)) == spans_view(s).push(x@),
{
    assert(spans_view(s.push(x)) =~= spans_view(s).push(x@));
}

/// Appending a cell appends its model.
pub proof fn lemma_cells_view_push(s: Seq<Vec<Span>>, x: Vec<Span>)
    ensures
        cells_view(s.push(x)) == cells_view(s).push(spans_view(x@)),
{
    assert(cells_view(s.push(x)) =~= cells_view(s).push(spans_view(x@)));
}

/// Appending a row appends its model.
pub proof fn lemma_rows_view_push(s: Seq<Vec<Vec<Span>>>, x: Vec<Vec<Span>>)
    ensures
        rows_view(s.push(x)) == rows_view(s).push(cells_view(x@)),
{
    assert(rows_view(s.push(x)) =~= rows_view(s).push(cells_view(x@)));
}

} // verus!
