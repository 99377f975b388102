//! Opens stack frames for start tags.

use super::event::{MdTag, MdTagView};
use super::frame::{lemma_stack_view_push, stack_view, Frame, FrameView};
use crate::ir::{blocks_view, cells_view, items_view, rows_view, spans_view, Block, Span};
use vstd::prelude::*;

verus! {

/// What opening `tag` pushes onto the stack (nothing, for tags this library
/// does not interpret).
pub open spec fn open_tag_spec(st: Seq<FrameView>, tag: MdTagView) -> Seq<FrameView> {
    match tag {
        MdTagView::Paragraph => st.push(FrameView::Paragraph(Seq::empty())),
        MdTagView::Heading(_) => st.push(FrameView::Heading(Seq::empty())),
        MdTagView::BlockQuote => st.push(FrameView::Container(Seq::empty())),
        MdTagView::CodeBlock => st.push(FrameView::CodeBlock(Seq::empty())),
        MdTagView::List(start) => st.push(
            FrameView::List {
                ordered: start is Some,
                start: match start {
                    Some(n) => n,
                    None => 1,
                },
                items: Seq::empty(),
            },
        ),
        MdTagView::Item => st.push(FrameView::Container(Seq::empty())),
        MdTagView::Table(alignments) => st.push(
            FrameView::Table { alignments, header: Seq::empty(), rows: Seq::empty() },
        ),
        MdTagView::TableRow => st.push(FrameView::TableRow(Seq::empty())),
        MdTagView::TableCell => st.push(FrameView::TableCell(Seq::empty())),
        MdTagView::Emphasis => st.push(FrameView::Emphasis(Seq::empty())),
        MdTagView::Strong => st.push(FrameView::Strong(Seq::empty())),
        MdTagView::Link(url) => st.push(FrameView::Link { url, spans: Seq::empty() }),
        MdTagView::Image => st.push(FrameView::Image { alt: Seq::empty() }),
        MdTagView::HtmlBlock => st.push(FrameView::HtmlBlock),
        MdTagView::Other => st,
    }
}

/// Pushes `frame`, whose model is `v`.
fn push_frame(stack: &mut Vec<Frame>, frame: Frame, v: Ghost<FrameView>)
    requires
        frame@ == v@,
    ensures
        stack_view(final(stack)@) == stack_view(old(stack)@).push(v@),
{
    proof {
        lemma_stack_view_push(stack@, frame);
    }
    stack.push(frame);
}

fn no_spans() -> (v: Vec<Span>)
    ensures
        spans_view(v@) == Seq::<crate::ir::SpanView>::empty(),
{
    let v: Vec<Span> = Vec::new();
    assert(spans_view(v@) =~= Seq::<crate::ir::SpanView>::empty());
    v
}

fn no_blocks() -> (v: Vec<Block>)
    ensures
        blocks_view(v@) == Seq::<crate::ir::BlockView>::empty(),
{
    Vec::new()
}

pub fn open_tag(stack: &mut Vec<Frame>, tag: MdTag)
    ensures
        stack_view(final(stack)@) == open_tag_spec(stack_view(old(stack)@), tag@),
{
    match tag {
        MdTag::Paragraph => open_paragraph(stack),
        MdTag::Heading(_) => open_heading(stack),
        MdTag::BlockQuote => open_block_quote(stack),
        MdTag::CodeBlock => open_code_block(stack),
        MdTag::List(start) => open_list(stack, start),
        MdTag::Item => open_item(stack),
        MdTag::Table(alignments) => open_table(stack, alignments),
        MdTag::TableRow => open_table_row(stack),
        MdTag::TableCell => open_table_cell(stack),
        MdTag::Emphasis => open_emphasis(stack),
        MdTag::Strong => open_strong(stack),
        MdTag::Link(url) => open_link(stack, url),
        MdTag::Image => open_image(stack),
        MdTag::HtmlBlock => open_html_block(stack),
        MdTag::Other => {},
    }
}

fn open_paragraph(stack: &mut Vec<Frame>)
    ensures
        stack_view(final(stack)@) == stack_view(old(stack)@).push(FrameView::Paragraph(Seq::empty())),
{
    push_frame(stack, Frame::Paragraph(no_spans()), Ghost(FrameView::Paragraph(Seq::empty())));
}

fn open_heading(stack: &mut Vec<Frame>)
    ensures
        stack_view(final(stack)@) == stack_view(old(stack)@).push(FrameView::Heading(Seq::empty())),
{
    push_frame(stack, Frame::Heading(no_spans()), Ghost(FrameView::Heading(Seq::empty())));
}

fn open_block_quote(stack: &mut Vec<Frame>)
    ensures
        stack_view(final(stack)@) == stack_view(old(stack)@).push(FrameView::Container(Seq::empty())),
{
    push_frame(stack, Frame::Container(no_blocks()), Ghost(FrameView::Container(Seq::empty())));
}

fn open_code_block(stack: &mut Vec<Frame>)
    ensures
        stack_view(final(stack)@) == stack_view(old(stack)@).push(FrameView::CodeBlock(Seq::empty())),
{
    push_frame(stack, Frame::CodeBlock(String::new()), Ghost(FrameView::CodeBlock(Seq::empty())));
}

fn open_list(stack: &mut Vec<Frame>, start: Option<u64>)
    ensures
        stack_view(final(stack)@) == open_tag_spec(stack_view(old(stack)@), MdTagView::List(start)),
{
    let items: Vec<Vec<Block>> = Vec::new();
    proof {
        crate::ir::lemma_items_view(items@);
        assert(items_view(items@) =~= Seq::<Seq<crate::ir::BlockView>>::empty());
    }
    let ordered = start.is_some();
    let first = match start {
        Some(n) => n,
        None => 1,
    };
    push_frame(
        stack,
        Frame::List { ordered, start: first, items },
        Ghost(FrameView::List { ordered, start: first, items: Seq::empty() }),
    );
}

fn open_item(stack: &mut Vec<Frame>)
    ensures
        stack_view(final(stack)@) == stack_view(old(stack)@).push(FrameView::Container(Seq::empty())),
{
    push_frame(stack, Frame::Container(no_blocks()), Ghost(FrameView::Container(Seq::empty())));
}

/// Opens a table. The header has no frame of its own: its cells are direct
/// children of the table (the header is not wrapped in a row the way body
/// rows are), so closing a cell routes it by what is on top of the stack.
fn open_table(stack: &mut Vec<Frame>, alignments: Vec<crate::ir::Align>)
    ensures
        stack_view(final(stack)@) == open_tag_spec(
            stack_view(old(stack)@),
            MdTagView::Table(alignments@),
        ),
{
    let header: Vec<Vec<Span>> = Vec::new();
    let rows: Vec<Vec<Vec<Span>>> = Vec::new();
    proof {
        assert(cells_view(header@) =~= Seq::<Seq<crate::ir::SpanView>>::empty());
        assert(rows_view(rows@) =~= Seq::<Seq<Seq<crate::ir::SpanView>>>::empty());
    }
    let ghost a = alignments@;
    push_frame(
        stack,
        Frame::Table { alignments, header, rows },
        Ghost(FrameView::Table { alignments: a, header: Seq::empty(), rows: Seq::empty() }),
    );
}

fn open_table_row(stack: &mut Vec<Frame>)
    ensures
        stack_view(final(stack)@) == stack_view(old(stack)@).push(FrameView::TableRow(Seq::empty())),
{
    let cells: Vec<Vec<Span>> = Vec::new();
    proof {
        assert(cells_view(cells@) =~= Seq::<Seq<crate::ir::SpanView>>::empty());
    }
    push_frame(stack, Frame::TableRow(cells), Ghost(FrameView::TableRow(Seq::empty())));
}

fn open_table_cell(stack: &mut Vec<Frame>)
    ensures
        stack_view(final(stack)@) == stack_view(old(stack)@).push(FrameView::TableCell(Seq::empty())),
{
    push_frame(stack, Frame::TableCell(no_spans()), Ghost(FrameView::TableCell(Seq::empty())));
}

fn open_emphasis(stack: &mut Vec<Frame>)
    ensures
        stack_view(final(stack)@) == stack_view(old(stack)@).push(FrameView::Emphasis(Seq::empty())),
{
    push_frame(stack, Frame::Emphasis(no_spans()), Ghost(FrameView::Emphasis(Seq::empty())));
}

fn open_strong(stack: &mut Vec<Frame>)
    ensures
        stack_view(final(stack)@) == stack_view(old(stack)@).push(FrameView::Strong(Seq::empty())),
{
    push_frame(stack, Frame::Strong(no_spans()), Ghost(FrameView::Strong(Seq::empty())));
}

fn open_link(stack: &mut Vec<Frame>, url: String)
    ensures
        stack_view(final(stack)@) == stack_view(old(stack)@).push(
            FrameView::Link { url: url@, spans: Seq::empty() },
        ),
{
    let ghost u = url@;
    push_frame(
        stack,
        Frame::Link { url, spans: no_spans() },
        Ghost(FrameView::Link { url: u, spans: Seq::empty() }),
    );
}

fn open_image(stack: &mut Vec<Frame>)
    ensures
        stack_view(final(stack)@) == stack_view(old(stack)@).push(FrameView::Image { alt: Seq::empty() }),
{
    push_frame(stack, Frame::Image { alt: String::new() }, Ghost(FrameView::Image { alt: Seq::empty() }));
}

/// HTML block content arrives as HTML events while this frame is on top; no
/// frame takes it in, so it is not rendered.
fn open_html_block(stack: &mut Vec<Frame>)
    ensures
        stack_view(final(stack)@) == stack_view(old(stack)@).push(FrameView::HtmlBlock),
{
    push_frame(stack, Frame::HtmlBlock, Ghost(FrameView::HtmlBlock));
}

} // verus!
