//! Closes stack frames for end tags.

use super::event::MdTagEnd;
use super::frame::{
    lemma_cells_view_push, lemma_rows_view_push, lemma_stack_view_drop_last,
    lemma_stack_view_push, replace_top, stack_view, Frame, FrameView,
};
use super::stack::{
    extend_spans, push_block, push_block_spec, push_span, push_span_spec, push_spans_spec,
    styled_all, SpanStyle, SpanStyleView,
};
use crate::ir::{lemma_items_view_push, plain_span, spans_view, Block, BlockView, Span, SpanView};
use vstd::prelude::*;
use vstd::string::StringExecFns;

verus! {

broadcast use vstd::string::group_string_axioms;

/// The text that stands for an image: its alt text in brackets.
pub open spec fn image_text(alt: Seq<char>) -> Seq<char> {
    "[image: "@ + alt + "]"@
}

/// What an end event does to the stack. The end of an element this library
/// interprets removes the top frame, whatever it is, and folds it into the frame
/// below only when it is the kind of frame that `end` closes; the end of an HTML
/// block removes the HTML block's frame and whatever was left open above it; the
/// end of any other element changes nothing.
pub open spec fn close_tag_spec(st: Seq<FrameView>, end: MdTagEnd) -> Seq<FrameView> {
    if st.len() == 0 {
        st
    } else {
        close_popped(st.drop_last(), st.last(), end)
    }
}

/// The index of the topmost HTML block frame of `st`, or -1 when there is none.
pub open spec fn last_html_index(st: Seq<FrameView>) -> int
    decreases st.len(),
{
    if st.len() == 0 {
        -1
    } else if st.last() is HtmlBlock {
        st.len() - 1
    } else {
        last_html_index(st.drop_last())
    }
}

/// The topmost HTML block frame, when there is one, lies on the stack.
pub proof fn lemma_last_html_index_bounds(st: Seq<FrameView>)
    ensures
        -1 <= last_html_index(st) < st.len(),
        last_html_index(st) >= 0 ==> st[last_html_index(st)] is HtmlBlock,
    decreases st.len(),
{
    if st.len() > 0 && !(st.last() is HtmlBlock) {
        lemma_last_html_index_bounds(st.drop_last());
        if last_html_index(st) >= 0 {
            assert(st.drop_last()[last_html_index(st)] == st[last_html_index(st)]);
        }
    }
}

/// The stack as it was before the topmost HTML block opened: that block's frame
/// and every frame above it removed. A stack with no HTML block frame is kept.
pub open spec fn close_html_block_spec(st: Seq<FrameView>) -> Seq<FrameView> {
    if last_html_index(st) >= 0 {
        st.take(last_html_index(st))
    } else {
        st
    }
}

/// What `end` does to the stack `rest` with the frame `top` on it.
pub open spec fn close_popped(rest: Seq<FrameView>, top: FrameView, end: MdTagEnd) -> Seq<FrameView> {
    match end {
        MdTagEnd::Paragraph => match top {
            FrameView::Paragraph(spans) => push_block_spec(rest, BlockView::Paragraph { spans }),
            _ => rest,
        },
        MdTagEnd::Heading(level) => match top {
            FrameView::Heading(spans) => push_block_spec(rest, BlockView::Heading { level, spans }),
            _ => rest,
        },
        MdTagEnd::BlockQuote => match top {
            FrameView::Container(blocks) => push_block_spec(rest, BlockView::BlockQuote(blocks)),
            _ => rest,
        },
        MdTagEnd::CodeBlock => match top {
            FrameView::CodeBlock(text) => push_block_spec(rest, BlockView::CodeBlock { text }),
            _ => rest,
        },
        MdTagEnd::List => match top {
            FrameView::List { ordered, start, items } => push_block_spec(
                rest,
                BlockView::List { ordered, start, items },
            ),
            _ => rest,
        },
        MdTagEnd::Item => match top {
            FrameView::Container(blocks) => if rest.len() > 0 && rest.last() is List {
                replace_top(
                    rest,
                    FrameView::List {
                        ordered: rest.last()->ordered,
                        start: rest.last()->start,
                        items: rest.last()->items.push(blocks),
                    },
                )
            } else {
                rest
            },
            _ => rest,
        },
        MdTagEnd::Table => match top {
            FrameView::Table { alignments, header, rows } => push_block_spec(
                rest,
                BlockView::Table { alignments, header, rows },
            ),
            _ => rest,
        },
        MdTagEnd::TableRow => match top {
            FrameView::TableRow(cells) => if rest.len() > 0 && rest.last() is Table {
                replace_top(
                    rest,
                    FrameView::Table {
                        alignments: rest.last()->alignments,
                        header: rest.last()->header,
                        rows: rest.last()->rows.push(cells),
                    },
                )
            } else {
                rest
            },
            _ => rest,
        },
        MdTagEnd::TableCell => match top {
            FrameView::TableCell(spans) => attach_cell_spec(rest, spans),
            _ => rest,
        },
        MdTagEnd::Emphasis => match top {
            FrameView::Emphasis(spans) => push_spans_spec(
                rest,
                styled_all(spans, SpanStyleView::Italic),
            ),
            _ => rest,
        },
        MdTagEnd::Strong => match top {
            FrameView::Strong(spans) => push_spans_spec(rest, styled_all(spans, SpanStyleView::Bold)),
            _ => rest,
        },
        MdTagEnd::Link => match top {
            FrameView::Link { url, spans } => push_spans_spec(
                rest,
                styled_all(spans, SpanStyleView::Link(url)),
            ),
            _ => rest,
        },
        MdTagEnd::Image => match top {
            FrameView::Image { alt } => push_span_spec(rest, plain_span(image_text(alt))),
            _ => rest,
        },
        MdTagEnd::HtmlBlock => close_html_block_spec(rest.push(top)),
        MdTagEnd::Other => rest.push(top),
    }
}

/// A finished cell joins the row on top, or the header when the table itself is on top.
pub open spec fn attach_cell_spec(st: Seq<FrameView>, spans: Seq<SpanView>) -> Seq<FrameView> {
    if st.len() > 0 && st.last() is TableRow {
        replace_top(st, FrameView::TableRow(st.last()->TableRow_0.push(spans)))
    } else if st.len() > 0 && st.last() is Table {
        replace_top(
            st,
            FrameView::Table {
                alignments: st.last()->alignments,
                header: st.last()->header.push(spans),
                rows: st.last()->rows,
            },
        )
    } else {
        st
    }
}

pub fn close_tag(stack: &mut Vec<Frame>, end: MdTagEnd)
    ensures
        stack_view(final(stack)@) == close_tag_spec(stack_view(old(stack)@), end),
{
    match end {
        MdTagEnd::Paragraph => close_paragraph(stack),
        MdTagEnd::Heading(level) => close_heading(stack, level),
        MdTagEnd::BlockQuote => close_block_quote(stack),
        MdTagEnd::CodeBlock => close_code_block(stack),
        MdTagEnd::List => close_list(stack),
        MdTagEnd::Item => close_item(stack),
        MdTagEnd::Table => close_table(stack),
        MdTagEnd::TableRow => close_table_row(stack),
        MdTagEnd::TableCell => close_table_cell(stack),
        MdTagEnd::Emphasis => close_emphasis(stack),
        MdTagEnd::Strong => close_strong(stack),
        MdTagEnd::Link => close_link(stack),
        MdTagEnd::Image => close_image(stack),
        MdTagEnd::HtmlBlock => close_html_block(stack),
        MdTagEnd::Other => {
            proof {
                if stack@.len() > 0 {
                    lemma_stack_view_drop_last(stack@);
                    assert(stack_view(stack@).drop_last().push(stack_view(stack@).last())
                        =~= stack_view(stack@));
                }
            }
        },
    }
}

/// Pops the top frame; the model of the rest is the model of the stack below the top.
fn pop_top(stack: &mut Vec<Frame>) -> (top: Option<Frame>)
    ensures
        old(stack)@.len() == 0 ==> top is None && final(stack)@ == old(stack)@,
        old(stack)@.len() > 0 ==> top == Some(old(stack)@.last()) && stack_view(final(stack)@)
            == stack_view(old(stack)@).drop_last() && stack_view(old(stack)@).last()
            == old(stack)@.last()@,
{
    proof {
        if stack@.len() > 0 {
            lemma_stack_view_drop_last(stack@);
        }
    }
    stack.pop()
}

fn close_paragraph(stack: &mut Vec<Frame>)
    ensures
        stack_view(final(stack)@) == close_tag_spec(stack_view(old(stack)@), MdTagEnd::Paragraph),
{
    if let Some(Frame::Paragraph(spans)) = pop_top(stack) {
        push_block(stack, Block::Paragraph { spans });
    }
}

fn close_heading(stack: &mut Vec<Frame>, level: u8)
    ensures
        stack_view(final(stack)@) == close_tag_spec(
            stack_view(old(stack)@),
            MdTagEnd::Heading(level),
        ),
{
    if let Some(Frame::Heading(spans)) = pop_top(stack) {
        push_block(stack, Block::Heading { level, spans });
    }
}

fn close_block_quote(stack: &mut Vec<Frame>)
    ensures
        stack_view(final(stack)@) == close_tag_spec(stack_view(old(stack)@), MdTagEnd::BlockQuote),
{
    if let Some(Frame::Container(blocks)) = pop_top(stack) {
        push_block(stack, Block::BlockQuote(blocks));
    }
}

fn close_code_block(stack: &mut Vec<Frame>)
    ensures
        stack_view(final(stack)@) == close_tag_spec(stack_view(old(stack)@), MdTagEnd::CodeBlock),
{
    if let Some(Frame::CodeBlock(text)) = pop_top(stack) {
        push_block(stack, Block::CodeBlock { text });
    }
}

fn close_list(stack: &mut Vec<Frame>)
    ensures
        stack_view(final(stack)@) == close_tag_spec(stack_view(old(stack)@), MdTagEnd::List),
{
    if let Some(Frame::List { ordered, start, items }) = pop_top(stack) {
        push_block(stack, Block::List { ordered, start, items });
    }
}

fn close_item(stack: &mut Vec<Frame>)
    ensures
        stack_view(final(stack)@) == close_tag_spec(stack_view(old(stack)@), MdTagEnd::Item),
{
    if let Some(Frame::Container(blocks)) = pop_top(stack) {
        let ghost rest = stack@;
        match pop_top(stack) {
            Some(Frame::List { ordered, start, mut items }) => {
                proof {
                    lemma_items_view_push(items@, blocks);
                }
                items.push(blocks);
                proof {
                    lemma_stack_view_push(stack@, Frame::List { ordered, start, items });
                }
                stack.push(Frame::List { ordered, start, items });
            },
            Some(other) => {
                proof {
                    lemma_stack_view_push(stack@, other);
                    assert(stack_view(rest).drop_last().push(stack_view(rest).last())
                        =~= stack_view(rest));
                }
                stack.push(other);
            },
            None => {},
        }
    }
}

fn close_table(stack: &mut Vec<Frame>)
    ensures
        stack_view(final(stack)@) == close_tag_spec(stack_view(old(stack)@), MdTagEnd::Table),
{
    if let Some(Frame::Table { alignments, header, rows }) = pop_top(stack) {
        push_block(stack, Block::Table { alignments, header, rows });
    }
}

fn close_table_row(stack: &mut Vec<Frame>)
    ensures
        stack_view(final(stack)@) == close_tag_spec(stack_view(old(stack)@), MdTagEnd::TableRow),
{
    if let Some(Frame::TableRow(cells)) = pop_top(stack) {
        let ghost rest = stack@;
        match pop_top(stack) {
            Some(Frame::Table { alignments, header, mut rows }) => {
                proof {
                    lemma_rows_view_push(rows@, cells);
                }
                rows.push(cells);
                proof {
                    lemma_stack_view_push(stack@, Frame::Table { alignments, header, rows });
                }
                stack.push(Frame::Table { alignments, header, rows });
            },
            Some(other) => {
                proof {
                    lemma_stack_view_push(stack@, other);
                    assert(stack_view(rest).drop_last().push(stack_view(rest).last())
                        =~= stack_view(rest));
                }
                stack.push(other);
            },
            None => {},
        }
    }
}

fn close_table_cell(stack: &mut Vec<Frame>)
    ensures
        stack_view(final(stack)@) == close_tag_spec(stack_view(old(stack)@), MdTagEnd::TableCell),
{
    if let Some(Frame::TableCell(spans)) = pop_top(stack) {
        attach_table_cell(stack, spans);
    }
}

/// A finished cell joins the row on top, or the header when the table itself is on top.
fn attach_table_cell(stack: &mut Vec<Frame>, spans: Vec<Span>)
    ensures
        stack_view(final(stack)@) == attach_cell_spec(stack_view(old(stack)@), spans_view(spans@)),
{
    let ghost st = stack@;
    match pop_top(stack) {
        Some(Frame::TableRow(mut cells)) => {
            proof {
                lemma_cells_view_push(cells@, spans);
            }
            cells.push(spans);
            proof {
                lemma_stack_view_push(stack@, Frame::TableRow(cells));
            }
            stack.push(Frame::TableRow(cells));
        },
        Some(Frame::Table { alignments, mut header, rows }) => {
            proof {
                lemma_cells_view_push(header@, spans);
            }
            header.push(spans);
            proof {
                lemma_stack_view_push(stack@, Frame::Table { alignments, header, rows });
            }
            stack.push(Frame::Table { alignments, header, rows });
        },
        Some(other) => {
            proof {
                lemma_stack_view_push(stack@, other);
                assert(stack_view(st).drop_last().push(stack_view(st).last()) =~= stack_view(st));
            }
            stack.push(other);
        },
        None => {},
    }
}

fn close_emphasis(stack: &mut Vec<Frame>)
    ensures
        stack_view(final(stack)@) == close_tag_spec(stack_view(old(stack)@), MdTagEnd::Emphasis),
{
    if let Some(Frame::Emphasis(spans)) = pop_top(stack) {
        extend_spans(stack, spans, &SpanStyle::Italic);
    }
}

fn close_strong(stack: &mut Vec<Frame>)
    ensures
        stack_view(final(stack)@) == close_tag_spec(stack_view(old(stack)@), MdTagEnd::Strong),
{
    if let Some(Frame::Strong(spans)) = pop_top(stack) {
        extend_spans(stack, spans, &SpanStyle::Bold);
    }
}

fn close_link(stack: &mut Vec<Frame>)
    ensures
        stack_view(final(stack)@) == close_tag_spec(stack_view(old(stack)@), MdTagEnd::Link),
{
    if let Some(Frame::Link { url, spans }) = pop_top(stack) {
        extend_spans(stack, spans, &SpanStyle::Link(url));
    }
}

fn close_image(stack: &mut Vec<Frame>)
    ensures
        stack_view(final(stack)@) == close_tag_spec(stack_view(old(stack)@), MdTagEnd::Image),
{
    if let Some(Frame::Image { alt }) = pop_top(stack) {
        let mut text = String::from_str("[image: ");
        text.append(alt.as_str());
        text.append("]");
        push_span(stack, Span::plain(text));
    }
}

/// The topmost HTML block frame is found where the frames above `i` hold none
/// and the frame below `i` is one.
proof fn lemma_last_html_index(st: Seq<FrameView>, i: int)
    requires
        0 <= i <= st.len(),
        forall|j: int| i <= j < st.len() ==> !(#[trigger] st[j] is HtmlBlock),
        i == 0 || st[i - 1] is HtmlBlock,
    ensures
        last_html_index(st) == i - 1,
    decreases st.len(),
{
    if i < st.len() {
        assert(!(st[st.len() - 1] is HtmlBlock));
        assert forall|j: int| i <= j < st.drop_last().len() implies !(
        #[trigger] st.drop_last()[j] is HtmlBlock) by {
            assert(st.drop_last()[j] == st[j]);
        }
        if i > 0 {
            assert(st.drop_last()[i - 1] == st[i - 1]);
        }
        lemma_last_html_index(st.drop_last(), i);
    }
}

/// Whether `f` is the frame of an HTML block.
fn is_html_frame(f: &Frame) -> (r: bool)
    ensures
        r == (f@ is HtmlBlock),
{
    match f {
        Frame::HtmlBlock => true,
        _ => false,
    }
}

/// The content of an HTML block is not rendered: the HTML block's frame and
/// whatever was left open above it are removed, so the stack is as it was
/// before the block opened.
fn close_html_block(stack: &mut Vec<Frame>)
    ensures
        stack_view(final(stack)@) == close_tag_spec(stack_view(old(stack)@), MdTagEnd::HtmlBlock),
{
    let ghost sv = stack_view(stack@);
    proof {
        if sv.len() > 0 {
            lemma_stack_view_drop_last(stack@);
            assert(sv.drop_last().push(sv.last()) =~= sv);
        }
    }
    let mut i = stack.len();
    while i > 0 && !is_html_frame(&stack[i - 1])
        invariant
            0 <= i <= stack@.len(),
            sv == stack_view(stack@),
            forall|j: int| i <= j < sv.len() ==> !(#[trigger] sv[j] is HtmlBlock),
        decreases i,
    {
        proof {
            assert(sv[i - 1] == stack@[i - 1]@);
        }
        i = i - 1;
    }
    proof {
        if i > 0 {
            assert(sv[i - 1] == stack@[i - 1]@);
        }
        lemma_last_html_index(sv, i as int);
    }
    if i > 0 {
        stack.truncate(i - 1);
        proof {
            assert(stack_view(stack@) =~= sv.take(i - 1));
        }
    }
}

} // verus!
