//! Stack mutations shared by event handling: text, blocks and implicit paragraphs.

use super::frame::{
    accumulated_spans, lemma_spans_view_push, lemma_stack_view_drop_last, lemma_stack_view_push,
    replace_top, stack_view, with_spans, Frame, FrameView,
};
use crate::ir::{lemma_blocks_view_push, plain_span, spans_view, Block, BlockView, Span, SpanView};
use vstd::prelude::*;
use vstd::string::StringExecFns;

verus! {

broadcast use vstd::string::group_string_axioms;

/// Appends `b` to the block list of the top frame when that frame is a container;
/// any other stack is left as it is.
pub open spec fn push_block_spec(st: Seq<FrameView>, b: BlockView) -> Seq<FrameView> {
    if st.len() > 0 {
        match st.last() {
            FrameView::Container(bs) => replace_top(st, FrameView::Container(bs.push(b))),
            _ => st,
        }
    } else {
        st
    }
}

/// Inline content met directly under a container opens an (implicit) paragraph.
pub open spec fn open_implicit_paragraph(st: Seq<FrameView>) -> Seq<FrameView> {
    if st.len() > 0 && st.last() is Container {
        st.push(FrameView::Paragraph(Seq::empty()))
    } else {
        st
    }
}

/// Appends `s` to the spans of the top frame when that frame accumulates spans.
pub open spec fn append_span_spec(st: Seq<FrameView>, s: SpanView) -> Seq<FrameView> {
    if st.len() > 0 {
        match accumulated_spans(st.last()) {
            Some(spans) => replace_top(st, with_spans(st.last(), spans.push(s))),
            None => st,
        }
    } else {
        st
    }
}

/// Hands a span to the frame on top, opening an implicit paragraph above a container.
pub open spec fn push_span_spec(st: Seq<FrameView>, s: SpanView) -> Seq<FrameView> {
    append_span_spec(open_implicit_paragraph(st), s)
}

/// Hands `spans` to the stack one after the other.
pub open spec fn push_spans_spec(st: Seq<FrameView>, spans: Seq<SpanView>) -> Seq<FrameView>
    decreases spans.len(),
{
    if spans.len() == 0 {
        st
    } else {
        push_span_spec(push_spans_spec(st, spans.drop_last()), spans.last())
    }
}

/// Text extends an open code block or image alt text; anywhere else it becomes a plain span.
pub open spec fn push_text_spec(st: Seq<FrameView>, t: Seq<char>) -> Seq<FrameView> {
    if st.len() > 0 && st.last() is CodeBlock {
        replace_top(st, FrameView::CodeBlock(st.last()->CodeBlock_0 + t))
    } else if st.len() > 0 && st.last() is Image {
        replace_top(st, FrameView::Image { alt: st.last()->alt + t })
    } else {
        push_span_spec(st, plain_span(t))
    }
}

/// A span holding inline code.
pub open spec fn code_span(text: Seq<char>) -> SpanView {
    SpanView { text, bold: false, italic: false, code: true, link: None }
}

/// Inline code extends image alt text; anywhere else it becomes a code span.
pub open spec fn push_code_spec(st: Seq<FrameView>, t: Seq<char>) -> Seq<FrameView> {
    if st.len() > 0 && st.last() is Image {
        replace_top(st, FrameView::Image { alt: st.last()->alt + t })
    } else {
        push_span_spec(st, code_span(t))
    }
}

/// Closes a paragraph left open on top of the stack into the frame below it.
pub open spec fn flush_spec(st: Seq<FrameView>) -> Seq<FrameView> {
    if st.len() > 0 && st.last() is Paragraph {
        push_block_spec(st.drop_last(), BlockView::Paragraph { spans: st.last()->Paragraph_0 })
    } else {
        st
    }
}

/// The style that closing an inline container lays on the spans it held.
pub enum SpanStyle {
    Italic,
    Bold,
    Link(String),
}

/// Mathematical model of a [`SpanStyle`].
pub enum SpanStyleView {
    Italic,
    Bold,
    Link(Seq<char>),
}

impl View for SpanStyle {
    type V = SpanStyleView;

    open spec fn view(&self) -> SpanStyleView {
        match *self {
            SpanStyle::Italic => SpanStyleView::Italic,
            SpanStyle::Bold => SpanStyleView::Bold,
            SpanStyle::Link(url) => SpanStyleView::Link(url@),
        }
    }
}

/// `s` with `style` laid on it; every other attribute is kept.
pub open spec fn styled(s: SpanView, style: SpanStyleView) -> SpanView {
    match style {
        SpanStyleView::Italic => SpanView { italic: true, ..s },
        SpanStyleView::Bold => SpanView { bold: true, ..s },
        SpanStyleView::Link(url) => SpanView { link: Some(url), ..s },
    }
}

/// Every span of `spans` with `style` laid on it.
pub open spec fn styled_all(spans: Seq<SpanView>, style: SpanStyleView) -> Seq<SpanView> {
    spans.map_values(|s: SpanView| styled(s, style))
}

/// Appends `block` to the container on top of the stack, if the top is a container.
pub fn push_block(stack: &mut Vec<Frame>, block: Block)
    ensures
        stack_view(final(stack)@) == push_block_spec(stack_view(old(stack)@), block@),
{
    let ghost st = stack@;
    proof {
        if st.len() > 0 {
            lemma_stack_view_drop_last(st);
        }
    }
    match stack.pop() {
        Some(Frame::Container(mut blocks)) => {
            proof {
                lemma_blocks_view_push(blocks@, block);
            }
            blocks.push(block);
            stack.push(Frame::Container(blocks));
            proof {
                lemma_stack_view_push(st.drop_last(), Frame::Container(blocks));
            }
        },
        Some(other) => {
            stack.push(other);
            proof {
                lemma_stack_view_push(st.drop_last(), other);
                assert(stack@ =~= st);
            }
        },
        None => {},
    }
}

/// Appends `span` to the spans of the top frame, if the top accumulates spans.
fn append_span(stack: &mut Vec<Frame>, span: Span)
    ensures
        stack_view(final(stack)@) == append_span_spec(stack_view(old(stack)@), span@),
{
    let ghost st = stack@;
    proof {
        if st.len() > 0 {
            lemma_stack_view_drop_last(st);
        }
    }
    let top = stack.pop();
    let ghost rest = stack@;
    let frame = match top {
        Some(Frame::Paragraph(mut s)) => {
            proof { lemma_spans_view_push(s@, span); }
            s.push(span);
            Frame::Paragraph(s)
        },
        Some(Frame::Heading(mut s)) => {
            proof { lemma_spans_view_push(s@, span); }
            s.push(span);
            Frame::Heading(s)
        },
        Some(Frame::Emphasis(mut s)) => {
            proof { lemma_spans_view_push(s@, span); }
            s.push(span);
            Frame::Emphasis(s)
        },
        Some(Frame::Strong(mut s)) => {
            proof { lemma_spans_view_push(s@, span); }
            s.push(span);
            Frame::Strong(s)
        },
        Some(Frame::Link { url, mut spans }) => {
            proof { lemma_spans_view_push(spans@, span); }
            spans.push(span);
            Frame::Link { url, spans }
        },
        Some(Frame::TableCell(mut s)) => {
            proof { lemma_spans_view_push(s@, span); }
            s.push(span);
            Frame::TableCell(s)
        },
        Some(other) => other,
        None => {
            return;
        },
    };
    stack.push(frame);
    proof {
        lemma_stack_view_push(rest, frame);
        if accumulated_spans(st.last()@) is None {
            assert(stack@ =~= st);
        }
    }
}

/// Hands `span` to the frame on top of the stack. Inline content seen directly
/// under a container first opens an implicit paragraph, which the next block
/// boundary closes again (see [`flush_dangling_paragraph`]).
pub fn push_span(stack: &mut Vec<Frame>, span: Span)
    ensures
        stack_view(final(stack)@) == push_span_spec(stack_view(old(stack)@), span@),
{
    let n = stack.len();
    if n > 0 && matches!(stack[n - 1], Frame::Container(_)) {
        let ghost before = stack@;
        let empty: Vec<Span> = Vec::new();
        let frame = Frame::Paragraph(empty);
        proof {
            lemma_stack_view_push(before, frame);
            assert(spans_view(empty@) =~= Seq::<SpanView>::empty());
        }
        stack.push(frame);
    }
    append_span(stack, span);
}

/// Appends `text` to an open code block or image alt text; anywhere else it
/// becomes a plain span.
pub fn push_text(stack: &mut Vec<Frame>, text: &str)
    ensures
        stack_view(final(stack)@) == push_text_spec(stack_view(old(stack)@), text@),
{
    let ghost st = stack@;
    proof {
        if st.len() > 0 {
            lemma_stack_view_drop_last(st);
        }
    }
    match stack.pop() {
        Some(Frame::CodeBlock(mut buf)) => {
            buf.append(text);
            proof { lemma_stack_view_push(stack@, Frame::CodeBlock(buf)); }
            stack.push(Frame::CodeBlock(buf));
        },
        Some(Frame::Image { mut alt }) => {
            alt.append(text);
            proof { lemma_stack_view_push(stack@, Frame::Image { alt }); }
            stack.push(Frame::Image { alt });
        },
        Some(other) => {
            proof { lemma_stack_view_push(stack@, other); }
            stack.push(other);
            proof { assert(stack@ =~= st); }
            push_span(stack, Span::plain(text.to_string()));
        },
        None => {
            push_span(stack, Span::plain(text.to_string()));
        },
    }
}

/// Appends inline code to image alt text; anywhere else it becomes a code span.
pub fn push_code(stack: &mut Vec<Frame>, text: &str)
    ensures
        stack_view(final(stack)@) == push_code_spec(stack_view(old(stack)@), text@),
{
    let ghost st = stack@;
    proof {
        if st.len() > 0 {
            lemma_stack_view_drop_last(st);
        }
    }
    match stack.pop() {
        Some(Frame::Image { mut alt }) => {
            alt.append(text);
            proof { lemma_stack_view_push(stack@, Frame::Image { alt }); }
            stack.push(Frame::Image { alt });
        },
        Some(other) => {
            proof { lemma_stack_view_push(stack@, other); }
            stack.push(other);
            proof { assert(stack@ =~= st); }
            push_span(
                stack,
                Span { text: text.to_string(), bold: false, italic: false, code: true, link: None },
            );
        },
        None => {
            push_span(
                stack,
                Span { text: text.to_string(), bold: false, italic: false, code: true, link: None },
            );
        },
    }
}

/// Closes a paragraph left open on top of the stack (an implicit one, opened by
/// inline content in a tight list item) into the frame below it.
pub fn flush_dangling_paragraph(stack: &mut Vec<Frame>)
    ensures
        stack_view(final(stack)@) == flush_spec(stack_view(old(stack)@)),
{
    let n = stack.len();
    if n > 0 && matches!(stack[n - 1], Frame::Paragraph(_)) {
        proof { lemma_stack_view_drop_last(stack@); }
        if let Some(Frame::Paragraph(spans)) = stack.pop() {
            push_block(stack, Block::Paragraph { spans });
        }
    }
}

/// `span` with `style` laid on it.
fn apply_style(span: Span, style: &SpanStyle) -> (r: Span)
    ensures
        r@ == styled(span@, style@),
{
    let mut span = span;
    match style {
        SpanStyle::Italic => span.italic = true,
        SpanStyle::Bold => span.bold = true,
        SpanStyle::Link(url) => span.link = Some(url.clone()),
    }
    span
}

/// Lays `style` on every span of `spans`, then hands them in order to whatever
/// span-accumulating frame is now on top of the stack.
pub fn extend_spans(stack: &mut Vec<Frame>, spans: Vec<Span>, style: &SpanStyle)
    ensures
        stack_view(final(stack)@) == push_spans_spec(
            stack_view(old(stack)@),
            styled_all(spans_view(spans@), style@),
        ),
{
    let ghost st0 = stack_view(stack@);
    let ghost all = styled_all(spans_view(spans@), style@);
    let ghost elems = spans@;
    for span in it: spans.into_iter()
        invariant
            it.seq() == elems,
            all == styled_all(spans_view(elems), style@),
            stack_view(stack@) == push_spans_spec(st0, all.take(it.index() as int)),
    {
        let ghost i = it.index();
        let styled_span = apply_style(span, style);
        push_span(stack, styled_span);
        proof {
            assert(all.take(i + 1).drop_last() =~= all.take(i as int));
        }
    }
    proof {
        assert(all.take(elems.len() as int) =~= all);
    }
}

} // verus!
