//! Properties of the parser that span its operations.

use super::close::{attach_cell_spec, close_tag_spec, image_text, last_html_index};
use super::event::{apply_event_spec, tag_end_of, MdEventView, MdTagEnd, MdTagView};
use super::frame::{accumulated_spans, replace_top, with_spans, FrameView};
use super::run_events;
use super::stack::{
    append_span_spec, code_span, flush_spec, push_block_spec, push_span_spec, push_spans_spec,
    styled_all, SpanStyleView,
};
use crate::ir::{plain_span, spans_text, Align, BlockView, SpanView};
use vstd::prelude::*;

verus! {

/// Whether `f` collects spans.
pub open spec fn accumulates(f: FrameView) -> bool {
    accumulated_spans(f) is Some
}

/// The spans that an accumulating frame holds.
pub open spec fn acc(f: FrameView) -> Seq<SpanView> {
    accumulated_spans(f)->0
}

/// Law: laying a style (italic, bold or a link) on spans changes none of their text.
pub proof fn law_styling_keeps_text(spans: Seq<SpanView>, style: SpanStyleView)
    ensures
        spans_text(styled_all(spans, style)) == spans_text(spans),
    decreases spans.len(),
{
    if spans.len() > 0 {
        law_styling_keeps_text(spans.drop_last(), style);
        assert(styled_all(spans, style).drop_last() =~= styled_all(spans.drop_last(), style));
    }
}

/// The text of joined span runs is the joined text.
pub proof fn lemma_spans_text_concat(a: Seq<SpanView>, b: Seq<SpanView>)
    ensures
        spans_text(a + b) == spans_text(a) + spans_text(b),
    decreases b.len(),
{
    if b.len() == 0 {
        assert(a + b =~= a);
        assert(spans_text(a) + Seq::<char>::empty() =~= spans_text(a));
    } else {
        lemma_spans_text_concat(a, b.drop_last());
        assert((a + b).drop_last() =~= a + b.drop_last());
        assert(spans_text(a) + (spans_text(b.drop_last()) + b.last().text) =~= spans_text(a)
            + spans_text(b.drop_last()) + b.last().text);
    }
}

/// Law: handing a run of spans to a frame that collects spans appends the whole
/// run to that frame, in order.
pub proof fn law_spans_append_to_collecting_frame(st: Seq<FrameView>, spans: Seq<SpanView>)
    requires
        st.len() > 0,
        accumulates(st.last()),
    ensures
        push_spans_spec(st, spans) == replace_top(st, with_spans(st.last(), acc(st.last()) + spans)),
    decreases spans.len(),
{
    if spans.len() == 0 {
        assert(acc(st.last()) + spans =~= acc(st.last()));
        assert(replace_top(st, with_spans(st.last(), acc(st.last()))) =~= st);
    } else {
        law_spans_append_to_collecting_frame(st, spans.drop_last());
        let mid = replace_top(st, with_spans(st.last(), acc(st.last()) + spans.drop_last()));
        assert(mid.last() == with_spans(st.last(), acc(st.last()) + spans.drop_last()));
        assert((acc(st.last()) + spans.drop_last()).push(spans.last()) =~= acc(st.last()) + spans);
        assert(replace_top(mid, with_spans(st.last(), acc(st.last()) + spans)) =~= replace_top(
            st,
            with_spans(st.last(), acc(st.last()) + spans),
        ));
    }
}

/// Law: handing a non-empty run of spans to a container opens one paragraph
/// holding the whole run.
pub proof fn law_spans_open_one_paragraph(st: Seq<FrameView>, spans: Seq<SpanView>)
    requires
        st.len() > 0,
        st.last() is Container,
        spans.len() > 0,
    ensures
        push_spans_spec(st, spans) == st.push(FrameView::Paragraph(spans)),
    decreases spans.len(),
{
    if spans.len() == 1 {
        assert(spans.drop_last() =~= Seq::<SpanView>::empty());
        assert(push_spans_spec(st, spans.drop_last()) == st);
        let opened = st.push(FrameView::Paragraph(Seq::empty()));
        assert(push_span_spec(st, spans.last()) == append_span_spec(opened, spans.last()));
        assert(Seq::<SpanView>::empty().push(spans.last()) =~= spans);
        assert(replace_top(opened, FrameView::Paragraph(Seq::empty().push(spans.last())))
            =~= st.push(FrameView::Paragraph(spans)));
    } else {
        law_spans_open_one_paragraph(st, spans.drop_last());
        let mid = st.push(FrameView::Paragraph(spans.drop_last()));
        assert(push_span_spec(mid, spans.last()) == append_span_spec(mid, spans.last()));
        assert(spans.drop_last().push(spans.last()) =~= spans);
        assert(replace_top(mid, FrameView::Paragraph(spans)) =~= st.push(FrameView::Paragraph(spans)));
    }
}

/// The text an inline event contributes: its own text, a space for a soft
/// break, a newline for a hard break, nothing for emphasis, strong emphasis and
/// link tags.
pub open spec fn inline_event_text(e: MdEventView) -> Seq<char> {
    match e {
        MdEventView::Text(t) => t,
        MdEventView::Code(t) => t,
        MdEventView::InlineHtml(t) => t,
        MdEventView::SoftBreak => " "@,
        MdEventView::HardBreak => "\n"@,
        _ => Seq::empty(),
    }
}

/// The text of a run of inline events, in order.
pub open spec fn events_text(evs: Seq<MdEventView>) -> Seq<char>
    decreases evs.len(),
{
    if evs.len() == 0 {
        Seq::empty()
    } else {
        events_text(evs.drop_last()) + inline_event_text(evs.last())
    }
}

/// Emphasis, strong emphasis and links: the inline elements that style spans.
pub open spec fn is_styling_tag(k: MdTagEnd) -> bool {
    k is Emphasis || k is Strong || k is Link
}

/// Text, inline code, inline HTML, breaks, and the start and end of emphasis,
/// strong emphasis and links.
pub open spec fn is_inline_event(e: MdEventView) -> bool {
    match e {
        MdEventView::Text(_) => true,
        MdEventView::Code(_) => true,
        MdEventView::InlineHtml(_) => true,
        MdEventView::SoftBreak => true,
        MdEventView::HardBreak => true,
        MdEventView::Start(tag) => is_styling_tag(tag_end_of(tag)),
        MdEventView::End(k) => is_styling_tag(k),
        _ => false,
    }
}

/// The styling elements left open after `evs`, innermost last; `None` when an
/// end event does not close the innermost open element.
pub open spec fn inline_nesting(evs: Seq<MdEventView>) -> Option<Seq<MdTagEnd>>
    decreases evs.len(),
{
    if evs.len() == 0 {
        Some(Seq::empty())
    } else {
        match inline_nesting(evs.drop_last()) {
            None => None,
            Some(open) => match evs.last() {
                MdEventView::Start(tag) => Some(open.push(tag_end_of(tag))),
                MdEventView::End(k) => if open.len() > 0 && open.last() == k {
                    Some(open.drop_last())
                } else {
                    None
                },
                _ => Some(open),
            },
        }
    }
}

/// A run of inline events in which every styling element is closed, innermost first.
pub open spec fn well_nested_inline(evs: Seq<MdEventView>) -> bool {
    &&& forall|i: int| 0 <= i < evs.len() ==> is_inline_event(#[trigger] evs[i])
    &&& inline_nesting(evs) == Some(Seq::<MdTagEnd>::empty())
}

/// Whether `f` is the frame that a styling element of kind `k` opens.
pub open spec fn frame_of_kind(f: FrameView, k: MdTagEnd) -> bool {
    match k {
        MdTagEnd::Emphasis => f is Emphasis,
        MdTagEnd::Strong => f is Strong,
        MdTagEnd::Link => f is Link,
        _ => false,
    }
}

/// The text collected in a run of frames, bottom first.
pub open spec fn stacked_text(fs: Seq<FrameView>) -> Seq<char>
    decreases fs.len(),
{
    if fs.len() == 0 {
        Seq::empty()
    } else {
        stacked_text(fs.drop_last()) + spans_text(acc(fs.last()))
    }
}

/// The frames that a run of inline events leaves in place of the collecting
/// frame `top`: `top` itself, holding more spans, then one frame for each
/// styling element still open, in the order `open` lists them.
pub open spec fn inline_frames(fs: Seq<FrameView>, top: FrameView, open: Seq<MdTagEnd>) -> bool {
    &&& fs.len() == open.len() + 1
    &&& fs[0] == with_spans(top, acc(fs[0]))
    &&& forall|j: int| 1 <= j < fs.len() ==> frame_of_kind(#[trigger] fs[j], open[j - 1])
}

proof fn lemma_with_spans(f: FrameView, a: Seq<SpanView>, b: Seq<SpanView>)
    requires
        accumulates(f),
    ensures
        accumulates(with_spans(f, a)),
        acc(with_spans(f, a)) == a,
        with_spans(with_spans(f, a), b) == with_spans(f, b),
        with_spans(f, acc(f)) == f,
        forall|k: MdTagEnd| frame_of_kind(f, k) ==> frame_of_kind(with_spans(f, a), k),
{
}

proof fn lemma_stack_concat(b: Seq<FrameView>, fs: Seq<FrameView>, x: FrameView)
    requires
        fs.len() > 0,
    ensures
        (b + fs).len() > 0,
        (b + fs).last() == fs.last(),
        (b + fs).drop_last() == b + fs.drop_last(),
        replace_top(b + fs, x) == b + replace_top(fs, x),
        (b + fs).push(x) == b + fs.push(x),
{
    assert((b + fs).drop_last() =~= b + fs.drop_last());
    assert(replace_top(b + fs, x) =~= b + replace_top(fs, x));
    assert((b + fs).push(x) =~= b + fs.push(x));
}

proof fn lemma_stacked_text_replace_top(fs: Seq<FrameView>, x: FrameView)
    requires
        fs.len() > 0,
    ensures
        stacked_text(replace_top(fs, x)) == stacked_text(fs.drop_last()) + spans_text(acc(x)),
{
    assert(replace_top(fs, x).drop_last() =~= fs.drop_last());
}

/// The top of such a run of frames collects spans.
proof fn lemma_inline_frames_top(fs: Seq<FrameView>, top: FrameView, open: Seq<MdTagEnd>)
    requires
        accumulates(top),
        inline_frames(fs, top, open),
    ensures
        accumulates(fs.last()),
{
    lemma_with_spans(top, acc(fs[0]), Seq::empty());
    if fs.len() > 1 {
        assert(frame_of_kind(fs[fs.len() - 1], open[fs.len() - 2]));
    }
}

/// Replacing the top frame by the same kind of frame keeps the run well formed.
proof fn lemma_inline_frames_replace_top(
    fs: Seq<FrameView>,
    top: FrameView,
    open: Seq<MdTagEnd>,
    a: Seq<SpanView>,
)
    requires
        accumulates(top),
        inline_frames(fs, top, open),
    ensures
        inline_frames(replace_top(fs, with_spans(fs.last(), a)), top, open),
{
    lemma_inline_frames_top(fs, top, open);
    let x = with_spans(fs.last(), a);
    let fs2 = replace_top(fs, x);
    lemma_with_spans(fs.last(), a, Seq::empty());
    lemma_with_spans(top, acc(fs[0]), a);
    if fs.len() == 1 {
        assert(fs2[0] == x);
    } else {
        assert(fs2[0] == fs[0]);
    }
    assert forall|j: int| 1 <= j < fs2.len() implies frame_of_kind(#[trigger] fs2[j], open[j - 1]) by {
        if j < fs.len() - 1 {
            assert(fs2[j] == fs[j]);
        } else {
            assert(frame_of_kind(fs[j], open[j - 1]));
        }
    }
}

/// The span that a text-bearing inline event hands to the stack.
pub open spec fn event_span(e: MdEventView) -> SpanView {
    match e {
        MdEventView::Code(t) => code_span(t),
        _ => plain_span(inline_event_text(e)),
    }
}

/// Text, inline code, inline HTML and breaks: the inline events that carry a span.
pub open spec fn is_span_event(e: MdEventView) -> bool {
    e is Text || e is Code || e is InlineHtml || e is SoftBreak || e is HardBreak
}

/// The empty frame that the start of a styling element opens.
pub open spec fn styling_frame(tag: MdTagView) -> FrameView {
    match tag {
        MdTagView::Emphasis => FrameView::Emphasis(Seq::empty()),
        MdTagView::Strong => FrameView::Strong(Seq::empty()),
        _ => FrameView::Link { url: tag->Link_0, spans: Seq::empty() },
    }
}

/// The spans that closing the styling frame `f` hands to the frame below, with
/// the element's style laid on them.
pub open spec fn closing_spans(f: FrameView) -> Seq<SpanView> {
    match f {
        FrameView::Emphasis(s) => styled_all(s, SpanStyleView::Italic),
        FrameView::Strong(s) => styled_all(s, SpanStyleView::Bold),
        FrameView::Link { url, spans } => styled_all(spans, SpanStyleView::Link(url)),
        _ => Seq::empty(),
    }
}

/// The run of frames after `sp` is appended to its top.
pub open spec fn after_span(fs: Seq<FrameView>, sp: SpanView) -> Seq<FrameView> {
    replace_top(fs, with_spans(fs.last(), acc(fs.last()).push(sp)))
}

/// The run of frames after its top styling frame is closed into the one below.
pub open spec fn after_close(fs: Seq<FrameView>) -> Seq<FrameView> {
    let rest = fs.drop_last();
    replace_top(rest, with_spans(rest.last(), acc(rest.last()) + closing_spans(fs.last())))
}

/// A span handed to a stack whose top collects spans is appended to the top.
proof fn lemma_span_mechanics(d: Seq<FrameView>, fs: Seq<FrameView>, sp: SpanView)
    requires
        fs.len() > 0,
        accumulates(fs.last()),
    ensures
        push_span_spec(d + fs, sp) == d + after_span(fs, sp),
{
    lemma_stack_concat(d, fs, with_spans(fs.last(), acc(fs.last()).push(sp)));
}

/// A span-bearing event appends its span to the innermost open frame.
proof fn lemma_span_event_mechanics(d: Seq<FrameView>, fs: Seq<FrameView>, e: MdEventView)
    requires
        fs.len() > 0,
        accumulates(fs.last()),
        is_span_event(e),
    ensures
        apply_event_spec(d + fs, e) == d + after_span(fs, event_span(e)),
        event_span(e).text == inline_event_text(e),
{
    lemma_stack_concat(d, fs, fs.last());
    lemma_span_mechanics(d, fs, event_span(e));
}

/// Closing a styling frame that stands on a collecting frame folds its spans
/// into that frame.
proof fn lemma_close_mechanics(d: Seq<FrameView>, fs: Seq<FrameView>, k: MdTagEnd)
    requires
        fs.len() > 1,
        frame_of_kind(fs.last(), k),
        accumulates(fs.drop_last().last()),
    ensures
        apply_event_spec(d + fs, MdEventView::End(k)) == d + after_close(fs),
{
    let rest = fs.drop_last();
    lemma_stack_concat(d, fs, fs.last());
    assert(close_tag_spec(d + fs, k) == push_spans_spec(d + rest, closing_spans(fs.last())));
    lemma_stack_concat(d, rest, rest.last());
    law_spans_append_to_collecting_frame(d + rest, closing_spans(fs.last()));
    lemma_stack_concat(
        d,
        rest,
        with_spans(rest.last(), acc(rest.last()) + closing_spans(fs.last())),
    );
}

/// Appending a span keeps the run well formed and adds the span's text.
proof fn lemma_after_span(fs: Seq<FrameView>, top: FrameView, open: Seq<MdTagEnd>, sp: SpanView)
    requires
        accumulates(top),
        inline_frames(fs, top, open),
    ensures
        inline_frames(after_span(fs, sp), top, open),
        stacked_text(after_span(fs, sp)) == stacked_text(fs) + sp.text,
{
    lemma_inline_frames_top(fs, top, open);
    let a = acc(fs.last()).push(sp);
    let x = with_spans(fs.last(), a);
    lemma_with_spans(fs.last(), a, Seq::empty());
    lemma_inline_frames_replace_top(fs, top, open, a);
    lemma_stacked_text_replace_top(fs, x);
    assert(a.drop_last() =~= acc(fs.last()));
    assert(stacked_text(after_span(fs, sp)) =~= stacked_text(fs) + sp.text);
}

/// Opening a styling frame keeps the run well formed and adds no text.
proof fn lemma_after_open(fs: Seq<FrameView>, top: FrameView, open: Seq<MdTagEnd>, tag: MdTagView)
    requires
        inline_frames(fs, top, open),
        is_styling_tag(tag_end_of(tag)),
    ensures
        inline_frames(fs.push(styling_frame(tag)), top, open.push(tag_end_of(tag))),
        stacked_text(fs.push(styling_frame(tag))) == stacked_text(fs),
{
    let f = styling_frame(tag);
    let fs2 = fs.push(f);
    assert(fs2.drop_last() =~= fs);
    assert(fs2[0] == fs[0]);
    assert forall|j: int| 1 <= j < fs2.len() implies frame_of_kind(
        #[trigger] fs2[j],
        open.push(tag_end_of(tag))[j - 1],
    ) by {
        if j < fs.len() {
            assert(fs2[j] == fs[j]);
        }
    }
    assert(spans_text(acc(f)) == Seq::<char>::empty());
    assert(stacked_text(fs2) =~= stacked_text(fs));
}

/// Closing the innermost styling frame keeps the run well formed and its text.
proof fn lemma_after_close(fs: Seq<FrameView>, top: FrameView, open: Seq<MdTagEnd>)
    requires
        accumulates(top),
        inline_frames(fs, top, open),
        open.len() > 0,
    ensures
        frame_of_kind(fs.last(), open.last()),
        accumulates(fs.drop_last().last()),
        inline_frames(after_close(fs), top, open.drop_last()),
        stacked_text(after_close(fs)) == stacked_text(fs),
{
    let closed = fs.last();
    assert(frame_of_kind(fs[fs.len() - 1], open[fs.len() - 2]));
    let rest = fs.drop_last();
    assert(rest[0] == fs[0]);
    assert forall|j: int| 1 <= j < rest.len() implies frame_of_kind(
        #[trigger] rest[j],
        open.drop_last()[j - 1],
    ) by {
        assert(rest[j] == fs[j]);
    }
    lemma_inline_frames_top(rest, top, open.drop_last());
    let moved = closing_spans(closed);
    let a = acc(rest.last()) + moved;
    let x = with_spans(rest.last(), a);
    lemma_with_spans(rest.last(), a, Seq::empty());
    lemma_inline_frames_replace_top(rest, top, open.drop_last(), a);
    lemma_stacked_text_replace_top(rest, x);
    lemma_spans_text_concat(acc(rest.last()), moved);
    let style = match closed {
        FrameView::Emphasis(_) => SpanStyleView::Italic,
        FrameView::Strong(_) => SpanStyleView::Bold,
        _ => SpanStyleView::Link(closed->url),
    };
    law_styling_keeps_text(acc(closed), style);
    assert(spans_text(moved) == spans_text(acc(closed)));
    assert(stacked_text(fs) == stacked_text(rest) + spans_text(acc(closed)));
    assert(stacked_text(rest) == stacked_text(rest.drop_last()) + spans_text(acc(rest.last())));
    assert(stacked_text(after_close(fs)) == stacked_text(rest.drop_last()) + (spans_text(
        acc(rest.last()),
    ) + spans_text(acc(closed))));
    assert(stacked_text(after_close(fs)) =~= stacked_text(fs));
}

/// The run of frames after one more inline event.
pub open spec fn after_inline_event(fs: Seq<FrameView>, e: MdEventView) -> Seq<FrameView> {
    match e {
        MdEventView::Start(tag) => fs.push(styling_frame(tag)),
        MdEventView::End(_) => after_close(fs),
        _ => after_span(fs, event_span(e)),
    }
}

/// One inline event keeps the run well formed and adds the event's text.
proof fn lemma_after_inline_event(
    fs: Seq<FrameView>,
    top: FrameView,
    evs: Seq<MdEventView>,
)
    requires
        accumulates(top),
        evs.len() > 0,
        is_inline_event(evs.last()),
        inline_nesting(evs) is Some,
        inline_frames(fs, top, inline_nesting(evs.drop_last())->0),
    ensures
        inline_frames(after_inline_event(fs, evs.last()), top, inline_nesting(evs)->0),
        stacked_text(after_inline_event(fs, evs.last())) == stacked_text(fs) + inline_event_text(
            evs.last(),
        ),
        evs.last() is End ==> frame_of_kind(fs.last(), evs.last()->End_0) && accumulates(
            fs.drop_last().last(),
        ) && fs.len() > 1,
{
    let e = evs.last();
    let open = inline_nesting(evs.drop_last())->0;
    match e {
        MdEventView::Start(tag) => {
            lemma_after_open(fs, top, open, tag);
            assert(stacked_text(fs) + inline_event_text(e) =~= stacked_text(fs));
        },
        MdEventView::End(k) => {
            lemma_after_close(fs, top, open);
            assert(stacked_text(fs) + inline_event_text(e) =~= stacked_text(fs));
        },
        _ => {
            lemma_after_span(fs, top, open, event_span(e));
        },
    }
}

/// The frames reached by a run of inline events started on a stack whose top
/// collects spans: the stack below the top is untouched, the top has collected
/// more spans and the frames of the styling elements still open stand above it;
/// all the text of the events sits in these frames, in order, after the text
/// the top held before.
pub proof fn lemma_inline_run(st: Seq<FrameView>, evs: Seq<MdEventView>) -> (fs: Seq<FrameView>)
    requires
        st.len() > 0,
        accumulates(st.last()),
        forall|i: int| 0 <= i < evs.len() ==> is_inline_event(#[trigger] evs[i]),
        inline_nesting(evs) is Some,
    ensures
        inline_frames(fs, st.last(), inline_nesting(evs)->0),
        run_events(st, evs) == st.drop_last() + fs,
        stacked_text(fs) == spans_text(acc(st.last())) + events_text(evs),
    decreases evs.len(),
{
    let top = st.last();
    let d = st.drop_last();
    lemma_with_spans(top, acc(top), Seq::empty());
    if evs.len() == 0 {
        let fs = seq![top];
        assert(d + fs =~= st);
        assert(fs.drop_last() =~= Seq::<FrameView>::empty());
        assert(stacked_text(fs.drop_last()) == Seq::<char>::empty());
        assert(stacked_text(fs) =~= spans_text(acc(top)) + events_text(evs));
        fs
    } else {
        let p = evs.drop_last();
        let e = evs.last();
        assert forall|i: int| 0 <= i < p.len() implies is_inline_event(#[trigger] p[i]) by {
            assert(p[i] == evs[i]);
        }
        assert(is_inline_event(evs[evs.len() - 1]));
        let fs0 = lemma_inline_run(st, p);
        lemma_inline_frames_top(fs0, top, inline_nesting(p)->0);
        lemma_after_inline_event(fs0, top, evs);
        let fs = after_inline_event(fs0, e);
        lemma_stack_concat(d, fs0, fs0.last());
        assert(run_events(st, evs) == apply_event_spec(d + fs0, e));
        match e {
            MdEventView::Start(tag) => {
                assert(apply_event_spec(d + fs0, e) == (d + fs0).push(styling_frame(tag)));
                lemma_stack_concat(d, fs0, styling_frame(tag));
            },
            MdEventView::End(k) => {
                lemma_close_mechanics(d, fs0, k);
            },
            _ => {
                lemma_span_event_mechanics(d, fs0, e);
            },
        }
        assert(events_text(evs) == events_text(p) + inline_event_text(e));
        assert(stacked_text(fs) =~= spans_text(acc(top)) + (events_text(p) + inline_event_text(e)));
        fs
    }
}

/// Running two event streams one after the other is running their concatenation.
pub proof fn lemma_run_events_concat(st: Seq<FrameView>, a: Seq<MdEventView>, b: Seq<MdEventView>)
    ensures
        run_events(st, a + b) == run_events(run_events(st, a), b),
    decreases b.len(),
{
    if b.len() == 0 {
        assert(a + b =~= a);
    } else {
        lemma_run_events_concat(st, a, b.drop_last());
        assert((a + b).drop_last() =~= a + b.drop_last());
    }
}

/// The frames standing on a container after a run of inline events: the run
/// `fs`, whose bottom is the implicit paragraph, left out while that paragraph
/// has collected nothing (it is only opened by the first span that reaches it).
pub open spec fn above_container(fs: Seq<FrameView>) -> Seq<FrameView> {
    if acc(fs[0]).len() == 0 {
        fs.drop_first()
    } else {
        fs
    }
}

/// A run of inline events on a stack whose top is a container behaves as if an
/// empty paragraph stood on the container, except that the paragraph only
/// appears once a span reaches it.
pub proof fn lemma_inline_run_in_container(st: Seq<FrameView>, evs: Seq<MdEventView>) -> (fs: Seq<
    FrameView,
>)
    requires
        st.len() > 0,
        st.last() is Container,
        forall|i: int| 0 <= i < evs.len() ==> is_inline_event(#[trigger] evs[i]),
        inline_nesting(evs) is Some,
    ensures
        inline_frames(fs, FrameView::Paragraph(Seq::empty()), inline_nesting(evs)->0),
        run_events(st, evs) == st + above_container(fs),
        stacked_text(fs) == events_text(evs),
    decreases evs.len(),
{
    let top = FrameView::Paragraph(Seq::empty());
    if evs.len() == 0 {
        let fs = seq![top];
        assert(fs.drop_first() =~= Seq::<FrameView>::empty());
        assert(st + Seq::<FrameView>::empty() =~= st);
        assert(fs.drop_last() =~= Seq::<FrameView>::empty());
        assert(stacked_text(fs.drop_last()) == Seq::<char>::empty());
        assert(stacked_text(fs) =~= events_text(evs));
        fs
    } else {
        let p = evs.drop_last();
        let e = evs.last();
        assert forall|i: int| 0 <= i < p.len() implies is_inline_event(#[trigger] p[i]) by {
            assert(p[i] == evs[i]);
        }
        assert(is_inline_event(evs[evs.len() - 1]));
        let fs0 = lemma_inline_run_in_container(st, p);
        let open = inline_nesting(p)->0;
        lemma_inline_frames_top(fs0, top, open);
        lemma_after_inline_event(fs0, top, evs);
        let fs = after_inline_event(fs0, e);
        assert(run_events(st, evs) == apply_event_spec(st + above_container(fs0), e));
        lemma_with_spans(top, acc(fs0[0]), Seq::empty());
        if acc(fs0[0]).len() > 0 {
            // the implicit paragraph is open: the run sits on the container as it is
            lemma_stack_concat(st, fs0, fs0.last());
            match e {
                MdEventView::Start(tag) => {
                    lemma_stack_concat(st, fs0, styling_frame(tag));
                    assert(fs[0] == fs0[0]);
                },
                MdEventView::End(k) => {
                    lemma_close_mechanics(st, fs0, k);
                    let rest = fs0.drop_last();
                    let a = acc(rest.last()) + closing_spans(fs0.last());
                    lemma_with_spans(rest.last(), a, Seq::empty());
                    if rest.len() == 1 {
                        assert(fs[0] == with_spans(rest.last(), a));
                        assert(a.len() >= acc(rest.last()).len());
                    } else {
                        assert(fs[0] == fs0[0]);
                    }
                },
                _ => {
                    lemma_span_event_mechanics(st, fs0, e);
                    let a = acc(fs0.last()).push(event_span(e));
                    lemma_with_spans(fs0.last(), a, Seq::empty());
                    if fs0.len() == 1 {
                        assert(fs[0] == with_spans(fs0.last(), a));
                    } else {
                        assert(fs[0] == fs0[0]);
                    }
                },
            }
            assert(above_container(fs) == fs);
        } else if fs0.len() == 1 {
            // nothing has reached the paragraph yet and no styling element is open
            assert(acc(fs0[0]) =~= Seq::<SpanView>::empty());
            assert(fs0[0] == top);
            assert(fs0.drop_first() =~= Seq::<FrameView>::empty());
            assert(st + above_container(fs0) =~= st);
            match e {
                MdEventView::Start(tag) => {
                    let f = styling_frame(tag);
                    assert(apply_event_spec(st, e) == st.push(f));
                    assert(fs.drop_first() =~= seq![f]);
                    assert(st + above_container(fs) =~= st.push(f));
                },
                MdEventView::End(k) => {
                    assert(false);
                },
                _ => {
                    let sp = event_span(e);
                    assert(apply_event_spec(st, e) == push_span_spec(st, sp));
                    let one = seq![FrameView::Paragraph(Seq::empty().push(sp))];
                    assert(push_span_spec(st, sp) == st.push(
                        FrameView::Paragraph(Seq::empty().push(sp)),
                    ));
                    assert(fs0.last() == top);
                    assert(fs =~= one);
                    assert(st + above_container(fs) =~= st.push(
                        FrameView::Paragraph(Seq::empty().push(sp)),
                    ));
                },
            }
        } else {
            // nothing has reached the paragraph yet, but styling elements are open
            let g = fs0.drop_first();
            assert(above_container(fs0) == g);
            assert(g.last() == fs0.last());
            match e {
                MdEventView::Start(tag) => {
                    lemma_stack_concat(st, g, g.last());
                    lemma_stack_concat(st, g, styling_frame(tag));
                    assert(fs.drop_first() =~= g.push(styling_frame(tag)));
                    assert(fs[0] == fs0[0]);
                },
                MdEventView::End(k) => {
                    if fs0.len() > 2 {
                        assert(g.drop_last().last() == fs0.drop_last().last());
                        lemma_close_mechanics(st, g, k);
                        assert(after_close(g) =~= after_close(fs0).drop_first());
                        assert(fs[0] == fs0[0]);
                    } else {
                        let closed = fs0.last();
                        let moved = closing_spans(closed);
                        assert(g =~= seq![closed]);
                        assert(st + g =~= st.push(closed));
                        assert((st + g).drop_last() =~= st);
                        assert(apply_event_spec(st + g, e) == push_spans_spec(st, moved));
                        assert(acc(fs0[0]) =~= Seq::<SpanView>::empty());
                        assert(fs0.drop_last() =~= seq![top]);
                        assert(Seq::<SpanView>::empty() + moved =~= moved);
                        assert(fs =~= seq![FrameView::Paragraph(moved)]);
                        if moved.len() == 0 {
                            assert(push_spans_spec(st, moved) == st);
                            assert(fs.drop_first() =~= Seq::<FrameView>::empty());
                            assert(st + above_container(fs) =~= st);
                        } else {
                            law_spans_open_one_paragraph(st, moved);
                            assert(st + above_container(fs) =~= st.push(
                                FrameView::Paragraph(moved),
                            ));
                        }
                    }
                },
                _ => {
                    lemma_span_event_mechanics(st, g, e);
                    assert(after_span(g, event_span(e)) =~= after_span(fs0, event_span(e)).drop_first());
                    assert(fs[0] == fs0[0]);
                },
            }
        }
        assert(events_text(evs) == events_text(p) + inline_event_text(e));
        assert(stacked_text(fs) =~= events_text(evs));
        fs
    }
}

/// The events of one element: its start, its content, its end.
pub open spec fn element_events(tag: MdTagView, content: Seq<MdEventView>) -> Seq<MdEventView> {
    seq![MdEventView::Start(tag)] + content + seq![MdEventView::End(tag_end_of(tag))]
}

/// Splits the run of an element's events into its start, its content and its end.
proof fn lemma_element_events(st: Seq<FrameView>, tag: MdTagView, content: Seq<MdEventView>)
    ensures
        run_events(st, element_events(tag, content)) == apply_event_spec(
            run_events(apply_event_spec(st, MdEventView::Start(tag)), content),
            MdEventView::End(tag_end_of(tag)),
        ),
{
    let s0 = seq![MdEventView::Start(tag)];
    let all = element_events(tag, content);
    assert(all.drop_last() =~= s0 + content);
    assert(s0.drop_last() =~= Seq::<MdEventView>::empty());
    assert(run_events(st, s0.drop_last()) == st);
    assert(run_events(st, s0) == apply_event_spec(st, MdEventView::Start(tag)));
    lemma_run_events_concat(st, s0, content);
}

/// The spans a run of well-nested inline events leaves in a span-collecting
/// frame that started empty, on top of `st`.
proof fn lemma_inline_content(st: Seq<FrameView>, f: FrameView, evs: Seq<MdEventView>) -> (spans: Seq<
    SpanView,
>)
    requires
        accumulates(f),
        acc(f) == Seq::<SpanView>::empty(),
        well_nested_inline(evs),
    ensures
        run_events(st.push(f), evs) == st.push(with_spans(f, spans)),
        spans_text(spans) == events_text(evs),
{
    let fs = lemma_inline_run(st.push(f), evs);
    assert(st.push(f).drop_last() =~= st);
    let spans = acc(fs[0]);
    assert(fs =~= seq![with_spans(f, spans)]);
    assert(st + fs =~= st.push(with_spans(f, spans)));
    assert(fs.drop_last() =~= Seq::<FrameView>::empty());
    assert(stacked_text(fs.drop_last()) == Seq::<char>::empty());
    assert(stacked_text(fs) =~= spans_text(spans));
    assert(spans_text(acc(f)) == Seq::<char>::empty());
    assert(Seq::<char>::empty() + events_text(evs) =~= events_text(evs));
    spans
}

/// Law: a paragraph whose inline content is well nested becomes one paragraph
/// block, added at the end of the container it stands in, and its text is the
/// text of its inline events, in order (styling changes no text).
pub proof fn law_paragraph_keeps_inline_text(st: Seq<FrameView>, evs: Seq<MdEventView>) -> (spans:
    Seq<SpanView>)
    requires
        st.len() > 0,
        st.last() is Container,
        well_nested_inline(evs),
    ensures
        run_events(st, element_events(MdTagView::Paragraph, evs)) == replace_top(
            st,
            FrameView::Container(st.last()->Container_0.push(BlockView::Paragraph { spans })),
        ),
        spans_text(spans) == events_text(evs),
{
    let f = FrameView::Paragraph(Seq::empty());
    lemma_element_events(st, MdTagView::Paragraph, evs);
    assert(apply_event_spec(st, MdEventView::Start(MdTagView::Paragraph)) == st.push(f));
    let spans = lemma_inline_content(st, f, evs);
    assert(st.push(with_spans(f, spans)).drop_last() =~= st);
    spans
}

/// Law: a heading whose inline content is well nested becomes one heading block
/// of the same level, added at the end of the container it stands in, and its
/// text is the text of its inline events, in order.
pub proof fn law_heading_keeps_inline_text(
    st: Seq<FrameView>,
    level: u8,
    evs: Seq<MdEventView>,
) -> (spans: Seq<SpanView>)
    requires
        st.len() > 0,
        st.last() is Container,
        well_nested_inline(evs),
    ensures
        run_events(st, element_events(MdTagView::Heading(level), evs)) == replace_top(
            st,
            FrameView::Container(st.last()->Container_0.push(BlockView::Heading { level, spans })),
        ),
        spans_text(spans) == events_text(evs),
{
    let f = FrameView::Heading(Seq::empty());
    lemma_element_events(st, MdTagView::Heading(level), evs);
    assert(apply_event_spec(st, MdEventView::Start(MdTagView::Heading(level))) == st.push(f));
    let spans = lemma_inline_content(st, f, evs);
    assert(st.push(with_spans(f, spans)).drop_last() =~= st);
    spans
}

/// The blocks of a tight list item whose inline content left `spans` in its
/// implicit paragraph: that paragraph, or nothing when no span arose.
pub open spec fn tight_item_blocks(spans: Seq<SpanView>) -> Seq<BlockView> {
    if spans.len() == 0 {
        Seq::empty()
    } else {
        seq![BlockView::Paragraph { spans }]
    }
}

/// Law: a tight list item, whose inline content arrives with no paragraph
/// events, becomes the next item of the list it stands in; the item holds one
/// paragraph with the text of its inline events, in order (or no block at all
/// when no span arose).
pub proof fn law_tight_item_is_one_paragraph(st: Seq<FrameView>, evs: Seq<MdEventView>) -> (spans:
    Seq<SpanView>)
    requires
        st.len() > 0,
        st.last() is List,
        well_nested_inline(evs),
    ensures
        run_events(st, element_events(MdTagView::Item, evs)) == replace_top(
            st,
            FrameView::List {
                ordered: st.last()->ordered,
                start: st.last()->start,
                items: st.last()->items.push(tight_item_blocks(spans)),
            },
        ),
        spans_text(spans) == events_text(evs),
{
    let c = FrameView::Container(Seq::empty());
    lemma_element_events(st, MdTagView::Item, evs);
    let st1 = st.push(c);
    assert(apply_event_spec(st, MdEventView::Start(MdTagView::Item)) == st1);
    let fs = lemma_inline_run_in_container(st1, evs);
    let spans = acc(fs[0]);
    let top = FrameView::Paragraph(Seq::empty());
    lemma_with_spans(top, spans, Seq::empty());
    assert(fs =~= seq![FrameView::Paragraph(spans)]);
    assert(fs.drop_last() =~= Seq::<FrameView>::empty());
    assert(stacked_text(fs.drop_last()) == Seq::<char>::empty());
    assert(stacked_text(fs) =~= spans_text(spans));
    assert(st1.drop_last() =~= st);
    if spans.len() == 0 {
        assert(fs.drop_first() =~= Seq::<FrameView>::empty());
        assert(st1 + above_container(fs) =~= st1);
        assert(Seq::<BlockView>::empty() =~= tight_item_blocks(spans));
    } else {
        let s = st1.push(FrameView::Paragraph(spans));
        assert(st1 + above_container(fs) =~= s);
        assert(s.drop_last() =~= st1);
        assert(flush_spec(s) == st.push(FrameView::Container(seq![BlockView::Paragraph { spans }])));
        assert(st.push(FrameView::Container(seq![BlockView::Paragraph { spans }])).drop_last() =~= st);
    }
    spans
}

/// A run of text-bearing events on an image extends its alt text with their text.
proof fn lemma_alt_text_run(st: Seq<FrameView>, alt: Seq<char>, evs: Seq<MdEventView>)
    requires
        forall|i: int| 0 <= i < evs.len() ==> is_span_event(#[trigger] evs[i]),
    ensures
        run_events(st.push(FrameView::Image { alt }), evs) == st.push(
            FrameView::Image { alt: alt + events_text(evs) },
        ),
    decreases evs.len(),
{
    if evs.len() == 0 {
        assert(alt + events_text(evs) =~= alt);
    } else {
        let p = evs.drop_last();
        assert forall|i: int| 0 <= i < p.len() implies is_span_event(#[trigger] p[i]) by {
            assert(p[i] == evs[i]);
        }
        assert(is_span_event(evs[evs.len() - 1]));
        lemma_alt_text_run(st, alt, p);
        let s = st.push(FrameView::Image { alt: alt + events_text(p) });
        assert(s.drop_last() =~= st);
        assert(apply_event_spec(s, evs.last()) == st.push(
            FrameView::Image { alt: alt + events_text(p) + inline_event_text(evs.last()) },
        ));
        assert(alt + events_text(p) + inline_event_text(evs.last()) =~= alt + events_text(evs));
    }
}

/// Law: an image whose alt text arrives as text-bearing events stands in the
/// text as one plain span, `[image: ` then the alt text then `]`, handed to the
/// frame it appears in.
pub proof fn law_image_becomes_bracketed_alt_text(st: Seq<FrameView>, evs: Seq<MdEventView>)
    requires
        forall|i: int| 0 <= i < evs.len() ==> is_span_event(#[trigger] evs[i]),
    ensures
        run_events(st, element_events(MdTagView::Image, evs)) == push_span_spec(
            st,
            plain_span(image_text(events_text(evs))),
        ),
{
    lemma_element_events(st, MdTagView::Image, evs);
    let empty = Seq::<char>::empty();
    assert(apply_event_spec(st, MdEventView::Start(MdTagView::Image)) == st.push(
        FrameView::Image { alt: empty },
    ));
    lemma_alt_text_run(st, empty, evs);
    assert(empty + events_text(evs) =~= events_text(evs));
    assert(st.push(FrameView::Image { alt: events_text(evs) }).drop_last() =~= st);
}

/// Law: the blocks built inside a block quote end up, in order, in one block
/// quote block, added to the container the quote stands in (after a paragraph
/// left open there is closed).
pub proof fn law_block_quote_wraps_its_blocks(
    st: Seq<FrameView>,
    inner: Seq<MdEventView>,
    blocks: Seq<BlockView>,
)
    requires
        run_events(flush_spec(st).push(FrameView::Container(Seq::empty())), inner) == flush_spec(
            st,
        ).push(FrameView::Container(blocks)),
    ensures
        run_events(st, element_events(MdTagView::BlockQuote, inner)) == push_block_spec(
            flush_spec(st),
            BlockView::BlockQuote(blocks),
        ),
{
    lemma_element_events(st, MdTagView::BlockQuote, inner);
    assert(flush_spec(st).push(FrameView::Container(blocks)).drop_last() =~= flush_spec(st));
}

/// Law: the blocks built inside a list item become, in order, the next item of
/// the list it stands in.
pub proof fn law_list_item_wraps_its_blocks(
    st: Seq<FrameView>,
    inner: Seq<MdEventView>,
    blocks: Seq<BlockView>,
)
    requires
        st.len() > 0,
        st.last() is List,
        run_events(st.push(FrameView::Container(Seq::empty())), inner) == st.push(
            FrameView::Container(blocks),
        ),
    ensures
        run_events(st, element_events(MdTagView::Item, inner)) == replace_top(
            st,
            FrameView::List {
                ordered: st.last()->ordered,
                start: st.last()->start,
                items: st.last()->items.push(blocks),
            },
        ),
{
    lemma_element_events(st, MdTagView::Item, inner);
    assert(st.push(FrameView::Container(blocks)).drop_last() =~= st);
}

/// Law: a table cell whose inline content is well nested becomes one cell, with
/// the text of its inline events in order, of the row on top of the stack, or of
/// the header when the table itself is on top.
pub proof fn law_table_cell_keeps_inline_text(st: Seq<FrameView>, evs: Seq<MdEventView>) -> (spans:
    Seq<SpanView>)
    requires
        st.len() > 0,
        st.last() is TableRow || st.last() is Table,
        well_nested_inline(evs),
    ensures
        run_events(st, element_events(MdTagView::TableCell, evs)) == attach_cell_spec(st, spans),
        spans_text(spans) == events_text(evs),
{
    let f = FrameView::TableCell(Seq::empty());
    lemma_element_events(st, MdTagView::TableCell, evs);
    assert(apply_event_spec(st, MdEventView::Start(MdTagView::TableCell)) == st.push(f));
    let spans = lemma_inline_content(st, f, evs);
    assert(st.push(with_spans(f, spans)).drop_last() =~= st);
    spans
}

/// Law: the cells built inside a table row become, in order, the next body row
/// of the table it stands in.
pub proof fn law_table_row_wraps_its_cells(
    st: Seq<FrameView>,
    inner: Seq<MdEventView>,
    cells: Seq<Seq<SpanView>>,
)
    requires
        st.len() > 0,
        st.last() is Table,
        run_events(st.push(FrameView::TableRow(Seq::empty())), inner) == st.push(
            FrameView::TableRow(cells),
        ),
    ensures
        run_events(st, element_events(MdTagView::TableRow, inner)) == replace_top(
            st,
            FrameView::Table {
                alignments: st.last()->alignments,
                header: st.last()->header,
                rows: st.last()->rows.push(cells),
            },
        ),
{
    lemma_element_events(st, MdTagView::TableRow, inner);
    assert(st.push(FrameView::TableRow(cells)).drop_last() =~= st);
}

/// Law: a table keeps the column alignments its start tag gives, with the header
/// and rows built inside it, as one table block added to the container it stands
/// in (after a paragraph left open there is closed).
pub proof fn law_table_keeps_alignments_header_and_rows(
    st: Seq<FrameView>,
    alignments: Seq<Align>,
    inner: Seq<MdEventView>,
    header: Seq<Seq<SpanView>>,
    rows: Seq<Seq<Seq<SpanView>>>,
)
    requires
        run_events(
            flush_spec(st).push(
                FrameView::Table { alignments, header: Seq::empty(), rows: Seq::empty() },
            ),
            inner,
        ) == flush_spec(st).push(FrameView::Table { alignments, header, rows }),
    ensures
        run_events(st, element_events(MdTagView::Table(alignments), inner)) == push_block_spec(
            flush_spec(st),
            BlockView::Table { alignments, header, rows },
        ),
{
    lemma_element_events(st, MdTagView::Table(alignments), inner);
    assert(flush_spec(st).push(FrameView::Table { alignments, header, rows }).drop_last()
        =~= flush_spec(st));
}

/// The number a list starts at: the first number its start tag carries, 1 for
/// a bullet list.
pub open spec fn list_start(first: Option<u64>) -> u64 {
    match first {
        Some(n) => n,
        None => 1,
    }
}

/// Law: a list is ordered exactly when its start tag carries a first number, it
/// keeps that number (1 for a bullet list), and it holds the items built inside
/// it, as one list block added to the container it stands in (after a paragraph
/// left open there is closed).
pub proof fn law_list_keeps_its_start_and_items(
    st: Seq<FrameView>,
    first: Option<u64>,
    inner: Seq<MdEventView>,
    items: Seq<Seq<BlockView>>,
)
    requires
        run_events(
            flush_spec(st).push(
                FrameView::List {
                    ordered: first is Some,
                    start: list_start(first),
                    items: Seq::empty(),
                },
            ),
            inner,
        ) == flush_spec(st).push(
            FrameView::List { ordered: first is Some, start: list_start(first), items },
        ),
    ensures
        run_events(st, element_events(MdTagView::List(first), inner)) == push_block_spec(
            flush_spec(st),
            BlockView::List { ordered: first is Some, start: list_start(first), items },
        ),
{
    lemma_element_events(st, MdTagView::List(first), inner);
    let f = FrameView::List { ordered: first is Some, start: list_start(first), items };
    assert(flush_spec(st).push(f).drop_last() =~= flush_spec(st));
}

/// The style that a styling element lays on its spans.
pub open spec fn style_of(tag: MdTagView) -> SpanStyleView {
    match tag {
        MdTagView::Emphasis => SpanStyleView::Italic,
        MdTagView::Strong => SpanStyleView::Bold,
        _ => SpanStyleView::Link(tag->Link_0),
    }
}

/// Law: an emphasis, strong emphasis or link element whose content is well
/// nested hands the spans built from that content, each with the element's
/// style laid on it (italic, bold, or the link's destination), to the frame it
/// stands in; their text is the text of the content, in order.
pub proof fn law_styling_element_styles_its_spans(
    st: Seq<FrameView>,
    tag: MdTagView,
    evs: Seq<MdEventView>,
) -> (spans: Seq<SpanView>)
    requires
        is_styling_tag(tag_end_of(tag)),
        well_nested_inline(evs),
    ensures
        run_events(st, element_events(tag, evs)) == push_spans_spec(
            st,
            styled_all(spans, style_of(tag)),
        ),
        spans_text(spans) == events_text(evs),
{
    let f = styling_frame(tag);
    lemma_element_events(st, tag, evs);
    assert(apply_event_spec(st, MdEventView::Start(tag)) == st.push(f));
    let spans = lemma_inline_content(st, f, evs);
    let s = st.push(with_spans(f, spans));
    assert(s.drop_last() =~= st);
    assert(close_tag_spec(s, tag_end_of(tag)) == push_spans_spec(
        st,
        styled_all(spans, style_of(tag)),
    ));
    spans
}

/// What an HTML block's content arrives as: HTML lines, and text, inline code,
/// inline HTML and breaks.
pub open spec fn is_html_content(e: MdEventView) -> bool {
    e is Html || is_span_event(e)
}

/// Content events change nothing while an HTML block's frame is on top.
proof fn lemma_html_content_run(st: Seq<FrameView>, evs: Seq<MdEventView>)
    requires
        st.len() > 0,
        st.last() is HtmlBlock,
        forall|i: int| 0 <= i < evs.len() ==> is_html_content(#[trigger] evs[i]),
    ensures
        run_events(st, evs) == st,
    decreases evs.len(),
{
    if evs.len() > 0 {
        assert forall|i: int| 0 <= i < evs.drop_last().len() implies is_html_content(
            #[trigger] evs.drop_last()[i],
        ) by {
            assert(evs.drop_last()[i] == evs[i]);
        }
        assert(is_html_content(evs[evs.len() - 1]));
        lemma_html_content_run(st, evs.drop_last());
    }
}

/// Law: an HTML block is not rendered and loses nothing around it: after it, the
/// stack is exactly as it was before the block opened (with a paragraph left
/// open there closed first, as before any block), so the blocks built before it
/// and after it stay in the document.
pub proof fn law_html_block_is_dropped(st: Seq<FrameView>, evs: Seq<MdEventView>)
    requires
        forall|i: int| 0 <= i < evs.len() ==> is_html_content(#[trigger] evs[i]),
    ensures
        run_events(st, element_events(MdTagView::HtmlBlock, evs)) == flush_spec(st),
{
    lemma_element_events(st, MdTagView::HtmlBlock, evs);
    let s = flush_spec(st).push(FrameView::HtmlBlock);
    assert(apply_event_spec(st, MdEventView::Start(MdTagView::HtmlBlock)) == s);
    lemma_html_content_run(s, evs);
    assert(s.drop_last().push(s.last()) =~= s);
    assert(last_html_index(s) == s.len() - 1);
    assert(s.take(s.len() - 1) =~= flush_spec(st));
}

/// Text events extend the code block on top of the stack by their text.
proof fn lemma_code_text_run(st: Seq<FrameView>, text: Seq<char>, evs: Seq<MdEventView>)
    requires
        forall|i: int| 0 <= i < evs.len() ==> #[trigger] evs[i] is Text,
    ensures
        run_events(st.push(FrameView::CodeBlock(text)), evs) == st.push(
            FrameView::CodeBlock(text + events_text(evs)),
        ),
    decreases evs.len(),
{
    if evs.len() == 0 {
        assert(text + events_text(evs) =~= text);
    } else {
        let p = evs.drop_last();
        assert forall|i: int| 0 <= i < p.len() implies #[trigger] p[i] is Text by {
            assert(p[i] == evs[i]);
        }
        assert(evs[evs.len() - 1] is Text);
        lemma_code_text_run(st, text, p);
        let s = st.push(FrameView::CodeBlock(text + events_text(p)));
        assert(s.drop_last() =~= st);
        assert(text + events_text(p) + inline_event_text(evs.last()) =~= text + events_text(evs));
    }
}

/// Law: a code block whose content arrives as text events (one per line)
/// becomes one code block whose text is all of those texts joined, in order,
/// added to the container it stands in (after a paragraph left open there is
/// closed): no line of the block is lost or reordered.
pub proof fn law_code_block_keeps_its_text(st: Seq<FrameView>, evs: Seq<MdEventView>)
    requires
        forall|i: int| 0 <= i < evs.len() ==> #[trigger] evs[i] is Text,
    ensures
        run_events(st, element_events(MdTagView::CodeBlock, evs)) == push_block_spec(
            flush_spec(st),
            BlockView::CodeBlock { text: events_text(evs) },
        ),
{
    lemma_element_events(st, MdTagView::CodeBlock, evs);
    let empty = Seq::<char>::empty();
    let s = flush_spec(st);
    assert(apply_event_spec(st, MdEventView::Start(MdTagView::CodeBlock)) == s.push(
        FrameView::CodeBlock(empty),
    ));
    lemma_code_text_run(s, empty, evs);
    assert(empty + events_text(evs) =~= events_text(evs));
    assert(s.push(FrameView::CodeBlock(events_text(evs))).drop_last() =~= s);
}

/// Law: closing a table cell that stands on a row adds exactly one cell to that
/// row, at its end, holding the cell's spans, whatever they are (an empty cell
/// keeps its place in its column); nothing else on the stack changes.
pub proof fn law_table_cell_joins_its_row(
    st: Seq<FrameView>,
    cells: Seq<Seq<SpanView>>,
    spans: Seq<SpanView>,
)
    ensures
        close_tag_spec(
            st.push(FrameView::TableRow(cells)).push(FrameView::TableCell(spans)),
            MdTagEnd::TableCell,
        ) == st.push(FrameView::TableRow(cells.push(spans))),
{
    let s = st.push(FrameView::TableRow(cells));
    assert(s.push(FrameView::TableCell(spans)).drop_last() =~= s);
    assert(s.drop_last() =~= st);
}

/// Law: closing a table cell that stands directly on a table (a header cell)
/// adds exactly one cell to the header, at its end, holding the cell's spans,
/// whatever they are; the alignments and body rows stay as they were.
pub proof fn law_header_cell_joins_the_header(
    st: Seq<FrameView>,
    alignments: Seq<Align>,
    header: Seq<Seq<SpanView>>,
    rows: Seq<Seq<Seq<SpanView>>>,
    spans: Seq<SpanView>,
)
    ensures
        close_tag_spec(
            st.push(FrameView::Table { alignments, header, rows }).push(
                FrameView::TableCell(spans),
            ),
            MdTagEnd::TableCell,
        ) == st.push(FrameView::Table { alignments, header: header.push(spans), rows }),
{
    let s = st.push(FrameView::Table { alignments, header, rows });
    assert(s.push(FrameView::TableCell(spans)).drop_last() =~= s);
    assert(s.drop_last() =~= st);
}

} // verus!
