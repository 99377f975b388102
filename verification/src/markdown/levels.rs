//! Heading levels: every heading the parser builds has a level from 1 to 6,
//! provided the events it reads do.

use super::close::{
    attach_cell_spec, close_tag_spec, image_text, last_html_index, lemma_last_html_index_bounds,
};
use super::event::{apply_event_spec, MdEventView, MdTagEnd, MdTagView};
use super::frame::{replace_top, with_spans, FrameView};
use super::open::open_tag_spec;
use super::stack::{
    append_span_spec, flush_spec, open_implicit_paragraph, push_block_spec, push_code_spec,
    push_span_spec, push_spans_spec, push_text_spec, styled_all, SpanStyleView,
};
use super::{initial_stack, parse_events_spec, run_events};
use crate::ir::{BlockView, SpanView};
use vstd::prelude::*;

verus! {

/// A heading level that Markdown has: 1 to 6.
pub open spec fn level_in_range(level: u8) -> bool {
    1 <= level <= 6
}

/// Every heading in `b`, at any depth, has a level from 1 to 6.
pub open spec fn block_levels_ok(b: BlockView) -> bool
    decreases b,
{
    match b {
        BlockView::Heading { level, .. } => level_in_range(level),
        BlockView::List { items, .. } => items_levels_ok(items),
        BlockView::BlockQuote(bs) => blocks_levels_ok(bs),
        _ => true,
    }
}

/// Every heading in `bs`, at any depth, has a level from 1 to 6.
pub open spec fn blocks_levels_ok(bs: Seq<BlockView>) -> bool
    decreases bs,
{
    bs.len() == 0 || (block_levels_ok(bs[0]) && blocks_levels_ok(bs.drop_first()))
}

/// Every heading in the list items `items`, at any depth, has a level from 1 to 6.
pub open spec fn items_levels_ok(items: Seq<Seq<BlockView>>) -> bool
    decreases items,
{
    items.len() == 0 || (blocks_levels_ok(items[0]) && items_levels_ok(items.drop_first()))
}

/// `blocks_levels_ok` holds exactly when it holds of each block.
pub proof fn lemma_blocks_levels_ok(bs: Seq<BlockView>)
    ensures
        blocks_levels_ok(bs) == (forall|i: int| 0 <= i < bs.len() ==> #[trigger] block_levels_ok(bs[i])),
    decreases bs.len(),
{
    if bs.len() > 0 {
        lemma_blocks_levels_ok(bs.drop_first());
        assert forall|i: int| 1 <= i < bs.len() implies #[trigger] bs.drop_first()[i - 1] == bs[i] by {}
        if forall|i: int| 0 <= i < bs.len() ==> #[trigger] block_levels_ok(bs[i]) {
            assert forall|i: int| 0 <= i < bs.drop_first().len() implies #[trigger] block_levels_ok(
                bs.drop_first()[i],
            ) by {
                assert(block_levels_ok(bs[i + 1]));
            }
            assert(block_levels_ok(bs[0]));
            assert(blocks_levels_ok(bs.drop_first()));
            assert(blocks_levels_ok(bs));
        }
        if blocks_levels_ok(bs) {
            assert forall|i: int| 0 <= i < bs.len() implies #[trigger] block_levels_ok(bs[i]) by {
                if i > 0 {
                    assert(block_levels_ok(bs.drop_first()[i - 1]));
                }
            }
        }
    }
}

/// `items_levels_ok` holds exactly when `blocks_levels_ok` holds of each item.
pub proof fn lemma_items_levels_ok(items: Seq<Seq<BlockView>>)
    ensures
        items_levels_ok(items) == (forall|i: int| 0 <= i < items.len() ==> #[trigger] blocks_levels_ok(items[i])),
    decreases items.len(),
{
    if items.len() > 0 {
        lemma_items_levels_ok(items.drop_first());
        assert forall|i: int| 1 <= i < items.len() implies #[trigger] items.drop_first()[i - 1] == items[i] by {}
        if forall|i: int| 0 <= i < items.len() ==> #[trigger] blocks_levels_ok(items[i]) {
            assert forall|i: int| 0 <= i < items.drop_first().len() implies #[trigger] blocks_levels_ok(
                items.drop_first()[i],
            ) by {
                assert(blocks_levels_ok(items[i + 1]));
            }
            assert(blocks_levels_ok(items[0]));
            assert(items_levels_ok(items.drop_first()));
            assert(items_levels_ok(items));
        }
        if items_levels_ok(items) {
            assert forall|i: int| 0 <= i < items.len() implies #[trigger] blocks_levels_ok(items[i]) by {
                if i > 0 {
                    assert(blocks_levels_ok(items.drop_first()[i - 1]));
                }
            }
        }
    }
}

/// Every heading already built inside frame `f` has a level from 1 to 6.
pub open spec fn frame_levels_ok(f: FrameView) -> bool {
    match f {
        FrameView::Container(bs) => blocks_levels_ok(bs),
        FrameView::List { items, .. } => items_levels_ok(items),
        _ => true,
    }
}

/// Every heading already built on the stack has a level from 1 to 6.
pub open spec fn stack_levels_ok(st: Seq<FrameView>) -> bool {
    forall|k: int| 0 <= k < st.len() ==> #[trigger] frame_levels_ok(st[k])
}

/// The event names a heading level from 1 to 6, if it names one at all.
pub open spec fn event_levels_ok(e: MdEventView) -> bool {
    match e {
        MdEventView::Start(MdTagView::Heading(level)) => level_in_range(level),
        MdEventView::End(MdTagEnd::Heading(level)) => level_in_range(level),
        _ => true,
    }
}

proof fn lemma_push_frame(st: Seq<FrameView>, f: FrameView)
    requires
        stack_levels_ok(st),
        frame_levels_ok(f),
    ensures
        stack_levels_ok(st.push(f)),
{
    assert forall|k: int| 0 <= k < st.push(f).len() implies #[trigger] frame_levels_ok(
        st.push(f)[k],
    ) by {
        if k < st.len() {
            assert(st.push(f)[k] == st[k]);
        }
    }
}

proof fn lemma_drop_frame(st: Seq<FrameView>)
    requires
        stack_levels_ok(st),
        st.len() > 0,
    ensures
        stack_levels_ok(st.drop_last()),
        frame_levels_ok(st.last()),
{
    assert(frame_levels_ok(st[st.len() - 1]));
    assert forall|k: int| 0 <= k < st.drop_last().len() implies #[trigger] frame_levels_ok(
        st.drop_last()[k],
    ) by {
        assert(st.drop_last()[k] == st[k]);
    }
}

proof fn lemma_replace_frame(st: Seq<FrameView>, f: FrameView)
    requires
        stack_levels_ok(st),
        st.len() > 0,
        frame_levels_ok(f),
    ensures
        stack_levels_ok(replace_top(st, f)),
{
    lemma_drop_frame(st);
    lemma_push_frame(st.drop_last(), f);
}

proof fn lemma_blocks_push(bs: Seq<BlockView>, b: BlockView)
    requires
        blocks_levels_ok(bs),
        block_levels_ok(b),
    ensures
        blocks_levels_ok(bs.push(b)),
{
    lemma_blocks_levels_ok(bs);
    lemma_blocks_levels_ok(bs.push(b));
    assert forall|i: int| 0 <= i < bs.push(b).len() implies #[trigger] block_levels_ok(
        bs.push(b)[i],
    ) by {
        if i < bs.len() {
            assert(bs.push(b)[i] == bs[i]);
        }
    }
}

proof fn lemma_items_push(items: Seq<Seq<BlockView>>, bs: Seq<BlockView>)
    requires
        items_levels_ok(items),
        blocks_levels_ok(bs),
    ensures
        items_levels_ok(items.push(bs)),
{
    lemma_items_levels_ok(items);
    lemma_items_levels_ok(items.push(bs));
    assert forall|i: int| 0 <= i < items.push(bs).len() implies #[trigger] blocks_levels_ok(
        items.push(bs)[i],
    ) by {
        if i < items.len() {
            assert(items.push(bs)[i] == items[i]);
        }
    }
}

proof fn lemma_push_block(st: Seq<FrameView>, b: BlockView)
    requires
        stack_levels_ok(st),
        block_levels_ok(b),
    ensures
        stack_levels_ok(push_block_spec(st, b)),
{
    if st.len() > 0 {
        lemma_drop_frame(st);
        if st.last() is Container {
            lemma_blocks_push(st.last()->Container_0, b);
            lemma_replace_frame(st, FrameView::Container(st.last()->Container_0.push(b)));
        }
    }
}

proof fn lemma_push_span(st: Seq<FrameView>, s: SpanView)
    requires
        stack_levels_ok(st),
    ensures
        stack_levels_ok(push_span_spec(st, s)),
{
    let opened = open_implicit_paragraph(st);
    if st.len() > 0 && st.last() is Container {
        lemma_push_frame(st, FrameView::Paragraph(Seq::empty()));
    }
    assert(stack_levels_ok(opened));
    if opened.len() > 0 && append_span_spec(opened, s) != opened {
        let f = opened.last();
        lemma_replace_frame(opened, with_spans(f, super::frame::accumulated_spans(f)->0.push(s)));
    }
}

proof fn lemma_push_spans(st: Seq<FrameView>, spans: Seq<SpanView>)
    requires
        stack_levels_ok(st),
    ensures
        stack_levels_ok(push_spans_spec(st, spans)),
    decreases spans.len(),
{
    if spans.len() > 0 {
        lemma_push_spans(st, spans.drop_last());
        lemma_push_span(push_spans_spec(st, spans.drop_last()), spans.last());
    }
}

proof fn lemma_push_text(st: Seq<FrameView>, t: Seq<char>)
    requires
        stack_levels_ok(st),
    ensures
        stack_levels_ok(push_text_spec(st, t)),
        stack_levels_ok(push_code_spec(st, t)),
{
    if st.len() > 0 {
        lemma_drop_frame(st);
    }
    if st.len() > 0 && st.last() is CodeBlock {
        lemma_replace_frame(st, FrameView::CodeBlock(st.last()->CodeBlock_0 + t));
    }
    if st.len() > 0 && st.last() is Image {
        lemma_replace_frame(st, FrameView::Image { alt: st.last()->alt + t });
    }
    lemma_push_span(st, crate::ir::plain_span(t));
    lemma_push_span(st, super::stack::code_span(t));
}

proof fn lemma_flush(st: Seq<FrameView>)
    requires
        stack_levels_ok(st),
    ensures
        stack_levels_ok(flush_spec(st)),
{
    if st.len() > 0 && st.last() is Paragraph {
        lemma_drop_frame(st);
        lemma_push_block(st.drop_last(), BlockView::Paragraph { spans: st.last()->Paragraph_0 });
    }
}

proof fn lemma_open(st: Seq<FrameView>, tag: MdTagView)
    requires
        stack_levels_ok(st),
    ensures
        stack_levels_ok(open_tag_spec(st, tag)),
{
    let f = open_tag_spec(st, tag).last();
    if !(tag is Other) {
        assert(open_tag_spec(st, tag) == st.push(f));
        assert(forall|i: int| 0 <= i < Seq::<BlockView>::empty().len() ==> block_levels_ok(
            #[trigger] Seq::<BlockView>::empty()[i],
        ));
        lemma_push_frame(st, f);
    }
}

proof fn lemma_close(st: Seq<FrameView>, end: MdTagEnd)
    requires
        stack_levels_ok(st),
        end matches MdTagEnd::Heading(level) ==> level_in_range(level),
    ensures
        stack_levels_ok(close_tag_spec(st, end)),
{
    if st.len() > 0 {
        lemma_drop_frame(st);
        let rest = st.drop_last();
        let top = st.last();
        match end {
            MdTagEnd::Other => {
                lemma_push_frame(rest, top);
            },
            MdTagEnd::HtmlBlock => {
                let s = rest.push(top);
                lemma_push_frame(rest, top);
                lemma_last_html_index_bounds(s);
                if last_html_index(s) >= 0 {
                    assert forall|k: int| 0 <= k < s.take(last_html_index(s)).len() implies
                        #[trigger] frame_levels_ok(s.take(last_html_index(s))[k]) by {
                        assert(s.take(last_html_index(s))[k] == s[k]);
                    }
                }
            },
            MdTagEnd::Paragraph => {
                if top is Paragraph {
                    lemma_push_block(rest, BlockView::Paragraph { spans: top->Paragraph_0 });
                }
            },
            MdTagEnd::Heading(level) => {
                if top is Heading {
                    lemma_push_block(rest, BlockView::Heading { level, spans: top->Heading_0 });
                }
            },
            MdTagEnd::BlockQuote => {
                if top is Container {
                    lemma_push_block(rest, BlockView::BlockQuote(top->Container_0));
                }
            },
            MdTagEnd::CodeBlock => {
                if top is CodeBlock {
                    lemma_push_block(rest, BlockView::CodeBlock { text: top->CodeBlock_0 });
                }
            },
            MdTagEnd::List => {
                if top is List {
                    let b = BlockView::List {
                        ordered: top->ordered,
                        start: top->start,
                        items: top->items,
                    };
                    lemma_push_block(rest, b);
                }
            },
            MdTagEnd::Item => {
                if top is Container && rest.len() > 0 && rest.last() is List {
                    lemma_drop_frame(rest);
                    let items = rest.last()->items.push(top->Container_0);
                    lemma_items_push(rest.last()->items, top->Container_0);
                    lemma_replace_frame(
                        rest,
                        FrameView::List {
                            ordered: rest.last()->ordered,
                            start: rest.last()->start,
                            items,
                        },
                    );
                }
            },
            MdTagEnd::Table => {
                if top is Table {
                    lemma_push_block(
                        rest,
                        BlockView::Table {
                            alignments: top->alignments,
                            header: top->header,
                            rows: top->rows,
                        },
                    );
                }
            },
            MdTagEnd::TableRow => {
                if top is TableRow && rest.len() > 0 && rest.last() is Table {
                    lemma_replace_frame(
                        rest,
                        FrameView::Table {
                            alignments: rest.last()->alignments,
                            header: rest.last()->header,
                            rows: rest.last()->rows.push(top->TableRow_0),
                        },
                    );
                }
            },
            MdTagEnd::TableCell => {
                if top is TableCell && rest.len() > 0 {
                    let f = attach_cell_spec(rest, top->TableCell_0).last();
                    if rest.last() is TableRow || rest.last() is Table {
                        lemma_replace_frame(rest, f);
                    }
                }
            },
            MdTagEnd::Emphasis => {
                if top is Emphasis {
                    lemma_push_spans(rest, styled_all(top->Emphasis_0, SpanStyleView::Italic));
                }
            },
            MdTagEnd::Strong => {
                if top is Strong {
                    lemma_push_spans(rest, styled_all(top->Strong_0, SpanStyleView::Bold));
                }
            },
            MdTagEnd::Link => {
                if top is Link {
                    lemma_push_spans(rest, styled_all(top->spans, SpanStyleView::Link(top->url)));
                }
            },
            MdTagEnd::Image => {
                if top is Image {
                    lemma_push_span(rest, crate::ir::plain_span(image_text(top->alt)));
                }
            },
        }
    }
}

/// One event keeps every heading on the stack within range, provided the event
/// names no level out of range.
proof fn lemma_apply_event(st: Seq<FrameView>, e: MdEventView)
    requires
        stack_levels_ok(st),
        event_levels_ok(e),
    ensures
        stack_levels_ok(apply_event_spec(st, e)),
{
    match e {
        MdEventView::Start(tag) => {
            lemma_flush(st);
            lemma_open(st, tag);
            lemma_open(flush_spec(st), tag);
        },
        MdEventView::End(end) => {
            lemma_flush(st);
            lemma_close(st, end);
            lemma_close(flush_spec(st), end);
        },
        MdEventView::Text(t) => lemma_push_text(st, t),
        MdEventView::Code(t) => lemma_push_text(st, t),
        MdEventView::Html(t) => lemma_push_text(st, t),
        MdEventView::InlineHtml(t) => lemma_push_text(st, t),
        MdEventView::SoftBreak => lemma_push_text(st, " "@),
        MdEventView::HardBreak => lemma_push_text(st, "\n"@),
        MdEventView::Rule => lemma_push_block(st, BlockView::ThematicBreak),
        MdEventView::Other => {},
    }
}

proof fn lemma_run_events(st: Seq<FrameView>, evs: Seq<MdEventView>)
    requires
        stack_levels_ok(st),
        forall|i: int| 0 <= i < evs.len() ==> #[trigger] event_levels_ok(evs[i]),
    ensures
        stack_levels_ok(run_events(st, evs)),
    decreases evs.len(),
{
    if evs.len() > 0 {
        assert forall|i: int| 0 <= i < evs.drop_last().len() implies #[trigger] event_levels_ok(
            evs.drop_last()[i],
        ) by {
            assert(evs.drop_last()[i] == evs[i]);
        }
        lemma_run_events(st, evs.drop_last());
        assert(event_levels_ok(evs[evs.len() - 1]));
        lemma_apply_event(run_events(st, evs.drop_last()), evs.last());
    }
}

/// Law: when every heading level in an event stream lies from 1 to 6, so does
/// the level of every heading, at any depth, in the blocks built from it.
pub proof fn law_heading_levels_stay_in_range(evs: Seq<MdEventView>)
    requires
        forall|i: int| 0 <= i < evs.len() ==> #[trigger] event_levels_ok(evs[i]),
    ensures
        blocks_levels_ok(parse_events_spec(evs)),
{
    assert(frame_levels_ok(initial_stack()[0]));
    assert(stack_levels_ok(initial_stack()));
    lemma_run_events(initial_stack(), evs);
    let st = run_events(initial_stack(), evs);
    if st.len() > 0 && st.last() is Container {
        lemma_drop_frame(st);
    }
}

} // verus!
