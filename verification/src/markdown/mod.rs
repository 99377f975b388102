//! Markdown front end: turns the pulldown-cmark event stream into the
//! [`crate::ir`] block tree.
//!
//! Only the table extension is turned on. Everything else CommonMark can emit
//! without an extension flag (block quotes, images, thematic breaks, raw HTML) is
//! handled here; constructs of extensions that are not enabled (strikethrough,
//! task lists, footnotes, ...) reach the parser as literal text, which is itself
//! the best-effort, never-fail fallback.

pub mod close;
pub mod event;
pub mod frame;
pub mod laws;
pub mod levels;
pub mod open;
pub mod source;
pub mod stack;

use crate::ir::{blocks_view, Block, BlockView};
use event::{apply_event, apply_event_spec, MdEvent, MdEventView};
use frame::{lemma_stack_view_drop_last, stack_view, Frame, FrameView};
use levels::{blocks_levels_ok, law_heading_levels_stay_in_range};
use source::{markdown_events, markdown_events_of};
use vstd::prelude::*;

verus! {

/// The stack the parser starts from: one empty root container.
pub open spec fn initial_stack() -> Seq<FrameView> {
    seq![FrameView::Container(Seq::empty())]
}

/// The stack after applying `events` in order to `st`.
pub open spec fn run_events(st: Seq<FrameView>, events: Seq<MdEventView>) -> Seq<FrameView>
    decreases events.len(),
{
    if events.len() == 0 {
        st
    } else {
        apply_event_spec(run_events(st, events.drop_last()), events.last())
    }
}

/// The blocks that remain once every event is applied: those of the container
/// on top of the stack, or none when the top is no container.
pub open spec fn final_blocks(st: Seq<FrameView>) -> Seq<BlockView> {
    if st.len() > 0 && st.last() is Container {
        st.last()->Container_0
    } else {
        Seq::empty()
    }
}

/// The block tree that an event stream describes.
pub open spec fn parse_events_spec(events: Seq<MdEventView>) -> Seq<BlockView> {
    final_blocks(run_events(initial_stack(), events))
}

/// The block tree of a Markdown document.
pub open spec fn parse_spec(input: Seq<char>) -> Seq<BlockView> {
    parse_events_spec(markdown_events_of(input))
}

/// Builds the block tree that an event stream describes.
pub fn parse_events(events: Vec<MdEvent>) -> (blocks: Vec<Block>)
    ensures
        blocks_view(blocks@) == parse_events_spec(events@.map_values(|e: MdEvent| e@)),
{
    let ghost evs = events@.map_values(|e: MdEvent| e@);
    let ghost elems = events@;
    let root: Vec<Block> = Vec::new();
    let mut stack: Vec<Frame> = Vec::new();
    stack.push(Frame::Container(root));
    proof {
        assert(stack_view(stack@) =~= initial_stack());
    }
    for event in it: events.into_iter()
        invariant
            it.seq() == elems,
            evs == elems.map_values(|e: MdEvent| e@),
            stack_view(stack@) == run_events(initial_stack(), evs.take(it.index() as int)),
    {
        let ghost i = it.index();
        apply_event(&mut stack, event);
        proof {
            assert(evs.take(i + 1).drop_last() =~= evs.take(i as int));
        }
    }
    proof {
        assert(evs.take(elems.len() as int) =~= evs);
        if stack@.len() > 0 {
            lemma_stack_view_drop_last(stack@);
        }
    }
    match stack.pop() {
        Some(Frame::Container(blocks)) => blocks,
        _ => Vec::new(),
    }
}

/// Parses a Markdown document into its block tree. Parsing never fails: what
/// the parser does not interpret falls back to plain text or is left out.
pub fn parse(input: &str) -> (blocks: Vec<Block>)
    ensures
        blocks_view(blocks@) == parse_spec(input@),
        blocks_levels_ok(blocks_view(blocks@)),
{
    let events = markdown_events(input);
    proof {
        law_heading_levels_stay_in_range(markdown_events_of(input@));
    }
    parse_events(events)
}

} // verus!
