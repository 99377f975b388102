//! Intermediate representation produced by the Markdown parser and consumed
//! by the PDF layout engine.

use vstd::prelude::*;

verus! {

/// A run of inline text sharing one style.
#[derive(Debug, Clone, Default, PartialEq)]
pub struct Span {
    pub text: String,
    pub bold: bool,
    pub italic: bool,
    pub code: bool,
    pub link: Option<String>,
}

/// Mathematical model of a [`Span`].
pub struct SpanView {
    pub text: Seq<char>,
    pub bold: bool,
    pub italic: bool,
    pub code: bool,
    pub link: Option<Seq<char>>,
}

pub open spec fn opt_string_view(s: Option<String>) -> Option<Seq<char>> {
    match s {
        Some(t) => Some(t@),
        None => None,
    }
}

impl View for Span {
    type V = SpanView;

    open spec fn view(&self) -> SpanView {
        SpanView {
            text: self.text@,
            bold: self.bold,
            italic: self.italic,
            code: self.code,
            link: opt_string_view(self.link),
        }
    }
}

/// An unstyled span holding `text`.
pub open spec fn plain_span(text: Seq<char>) -> SpanView {
    SpanView { text, bold: false, italic: false, code: false, link: None }
}

impl Span {
    /// An unstyled span: no bold, italic, code or link.
    pub fn plain(text: String) -> (s: Span)
        ensures
            s@ == plain_span(text@),
    {
        Span { text, bold: false, italic: false, code: false, link: None }
    }
}

/// The text of a run of spans, joined in order.
pub open spec fn spans_text(spans: Seq<SpanView>) -> Seq<char>
    decreases spans.len(),
{
    if spans.len() == 0 {
        Seq::empty()
    } else {
        spans_text(spans.drop_last()) + spans.last().text
    }
}

/// Table column alignment.
#[derive(Debug, Clone, Copy, PartialEq, Eq)]
pub enum Align {
    Left,
    Center,
    Right,
    /// No alignment given for the column (the `None` alignment of the
    /// Markdown table syntax).
    Unaligned,
}

/// A block of the document tree.
#[derive(Debug, PartialEq)]
pub enum Block {
    Heading { level: u8, spans: Vec<Span> },
    Paragraph { spans: Vec<Span> },
    CodeBlock { text: String },
    List { ordered: bool, start: u64, items: Vec<Vec<Block>> },
    BlockQuote(Vec<Block>),
    Table { alignments: Vec<Align>, header: Vec<Vec<Span>>, rows: Vec<Vec<Vec<Span>>> },
    ThematicBreak,
}

/// Mathematical model of a [`Block`].
pub enum BlockView {
    Heading { level: u8, spans: Seq<SpanView> },
    Paragraph { spans: Seq<SpanView> },
    CodeBlock { text: Seq<char> },
    List { ordered: bool, start: u64, items: Seq<Seq<BlockView>> },
    BlockQuote(Seq<BlockView>),
    Table {
        alignments: Seq<Align>,
        header: Seq<Seq<SpanView>>,
        rows: Seq<Seq<Seq<SpanView>>>,
    },
    ThematicBreak,
}

pub open spec fn spans_view(s: Seq<Span>) -> Seq<SpanView> {
    s.map_values(|x: Span| x@)
}

pub open spec fn cells_view(s: Seq<Vec<Span>>) -> Seq<Seq<SpanView>> {
    s.map_values(|c: Vec<Span>| spans_view(c@))
}

pub open spec fn rows_view(s: Seq<Vec<Vec<Span>>>) -> Seq<Seq<Seq<SpanView>>> {
    s.map_values(|r: Vec<Vec<Span>>| cells_view(r@))
}

pub open spec fn block_view(b: Block) -> BlockView
    decreases b,
{
    match b {
        Block::Heading { level, spans } => BlockView::Heading { level, spans: spans_view(spans@) },
        Block::Paragraph { spans } => BlockView::Paragraph { spans: spans_view(spans@) },
        Block::CodeBlock { text } => BlockView::CodeBlock { text: text@ },
        Block::List { ordered, start, items } => BlockView::List {
            ordered,
            start,
            items: items_view(items@),
        },
        Block::BlockQuote(blocks) => BlockView::BlockQuote(blocks_view(blocks@)),
        Block::Table { alignments, header, rows } => BlockView::Table {
            alignments: alignments@,
            header: cells_view(header@),
            rows: rows_view(rows@),
        },
        Block::ThematicBreak => BlockView::ThematicBreak,
    }
}

pub open spec fn blocks_view(bs: Seq<Block>) -> Seq<BlockView>
    decreases bs,
{
    if bs.len() == 0 {
        Seq::empty()
    } else {
        seq![block_view(bs[0])] + blocks_view(bs.drop_first())
    }
}

pub open spec fn items_view(items: Seq<Vec<Block>>) -> Seq<Seq<BlockView>>
    decreases items,
{
    if items.len() == 0 {
        Seq::empty()
    } else {
        seq![blocks_view(items[0]@)] + items_view(items.drop_first())
    }
}

/// `blocks_view` maps each block to its view, index by index.
pub proof fn lemma_blocks_view(bs: Seq<Block>)
    ensures
        blocks_view(bs).len() == bs.len(),
        forall|i: int| 0 <= i < bs.len() ==> #[trigger] blocks_view(bs)[i] == block_view(bs[i]),
    decreases bs.len(),
{
    if bs.len() > 0 {
        lemma_blocks_view(bs.drop_first());
        assert forall|i: int| 0 <= i < bs.len() implies #[trigger] blocks_view(bs)[i] == block_view(
            bs[i],
        ) by {
            if i > 0 {
                assert(bs.drop_first()[i - 1] == bs[i]);
            }
        }
    }
}

/// Appending a block appends its view.
pub proof fn lemma_blocks_view_push(bs: Seq<Block>, b: Block)
    ensures
        blocks_view(bs.push(b)) == blocks_view(bs).push(block_view(b)),
{
    lemma_blocks_view(bs);
    lemma_blocks_view(bs.push(b));
    assert(blocks_view(bs.push(b)) =~= blocks_view(bs).push(block_view(b)));
}

/// `items_view` maps each list item to the views of its blocks, index by index.
pub proof fn lemma_items_view(items: Seq<Vec<Block>>)
    ensures
        items_view(items).len() == items.len(),
        forall|i: int|
            0 <= i < items.len() ==> #[trigger] items_view(items)[i] == blocks_view(items[i]@),
    decreases items.len(),
{
    if items.len() > 0 {
        lemma_items_view(items.drop_first());
        assert forall|i: int| 0 <= i < items.len() implies #[trigger] items_view(items)[i]
            == blocks_view(items[i]@) by {
            if i > 0 {
                assert(items.drop_first()[i - 1] == items[i]);
            }
        }
    }
}

/// Appending a list item appends its view.
pub proof fn lemma_items_view_push(items: Seq<Vec<Block>>, item: Vec<Block>)
    ensures
        items_view(items.push(item)) == items_view(items).push(blocks_view(item@)),
{
    lemma_items_view(items);
    lemma_items_view(items.push(item));
    assert(items_view(items.push(item)) =~= items_view(items).push(blocks_view(item@)));
}

impl View for Block {
    type V = BlockView;

    open spec fn view(&self) -> BlockView {
        block_view(*self)
    }
}

/// A copy of a run of spans.
fn clone_spans(spans: &Vec<Span>) -> (r: Vec<Span>)
    ensures
        spans_view(r@) == spans_view(spans@),
{
    let mut r: Vec<Span> = Vec::new();
    let mut i: usize = 0;
    while i < spans.len()
        invariant
            0 <= i <= spans@.len(),
            r@.len() == i,
            forall|k: int| 0 <= k < i ==> #[trigger] r@[k]@ == spans@[k]@,
        decreases spans@.len() - i,
    {
        let s = &spans[i];
        let link = match &s.link {
            Some(url) => Some(url.clone()),
            None => None,
        };
        r.push(Span { text: s.text.clone(), bold: s.bold, italic: s.italic, code: s.code, link });
        i = i + 1;
    }
    proof {
        assert(spans_view(r@) =~= spans_view(spans@));
    }
    r
}

/// A copy of a list of table cells.
fn clone_cells(cells: &Vec<Vec<Span>>) -> (r: Vec<Vec<Span>>)
    ensures
        cells_view(r@) == cells_view(cells@),
{
    let mut r: Vec<Vec<Span>> = Vec::new();
    let mut i: usize = 0;
    while i < cells.len()
        invariant
            0 <= i <= cells@.len(),
            r@.len() == i,
            forall|k: int| 0 <= k < i ==> #[trigger] spans_view(r@[k]@) == spans_view(cells@[k]@),
        decreases cells@.len() - i,
    {
        r.push(clone_spans(&cells[i]));
        i = i + 1;
    }
    proof {
        assert(cells_view(r@) =~= cells_view(cells@));
    }
    r
}

/// A copy of the rows of a table.
fn clone_rows(rows: &Vec<Vec<Vec<Span>>>) -> (r: Vec<Vec<Vec<Span>>>)
    ensures
        rows_view(r@) == rows_view(rows@),
{
    let mut r: Vec<Vec<Vec<Span>>> = Vec::new();
    let mut i: usize = 0;
    while i < rows.len()
        invariant
            0 <= i <= rows@.len(),
            r@.len() == i,
            forall|k: int| 0 <= k < i ==> #[trigger] cells_view(r@[k]@) == cells_view(rows@[k]@),
        decreases rows@.len() - i,
    {
        r.push(clone_cells(&rows[i]));
        i = i + 1;
    }
    proof {
        assert(rows_view(r@) =~= rows_view(rows@));
    }
    r
}

/// A copy of a run of blocks.
fn clone_blocks(blocks: &Vec<Block>) -> (r: Vec<Block>)
    ensures
        blocks_view(r@) == blocks_view(blocks@),
    decreases blocks@, 1nat,
{
    let mut r: Vec<Block> = Vec::new();
    let mut i: usize = 0;
    while i < blocks.len()
        invariant
            0 <= i <= blocks@.len(),
            r@.len() == i,
            forall|k: int| 0 <= k < i ==> #[trigger] block_view(r@[k]) == block_view(blocks@[k]),
        decreases blocks@.len() - i,
    {
        proof {
            assert(decreases_to!(blocks@ => blocks@[i as int]));
        }
        r.push(clone_block(&blocks[i]));
        i = i + 1;
    }
    proof {
        lemma_blocks_view(r@);
        lemma_blocks_view(blocks@);
        assert(blocks_view(r@) =~= blocks_view(blocks@));
    }
    r
}

/// A copy of the items of a list.
fn clone_items(items: &Vec<Vec<Block>>) -> (r: Vec<Vec<Block>>)
    ensures
        items_view(r@) == items_view(items@),
    decreases items@, 1nat,
{
    let mut r: Vec<Vec<Block>> = Vec::new();
    let mut i: usize = 0;
    while i < items.len()
        invariant
            0 <= i <= items@.len(),
            r@.len() == i,
            forall|k: int|
                0 <= k < i ==> #[trigger] blocks_view(r@[k]@) == blocks_view(items@[k]@),
        decreases items@.len() - i,
    {
        proof {
            assert(decreases_to!(items@ => items@[i as int]@));
        }
        r.push(clone_blocks(&items[i]));
        i = i + 1;
    }
    proof {
        lemma_items_view(r@);
        lemma_items_view(items@);
        assert(items_view(r@) =~= items_view(items@));
    }
    r
}

/// A copy of a block.
fn clone_block(b: &Block) -> (r: Block)
    ensures
        r@ == b@,
    decreases b, 0nat,
{
    match b {
        Block::Heading { level, spans } => Block::Heading { level: *level, spans: clone_spans(spans) },
        Block::Paragraph { spans } => Block::Paragraph { spans: clone_spans(spans) },
        Block::CodeBlock { text } => Block::CodeBlock { text: text.clone() },
        Block::List { ordered, start, items } => Block::List {
            ordered: *ordered,
            start: *start,
            items: clone_items(items),
        },
        Block::BlockQuote(blocks) => Block::BlockQuote(clone_blocks(blocks)),
        Block::Table { alignments, header, rows } => {
            let mut a: Vec<Align> = Vec::new();
            let mut i: usize = 0;
            while i < alignments.len()
                invariant
                    0 <= i <= alignments@.len(),
                    a@ == alignments@.take(i as int),
                decreases alignments@.len() - i,
            {
                a.push(alignments[i]);
                i = i + 1;
            }
            proof {
                assert(alignments@.take(alignments@.len() as int) =~= alignments@);
            }
            Block::Table { alignments: a, header: clone_cells(header), rows: clone_rows(rows) }
        },
        Block::ThematicBreak => Block::ThematicBreak,
    }
}

impl Clone for Block {
    /// A copy of the block, with the same model.
    fn clone(&self) -> (r: Self)
        ensures
            r@ == self@,
    {
        clone_block(self)
    }
}

} // verus!
