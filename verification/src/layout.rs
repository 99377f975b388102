//! Layout decisions of the PDF back end that do not depend on glyph metrics:
//! list markers, heading sizes, table shape, font choice, and how text breaks
//! into words, lines and code lines.

use crate::ir::{opt_string_view, spans_text, spans_view, Span, SpanView};
use vstd::prelude::*;
use vstd::string::StringExecFns;

verus! {

broadcast use vstd::string::group_string_axioms;

/// Calls `String::push`. Claims: the character is appended to the string.
#[verifier::external_body]
fn push_char(s: &mut String, c: char)
    ensures
        final(s)@ == old(s)@.push(c),
{
    s.push(c);
}

/// The decimal digit character for `d` (0 to 9).
pub open spec fn digit_char(d: nat) -> char {
    ('0' as int + d) as char
}

/// The decimal representation of `n`, most significant digit first, without
/// leading zeros.
pub open spec fn decimal(n: nat) -> Seq<char>
    decreases n,
{
    if n < 10 {
        seq![digit_char(n)]
    } else {
        decimal(n / 10).push(digit_char(n % 10))
    }
}

/// Appends the decimal representation of `n`.
fn push_decimal(s: &mut String, n: u64)
    ensures
        final(s)@ == old(s)@ + decimal(n as nat),
    decreases n,
{
    if n >= 10 {
        push_decimal(s, n / 10);
    }
    let d = (n % 10) as u8;
    let c = (48u8 + d) as char;
    assert(c == digit_char((n % 10) as nat));
    push_char(s, c);
    proof {
        if n >= 10 {
            assert(old(s)@ + decimal((n / 10) as nat) + seq![c] =~= old(s)@ + decimal(n as nat));
        } else {
            assert(old(s)@.push(c) =~= old(s)@ + decimal(n as nat));
        }
    }
}

/// The marker of item `index` (counted from 0) of a list: its number followed
/// by `.` for an ordered list that starts at `start`, a bullet otherwise.
pub open spec fn list_marker_spec(ordered: bool, start: u64, index: usize) -> Seq<char> {
    if ordered {
        decimal((start + index) as nat).push('.')
    } else {
        seq!['\u{2022}']
    }
}

/// The marker drawn before item `index` (counted from 0) of a list.
pub fn list_marker(ordered: bool, start: u64, index: usize) -> (m: String)
    requires
        ordered ==> start + index <= u64::MAX,
    ensures
        m@ == list_marker_spec(ordered, start, index),
{
    if ordered {
        let mut m = String::new();
        push_decimal(&mut m, start + index as u64);
        push_char(&mut m, '.');
        m
    } else {
        let m = String::from_str("\u{2022}");
        proof {
            reveal_strlit("\u{2022}");
        }
        m
    }
}

/// The index into the six heading sizes for a heading of `level`: levels below 1
/// take the first size and levels above 6 the last.
pub open spec fn heading_size_index_spec(level: u8) -> usize {
    if level == 0 {
        0
    } else if level > 6 {
        5
    } else {
        (level - 1) as usize
    }
}

/// The index into the six heading sizes for a heading of `level`.
pub fn heading_size_index(level: u8) -> (i: usize)
    ensures
        i == heading_size_index_spec(level),
        i < 6,
{
    let l = level as usize;
    let i = if l == 0 {
        0
    } else {
        l - 1
    };
    if i > 5 {
        5
    } else {
        i
    }
}

/// The number of columns of a table: the widest of its header and rows, and at least one.
pub open spec fn column_count_spec(header_len: int, row_lens: Seq<int>) -> int
    decreases row_lens.len(),
{
    if row_lens.len() == 0 {
        if header_len > 1 {
            header_len
        } else {
            1
        }
    } else {
        let rest = column_count_spec(header_len, row_lens.drop_last());
        if row_lens.last() > rest {
            row_lens.last()
        } else {
            rest
        }
    }
}

/// The lengths of the rows of a table.
pub open spec fn row_lengths(rows: Seq<Vec<Vec<Span>>>) -> Seq<int> {
    rows.map_values(|r: Vec<Vec<Span>>| r@.len() as int)
}

/// Law: the column count is the least width that holds the header and every
/// row and is at least one: it is at least each of them, and it is one of them
/// (1, the header's length, or the length of some row).
pub proof fn law_column_count_is_least(header_len: int, row_lens: Seq<int>)
    ensures
        column_count_spec(header_len, row_lens) >= 1,
        column_count_spec(header_len, row_lens) >= header_len,
        forall|i: int|
            0 <= i < row_lens.len() ==> column_count_spec(header_len, row_lens) >= #[trigger] row_lens[i],
        column_count_spec(header_len, row_lens) == 1 || column_count_spec(header_len, row_lens)
            == header_len || exists|i: int|
            0 <= i < row_lens.len() && column_count_spec(header_len, row_lens) == #[trigger] row_lens[i],
    decreases row_lens.len(),
{
    if row_lens.len() > 0 {
        let p = row_lens.drop_last();
        law_column_count_is_least(header_len, p);
        let c = column_count_spec(header_len, row_lens);
        assert forall|i: int| 0 <= i < row_lens.len() implies c >= #[trigger] row_lens[i] by {
            if i < p.len() {
                assert(p[i] == row_lens[i]);
            }
        }
        if c == row_lens.last() {
            assert(c == row_lens[row_lens.len() - 1]);
        } else if exists|i: int| 0 <= i < p.len() && column_count_spec(header_len, p) == #[trigger] p[i] {
            let i = choose|i: int| 0 <= i < p.len() && column_count_spec(header_len, p) == #[trigger] p[i];
            assert(p[i] == row_lens[i]);
        }
    }
}

/// The number of columns of a table with the given header and body rows.
pub fn table_column_count(header: &Vec<Vec<Span>>, rows: &Vec<Vec<Vec<Span>>>) -> (n: usize)
    ensures
        n == column_count_spec(header@.len() as int, row_lengths(rows@)),
        n >= 1,
        n >= header@.len(),
        forall|i: int| 0 <= i < rows@.len() ==> n >= #[trigger] rows@[i]@.len(),
        n == 1 || n == header@.len() || exists|i: int|
            0 <= i < rows@.len() && n == #[trigger] rows@[i]@.len(),
{
    let mut n: usize = if header.len() > 1 {
        header.len()
    } else {
        1
    };
    let mut i: usize = 0;
    while i < rows.len()
        invariant
            0 <= i <= rows@.len(),
            n == column_count_spec(header@.len() as int, row_lengths(rows@.take(i as int))),
            n >= 1,
            n >= header@.len(),
            forall|j: int| 0 <= j < i ==> n >= #[trigger] rows@[j]@.len(),
        decreases rows@.len() - i,
    {
        proof {
            assert(row_lengths(rows@.take(i + 1)).drop_last() =~= row_lengths(rows@.take(i as int)));
        }
        if rows[i].len() > n {
            n = rows[i].len();
        }
        i = i + 1;
    }
    proof {
        assert(rows@.take(rows@.len() as int) =~= rows@);
        let lens = row_lengths(rows@);
        law_column_count_is_least(header@.len() as int, lens);
        if n != 1 && n != header@.len() {
            let k = choose|k: int| 0 <= k < lens.len() && n == #[trigger] lens[k];
            assert(lens[k] == rows@[k]@.len());
        }
    }
    n
}

/// The eight faces of the embedded fonts.
#[derive(Debug, Clone, Copy, PartialEq, Eq)]
pub enum FontFace {
    SansRegular,
    SansBold,
    SansItalic,
    SansBoldItalic,
    MonoRegular,
    MonoBold,
    MonoItalic,
    MonoBoldItalic,
}

/// Code is set in the monospace family, anything else in the sans family; bold
/// and italic pick the face within the family.
pub open spec fn font_face_spec(bold: bool, italic: bool, code: bool) -> FontFace {
    if code {
        if bold {
            if italic {
                FontFace::MonoBoldItalic
            } else {
                FontFace::MonoBold
            }
        } else if italic {
            FontFace::MonoItalic
        } else {
            FontFace::MonoRegular
        }
    } else if bold {
        if italic {
            FontFace::SansBoldItalic
        } else {
            FontFace::SansBold
        }
    } else if italic {
        FontFace::SansItalic
    } else {
        FontFace::SansRegular
    }
}

/// The face that text of the given style is set in.
pub fn font_face(bold: bool, italic: bool, code: bool) -> (f: FontFace)
    ensures
        f == font_face_spec(bold, italic, code),
{
    match (code, bold, italic) {
        (true, true, true) => FontFace::MonoBoldItalic,
        (true, true, false) => FontFace::MonoBold,
        (true, false, true) => FontFace::MonoItalic,
        (true, false, false) => FontFace::MonoRegular,
        (false, true, true) => FontFace::SansBoldItalic,
        (false, true, false) => FontFace::SansBold,
        (false, false, true) => FontFace::SansItalic,
        (false, false, false) => FontFace::SansRegular,
    }
}

/// Whether `c` has the Unicode `White_Space` property (what `char::is_whitespace`
/// tests): U+0009 to U+000D, U+0020, U+0085, U+00A0, U+1680, U+2000 to U+200A,
/// U+2028, U+2029, U+202F, U+205F and U+3000.
pub open spec fn is_white_space(c: char) -> bool {
    let u = c as u32;
    ||| 0x9 <= u <= 0xd
    ||| u == 0x20
    ||| u == 0x85
    ||| u == 0xa0
    ||| u == 0x1680
    ||| 0x2000 <= u <= 0x200a
    ||| u == 0x2028
    ||| u == 0x2029
    ||| u == 0x202f
    ||| u == 0x205f
    ||| u == 0x3000
}

/// Whether `c` is white space in the sense of the Unicode `White_Space` property.
pub fn is_whitespace_char(c: char) -> (r: bool)
    ensures
        r == is_white_space(c),
{
    let u = c as u32;
    (0x9 <= u && u <= 0xd) || u == 0x20 || u == 0x85 || u == 0xa0 || u == 0x1680 || (0x2000 <= u
        && u <= 0x200a) || u == 0x2028 || u == 0x2029 || u == 0x202f || u == 0x205f || u == 0x3000
}

/// The pieces found so far with the word being read: a piece is a word or, as
/// `None`, a line break.
pub open spec fn scan_words(t: Seq<char>) -> (Seq<Option<Seq<char>>>, Seq<char>)
    decreases t.len(),
{
    if t.len() == 0 {
        (Seq::empty(), Seq::empty())
    } else {
        let (pieces, word) = scan_words(t.drop_last());
        let c = t.last();
        if c == '\n' {
            (end_word(pieces, word).push(None), Seq::empty())
        } else if is_white_space(c) {
            (end_word(pieces, word), Seq::empty())
        } else {
            (pieces, word.push(c))
        }
    }
}

/// The pieces with the word being read added, if there is one.
pub open spec fn end_word(pieces: Seq<Option<Seq<char>>>, word: Seq<char>) -> Seq<
    Option<Seq<char>>,
> {
    if word.len() > 0 {
        pieces.push(Some(word))
    } else {
        pieces
    }
}

/// The words of `t` (maximal runs of non-white-space characters) in order,
/// with a line break (`None`) at each `\n`: the lines of `t` split at `\n`,
/// each split at white space.
pub open spec fn word_pieces(t: Seq<char>) -> Seq<Option<Seq<char>>> {
    end_word(scan_words(t).0, scan_words(t).1)
}

pub open spec fn opt_strings_view(v: Seq<Option<String>>) -> Seq<Option<Seq<char>>> {
    v.map_values(|o: Option<String>| opt_string_view(o))
}

/// Splits `text` into its words, with a line break (`None`) at each newline.
pub fn split_words(text: &str) -> (r: Vec<Option<String>>)
    ensures
        opt_strings_view(r@) == word_pieces(text@),
{
    let mut pieces: Vec<Option<String>> = Vec::new();
    let mut word = String::new();
    let ghost chars = text@;
    for c in it: text.chars()
        invariant
            it.seq() == chars,
            opt_strings_view(pieces@) == scan_words(chars.take(it.index() as int)).0,
            word@ == scan_words(chars.take(it.index() as int)).1,
    {
        let ghost i = it.index() as int;
        proof {
            assert(chars.take(i + 1).drop_last() =~= chars.take(i));
            assert(chars.take(i + 1).last() == c);
        }
        if c == '\n' || is_whitespace_char(c) {
            if !word.as_str().is_empty() {
                proof {
                    assert(opt_strings_view(pieces@.push(Some(word))) =~= opt_strings_view(
                        pieces@,
                    ).push(Some(word@)));
                }
                pieces.push(Some(word));
            } else {
                proof {
                    assert(word@.len() == 0);
                }
            }
            word = String::new();
            if c == '\n' {
                proof {
                    assert(opt_strings_view(pieces@.push(None)) =~= opt_strings_view(pieces@).push(
                        None,
                    ));
                }
                pieces.push(None);
            }
        } else {
            push_char(&mut word, c);
        }
    }
    proof {
        assert(chars.take(chars.len() as int) =~= chars);
    }
    if !word.as_str().is_empty() {
        proof {
            assert(opt_strings_view(pieces@.push(Some(word))) =~= opt_strings_view(pieces@).push(
                Some(word@),
            ));
        }
        pieces.push(Some(word));
    }
    pieces
}

/// A word of laid-out text, or a line break.
#[derive(Debug)]
pub enum TextToken {
    Word(Span),
    Break,
}

/// Mathematical model of a [`TextToken`].
pub enum TextTokenView {
    Word(SpanView),
    Break,
}

impl View for TextToken {
    type V = TextTokenView;

    open spec fn view(&self) -> TextTokenView {
        match *self {
            TextToken::Word(s) => TextTokenView::Word(s@),
            TextToken::Break => TextTokenView::Break,
        }
    }
}

pub open spec fn tokens_view(v: Seq<TextToken>) -> Seq<TextTokenView> {
    v.map_values(|t: TextToken| t@)
}

/// The token for a piece of the text of `s`: a word in the style of `s` (bold
/// when `force_bold`), or a line break.
pub open spec fn piece_token(p: Option<Seq<char>>, s: SpanView, force_bold: bool) -> TextTokenView {
    match p {
        Some(w) => TextTokenView::Word(
            SpanView { text: w, bold: force_bold || s.bold, italic: s.italic, code: s.code, link: s.link },
        ),
        None => TextTokenView::Break,
    }
}

/// The tokens of one span.
pub open spec fn span_tokens(s: SpanView, force_bold: bool) -> Seq<TextTokenView> {
    word_pieces(s.text).map_values(|p: Option<Seq<char>>| piece_token(p, s, force_bold))
}

/// The tokens of a run of spans, span after span.
pub open spec fn spans_tokens(spans: Seq<SpanView>, force_bold: bool) -> Seq<TextTokenView>
    decreases spans.len(),
{
    if spans.len() == 0 {
        Seq::empty()
    } else {
        spans_tokens(spans.drop_last(), force_bold) + span_tokens(spans.last(), force_bold)
    }
}

/// A copy of a link destination.
fn clone_link(link: &Option<String>) -> (r: Option<String>)
    ensures
        opt_string_view(r) == opt_string_view(*link),
{
    match link {
        Some(url) => Some(url.clone()),
        None => None,
    }
}

/// Breaks styled text into words and line breaks; each word keeps the style of
/// its span, and is bold when `force_bold` is set.
pub fn tokenize(spans: &Vec<Span>, force_bold: bool) -> (r: Vec<TextToken>)
    ensures
        tokens_view(r@) == spans_tokens(spans_view(spans@), force_bold),
{
    let ghost sv = spans_view(spans@);
    let mut tokens: Vec<TextToken> = Vec::new();
    let mut i: usize = 0;
    while i < spans.len()
        invariant
            0 <= i <= spans@.len(),
            sv == spans_view(spans@),
            tokens_view(tokens@) == spans_tokens(sv.take(i as int), force_bold),
        decreases spans@.len() - i,
    {
        let span = &spans[i];
        let pieces = split_words(span.text.as_str());
        let ghost before = tokens_view(tokens@);
        let ghost ps = word_pieces(span.text@);
        let ghost elems = pieces@;
        for piece in it: pieces.into_iter()
            invariant
                it.seq() == elems,
                opt_strings_view(elems) == ps,
                ps == word_pieces(span.text@),
                i < spans@.len(),
                span == &spans@[i as int],
                tokens_view(tokens@) == before + ps.take(it.index() as int).map_values(
                    |p: Option<Seq<char>>| piece_token(p, span@, force_bold),
                ),
        {
            let ghost k = it.index() as int;
            proof {
                assert(opt_strings_view(elems)[k] == opt_string_view(piece));
            }
            let token = match piece {
                Some(text) => TextToken::Word(
                    Span {
                        text,
                        bold: force_bold || span.bold,
                        italic: span.italic,
                        code: span.code,
                        link: clone_link(&span.link),
                    },
                ),
                None => TextToken::Break,
            };
            let ghost tv = token@;
            let ghost prev = tokens@;
            tokens.push(token);
            proof {
                assert(tokens_view(tokens@) =~= tokens_view(prev).push(tv));
                assert(tv == piece_token(ps[k], span@, force_bold));
                assert(ps.take(k + 1).map_values(
                    |p: Option<Seq<char>>| piece_token(p, span@, force_bold),
                ) =~= ps.take(k).map_values(
                    |p: Option<Seq<char>>| piece_token(p, span@, force_bold),
                ).push(tv));
            }
        }
        proof {
            assert(ps.take(ps.len() as int) =~= ps);
            assert(sv.take(i + 1).drop_last() =~= sv.take(i as int));
            assert(sv[i as int] == span@);
        }
        i = i + 1;
    }
    proof {
        assert(sv.take(spans@.len() as int) =~= sv);
    }
    tokens
}

/// The lines found so far with the line being read.
pub open spec fn scan_lines(t: Seq<char>) -> (Seq<Seq<char>>, Seq<char>)
    decreases t.len(),
{
    if t.len() == 0 {
        (Seq::empty(), Seq::empty())
    } else {
        let (lines, line) = scan_lines(t.drop_last());
        if t.last() == '\n' {
            (lines.push(strip_carriage_return(line)), Seq::empty())
        } else {
            (lines, line.push(t.last()))
        }
    }
}

/// A line ended by `\r\n` loses its `\r`.
pub open spec fn strip_carriage_return(line: Seq<char>) -> Seq<char> {
    if line.len() > 0 && line.last() == '\r' {
        line.drop_last()
    } else {
        line
    }
}

/// The lines of `t`, as `str::lines` gives them: split at each `\n`, a `\r`
/// right before a `\n` dropped, and no empty last line after a final `\n`.
pub open spec fn lines_spec(t: Seq<char>) -> Seq<Seq<char>> {
    if scan_lines(t).1.len() > 0 {
        scan_lines(t).0.push(scan_lines(t).1)
    } else {
        scan_lines(t).0
    }
}

pub open spec fn strings_view(v: Seq<String>) -> Seq<Seq<char>> {
    v.map_values(|s: String| s@)
}

/// The lines of `text`, as `str::lines` gives them.
pub fn code_lines(text: &str) -> (r: Vec<String>)
    ensures
        strings_view(r@) == lines_spec(text@),
{
    let mut lines: Vec<String> = Vec::new();
    let mut line = String::new();
    let mut pending_cr = false;
    let ghost chars = text@;
    for c in it: text.chars()
        invariant
            it.seq() == chars,
            strings_view(lines@) == scan_lines(chars.take(it.index() as int)).0,
            scan_lines(chars.take(it.index() as int)).1 == if pending_cr {
                line@.push('\r')
            } else {
                line@
            },
            !pending_cr ==> line@.len() == 0 || line@.last() != '\r',
    {
        let ghost i = it.index() as int;
        proof {
            assert(chars.take(i + 1).drop_last() =~= chars.take(i));
            assert(chars.take(i + 1).last() == c);
        }
        if c == '\n' {
            proof {
                assert(strings_view(lines@.push(line)) =~= strings_view(lines@).push(line@));
                if pending_cr {
                    assert(line@.push('\r').drop_last() =~= line@);
                }
            }
            lines.push(line);
            line = String::new();
            pending_cr = false;
        } else {
            if pending_cr {
                push_char(&mut line, '\r');
            }
            if c == '\r' {
                pending_cr = true;
            } else {
                pending_cr = false;
                push_char(&mut line, c);
            }
        }
    }
    proof {
        assert(chars.take(chars.len() as int) =~= chars);
    }
    if pending_cr {
        push_char(&mut line, '\r');
    }
    if !line.as_str().is_empty() {
        proof {
            assert(strings_view(lines@.push(line)) =~= strings_view(lines@).push(line@));
        }
        lines.push(line);
    }
    lines
}

/// The text of a table cell: the text of its spans, joined.
pub fn cell_text(spans: &Vec<Span>) -> (t: String)
    ensures
        t@ == spans_text(spans_view(spans@)),
{
    let ghost sv = spans_view(spans@);
    let mut t = String::new();
    let mut i: usize = 0;
    while i < spans.len()
        invariant
            0 <= i <= spans@.len(),
            sv == spans_view(spans@),
            t@ == spans_text(sv.take(i as int)),
        decreases spans@.len() - i,
    {
        t.append(spans[i].text.as_str());
        proof {
            assert(sv.take(i + 1).drop_last() =~= sv.take(i as int));
        }
        i = i + 1;
    }
    proof {
        assert(sv.take(spans@.len() as int) =~= sv);
    }
    t
}

/// The style a table cell is measured in: bold, italic or code when any of its
/// spans is.
pub fn cell_style(spans: &Vec<Span>) -> (r: (bool, bool, bool))
    ensures
        r.0 == exists|i: int| 0 <= i < spans@.len() && #[trigger] spans@[i].bold,
        r.1 == exists|i: int| 0 <= i < spans@.len() && #[trigger] spans@[i].italic,
        r.2 == exists|i: int| 0 <= i < spans@.len() && #[trigger] spans@[i].code,
{
    let mut bold = false;
    let mut italic = false;
    let mut code = false;
    let mut i: usize = 0;
    while i < spans.len()
        invariant
            0 <= i <= spans@.len(),
            bold == exists|j: int| 0 <= j < i && #[trigger] spans@[j].bold,
            italic == exists|j: int| 0 <= j < i && #[trigger] spans@[j].italic,
            code == exists|j: int| 0 <= j < i && #[trigger] spans@[j].code,
        decreases spans@.len() - i,
    {
        bold = bold || spans[i].bold;
        italic = italic || spans[i].italic;
        code = code || spans[i].code;
        i = i + 1;
    }
    (bold, italic, code)
}

/// `s` set in bold; everything else kept.
pub open spec fn bold_span(s: SpanView) -> SpanView {
    SpanView { bold: true, ..s }
}

/// The cells of a header row, every span set in bold: the header is measured
/// and drawn in bold.
pub fn emboldened(cells: &Vec<Vec<Span>>) -> (r: Vec<Vec<Span>>)
    ensures
        r@.len() == cells@.len(),
        forall|i: int|
            0 <= i < cells@.len() ==> #[trigger] spans_view(r@[i]@) == spans_view(
                cells@[i]@,
            ).map_values(|s: SpanView| bold_span(s)),
{
    let mut out: Vec<Vec<Span>> = Vec::new();
    let mut i: usize = 0;
    while i < cells.len()
        invariant
            0 <= i <= cells@.len(),
            out@.len() == i,
            forall|k: int|
                0 <= k < i ==> #[trigger] spans_view(out@[k]@) == spans_view(
                    cells@[k]@,
                ).map_values(|s: SpanView| bold_span(s)),
        decreases cells@.len() - i,
    {
        let cell = &cells[i];
        let mut bold: Vec<Span> = Vec::new();
        let mut j: usize = 0;
        while j < cell.len()
            invariant
                0 <= j <= cell@.len(),
                bold@.len() == j,
                forall|k: int| 0 <= k < j ==> #[trigger] bold@[k]@ == bold_span(cell@[k]@),
            decreases cell@.len() - j,
        {
            let s = &cell[j];
            bold.push(
                Span {
                    text: s.text.clone(),
                    bold: true,
                    italic: s.italic,
                    code: s.code,
                    link: clone_link(&s.link),
                },
            );
            j = j + 1;
        }
        proof {
            assert(spans_view(bold@) =~= spans_view(cell@).map_values(|s: SpanView| bold_span(s)));
        }
        out.push(bold);
        i = i + 1;
    }
    out
}

/// The number of lines a table row takes: that of its cell with the most lines,
/// a cell taking at least one line, and one line for a row without cells.
pub open spec fn row_lines_spec(counts: Seq<usize>) -> int
    decreases counts.len(),
{
    if counts.len() == 0 {
        1
    } else {
        let rest = row_lines_spec(counts.drop_last());
        if counts.last() > rest {
            counts.last() as int
        } else {
            rest
        }
    }
}

/// The number of lines a table row takes, given the number of lines of each of
/// its cells.
pub fn row_line_count(counts: &Vec<usize>) -> (n: usize)
    ensures
        n == row_lines_spec(counts@),
        n >= 1,
        forall|i: int| 0 <= i < counts@.len() ==> n >= #[trigger] counts@[i],
{
    let mut n: usize = 1;
    let mut i: usize = 0;
    while i < counts.len()
        invariant
            0 <= i <= counts@.len(),
            n == row_lines_spec(counts@.take(i as int)),
            n >= 1,
            forall|k: int| 0 <= k < i ==> n >= #[trigger] counts@[k],
        decreases counts@.len() - i,
    {
        proof {
            assert(counts@.take(i + 1).drop_last() =~= counts@.take(i as int));
        }
        if counts[i] > n {
            n = counts[i];
        }
        i = i + 1;
    }
    proof {
        assert(counts@.take(counts@.len() as int) =~= counts@);
    }
    n
}

/// Law: the tokens of joined runs of spans are the tokens of each run, joined.
pub proof fn law_tokens_concat(a: Seq<SpanView>, b: Seq<SpanView>, force_bold: bool)
    ensures
        spans_tokens(a + b, force_bold) == spans_tokens(a, force_bold) + spans_tokens(b, force_bold),
    decreases b.len(),
{
    if b.len() == 0 {
        assert(a + b =~= a);
        assert(spans_tokens(a, force_bold) + spans_tokens(b, force_bold) =~= spans_tokens(
            a,
            force_bold,
        ));
    } else {
        law_tokens_concat(a, b.drop_last(), force_bold);
        assert((a + b).drop_last() =~= a + b.drop_last());
        assert((a + b).last() == b.last());
        assert(spans_tokens(a, force_bold) + (spans_tokens(b.drop_last(), force_bold) + span_tokens(
            b.last(),
            force_bold,
        )) =~= spans_tokens(a, force_bold) + spans_tokens(b.drop_last(), force_bold)
            + span_tokens(b.last(), force_bold));
    }
}

/// Law: the tokens of a run of spans are, span after span, the tokens of each
/// span; and every word that comes from a span keeps that span's style: it is
/// bold exactly when the span is bold or bold is forced, and italic, code and
/// link are the span's own.
pub proof fn law_tokens_keep_span_style(spans: Seq<SpanView>, j: int, force_bold: bool)
    requires
        0 <= j < spans.len(),
    ensures
        spans_tokens(spans, force_bold) == spans_tokens(spans.take(j), force_bold) + spans_tokens(
            seq![spans[j]],
            force_bold,
        ) + spans_tokens(spans.skip(j + 1), force_bold),
        forall|k: int|
            0 <= k < spans_tokens(seq![spans[j]], force_bold).len() ==> (#[trigger] spans_tokens(
                seq![spans[j]],
                force_bold,
            )[k] matches TextTokenView::Word(w) ==> w.bold == (force_bold || spans[j].bold)
                && w.italic == spans[j].italic && w.code == spans[j].code && w.link
                == spans[j].link),
{
    let s = spans[j];
    assert(spans =~= spans.take(j) + seq![s] + spans.skip(j + 1));
    law_tokens_concat(spans.take(j), seq![s], force_bold);
    law_tokens_concat(spans.take(j) + seq![s], spans.skip(j + 1), force_bold);
    assert(seq![s].drop_last() =~= Seq::<SpanView>::empty());
    assert(spans_tokens(Seq::<SpanView>::empty(), force_bold) == Seq::<TextTokenView>::empty());
    let one = spans_tokens(seq![s], force_bold);
    assert(one =~= span_tokens(s, force_bold));
    assert forall|k: int| 0 <= k < one.len() implies (#[trigger] one[k] matches TextTokenView::Word(
        w,
    ) ==> w.bold == (force_bold || s.bold) && w.italic == s.italic && w.code == s.code && w.link
        == s.link) by {
        assert(one[k] == piece_token(word_pieces(s.text)[k], s, force_bold));
    }
}

} // verus!
