use md2pdf_core::layout::{
    cell_style, cell_text, code_lines, emboldened, font_face, heading_size_index,
    is_whitespace_char, list_marker, row_line_count, split_words, table_column_count, tokenize,
    FontFace, TextToken,
};
use md2pdf_core::Span;

#[test]
fn list_marker_is_bullet_when_unordered() {
    assert_eq!(list_marker(false, 1, 3), "\u{2022}");
}

#[test]
fn list_marker_counts_up_from_start_when_ordered() {
    assert_eq!(list_marker(true, 3, 0), "3.");
    assert_eq!(list_marker(true, 3, 2), "5.");
}

#[test]
fn list_marker_writes_every_digit() {
    assert_eq!(list_marker(true, 0, 0), "0.");
    assert_eq!(list_marker(true, 9, 1), "10.");
    assert_eq!(list_marker(true, 1000, 7), "1007.");
    assert_eq!(list_marker(true, u64::MAX - 1, 1), "18446744073709551615.");
}

#[test]
fn unordered_marker_ignores_start_and_index() {
    assert_eq!(list_marker(false, u64::MAX, usize::MAX), "\u{2022}");
}

#[test]
fn heading_size_index_clamps_to_the_six_sizes() {
    assert_eq!(heading_size_index(0), 0);
    assert_eq!(heading_size_index(1), 0);
    assert_eq!(heading_size_index(2), 1);
    assert_eq!(heading_size_index(6), 5);
    assert_eq!(heading_size_index(7), 5);
    assert_eq!(heading_size_index(255), 5);
}

fn cell(text: &str) -> Vec<Span> {
    vec![Span::plain(text.to_string())]
}

#[test]
fn table_column_count_takes_the_widest_row_and_at_least_one() {
    assert_eq!(table_column_count(&vec![], &vec![]), 1);
    assert_eq!(table_column_count(&vec![cell("a"), cell("b")], &vec![]), 2);
    let rows = vec![vec![cell("1")], vec![cell("1"), cell("2"), cell("3")], vec![]];
    assert_eq!(table_column_count(&vec![cell("a"), cell("b")], &rows), 3);
    assert_eq!(table_column_count(&vec![], &vec![vec![]]), 1);
}

#[test]
fn font_face_picks_family_by_code_and_face_by_style() {
    assert_eq!(font_face(false, false, false), FontFace::SansRegular);
    assert_eq!(font_face(true, false, false), FontFace::SansBold);
    assert_eq!(font_face(false, true, false), FontFace::SansItalic);
    assert_eq!(font_face(true, true, false), FontFace::SansBoldItalic);
    assert_eq!(font_face(false, false, true), FontFace::MonoRegular);
    assert_eq!(font_face(true, false, true), FontFace::MonoBold);
    assert_eq!(font_face(false, true, true), FontFace::MonoItalic);
    assert_eq!(font_face(true, true, true), FontFace::MonoBoldItalic);
}

#[test]
fn whitespace_agrees_with_char_is_whitespace() {
    for u in 0u32..=0x10FFFF {
        if let Some(c) = char::from_u32(u) {
            assert_eq!(is_whitespace_char(c), c.is_whitespace(), "U+{u:04X}");
        }
    }
}

fn reference_pieces(text: &str) -> Vec<Option<String>> {
    let mut out = Vec::new();
    for (i, segment) in text.split('\n').enumerate() {
        if i > 0 {
            out.push(None);
        }
        for word in segment.split_whitespace() {
            out.push(Some(word.to_string()));
        }
    }
    out
}

#[test]
fn split_words_splits_lines_then_white_space() {
    let samples = [
        "",
        "a",
        "hello  world",
        " lead and trail ",
        "a\nb",
        "a\n\nb\n",
        "\n",
        "tab\tsep\u{a0}nbsp\u{3000}ideographic",
        "\r\nx",
        "caf\u{e9} \u{1F600} end",
    ];
    for text in samples {
        assert_eq!(split_words(text), reference_pieces(text), "{text:?}");
    }
}

#[test]
fn split_words_marks_each_newline() {
    assert_eq!(
        split_words("one two\nthree"),
        vec![Some("one".to_string()), Some("two".to_string()), None, Some("three".to_string())]
    );
}

#[test]
fn code_lines_matches_str_lines() {
    let samples = [
        "", "a", "a\n", "a\nb", "a\r\nb\r\n", "a\r", "\r", "\n\n", "x\ry\n", "\r\r\n", "  indented\n\tx",
    ];
    for text in samples {
        let expected: Vec<String> = text.lines().map(|l| l.to_string()).collect();
        assert_eq!(code_lines(text), expected, "{text:?}");
    }
}

#[test]
fn tokenize_keeps_span_styles_and_breaks() {
    let spans = vec![
        Span::plain("hello world".to_string()),
        Span {
            text: "x\ny".to_string(),
            bold: false,
            italic: true,
            code: false,
            link: Some("http://example.com".to_string()),
        },
    ];
    let tokens = tokenize(&spans, true);
    assert_eq!(tokens.len(), 5);
    let words: Vec<Option<Span>> = tokens
        .into_iter()
        .map(|t| match t {
            TextToken::Word(s) => Some(s),
            TextToken::Break => None,
        })
        .collect();
    let bold = |text: &str| Span { text: text.to_string(), bold: true, ..Span::default() };
    let linked = |text: &str| Span {
        text: text.to_string(),
        bold: true,
        italic: true,
        code: false,
        link: Some("http://example.com".to_string()),
    };
    assert_eq!(
        words,
        vec![Some(bold("hello")), Some(bold("world")), Some(linked("x")), None, Some(linked("y"))]
    );
}

#[test]
fn tokenize_without_force_bold_keeps_plain_words_plain() {
    let tokens = tokenize(&vec![Span::plain("a b".to_string())], false);
    match tokens.as_slice() {
        [TextToken::Word(a), TextToken::Word(b)] => {
            assert_eq!(a, &Span::plain("a".to_string()));
            assert_eq!(b, &Span::plain("b".to_string()));
        }
        other => panic!("expected two words, got {other:?}"),
    }
}

#[test]
fn cell_text_joins_span_texts() {
    let spans = vec![
        Span::plain("ab".to_string()),
        Span { text: "cd".to_string(), bold: true, ..Span::default() },
        Span::plain(String::new()),
        Span::plain("e".to_string()),
    ];
    assert_eq!(cell_text(&spans), "abcde");
    assert_eq!(cell_text(&vec![]), "");
}

#[test]
fn cell_style_is_any_of_its_spans() {
    let spans = vec![
        Span::plain("a".to_string()),
        Span { text: "b".to_string(), italic: true, ..Span::default() },
        Span { text: "c".to_string(), code: true, ..Span::default() },
    ];
    assert_eq!(cell_style(&spans), (false, true, true));
    assert_eq!(cell_style(&vec![]), (false, false, false));
    let bold = vec![Span { text: "b".to_string(), bold: true, ..Span::default() }];
    assert_eq!(cell_style(&bold), (true, false, false));
}

#[test]
fn emboldened_sets_bold_on_every_span_and_keeps_the_rest() {
    let link = Span {
        text: "l".to_string(),
        italic: true,
        link: Some("u".to_string()),
        ..Span::default()
    };
    let cells = vec![vec![Span::plain("a".to_string()), link.clone()], vec![]];
    let bold = emboldened(&cells);
    assert_eq!(bold.len(), 2);
    assert_eq!(bold[0][0], Span { text: "a".to_string(), bold: true, ..Span::default() });
    assert_eq!(bold[0][1], Span { bold: true, ..link });
    assert!(bold[1].is_empty());
}

#[test]
fn row_line_count_is_the_tallest_cell_and_at_least_one() {
    assert_eq!(row_line_count(&vec![]), 1);
    assert_eq!(row_line_count(&vec![0, 0]), 1);
    assert_eq!(row_line_count(&vec![2, 5, 3]), 5);
    assert_eq!(row_line_count(&vec![1]), 1);
}
