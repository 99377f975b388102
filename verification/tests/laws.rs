use md2pdf_core::markdown::event::{MdEvent, MdTag, MdTagEnd};
use md2pdf_core::markdown::{parse, parse_events};
use md2pdf_core::{Align, Block, Span};

fn joined(spans: &[Span]) -> String {
    spans.iter().map(|s| s.text.as_str()).collect()
}

#[test]
fn styled_paragraph_keeps_all_of_its_text_in_order() {
    let blocks = parse("plain *em* **strong** [link](http://x.y) `code` end");
    match blocks.as_slice() {
        [Block::Paragraph { spans }] => {
            assert_eq!(joined(spans), "plain em strong link code end");
        }
        other => panic!("expected one paragraph, got {other:?}"),
    }
}

#[test]
fn nested_styles_reach_the_paragraph_in_order() {
    let blocks = parse("a *b **c** d* e");
    match blocks.as_slice() {
        [Block::Paragraph { spans }] => {
            assert_eq!(joined(spans), "a b c d e");
            let c = spans.iter().find(|s| s.text == "c").unwrap();
            assert!(c.bold && c.italic);
            let d = spans.iter().find(|s| s.text == " d").unwrap();
            assert!(d.italic && !d.bold);
        }
        other => panic!("expected one paragraph, got {other:?}"),
    }
}

#[test]
fn heading_keeps_its_level_and_text() {
    let blocks = parse("## a *b* c");
    match blocks.as_slice() {
        [Block::Heading { level, spans }] => {
            assert_eq!(*level, 2);
            assert_eq!(joined(spans), "a b c");
        }
        other => panic!("expected one heading, got {other:?}"),
    }
}

#[test]
fn every_heading_level_lies_between_one_and_six() {
    let blocks = parse("# 1\n## 2\n### 3\n#### 4\n##### 5\n###### 6\n####### 7\n> ## quoted\n- ### in a list\n");
    fn levels(blocks: &[Block], out: &mut Vec<u8>) {
        for b in blocks {
            match b {
                Block::Heading { level, .. } => out.push(*level),
                Block::BlockQuote(inner) => levels(inner, out),
                Block::List { items, .. } => {
                    for item in items {
                        levels(item, out);
                    }
                }
                _ => {}
            }
        }
    }
    let mut found = Vec::new();
    levels(&blocks, &mut found);
    assert_eq!(found, vec![1, 2, 3, 4, 5, 6, 2, 3]);
}

#[test]
fn tight_item_starting_with_emphasis_is_one_paragraph() {
    let blocks = parse("- *a* b\n- c");
    match blocks.as_slice() {
        [Block::List { ordered: false, items, .. }] => {
            assert_eq!(items.len(), 2);
            match (items[0].as_slice(), items[1].as_slice()) {
                ([Block::Paragraph { spans: first }], [Block::Paragraph { spans: second }]) => {
                    assert_eq!(joined(first), "a b");
                    assert!(first[0].italic);
                    assert_eq!(joined(second), "c");
                }
                other => panic!("expected one paragraph per item, got {other:?}"),
            }
        }
        other => panic!("expected one list, got {other:?}"),
    }
}

#[test]
fn tight_item_without_any_span_has_no_block() {
    let events = vec![
        MdEvent::Start(MdTag::List(None)),
        MdEvent::Start(MdTag::Item),
        MdEvent::Start(MdTag::Emphasis),
        MdEvent::End(MdTagEnd::Emphasis),
        MdEvent::End(MdTagEnd::Item),
        MdEvent::End(MdTagEnd::List),
    ];
    let blocks = parse_events(events);
    assert_eq!(
        blocks,
        vec![Block::List { ordered: false, start: 1, items: vec![vec![]] }]
    );
}

#[test]
fn paragraph_events_build_one_paragraph_block() {
    let events = vec![
        MdEvent::Start(MdTag::Paragraph),
        MdEvent::Text("x ".to_string()),
        MdEvent::Start(MdTag::Strong),
        MdEvent::Text("y".to_string()),
        MdEvent::End(MdTagEnd::Strong),
        MdEvent::SoftBreak,
        MdEvent::Code("z".to_string()),
        MdEvent::End(MdTagEnd::Paragraph),
    ];
    let blocks = parse_events(events);
    let expected = vec![Block::Paragraph {
        spans: vec![
            Span::plain("x ".to_string()),
            Span { text: "y".to_string(), bold: true, ..Span::default() },
            Span::plain(" ".to_string()),
            Span { text: "z".to_string(), code: true, ..Span::default() },
        ],
    }];
    assert_eq!(blocks, expected);
}

#[test]
fn parse_never_fails_on_unusual_input() {
    for text in ["", "\n\n", "~~strike~~", "[^1]: note", "- [ ] task", "<div>\nhtml\n</div>", "* * *", "```\nunclosed"] {
        let _ = parse(text);
    }
    assert_eq!(parse(""), vec![]);
}

#[test]
fn constructs_of_disabled_extensions_stay_literal_text() {
    match parse("~~strike~~").as_slice() {
        [Block::Paragraph { spans }] => assert_eq!(joined(spans), "~~strike~~"),
        other => panic!("expected one paragraph, got {other:?}"),
    }
    match parse("- [ ] task").as_slice() {
        [Block::List { items, .. }] => match items.as_slice() {
            [item] => match item.as_slice() {
                [Block::Paragraph { spans }] => assert_eq!(joined(spans), "[ ] task"),
                other => panic!("expected one paragraph, got {other:?}"),
            },
            other => panic!("expected one item, got {other:?}"),
        },
        other => panic!("expected one list, got {other:?}"),
    }
}

#[test]
fn image_with_code_in_its_alt_text_becomes_one_bracketed_span() {
    match parse("a ![b `c`](http://example.com/x.png) d").as_slice() {
        [Block::Paragraph { spans }] => {
            assert_eq!(joined(spans), "a [image: b c] d");
            assert!(spans.iter().any(|s| s.text == "[image: b c]" && !s.code && s.link.is_none()));
        }
        other => panic!("expected one paragraph, got {other:?}"),
    }
}

#[test]
fn block_quote_wraps_every_block_built_inside_it() {
    match parse("> # h\n>\n> p\n").as_slice() {
        [Block::BlockQuote(inner)] => match inner.as_slice() {
            [Block::Heading { level: 1, spans: h }, Block::Paragraph { spans: p }] => {
                assert_eq!(joined(h), "h");
                assert_eq!(joined(p), "p");
            }
            other => panic!("expected a heading and a paragraph, got {other:?}"),
        },
        other => panic!("expected one block quote, got {other:?}"),
    }
}

#[test]
fn loose_list_item_keeps_each_of_its_paragraphs() {
    match parse("1. a\n\n   b\n2. c\n").as_slice() {
        [Block::List { ordered: true, start: 1, items }] => {
            assert_eq!(items.len(), 2);
            match items[0].as_slice() {
                [Block::Paragraph { spans: a }, Block::Paragraph { spans: b }] => {
                    assert_eq!(joined(a), "a");
                    assert_eq!(joined(b), "b");
                }
                other => panic!("expected two paragraphs, got {other:?}"),
            }
        }
        other => panic!("expected one ordered list, got {other:?}"),
    }
}

#[test]
fn table_cells_keep_their_inline_text_and_alignments_are_kept() {
    match parse("| *a* | b |\n|---|:-:|\n| `c` | d e |\n").as_slice() {
        [Block::Table { alignments, header, rows }] => {
            assert_eq!(alignments, &vec![Align::Unaligned, Align::Center]);
            let header_text: Vec<String> = header.iter().map(|c| joined(c)).collect();
            assert_eq!(header_text, vec!["a", "b"]);
            assert_eq!(rows.len(), 1);
            let row_text: Vec<String> = rows[0].iter().map(|c| joined(c)).collect();
            assert_eq!(row_text, vec!["c", "d e"]);
            assert!(header[0][0].italic);
            assert!(rows[0][0][0].code);
        }
        other => panic!("expected one table, got {other:?}"),
    }
}

#[test]
fn list_starting_at_zero_keeps_its_start() {
    match parse("0. a\n1. b\n").as_slice() {
        [Block::List { ordered: true, start: 0, items }] => assert_eq!(items.len(), 2),
        other => panic!("expected one ordered list, got {other:?}"),
    }
    match parse("- a\n").as_slice() {
        [Block::List { ordered: false, start: 1, .. }] => {}
        other => panic!("expected one bullet list, got {other:?}"),
    }
}

#[test]
fn every_span_inside_a_link_carries_its_destination() {
    match parse("x [a *b* `c`](http://d.e) y").as_slice() {
        [Block::Paragraph { spans }] => {
            assert_eq!(joined(spans), "x a b c y");
            let linked: Vec<&Span> =
                spans.iter().filter(|s| s.link.as_deref() == Some("http://d.e")).collect();
            let texts: Vec<&str> = linked.iter().map(|s| s.text.as_str()).collect();
            assert_eq!(texts, vec!["a ", "b", " ", "c"]);
            assert!(linked[1].italic && linked[3].code);
            assert!(spans[0].link.is_none() && spans[spans.len() - 1].link.is_none());
        }
        other => panic!("expected one paragraph, got {other:?}"),
    }
}

#[test]
fn html_block_is_dropped_and_keeps_the_blocks_around_it() {
    match parse("a\n\n<div>x</div>\n\nb\n").as_slice() {
        [Block::Paragraph { spans: a }, Block::Paragraph { spans: b }] => {
            assert_eq!(joined(a), "a");
            assert_eq!(joined(b), "b");
        }
        other => panic!("expected two paragraphs, got {other:?}"),
    }
}

#[test]
fn paragraph_followed_by_an_html_block_survives() {
    let events = vec![
        MdEvent::Start(MdTag::Paragraph),
        MdEvent::Text("a".to_string()),
        MdEvent::End(MdTagEnd::Paragraph),
        MdEvent::Start(MdTag::HtmlBlock),
        MdEvent::Html("<div>x</div>\n".to_string()),
        MdEvent::End(MdTagEnd::HtmlBlock),
    ];
    assert_eq!(
        parse_events(events),
        vec![Block::Paragraph { spans: vec![Span::plain("a".to_string())] }]
    );
}

#[test]
fn html_block_inside_a_list_item_leaves_the_item_and_list_intact() {
    match parse("- a\n\n  <div>x</div>\n- b\n").as_slice() {
        [Block::List { items, .. }] => {
            assert_eq!(items.len(), 2);
            let texts: Vec<String> = items
                .iter()
                .map(|item| match item.as_slice() {
                    [Block::Paragraph { spans }] => joined(spans),
                    other => panic!("expected one paragraph, got {other:?}"),
                })
                .collect();
            assert_eq!(texts, vec!["a", "b"]);
        }
        other => panic!("expected one list, got {other:?}"),
    }
}
