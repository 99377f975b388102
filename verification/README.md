# md2pdf

Markdown → PDF. The Markdown front end and the metric-free layout decisions are
a library verified with [Verus](https://github.com/verus-lang/verus); the
command-line program and the PDF drawing engine are ordinary Rust around it.

## Layout

- `src/` — the verified library (`md2pdf_core`).
  - `ir.rs` — the block tree (`Block`, `Span`, `Align`) and its mathematical model.
  - `markdown/` — the parser: a stack machine over the pulldown-cmark event
    stream (tables enabled).
    - `source.rs` reads the event stream through pulldown-cmark into the
      library's own event type (`MdEvent`); `event.rs`, `open.rs`, `close.rs`,
      `stack.rs` and `frame.rs` apply one event to the parser stack, each with a
      contract over the stack's model; `mod.rs` folds a whole stream (`parse`).
    - `laws.rs` — what a run of events builds: paragraphs, headings, table
      cells and tight list items keep the text of their inline content in order;
      emphasis, strong emphasis and links lay their style on every span of their
      content and keep its text; images become `[image: alt]`; block quotes, list
      items, rows, tables and lists wrap what was built inside them; an HTML block
      is dropped and leaves the stack as it was before it opened.
    - `levels.rs` — every heading the parser builds has a level from 1 to 6.
  - `layout.rs` — list markers, heading size index, table column count, font
    face choice, word/line-break tokenization and code lines.
  - `path.rs` — the default output path (`Path::with_extension("pdf")`); for a
    path that Unix and Windows read alike and that ends in a bare file name, it
    keeps the directories and stem, has the extension `pdf`, and is its own
    default output path.
  - `error.rs` — the error type and its messages.
- `tests/` — tests of the library, run against the compiled crate.
- `app/` — the `md2pdf` command-line program, font loading and the layout engine
  that measures glyph advances and emits printpdf drawing operations. It works
  in floating point, so it is not verified; it takes its decisions about words,
  markers, heading sizes, table shape, font faces and code lines from the
  library. Fonts (Liberation Sans/Mono) are read from `MD2PDF_FONT_DIR`
  (default `assets/fonts`).

## Trust

Verus believes, without proof, the contracts of a few small wrappers: four
readers of the pulldown-cmark event stream (`markdown/source.rs`),
`Path::with_extension` (`path.rs`) and `String::push` (`layout.rs`). Each states
in its doc comment what it claims.
