//! Markdown to PDF conversion: the Markdown front end (events to a block tree)
//! and the layout decisions of the PDF back end.

pub mod error;
pub mod ir;
pub mod layout;
pub mod markdown;
pub mod path;

pub use error::Md2PdfError;
pub use ir::{Align, Block, Span};
pub use markdown::parse;
pub use path::default_pdf_output_path;
