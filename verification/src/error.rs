//! The library's error type.

use vstd::prelude::*;
use vstd::string::StringExecFns;

verus! {

/// What can go wrong when producing a PDF.
#[derive(Debug)]
pub enum Md2PdfError {
    /// An embedded font could not be parsed.
    FontParse(String),
    /// The PDF could not be written.
    PdfWrite(String),
}

/// Mathematical model of an [`Md2PdfError`].
pub enum Md2PdfErrorView {
    FontParse(Seq<char>),
    PdfWrite(Seq<char>),
}

impl View for Md2PdfError {
    type V = Md2PdfErrorView;

    open spec fn view(&self) -> Md2PdfErrorView {
        match *self {
            Md2PdfError::FontParse(m) => Md2PdfErrorView::FontParse(m@),
            Md2PdfError::PdfWrite(m) => Md2PdfErrorView::PdfWrite(m@),
        }
    }
}

/// The human-readable description of an error.
pub open spec fn error_message(e: Md2PdfErrorView) -> Seq<char> {
    match e {
        Md2PdfErrorView::FontParse(m) => "failed to parse embedded font: "@ + m,
        Md2PdfErrorView::PdfWrite(m) => "failed to write PDF output: "@ + m,
    }
}

impl Md2PdfError {
    /// The human-readable description of the error.
    pub fn message(&self) -> (s: String)
        ensures
            s@ == error_message(self@),
    {
        match self {
            Md2PdfError::FontParse(m) => {
                let mut s = String::from_str("failed to parse embedded font: ");
                s.append(m.as_str());
                s
            },
            Md2PdfError::PdfWrite(m) => {
                let mut s = String::from_str("failed to write PDF output: ");
                s.append(m.as_str());
                s
            },
        }
    }
}

} // verus!
