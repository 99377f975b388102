use md2pdf_core::Md2PdfError;

#[test]
fn font_parse_error_names_the_font_failure() {
    let e = Md2PdfError::FontParse("failed to parse embedded font".to_string());
    assert_eq!(e.message(), "failed to parse embedded font: failed to parse embedded font");
}

#[test]
fn pdf_write_error_names_the_output_failure() {
    let e = Md2PdfError::PdfWrite("disk full".to_string());
    assert_eq!(e.message(), "failed to write PDF output: disk full");
}
