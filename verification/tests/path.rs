use md2pdf_core::default_pdf_output_path;
use std::path::PathBuf;

#[test]
fn default_pdf_output_path_replaces_the_extension() {
    assert_eq!(
        PathBuf::from(default_pdf_output_path("notes.tar.md")),
        PathBuf::from("notes.tar.pdf")
    );
}

#[test]
fn default_pdf_output_path_appends_when_there_is_none() {
    assert_eq!(PathBuf::from(default_pdf_output_path("notes")), PathBuf::from("notes.pdf"));
}

#[test]
fn default_pdf_output_path_keeps_the_directories() {
    assert_eq!(default_pdf_output_path("docs/notes.md"), "docs/notes.pdf");
    assert_eq!(default_pdf_output_path("/tmp/a.b.c"), "/tmp/a.b.pdf");
    assert_eq!(default_pdf_output_path("../x.md"), "../x.pdf");
}

#[test]
fn default_pdf_output_path_treats_a_leading_dot_as_part_of_the_name() {
    assert_eq!(default_pdf_output_path(".hidden"), ".hidden.pdf");
    assert_eq!(default_pdf_output_path("dir/.hidden"), "dir/.hidden.pdf");
    assert_eq!(default_pdf_output_path("trailing."), "trailing.pdf");
}

#[test]
fn default_pdf_output_path_is_its_own_default_and_keeps_stem_and_parent() {
    for input in ["notes.tar.md", "notes", "docs/notes.md", "/tmp/.hidden", "../a.b.c", "dir/x."] {
        let r = default_pdf_output_path(input);
        assert_eq!(default_pdf_output_path(&r), r, "{input}");
        let (p, q) = (std::path::Path::new(input), std::path::Path::new(&r));
        assert_eq!(q.extension().and_then(|e| e.to_str()), Some("pdf"), "{input}");
        assert_eq!(q.file_stem(), p.file_stem(), "{input}");
        assert_eq!(q.parent(), p.parent(), "{input}");
    }
}
