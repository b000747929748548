use oxidize_docx_core::document::{is_footer_part_path, is_header_part_path};

#[test]
fn matches_word_header_n_xml_with_digits() {
    assert!(is_header_part_path("word/header1.xml"));
    assert!(is_header_part_path("word/header42.xml"));
    assert!(is_footer_part_path("word/footer1.xml"));
}

#[test]
fn rejects_paths_without_digits_or_outside_word_dir() {
    assert!(!is_header_part_path("word/header.xml"));
    assert!(!is_header_part_path("word/headers.xml"));
    assert!(!is_header_part_path("docs/header1.xml"));
    assert!(!is_header_part_path("word/header1.txt"));
    assert!(!is_footer_part_path("word/footnote1.xml"));
}
