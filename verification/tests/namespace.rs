use oxidize_docx_core::xml::namespace::{CONTENT_TYPES, DRAWING_ML, RELATIONSHIPS, RELATIONSHIPS_DOCUMENT, WORDPROCESSINGML};

#[test]
fn wordprocessingml_namespace_is_correct() {
    assert_eq!(
        WORDPROCESSINGML,
        "http://schemas.openxmlformats.org/wordprocessingml/2006/main"
    );
}

#[test]
fn relationships_namespace_is_correct() {
    assert!(RELATIONSHIPS.contains("relationships"));
}

#[test]
fn content_types_namespace_is_correct() {
    assert!(CONTENT_TYPES.contains("content-types"));
}

#[test]
fn drawing_ml_namespace_is_correct() {
    assert!(DRAWING_ML.contains("drawingml"));
}

#[test]
fn relationships_document_namespace_is_correct() {
    assert!(RELATIONSHIPS_DOCUMENT.contains("officeDocument"));
}
