use oxidize_docx_core::ooxml::content_types::ContentTypeMap;

const MINIMAL_CONTENT_TYPES: &[u8] = br#"<?xml version="1.0" encoding="UTF-8"?>
<Types xmlns="http://schemas.openxmlformats.org/package/2006/content-types">
  <Default Extension="rels" ContentType="application/vnd.openxmlformats-package.relationships+xml"/>
  <Default Extension="xml" ContentType="application/xml"/>
  <Override PartName="/word/document.xml" ContentType="application/vnd.openxmlformats-officedocument.wordprocessingml.document.main+xml"/>
  <Override PartName="/word/styles.xml" ContentType="application/vnd.openxmlformats-officedocument.wordprocessingml.styles+xml"/>
  <Override PartName="/word/numbering.xml" ContentType="application/vnd.openxmlformats-officedocument.wordprocessingml.numbering+xml"/>
</Types>"#;

#[test]
fn parse_minimal_content_types() {
    let ct = ContentTypeMap::parse(MINIMAL_CONTENT_TYPES).unwrap();
    assert!(ct.has_part("/word/document.xml"));
    assert!(ct.has_part("word/document.xml")); // without leading /
    assert!(ct.has_part("/word/styles.xml"));
}

#[test]
fn find_main_document_part() {
    let ct = ContentTypeMap::parse(MINIMAL_CONTENT_TYPES).unwrap();
    let path = ct.main_document_part();
    assert!(path.is_some());
    assert_eq!(path.unwrap(), "word/document.xml");
}

#[test]
fn find_styles_part() {
    let ct = ContentTypeMap::parse(MINIMAL_CONTENT_TYPES).unwrap();
    let path = ct.find_part_by_content_type(
        "application/vnd.openxmlformats-officedocument.wordprocessingml.styles+xml",
    );
    assert!(path.is_some());
    assert_eq!(path.unwrap(), "word/styles.xml");
}

#[test]
fn numbering_part_found() {
    let ct = ContentTypeMap::parse(MINIMAL_CONTENT_TYPES).unwrap();
    assert!(ct
        .find_part_by_content_type(
            "application/vnd.openxmlformats-officedocument.wordprocessingml.numbering+xml"
        )
        .is_some());
}

#[test]
fn default_extension_found() {
    let ct = ContentTypeMap::parse(MINIMAL_CONTENT_TYPES).unwrap();
    let rels_ct = ct.default_for_extension("rels");
    assert!(rels_ct.is_some());
    assert!(rels_ct.unwrap().contains("relationships"));
}

#[test]
fn reject_malformed_xml() {
    let bad = b"<Types></Wrong>";
    let result = ContentTypeMap::parse(bad);
    assert!(result.is_err());
}

#[test]
fn empty_xml_parses_to_empty_map() {
    let truncated = b"<Types>NOT CLOSED";
    let ct = ContentTypeMap::parse(truncated).unwrap();
    assert!(ct.main_document_part().is_none());
}

#[test]
fn main_document_part_absent_returns_none() {
    let no_doc = br#"<?xml version="1.0"?>
<Types xmlns="http://schemas.openxmlformats.org/package/2006/content-types">
  <Default Extension="rels" ContentType="application/vnd.openxmlformats-package.relationships+xml"/>
</Types>"#;
    let ct = ContentTypeMap::parse(no_doc).unwrap();
    assert!(ct.main_document_part().is_none());
}
