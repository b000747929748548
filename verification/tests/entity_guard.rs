use oxidize_docx_core::xml::entity_guard::{contains_doctype, reject_if_doctype, MAX_ENTITY_EXPANSIONS, MAX_XML_DEPTH};
use oxidize_docx_core::DocxError;

#[test]
fn entity_constants_are_correct() {
    assert_eq!(MAX_ENTITY_EXPANSIONS, 100);
    assert_eq!(MAX_XML_DEPTH, 256);
}

#[test]
fn doctype_detection_finds_doctype() {
    let xml = b"<?xml version=\"1.0\"?><!DOCTYPE foo [...]><root/>";
    assert!(contains_doctype(xml));
}

#[test]
fn doctype_detection_finds_case_insensitive() {
    let xml = b"<?xml version=\"1.0\"?><!doctype foo><root/>";
    assert!(contains_doctype(xml));
}

#[test]
fn doctype_detection_allows_clean_xml() {
    let xml = b"<?xml version=\"1.0\"?><root><child/></root>";
    assert!(!contains_doctype(xml));
}

#[test]
fn reject_xml_with_doctype_returns_error() {
    let xml = b"<!DOCTYPE bomb [<!ENTITY a \"b\">]><root/>";
    let result = reject_if_doctype(xml, "word/document.xml");
    assert!(result.is_err());
    assert!(matches!(result.unwrap_err(), DocxError::XmlParse { .. }));
}

#[test]
fn reject_xml_without_doctype_passes() {
    let clean = b"<root><w:p xmlns:w=\"http://example.com\"/></root>";
    assert!(reject_if_doctype(clean, "word/document.xml").is_ok());
}

#[test]
fn doctype_in_billion_laughs_attack() {
    let attack = br#"<?xml version="1.0"?>
<!DOCTYPE lolz [
  <!ENTITY lol "lol">
  <!ENTITY lol2 "&lol;&lol;&lol;&lol;&lol;&lol;&lol;&lol;&lol;&lol;">
]>
<root>&lol2;</root>"#;
    assert!(contains_doctype(attack));
    assert!(reject_if_doctype(attack, "evil.xml").is_err());
}
