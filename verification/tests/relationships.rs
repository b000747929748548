use oxidize_docx_core::ooxml::relationships::RelationshipMap;

const DOCUMENT_RELS: &[u8] = br#"<?xml version="1.0" encoding="UTF-8"?>
<Relationships xmlns="http://schemas.openxmlformats.org/package/2006/relationships">
  <Relationship Id="rId1" Type="http://schemas.openxmlformats.org/officeDocument/2006/relationships/styles" Target="styles.xml"/>
  <Relationship Id="rId2" Type="http://schemas.openxmlformats.org/officeDocument/2006/relationships/numbering" Target="numbering.xml"/>
  <Relationship Id="rId3" Type="http://schemas.openxmlformats.org/officeDocument/2006/relationships/image" Target="../media/image1.png"/>
  <Relationship Id="rId4" Type="http://schemas.openxmlformats.org/officeDocument/2006/relationships/hyperlink" Target="https://example.com" TargetMode="External"/>
</Relationships>"#;

#[test]
fn parse_relationships_file() {
    let rels = RelationshipMap::parse(DOCUMENT_RELS, "_rels/document.xml.rels").unwrap();
    assert_eq!(rels.len(), 4);
}

#[test]
fn find_relationship_by_id() {
    let rels = RelationshipMap::parse(DOCUMENT_RELS, "_rels/document.xml.rels").unwrap();
    let rel = rels.get_by_id("rId1");
    assert!(rel.is_some());
    assert!(rel.unwrap().target.contains("styles.xml"));
}

#[test]
fn find_relationships_by_type() {
    let rels = RelationshipMap::parse(DOCUMENT_RELS, "_rels/document.xml.rels").unwrap();
    let images = rels.find_by_type("relationships/image");
    assert_eq!(images.len(), 1);
}

#[test]
fn external_relationship_is_flagged() {
    let rels = RelationshipMap::parse(DOCUMENT_RELS, "_rels/document.xml.rels").unwrap();
    let hyperlink = rels.get_by_id("rId4").unwrap();
    assert!(hyperlink.is_external);
}

#[test]
fn internal_relationship_is_not_external() {
    let rels = RelationshipMap::parse(DOCUMENT_RELS, "_rels/document.xml.rels").unwrap();
    let styles = rels.get_by_id("rId1").unwrap();
    assert!(!styles.is_external);
}

#[test]
fn missing_id_returns_none() {
    let rels = RelationshipMap::parse(DOCUMENT_RELS, "_rels/document.xml.rels").unwrap();
    assert!(rels.get_by_id("rId99").is_none());
}

#[test]
fn reject_malformed_rels() {
    let bad = b"<Relationships></Wrong>";
    let result = RelationshipMap::parse(bad, "_rels/.rels");
    assert!(result.is_err());
}

#[test]
fn truncated_xml_parses_to_empty_map() {
    let truncated = b"<Relationships>UNCLOSED";
    let rels = RelationshipMap::parse(truncated, "_rels/.rels").unwrap();
    assert_eq!(rels.len(), 0);
}
