use oxidize_docx_core::xml::reader::{first_attr_value, last_attr_value, read_part, read_tokens, XmlTok, XmlToken};

#[test]
fn from_bytes_accepts_clean_xml() {
    let xml = b"<root><child/></root>";
    let result = read_tokens(xml, "test.xml", false);
    assert!(result.is_ok());
}

#[test]
fn from_bytes_rejects_doctype_xml() {
    let xml = b"<!DOCTYPE bomb><root/>";
    let result = read_tokens(xml, "evil.xml", false);
    assert!(result.is_err());
}

#[test]
fn reader_can_parse_events() {
    let xml = b"<root><child>text</child></root>";
    let tokens = read_tokens(xml, "test.xml", false).unwrap();
    assert!(matches!(tokens[0], XmlToken::Tag(_, _, _, false)));
}

#[test]
fn decoded_tokens_carry_names_attributes_and_text() {
    let xml = br#"<w:p a="1" b="2"><w:t>hi there</w:t><w:br/></w:p>"#;
    let toks = read_part(xml, "p.xml", true).unwrap();
    match &toks[0] {
        XmlTok::Start { name, attrs } => {
            assert_eq!(name, "w:p");
            assert_eq!(first_attr_value(attrs, "a"), Some("1".to_string()));
            assert_eq!(last_attr_value(attrs, "b"), Some("2".to_string()));
            assert_eq!(first_attr_value(attrs, "c"), None);
        }
        _ => panic!("expected a start tag"),
    }
    assert!(matches!(&toks[2], XmlTok::Text { text } if text == "hi there"));
    assert!(matches!(&toks[4], XmlTok::Empty { name, .. } if name == "w:br"));
    assert!(matches!(&toks[5], XmlTok::End { name } if name == "w:p"));
}

#[test]
fn trimming_reader_drops_whitespace_only_text() {
    let xml = b"<a>  <b/>  </a>";
    let trimmed = read_part(xml, "a.xml", false).unwrap();
    assert!(trimmed.iter().all(|t| !matches!(t, XmlTok::Text { .. })));
    let kept = read_part(xml, "a.xml", true).unwrap();
    assert!(kept.iter().any(|t| matches!(t, XmlTok::Text { text } if text == "  ")));
}
