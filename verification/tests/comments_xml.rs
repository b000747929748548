use oxidize_docx_core::word::comments_xml::parse_comments_xml;

#[test]
fn empty_comments_xml_yields_empty_map() {
    let xml = br#"<?xml version="1.0" encoding="UTF-8"?>
<w:comments xmlns:w="http://schemas.openxmlformats.org/wordprocessingml/2006/main">
</w:comments>"#;
    let map = parse_comments_xml(xml).unwrap();
    assert!(map.is_empty());
}

#[test]
fn single_comment_captures_author_and_text() {
    let xml = br#"<?xml version="1.0" encoding="UTF-8"?>
<w:comments xmlns:w="http://schemas.openxmlformats.org/wordprocessingml/2006/main">
  <w:comment w:id="0" w:author="Jane Doe" w:date="2026-05-22T12:00:00Z" w:initials="JD">
    <w:p><w:r><w:t>Please clarify </w:t></w:r><w:r><w:t>this term.</w:t></w:r></w:p>
  </w:comment>
</w:comments>"#;
    let map = parse_comments_xml(xml).unwrap();
    assert_eq!(map.len(), 1);
    let info = map.get(0).expect("comment 0 present");
    assert_eq!(info.author, "Jane Doe");
    assert_eq!(info.text, "Please clarify this term.");
}

#[test]
fn multiple_comments_keep_distinct_entries() {
    let xml = br#"<?xml version="1.0" encoding="UTF-8"?>
<w:comments xmlns:w="http://schemas.openxmlformats.org/wordprocessingml/2006/main">
  <w:comment w:id="1" w:author="A"><w:p><w:r><w:t>first</w:t></w:r></w:p></w:comment>
  <w:comment w:id="2" w:author="B"><w:p><w:r><w:t>second</w:t></w:r></w:p></w:comment>
</w:comments>"#;
    let map = parse_comments_xml(xml).unwrap();
    assert_eq!(map.len(), 2);
    assert_eq!(map.get(1).unwrap().author, "A");
    assert_eq!(map.get(1).unwrap().text, "first");
    assert_eq!(map.get(2).unwrap().author, "B");
    assert_eq!(map.get(2).unwrap().text, "second");
}

#[test]
fn missing_author_attribute_yields_empty_string() {
    let xml = br#"<?xml version="1.0" encoding="UTF-8"?>
<w:comments xmlns:w="http://schemas.openxmlformats.org/wordprocessingml/2006/main">
  <w:comment w:id="5"><w:p><w:r><w:t>anonymous</w:t></w:r></w:p></w:comment>
</w:comments>"#;
    let map = parse_comments_xml(xml).unwrap();
    let info = map.get(5).unwrap();
    assert_eq!(info.author, "");
    assert_eq!(info.text, "anonymous");
}
