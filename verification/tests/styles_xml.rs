use oxidize_docx_core::styles::StyleType;
use oxidize_docx_core::word::styles_xml::parse_styles_xml;

#[test]
fn parse_empty_styles_xml() {
    let xml = br#"<?xml version="1.0"?>
<w:styles xmlns:w="http://schemas.openxmlformats.org/wordprocessingml/2006/main">
</w:styles>"#;
    let table = parse_styles_xml(xml).unwrap();
    assert_eq!(table.len(), 0);
    assert!(table.get("Heading1").is_none());
}

#[test]
fn parse_heading1_style() {
    let xml = br#"<?xml version="1.0"?>
<w:styles xmlns:w="http://schemas.openxmlformats.org/wordprocessingml/2006/main">
  <w:style w:type="paragraph" w:styleId="Heading1">
    <w:name w:val="heading 1"/>
    <w:basedOn w:val="Normal"/>
    <w:next w:val="Normal"/>
  </w:style>
</w:styles>"#;
    let table = parse_styles_xml(xml).unwrap();
    let entry = table.get("Heading1").unwrap();
    assert_eq!(entry.style_id, "Heading1");
    assert_eq!(entry.name, "heading 1");
    assert_eq!(entry.style_type, StyleType::Paragraph);
    assert_eq!(entry.based_on.as_deref(), Some("Normal"));
    assert_eq!(entry.next_style.as_deref(), Some("Normal"));
}

#[test]
fn parse_style_with_run_props() {
    let xml = br#"<?xml version="1.0"?>
<w:styles xmlns:w="http://schemas.openxmlformats.org/wordprocessingml/2006/main">
  <w:style w:type="paragraph" w:styleId="Heading1">
    <w:name w:val="heading 1"/>
    <w:rPr>
      <w:b/>
      <w:sz w:val="32"/>
      <w:color w:val="2E74B5"/>
    </w:rPr>
  </w:style>
</w:styles>"#;
    let table = parse_styles_xml(xml).unwrap();
    let entry = table.get("Heading1").unwrap();
    let rpr = entry.run_properties.as_ref().unwrap();
    assert_eq!(rpr.bold, Some(true));
    assert_eq!(rpr.font_size_half_points, Some(32));
    assert_eq!(rpr.color.as_deref(), Some("2E74B5"));
}

#[test]
fn parse_style_with_paragraph_props() {
    let xml = br#"<?xml version="1.0"?>
<w:styles xmlns:w="http://schemas.openxmlformats.org/wordprocessingml/2006/main">
  <w:style w:type="paragraph" w:styleId="Centered">
    <w:name w:val="Centered"/>
    <w:pPr>
      <w:jc w:val="center"/>
      <w:keepNext/>
    </w:pPr>
  </w:style>
</w:styles>"#;
    let table = parse_styles_xml(xml).unwrap();
    let entry = table.get("Centered").unwrap();
    let ppr = entry.paragraph_properties.as_ref().unwrap();
    assert_eq!(ppr.alignment.as_deref(), Some("center"));
    assert!(ppr.keep_next);
}

#[test]
fn parse_doc_defaults() {
    let xml = br#"<?xml version="1.0"?>
<w:styles xmlns:w="http://schemas.openxmlformats.org/wordprocessingml/2006/main">
  <w:docDefaults>
    <w:rPrDefault>
      <w:rPr>
        <w:sz w:val="24"/>
      </w:rPr>
    </w:rPrDefault>
  </w:docDefaults>
</w:styles>"#;
    let table = parse_styles_xml(xml).unwrap();
    assert_eq!(
        table
            .doc_defaults_run_properties()
            .and_then(|r| r.font_size_half_points),
        Some(24)
    );
}

#[test]
fn parse_multiple_styles() {
    let xml = br#"<?xml version="1.0"?>
<w:styles xmlns:w="http://schemas.openxmlformats.org/wordprocessingml/2006/main">
  <w:style w:type="paragraph" w:styleId="Normal" w:default="1">
    <w:name w:val="Normal"/>
  </w:style>
  <w:style w:type="paragraph" w:styleId="Heading1">
    <w:name w:val="heading 1"/>
    <w:basedOn w:val="Normal"/>
  </w:style>
  <w:style w:type="character" w:styleId="Strong">
    <w:name w:val="Strong"/>
    <w:rPr>
      <w:b/>
    </w:rPr>
  </w:style>
</w:styles>"#;
    let table = parse_styles_xml(xml).unwrap();
    assert_eq!(table.len(), 3);
    assert!(table.get("Normal").unwrap().is_default);
    assert_eq!(
        table.get("Strong").unwrap().style_type,
        StyleType::Character
    );
    assert_eq!(
        table
            .get("Strong")
            .unwrap()
            .run_properties
            .as_ref()
            .unwrap()
            .bold,
        Some(true)
    );
}

#[test]
fn parse_character_style_italic() {
    let xml = br#"<?xml version="1.0"?>
<w:styles xmlns:w="http://schemas.openxmlformats.org/wordprocessingml/2006/main">
  <w:style w:type="character" w:styleId="Emphasis">
    <w:name w:val="Emphasis"/>
    <w:rPr>
      <w:i/>
    </w:rPr>
  </w:style>
</w:styles>"#;
    let table = parse_styles_xml(xml).unwrap();
    let entry = table.get("Emphasis").unwrap();
    assert_eq!(entry.run_properties.as_ref().unwrap().italic, Some(true));
}
