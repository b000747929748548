use oxidize_docx_core::word::numbering_xml::parse_numbering_xml;

#[test]
fn parse_empty_numbering() {
    let xml = br#"<?xml version="1.0"?>
<w:numbering xmlns:w="http://schemas.openxmlformats.org/wordprocessingml/2006/main">
</w:numbering>"#;
    let defs = parse_numbering_xml(xml).unwrap();
    assert!(defs.resolve(1, 0).is_err());
}

#[test]
fn parse_single_abstract_and_concrete() {
    let xml = br#"<?xml version="1.0"?>
<w:numbering xmlns:w="http://schemas.openxmlformats.org/wordprocessingml/2006/main">
  <w:abstractNum w:abstractNumId="0">
    <w:lvl w:ilvl="0">
      <w:start w:val="1"/>
      <w:numFmt w:val="decimal"/>
      <w:lvlText w:val="%1."/>
    </w:lvl>
  </w:abstractNum>
  <w:num w:numId="1">
    <w:abstractNumId w:val="0"/>
  </w:num>
</w:numbering>"#;
    let defs = parse_numbering_xml(xml).unwrap();
    let level = defs.resolve(1, 0).unwrap();
    assert_eq!(level.num_fmt, "decimal");
    assert_eq!(level.start, 1);
    assert_eq!(level.level_text, "%1.");
    assert_eq!(level.ilvl, 0);
}

#[test]
fn parse_multiple_levels() {
    let xml = br#"<?xml version="1.0"?>
<w:numbering xmlns:w="http://schemas.openxmlformats.org/wordprocessingml/2006/main">
  <w:abstractNum w:abstractNumId="0">
    <w:lvl w:ilvl="0">
      <w:start w:val="1"/>
      <w:numFmt w:val="decimal"/>
      <w:lvlText w:val="%1."/>
    </w:lvl>
    <w:lvl w:ilvl="1">
      <w:start w:val="1"/>
      <w:numFmt w:val="lowerLetter"/>
      <w:lvlText w:val="%2)"/>
    </w:lvl>
    <w:lvl w:ilvl="2">
      <w:start w:val="1"/>
      <w:numFmt w:val="lowerRoman"/>
      <w:lvlText w:val="%3."/>
    </w:lvl>
  </w:abstractNum>
  <w:num w:numId="1">
    <w:abstractNumId w:val="0"/>
  </w:num>
</w:numbering>"#;
    let defs = parse_numbering_xml(xml).unwrap();
    let l0 = defs.resolve(1, 0).unwrap();
    assert_eq!(l0.num_fmt, "decimal");
    let l1 = defs.resolve(1, 1).unwrap();
    assert_eq!(l1.num_fmt, "lowerLetter");
    let l2 = defs.resolve(1, 2).unwrap();
    assert_eq!(l2.num_fmt, "lowerRoman");
    assert_eq!(l2.ilvl, 2);
}

#[test]
fn parse_bullet_list() {
    let xml = br#"<?xml version="1.0"?>
<w:numbering xmlns:w="http://schemas.openxmlformats.org/wordprocessingml/2006/main">
  <w:abstractNum w:abstractNumId="1">
    <w:lvl w:ilvl="0">
      <w:start w:val="1"/>
      <w:numFmt w:val="bullet"/>
      <w:lvlText w:val="&#61623;"/>
    </w:lvl>
  </w:abstractNum>
  <w:num w:numId="2">
    <w:abstractNumId w:val="1"/>
  </w:num>
</w:numbering>"#;
    let defs = parse_numbering_xml(xml).unwrap();
    let level = defs.resolve(2, 0).unwrap();
    assert_eq!(level.num_fmt, "bullet");
}

#[test]
fn parse_level_captures_rpr_bold_and_ppr_outline_level() {
    let xml = br#"<?xml version="1.0"?>
<w:numbering xmlns:w="http://schemas.openxmlformats.org/wordprocessingml/2006/main">
  <w:abstractNum w:abstractNumId="0">
    <w:lvl w:ilvl="0">
      <w:start w:val="1"/>
      <w:numFmt w:val="decimal"/>
      <w:lvlText w:val="%1."/>
      <w:pPr>
        <w:outlineLvl w:val="0"/>
      </w:pPr>
      <w:rPr>
        <w:b/>
      </w:rPr>
    </w:lvl>
  </w:abstractNum>
  <w:num w:numId="1">
    <w:abstractNumId w:val="0"/>
  </w:num>
</w:numbering>"#;
    let defs = parse_numbering_xml(xml).unwrap();
    let level = defs.resolve(1, 0).unwrap();

    let rpr = level
        .run_properties
        .as_ref()
        .expect("level rPr should be captured");
    assert_eq!(
        rpr.bold,
        Some(true),
        "<w:b/> in level rPr must surface as bold=Some(true)"
    );

    let ppr = level
        .paragraph_properties
        .as_ref()
        .expect("level pPr should be captured");
    assert_eq!(
        ppr.outline_level,
        Some(0),
        "<w:outlineLvl w:val=\"0\"/> in level pPr must surface"
    );
}

#[test]
fn missing_num_id_returns_error() {
    let xml = br#"<?xml version="1.0"?>
<w:numbering xmlns:w="http://schemas.openxmlformats.org/wordprocessingml/2006/main">
  <w:abstractNum w:abstractNumId="0">
    <w:lvl w:ilvl="0">
      <w:start w:val="1"/>
      <w:numFmt w:val="decimal"/>
      <w:lvlText w:val="%1."/>
    </w:lvl>
  </w:abstractNum>
  <w:num w:numId="1">
    <w:abstractNumId w:val="0"/>
  </w:num>
</w:numbering>"#;
    let defs = parse_numbering_xml(xml).unwrap();
    assert!(defs.resolve(99, 0).is_err());
}
