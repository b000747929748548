use oxidize_docx_core::document::{main_document_path, DocxParts, ParsedDocument};
use oxidize_docx_core::images::extractor::media_paths;
use oxidize_docx_core::numbering::ListType;
use oxidize_docx_core::ooxml::content_types::ContentTypeMap;
use oxidize_docx_core::pipeline::element::{DocxElement, HeaderKind, HeadingContext, LinkSpan, TableCell, TableRow};
use oxidize_docx_core::pipeline::profile::ExtractionProfile;
use oxidize_docx_core::zip::security::{validate_entry, MAX_UNCOMPRESSED_ENTRY_SIZE};
use oxidize_docx_core::DocxError;

fn document_xml(body: &str) -> String {
    format!(
        r#"<?xml version="1.0" encoding="UTF-8"?>
<w:document xmlns:w="http://schemas.openxmlformats.org/wordprocessingml/2006/main">
  <w:body>
{body}
  </w:body>
</w:document>"#
    )
}

fn parts(body: &str) -> DocxParts {
    DocxParts {
        document_xml: document_xml(body).into_bytes(),
        styles_xml: None,
        numbering_xml: None,
        footnotes_xml: None,
        endnotes_xml: None,
        comments_xml: None,
        document_rels_xml: None,
        header_parts: vec![],
        footer_parts: vec![],
    }
}

fn para(t: &str, parent: Option<HeadingContext>) -> DocxElement {
    DocxElement::Paragraph { text: t.into(), parent_heading: parent, links: vec![] }
}

fn elements_of(p: &DocxParts) -> Vec<DocxElement> {
    let doc = ParsedDocument::parse(p).expect("parse");
    assert!(doc.spans_resolvable());
    doc.elements().expect("elements")
}

const STYLES_HEADING1: &str = r#"<?xml version="1.0" encoding="UTF-8"?>
<w:styles xmlns:w="http://schemas.openxmlformats.org/wordprocessingml/2006/main">
  <w:style w:type="paragraph" w:styleId="Heading1">
    <w:name w:val="heading 1"/>
  </w:style>
</w:styles>"#;

const NUMBERING_DECIMAL: &str = r#"<?xml version="1.0" encoding="UTF-8"?>
<w:numbering xmlns:w="http://schemas.openxmlformats.org/wordprocessingml/2006/main">
  <w:abstractNum w:abstractNumId="0">
    <w:lvl w:ilvl="0">
      <w:start w:val="1"/>
      <w:numFmt w:val="decimal"/>
      <w:lvlText w:val="%1."/>
    </w:lvl>
  </w:abstractNum>
  <w:num w:numId="1">
    <w:abstractNumId w:val="0"/>
  </w:num>
</w:numbering>"#;

const FOOTNOTES_XML: &str = r#"<?xml version="1.0" encoding="UTF-8"?>
<w:footnotes xmlns:w="http://schemas.openxmlformats.org/wordprocessingml/2006/main">
  <w:footnote w:id="-1" w:type="separator"><w:p><w:r><w:separator/></w:r></w:p></w:footnote>
  <w:footnote w:id="0" w:type="continuationSeparator"><w:p><w:r><w:continuationSeparator/></w:r></w:p></w:footnote>
  <w:footnote w:id="1"><w:p><w:r><w:t>real footnote text</w:t></w:r></w:p></w:footnote>
</w:footnotes>"#;

const ENDNOTES_XML: &str = r#"<?xml version="1.0" encoding="UTF-8"?>
<w:endnotes xmlns:w="http://schemas.openxmlformats.org/wordprocessingml/2006/main">
  <w:endnote w:id="1"><w:p><w:r><w:t>endnote text</w:t></w:r></w:p></w:endnote>
</w:endnotes>"#;

const COMMENTS_XML: &str = r#"<?xml version="1.0" encoding="UTF-8"?>
<w:comments xmlns:w="http://schemas.openxmlformats.org/wordprocessingml/2006/main">
  <w:comment w:id="7" w:author="Alice"><w:p><w:r><w:t>needs revision</w:t></w:r></w:p></w:comment>
</w:comments>"#;

#[test]
fn elements_resolves_two_decimal_list_items_with_indices_1_and_2() {
    let body = r#"<w:p><w:pPr><w:numPr><w:ilvl w:val="0"/><w:numId w:val="1"/></w:numPr></w:pPr><w:r><w:t>first</w:t></w:r></w:p>
<w:p><w:pPr><w:numPr><w:ilvl w:val="0"/><w:numId w:val="1"/></w:numPr></w:pPr><w:r><w:t>second</w:t></w:r></w:p>"#;
    let mut p = parts(body);
    p.numbering_xml = Some(NUMBERING_DECIMAL.as_bytes().to_vec());
    assert_eq!(
        elements_of(&p),
        vec![
            DocxElement::ListItem { text: "first".into(), level: 0, list_type: ListType::Decimal, display_index: Some(1) },
            DocxElement::ListItem { text: "second".into(), level: 0, list_type: ListType::Decimal, display_index: Some(2) },
        ]
    );
}

#[test]
fn elements_resolves_2x2_table_with_grid_span_and_vmerge() {
    let body = r#"<w:tbl>
  <w:tr>
    <w:tc><w:p><w:r><w:t>A</w:t></w:r></w:p></w:tc>
    <w:tc>
      <w:tcPr><w:gridSpan w:val="2"/><w:vMerge w:val="restart"/></w:tcPr>
      <w:p><w:r><w:t>B</w:t></w:r></w:p>
    </w:tc>
  </w:tr>
  <w:tr>
    <w:tc><w:p><w:r><w:t>C</w:t></w:r></w:p></w:tc>
    <w:tc>
      <w:tcPr><w:gridSpan w:val="2"/><w:vMerge/></w:tcPr>
      <w:p/>
    </w:tc>
  </w:tr>
</w:tbl>"#;
    assert_eq!(
        elements_of(&parts(body)),
        vec![DocxElement::Table {
            rows: vec![
                TableRow {
                    cells: vec![
                        TableCell { text: "A".into(), col_span: 1, row_span: 1 },
                        TableCell { text: "B".into(), col_span: 2, row_span: 2 },
                    ],
                },
                TableRow { cells: vec![TableCell { text: "C".into(), col_span: 1, row_span: 1 }] },
            ],
        }]
    );
}

#[test]
fn elements_classifies_pstyle_heading1_as_heading_level_1() {
    let body = r#"<w:p><w:pPr><w:pStyle w:val="Heading1"/></w:pPr><w:r><w:t>Intro</w:t></w:r></w:p>
<w:p><w:r><w:t>body</w:t></w:r></w:p>"#;
    let mut p = parts(body);
    p.styles_xml = Some(STYLES_HEADING1.as_bytes().to_vec());
    assert_eq!(
        elements_of(&p),
        vec![
            DocxElement::Heading { level: 1, text: "Intro".into() },
            para("body", Some(HeadingContext { level: 1, text: "Intro".into() })),
        ]
    );
}

#[test]
fn rag_chunks_with_minimal_profile_drops_footnote_from_paragraph_chunk() {
    let body = r#"<w:p><w:r><w:t>cite</w:t></w:r><w:r><w:footnoteReference w:id="1"/></w:r></w:p>"#;
    let mut p = parts(body);
    p.footnotes_xml = Some(FOOTNOTES_XML.as_bytes().to_vec());
    let doc = ParsedDocument::parse(&p).unwrap();
    let chunks = doc.rag_chunks_with_profile(ExtractionProfile::Minimal).expect("chunks");
    assert_eq!(chunks.len(), 1);
    let c = &chunks[0];
    assert_eq!(c.text, "cite");
    assert_eq!(c.element_types, vec!["paragraph".to_string()]);
    assert!(!c.element_types.iter().any(|t| t == "footnote"));
}

#[test]
fn rag_chunks_with_academic_profile_inlines_footnote_into_paragraph_chunk() {
    let body = r#"<w:p><w:r><w:t>cite</w:t></w:r><w:r><w:footnoteReference w:id="1"/></w:r></w:p>"#;
    let mut p = parts(body);
    p.footnotes_xml = Some(FOOTNOTES_XML.as_bytes().to_vec());
    let doc = ParsedDocument::parse(&p).unwrap();
    let chunks = doc.rag_chunks_with_profile(ExtractionProfile::Academic).expect("chunks");
    assert_eq!(chunks.len(), 1);
    assert_eq!(chunks[0].text, "cite (Note 1: real footnote text)");
    assert_eq!(chunks[0].element_types, vec!["paragraph".to_string()]);
}

#[test]
fn elements_resolves_comment_reference_emitting_comment_with_author_and_text() {
    let body = r#"<w:p><w:r><w:t>text</w:t></w:r><w:r><w:commentReference w:id="7"/></w:r></w:p>"#;
    let mut p = parts(body);
    p.comments_xml = Some(COMMENTS_XML.as_bytes().to_vec());
    assert_eq!(
        elements_of(&p),
        vec![
            para("text", None),
            DocxElement::Comment { id: 7, author: "Alice".into(), text: "needs revision".into() },
        ]
    );
}

#[test]
fn elements_resolves_endnote_reference_emitting_endnote_after_paragraph() {
    let body = r#"<w:p><w:r><w:t>citation</w:t></w:r><w:r><w:endnoteReference w:id="1"/></w:r></w:p>"#;
    let mut p = parts(body);
    p.endnotes_xml = Some(ENDNOTES_XML.as_bytes().to_vec());
    assert_eq!(
        elements_of(&p),
        vec![para("citation", None), DocxElement::Endnote { id: 1, text: "endnote text".into() }]
    );
}

#[test]
fn elements_resolves_footnote_reference_to_docx_element_footnote() {
    let body = r#"<w:p><w:r><w:t>See</w:t></w:r><w:r><w:footnoteReference w:id="1"/></w:r></w:p>"#;
    let mut p = parts(body);
    p.footnotes_xml = Some(FOOTNOTES_XML.as_bytes().to_vec());
    assert_eq!(
        elements_of(&p),
        vec![para("See", None), DocxElement::Footnote { id: 1, text: "real footnote text".into() }]
    );
}

#[test]
fn rag_chunks_emits_per_heading_block_with_populated_context() {
    let body = r#"<w:p><w:pPr><w:pStyle w:val="Heading1"/></w:pPr><w:r><w:t>Intro</w:t></w:r></w:p>
<w:p><w:r><w:t>body</w:t></w:r></w:p>
<w:p><w:pPr><w:pStyle w:val="Heading1"/></w:pPr><w:r><w:t>Conclusion</w:t></w:r></w:p>
<w:p><w:r><w:t>end</w:t></w:r></w:p>"#;
    let mut p = parts(body);
    p.styles_xml = Some(STYLES_HEADING1.as_bytes().to_vec());
    let doc = ParsedDocument::parse(&p).unwrap();
    let chunks = doc.rag_chunks().expect("rag_chunks");
    assert_eq!(chunks.len(), 2);
    assert_eq!(chunks[0].text, "Intro\n\nbody");
    assert_eq!(chunks[0].paragraph_indices, vec![0, 1]);
    assert_eq!(chunks[0].element_types, vec!["heading".to_string(), "paragraph".to_string()]);
    assert_eq!(chunks[0].heading_context, vec![HeadingContext { level: 1, text: "Intro".into() }]);
    assert!(!chunks[0].is_oversized);
    assert_eq!(chunks[1].text, "Conclusion\n\nend");
    assert_eq!(chunks[1].paragraph_indices, vec![2, 3]);
    assert_eq!(chunks[1].heading_context, vec![HeadingContext { level: 1, text: "Conclusion".into() }]);
}

#[test]
fn to_markdown_renders_heading_list_paragraph_with_gfm_syntax() {
    let body = r#"<w:p><w:pPr><w:pStyle w:val="Heading1"/></w:pPr><w:r><w:t>Title</w:t></w:r></w:p>
<w:p><w:pPr><w:numPr><w:ilvl w:val="0"/><w:numId w:val="1"/></w:numPr></w:pPr><w:r><w:t>one</w:t></w:r></w:p>
<w:p><w:pPr><w:numPr><w:ilvl w:val="0"/><w:numId w:val="1"/></w:numPr></w:pPr><w:r><w:t>two</w:t></w:r></w:p>
<w:p><w:r><w:t>tail</w:t></w:r></w:p>"#;
    let mut p = parts(body);
    p.styles_xml = Some(STYLES_HEADING1.as_bytes().to_vec());
    p.numbering_xml = Some(NUMBERING_DECIMAL.as_bytes().to_vec());
    let doc = ParsedDocument::parse(&p).unwrap();
    assert_eq!(doc.to_markdown().expect("to_markdown"), "# Title\n\n1. one\n2. two\n\ntail");
}

#[test]
fn plain_text_renders_heading_list_and_paragraph_with_expected_separators() {
    let body = r#"<w:p><w:pPr><w:pStyle w:val="Heading1"/></w:pPr><w:r><w:t>Title</w:t></w:r></w:p>
<w:p><w:pPr><w:numPr><w:ilvl w:val="0"/><w:numId w:val="1"/></w:numPr></w:pPr><w:r><w:t>one</w:t></w:r></w:p>
<w:p><w:pPr><w:numPr><w:ilvl w:val="0"/><w:numId w:val="1"/></w:numPr></w:pPr><w:r><w:t>two</w:t></w:r></w:p>
<w:p><w:r><w:t>tail</w:t></w:r></w:p>"#;
    let mut p = parts(body);
    p.styles_xml = Some(STYLES_HEADING1.as_bytes().to_vec());
    p.numbering_xml = Some(NUMBERING_DECIMAL.as_bytes().to_vec());
    let doc = ParsedDocument::parse(&p).unwrap();
    assert_eq!(doc.plain_text().expect("plain_text"), "Title\n\none\ntwo\n\ntail");
}

#[test]
fn elements_returns_single_paragraph_for_minimal_docx() {
    let body = r#"<w:p><w:r><w:t>Hello</w:t></w:r></w:p>"#;
    assert_eq!(elements_of(&parts(body)), vec![para("Hello", None)]);
}

#[test]
fn hyperlink_resolved_against_document_rels_becomes_link_span() {
    let body = r#"<w:p><w:r><w:t>see </w:t></w:r><w:hyperlink r:id="rId7"><w:r><w:t>this page</w:t></w:r></w:hyperlink></w:p>"#;
    let rels = r#"<?xml version="1.0" encoding="UTF-8"?>
<Relationships xmlns="http://schemas.openxmlformats.org/package/2006/relationships">
  <Relationship Id="rId7" Type="http://schemas.openxmlformats.org/officeDocument/2006/relationships/hyperlink" Target="https://docs.example.com/page" TargetMode="External"/>
</Relationships>"#;
    let mut p = parts(body);
    p.document_rels_xml = Some(rels.as_bytes().to_vec());
    assert_eq!(
        elements_of(&p),
        vec![DocxElement::Paragraph {
            text: "see this page".into(),
            parent_heading: None,
            links: vec![LinkSpan { text: "this page".into(), url: "https://docs.example.com/page".into() }],
        }]
    );
}

#[test]
fn elements_resolves_header_part_referenced_by_section_break() {
    let body = r#"<w:p><w:r><w:t>body</w:t></w:r></w:p>
<w:sectPr><w:headerReference w:type="default" r:id="rId10"/></w:sectPr>"#;
    let rels = r#"<?xml version="1.0" encoding="UTF-8"?>
<Relationships xmlns="http://schemas.openxmlformats.org/package/2006/relationships">
  <Relationship Id="rId10" Type="http://schemas.openxmlformats.org/officeDocument/2006/relationships/header" Target="header1.xml"/>
</Relationships>"#;
    let header_xml = r#"<?xml version="1.0" encoding="UTF-8"?>
<w:hdr xmlns:w="http://schemas.openxmlformats.org/wordprocessingml/2006/main">
  <w:p><w:r><w:t>page header</w:t></w:r></w:p>
</w:hdr>"#;
    let mut p = parts(body);
    p.document_rels_xml = Some(rels.as_bytes().to_vec());
    p.header_parts = vec![("word/header1.xml".into(), header_xml.as_bytes().to_vec())];
    assert_eq!(
        elements_of(&p),
        vec![
            para("body", None),
            DocxElement::Header { kind: HeaderKind::Default, content: vec![para("page header", None)] },
        ]
    );
}

#[test]
fn first_failing_part_decides_the_error() {
    let mut p = parts("<w:p/>");
    p.styles_xml = Some(b"<!DOCTYPE x><w:styles/>".to_vec());
    p.numbering_xml = Some(b"<!DOCTYPE y><w:numbering/>".to_vec());
    match ParsedDocument::parse(&p) {
        Err(DocxError::XmlParse { part, .. }) => assert_eq!(part, "word/styles.xml"),
        Err(e) => panic!("unexpected error {e:?}"),
        Ok(_) => panic!("a DOCTYPE must be refused"),
    }
}

#[test]
fn main_document_path_comes_from_the_manifest() {
    let ct = ContentTypeMap::parse(
        br#"<Types xmlns="http://schemas.openxmlformats.org/package/2006/content-types">
  <Override PartName="/word/document.xml" ContentType="application/vnd.openxmlformats-officedocument.wordprocessingml.document.main+xml"/>
</Types>"#,
    )
    .unwrap();
    assert_eq!(main_document_path(&ct).unwrap(), "word/document.xml");
    let empty = ContentTypeMap::parse(br#"<Types xmlns="http://schemas.openxmlformats.org/package/2006/content-types"/>"#).unwrap();
    match main_document_path(&empty) {
        Err(e) => assert_eq!(e.message(), "Missing required OOXML part: 'main document part (word/document.xml)'"),
        Ok(p) => panic!("unexpected part {p}"),
    }
}

#[test]
fn entry_checks_run_path_then_size() {
    assert!(validate_entry("word/document.xml", 1000, 100).is_ok());
    assert!(matches!(validate_entry("../x", MAX_UNCOMPRESSED_ENTRY_SIZE + 1, 1), Err(DocxError::ZipPathTraversal { .. })));
    assert!(matches!(validate_entry("word/x.xml", MAX_UNCOMPRESSED_ENTRY_SIZE + 1, 1), Err(DocxError::ZipBomb { .. })));
    assert!(matches!(validate_entry("word/x.xml", 10_000_000, 1), Err(DocxError::ZipBomb { .. })));
}

#[test]
fn media_paths_are_filtered_and_sorted() {
    let names: Vec<String> = vec![
        "word/media/image2.png".into(),
        "word/document.xml".into(),
        "word/media/image10.png".into(),
        "word/media/image1.jpeg".into(),
        "media/word/image3.png".into(),
    ];
    assert_eq!(
        media_paths(&names),
        vec!["word/media/image1.jpeg".to_string(), "word/media/image10.png".to_string(), "word/media/image2.png".to_string()]
    );
}

#[test]
fn repeated_classification_and_exports_agree() {
    let body = r#"<w:p><w:pPr><w:pStyle w:val="Heading1"/></w:pPr><w:r><w:t>Title</w:t></w:r></w:p>
<w:p><w:r><w:t>body</w:t></w:r></w:p>"#;
    let mut p = parts(body);
    p.styles_xml = Some(STYLES_HEADING1.as_bytes().to_vec());
    let doc = ParsedDocument::parse(&p).expect("parse");
    assert!(doc.spans_resolvable());
    let first = doc.elements().unwrap();
    assert_eq!(doc.elements().unwrap(), first);
    assert_eq!(doc.elements().unwrap(), first);
    assert_eq!(doc.to_markdown().unwrap(), "# Title\n\nbody");
    assert_eq!(doc.to_markdown().unwrap(), "# Title\n\nbody");
    assert_eq!(doc.plain_text().unwrap(), doc.plain_text().unwrap());
}
