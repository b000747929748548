use oxidize_docx_core::raw::body::{RawBodyItem, SectionRefType};
use oxidize_docx_core::raw::paragraphs::{RawHyperlink, RawInline, RawParagraph};
use oxidize_docx_core::raw::runs::RawRun;
use oxidize_docx_core::raw::tables::RawVMerge;
use oxidize_docx_core::word::document_xml::{parse_document_xml, parse_footer_xml, parse_header_xml};

fn wrap_body(inner: &str) -> Vec<u8> {
    format!(
        r#"<?xml version="1.0"?>
<w:document xmlns:w="http://schemas.openxmlformats.org/wordprocessingml/2006/main"
            xmlns:r="http://schemas.openxmlformats.org/officeDocument/2006/relationships">
  <w:body>
    {inner}
  </w:body>
</w:document>"#
    )
    .into_bytes()
}

fn runs_of(p: &RawParagraph) -> Vec<&RawRun> {
    p.content
        .iter()
        .filter_map(|i| match i {
            RawInline::Run(r) => Some(r),
            RawInline::Hyperlink(_) => None,
        })
        .collect()
}

fn hyperlinks_of(p: &RawParagraph) -> Vec<&RawHyperlink> {
    p.content
        .iter()
        .filter_map(|i| match i {
            RawInline::Hyperlink(h) => Some(h),
            RawInline::Run(_) => None,
        })
        .collect()
}

#[test]
fn parse_single_empty_paragraph() {
    let xml = wrap_body("<w:p/>");
    let body = parse_document_xml(&xml).unwrap();
    assert_eq!(body.items.len(), 1);
    assert!(matches!(body.items[0], RawBodyItem::Paragraph(_)));
}

#[test]
fn parse_paragraph_with_style() {
    let xml = wrap_body(
        r#"<w:p>
              <w:pPr><w:pStyle w:val="Heading1"/></w:pPr>
            </w:p>"#,
    );
    let body = parse_document_xml(&xml).unwrap();
    if let RawBodyItem::Paragraph(ref p) = body.items[0] {
        assert_eq!(p.properties.style_id.as_deref(), Some("Heading1"));
    } else {
        panic!("Expected paragraph");
    }
}

#[test]
fn parse_paragraph_with_alignment() {
    let xml = wrap_body(
        r#"<w:p>
              <w:pPr><w:jc w:val="center"/></w:pPr>
            </w:p>"#,
    );
    let body = parse_document_xml(&xml).unwrap();
    if let RawBodyItem::Paragraph(ref p) = body.items[0] {
        assert_eq!(p.properties.alignment.as_deref(), Some("center"));
    } else {
        panic!("Expected paragraph");
    }
}

#[test]
fn parse_num_pr() {
    let xml = wrap_body(
        r#"<w:p>
              <w:pPr>
                <w:numPr>
                  <w:ilvl w:val="0"/>
                  <w:numId w:val="1"/>
                </w:numPr>
              </w:pPr>
            </w:p>"#,
    );
    let body = parse_document_xml(&xml).unwrap();
    if let RawBodyItem::Paragraph(ref p) = body.items[0] {
        let np = p.properties.num_pr.as_ref().unwrap();
        assert_eq!(np.num_id, 1);
        assert_eq!(np.ilvl, 0);
    } else {
        panic!("Expected paragraph");
    }
}

#[test]
fn parse_run_with_bold_text() {
    let xml = wrap_body(
        r#"<w:p>
              <w:r>
                <w:rPr><w:b/></w:rPr>
                <w:t>Hello</w:t>
              </w:r>
            </w:p>"#,
    );
    let body = parse_document_xml(&xml).unwrap();
    if let RawBodyItem::Paragraph(ref p) = body.items[0] {
        let runs = runs_of(p);
        assert_eq!(runs.len(), 1);
        assert_eq!(runs[0].properties.bold, Some(true));
        assert_eq!(runs[0].text.as_deref(), Some("Hello"));
    } else {
        panic!("Expected paragraph");
    }
}

#[test]
fn parse_run_with_explicit_false_toggle_yields_some_false() {
    let xml = wrap_body(
        r#"<w:p>
              <w:r>
                <w:rPr>
                  <w:b w:val="0"/>
                  <w:i w:val="false"/>
                  <w:u/>
                </w:rPr>
                <w:t>x</w:t>
              </w:r>
            </w:p>"#,
    );
    let body = parse_document_xml(&xml).unwrap();
    if let RawBodyItem::Paragraph(ref p) = body.items[0] {
        let runs = runs_of(p);
        assert_eq!(runs.len(), 1);
        assert_eq!(
            runs[0].properties.bold,
            Some(false),
            "<w:b w:val=\"0\"/> must parse as explicit OFF"
        );
        assert_eq!(
            runs[0].properties.italic,
            Some(false),
            "<w:i w:val=\"false\"/> must parse as explicit OFF"
        );
        assert_eq!(
            runs[0].properties.underline,
            Some(true),
            "<w:u/> with no w:val stays explicit ON"
        );
    } else {
        panic!("Expected paragraph");
    }
}

#[test]
fn parse_run_color_and_size() {
    let xml = wrap_body(
        r#"<w:p>
              <w:r>
                <w:rPr>
                  <w:sz w:val="24"/>
                  <w:color w:val="FF0000"/>
                </w:rPr>
                <w:t>Red</w:t>
              </w:r>
            </w:p>"#,
    );
    let body = parse_document_xml(&xml).unwrap();
    if let RawBodyItem::Paragraph(ref p) = body.items[0] {
        let runs = runs_of(p);
        assert_eq!(runs[0].properties.font_size_half_points, Some(24));
        assert_eq!(runs[0].properties.color.as_deref(), Some("FF0000"));
    } else {
        panic!("Expected paragraph");
    }
}

#[test]
fn parse_paragraph_preserves_run_hyperlink_run_order_in_content() {
    let xml = wrap_body(
        r#"<w:p>
              <w:r><w:t>before </w:t></w:r>
              <w:hyperlink r:id="rId1"><w:r><w:t>link</w:t></w:r></w:hyperlink>
              <w:r><w:t> after</w:t></w:r>
            </w:p>"#,
    );
    let body = parse_document_xml(&xml).unwrap();
    let RawBodyItem::Paragraph(ref p) = body.items[0] else {
        panic!("expected paragraph");
    };
    assert_eq!(p.content.len(), 3);
    match &p.content[0] {
        RawInline::Run(r) => assert_eq!(r.text.as_deref(), Some("before ")),
        other => panic!("expected Run, got {other:?}"),
    }
    match &p.content[1] {
        RawInline::Hyperlink(h) => {
            assert_eq!(h.rel_id.as_deref(), Some("rId1"));
            assert_eq!(h.runs.len(), 1);
            assert_eq!(h.runs[0].text.as_deref(), Some("link"));
        }
        other => panic!("expected Hyperlink, got {other:?}"),
    }
    match &p.content[2] {
        RawInline::Run(r) => assert_eq!(r.text.as_deref(), Some(" after")),
        other => panic!("expected Run, got {other:?}"),
    }
}

#[test]
fn parse_hyperlink() {
    let xml = wrap_body(
        r#"<w:p>
              <w:hyperlink r:id="rId5">
                <w:r><w:t>Click</w:t></w:r>
              </w:hyperlink>
            </w:p>"#,
    );
    let body = parse_document_xml(&xml).unwrap();
    if let RawBodyItem::Paragraph(ref p) = body.items[0] {
        let links = hyperlinks_of(p);
        assert_eq!(links.len(), 1);
        assert_eq!(links[0].rel_id.as_deref(), Some("rId5"));
        assert_eq!(links[0].runs.len(), 1);
        assert_eq!(links[0].runs[0].text.as_deref(), Some("Click"));
    } else {
        panic!("Expected paragraph");
    }
}

#[test]
fn parse_minimal_table() {
    let xml = wrap_body(
        r#"<w:tbl>
              <w:tr>
                <w:tc>
                  <w:p><w:r><w:t>Cell</w:t></w:r></w:p>
                </w:tc>
              </w:tr>
            </w:tbl>"#,
    );
    let body = parse_document_xml(&xml).unwrap();
    assert_eq!(body.items.len(), 1);
    if let RawBodyItem::Table(ref table) = body.items[0] {
        assert_eq!(table.rows.len(), 1);
        assert_eq!(table.rows[0].cells.len(), 1);
        assert_eq!(table.rows[0].cells[0].paragraphs.len(), 1);
        let text = runs_of(&table.rows[0].cells[0].paragraphs[0])[0]
            .text
            .as_deref();
        assert_eq!(text, Some("Cell"));
    } else {
        panic!("Expected table");
    }
}

#[test]
fn parse_table_2x2() {
    let xml = wrap_body(
        r#"<w:tbl>
              <w:tr>
                <w:tc><w:p><w:r><w:t>A1</w:t></w:r></w:p></w:tc>
                <w:tc><w:p><w:r><w:t>B1</w:t></w:r></w:p></w:tc>
              </w:tr>
              <w:tr>
                <w:tc><w:p><w:r><w:t>A2</w:t></w:r></w:p></w:tc>
                <w:tc><w:p><w:r><w:t>B2</w:t></w:r></w:p></w:tc>
              </w:tr>
            </w:tbl>"#,
    );
    let body = parse_document_xml(&xml).unwrap();
    if let RawBodyItem::Table(ref table) = body.items[0] {
        assert_eq!(table.rows.len(), 2);
        assert_eq!(table.rows[0].cells.len(), 2);
        assert_eq!(table.rows[1].cells.len(), 2);
    } else {
        panic!("Expected table");
    }
}

#[test]
fn parse_cell_grid_span() {
    let xml = wrap_body(
        r#"<w:tbl>
              <w:tr>
                <w:tc>
                  <w:tcPr><w:gridSpan w:val="2"/></w:tcPr>
                  <w:p/>
                </w:tc>
              </w:tr>
            </w:tbl>"#,
    );
    let body = parse_document_xml(&xml).unwrap();
    if let RawBodyItem::Table(ref table) = body.items[0] {
        assert_eq!(table.rows[0].cells[0].properties.grid_span, 2);
    } else {
        panic!("Expected table");
    }
}

#[test]
fn parse_cell_v_merge_restart() {
    let xml = wrap_body(
        r#"<w:tbl>
              <w:tr>
                <w:tc>
                  <w:tcPr><w:vMerge w:val="restart"/></w:tcPr>
                  <w:p/>
                </w:tc>
              </w:tr>
            </w:tbl>"#,
    );
    let body = parse_document_xml(&xml).unwrap();
    if let RawBodyItem::Table(ref table) = body.items[0] {
        assert_eq!(
            table.rows[0].cells[0].properties.v_merge,
            Some(RawVMerge::Restart)
        );
    } else {
        panic!("Expected table");
    }
}

#[test]
fn parse_cell_v_merge_continue() {
    let xml = wrap_body(
        r#"<w:tbl>
              <w:tr>
                <w:tc>
                  <w:tcPr><w:vMerge/></w:tcPr>
                  <w:p/>
                </w:tc>
              </w:tr>
            </w:tbl>"#,
    );
    let body = parse_document_xml(&xml).unwrap();
    if let RawBodyItem::Table(ref table) = body.items[0] {
        assert_eq!(
            table.rows[0].cells[0].properties.v_merge,
            Some(RawVMerge::Continue)
        );
    } else {
        panic!("Expected table");
    }
}

#[test]
fn parse_section_break() {
    let xml = wrap_body(
        r#"<w:p/>
            <w:sectPr>
              <w:pgSz w:w="12240" w:h="15840"/>
            </w:sectPr>"#,
    );
    let body = parse_document_xml(&xml).unwrap();
    assert_eq!(body.items.len(), 2);
    assert!(matches!(body.items[1], RawBodyItem::SectionBreak(_)));
}

#[test]
fn parse_header_xml_extracts_paragraphs_from_w_hdr_envelope() {
    let xml = br#"<?xml version="1.0"?>
<w:hdr xmlns:w="http://schemas.openxmlformats.org/wordprocessingml/2006/main">
  <w:p><w:r><w:t>Page header</w:t></w:r></w:p>
</w:hdr>"#;
    let body = parse_header_xml(xml).expect("parse_header_xml");
    assert_eq!(body.items.len(), 1);
    let RawBodyItem::Paragraph(p) = &body.items[0] else {
        panic!("expected paragraph, got {:?}", body.items[0]);
    };
    let runs = runs_of(p);
    assert_eq!(runs.len(), 1);
    assert_eq!(runs[0].text.as_deref(), Some("Page header"));
}

#[test]
fn parse_footer_xml_extracts_paragraphs_from_w_ftr_envelope() {
    let xml = br#"<?xml version="1.0"?>
<w:ftr xmlns:w="http://schemas.openxmlformats.org/wordprocessingml/2006/main">
  <w:p><w:r><w:t>Page 1 of 10</w:t></w:r></w:p>
</w:ftr>"#;
    let body = parse_footer_xml(xml).expect("parse_footer_xml");
    assert_eq!(body.items.len(), 1);
    let RawBodyItem::Paragraph(p) = &body.items[0] else {
        panic!("expected paragraph, got {:?}", body.items[0]);
    };
    assert_eq!(runs_of(p)[0].text.as_deref(), Some("Page 1 of 10"));
}

#[test]
fn parse_section_break_captures_header_and_footer_references() {
    let xml = wrap_body(
        r#"<w:p/>
            <w:sectPr>
              <w:headerReference w:type="default" r:id="rId10"/>
              <w:headerReference w:type="first" r:id="rId11"/>
              <w:footerReference w:type="even" r:id="rId12"/>
              <w:pgSz w:w="12240" w:h="15840"/>
            </w:sectPr>"#,
    );
    let body = parse_document_xml(&xml).unwrap();
    assert_eq!(body.items.len(), 2);
    let RawBodyItem::SectionBreak(props) = &body.items[1] else {
        panic!(
            "expected SectionBreak with properties, got {:?}",
            body.items[1]
        );
    };
    assert_eq!(props.header_refs.len(), 2);
    assert_eq!(props.header_refs[0].rel_id, "rId10");
    assert_eq!(props.header_refs[0].ref_type, SectionRefType::Default);
    assert_eq!(props.header_refs[1].rel_id, "rId11");
    assert_eq!(props.header_refs[1].ref_type, SectionRefType::First);
    assert_eq!(props.footer_refs.len(), 1);
    assert_eq!(props.footer_refs[0].rel_id, "rId12");
    assert_eq!(props.footer_refs[0].ref_type, SectionRefType::Even);
}

#[test]
fn parse_multiple_paragraphs() {
    let xml = wrap_body(
        r#"<w:p><w:r><w:t>First</w:t></w:r></w:p>
            <w:p><w:r><w:t>Second</w:t></w:r></w:p>
            <w:p><w:r><w:t>Third</w:t></w:r></w:p>"#,
    );
    let body = parse_document_xml(&xml).unwrap();
    assert_eq!(body.items.len(), 3);
    for item in &body.items {
        assert!(matches!(item, RawBodyItem::Paragraph(_)));
    }
}

#[test]
fn parse_multiple_runs_in_paragraph() {
    let xml = wrap_body(
        r#"<w:p>
              <w:r><w:rPr><w:b/></w:rPr><w:t>Bold </w:t></w:r>
              <w:r><w:rPr><w:i/></w:rPr><w:t>Italic</w:t></w:r>
            </w:p>"#,
    );
    let body = parse_document_xml(&xml).unwrap();
    if let RawBodyItem::Paragraph(ref p) = body.items[0] {
        let runs = runs_of(p);
        assert_eq!(runs.len(), 2);
        assert_eq!(runs[0].properties.bold, Some(true));
        assert_eq!(runs[0].text.as_deref(), Some("Bold "));
        assert_eq!(runs[1].properties.italic, Some(true));
        assert_eq!(runs[1].text.as_deref(), Some("Italic"));
    } else {
        panic!("Expected paragraph");
    }
}

#[test]
fn paragraph_captures_comment_reference_ids_from_runs() {
    let xml = wrap_body(
        r#"<w:p>
                <w:r><w:commentReference w:id="0"/></w:r>
                <w:r><w:t>text</w:t></w:r>
                <w:r><w:commentReference w:id="3"/></w:r>
            </w:p>"#,
    );
    let body = parse_document_xml(&xml).unwrap();
    let RawBodyItem::Paragraph(p) = &body.items[0] else {
        panic!("expected Paragraph");
    };
    assert_eq!(p.comment_ref_ids, vec![0, 3]);
    assert!(p.footnote_ref_ids.is_empty());
    assert!(p.endnote_ref_ids.is_empty());
}

#[test]
fn paragraph_captures_endnote_reference_ids_from_runs() {
    let xml = wrap_body(
        r#"<w:p>
                <w:r><w:t>cite</w:t></w:r>
                <w:r><w:endnoteReference w:id="2"/></w:r>
            </w:p>"#,
    );
    let body = parse_document_xml(&xml).unwrap();
    let RawBodyItem::Paragraph(p) = &body.items[0] else {
        panic!("expected Paragraph");
    };
    assert_eq!(p.endnote_ref_ids, vec![2]);
    assert!(
        p.footnote_ref_ids.is_empty(),
        "endnote ref must not leak into footnote bucket"
    );
}

#[test]
fn paragraph_captures_footnote_reference_ids_from_runs() {
    let xml = wrap_body(
        r#"<w:p>
                <w:r><w:t>See</w:t></w:r>
                <w:r><w:footnoteReference w:id="1"/></w:r>
                <w:r><w:t> and</w:t></w:r>
                <w:r><w:footnoteReference w:id="3"/></w:r>
            </w:p>"#,
    );
    let body = parse_document_xml(&xml).unwrap();
    assert_eq!(body.items.len(), 1);
    let RawBodyItem::Paragraph(p) = &body.items[0] else {
        panic!("expected Paragraph");
    };
    assert_eq!(p.footnote_ref_ids, vec![1, 3]);
}

#[test]
fn parse_paragraph_then_table_then_paragraph() {
    let xml = wrap_body(
        r#"<w:p><w:r><w:t>Before</w:t></w:r></w:p>
            <w:tbl>
              <w:tr><w:tc><w:p><w:r><w:t>Cell</w:t></w:r></w:p></w:tc></w:tr>
            </w:tbl>
            <w:p><w:r><w:t>After</w:t></w:r></w:p>"#,
    );
    let body = parse_document_xml(&xml).unwrap();
    assert_eq!(body.items.len(), 3);
    assert!(matches!(body.items[0], RawBodyItem::Paragraph(_)));
    assert!(matches!(body.items[1], RawBodyItem::Table(_)));
    assert!(matches!(body.items[2], RawBodyItem::Paragraph(_)));
}
