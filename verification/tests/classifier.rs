use oxidize_docx_core::numbering::{AbstractNum, ConcreteNum, ListType, NumberingDefs, NumberingLevel};
use oxidize_docx_core::ooxml::relationships::RelationshipMap;
use oxidize_docx_core::pipeline::classifier::ClassifierPipeline;
use oxidize_docx_core::pipeline::element::{DocxElement, HeaderKind, HeadingContext, LinkSpan, TableCell, TableRow};
use oxidize_docx_core::raw::body::{RawBody, RawBodyItem, RawSectionProperties, RawSectionRef, SectionRefType};
use oxidize_docx_core::raw::paragraphs::{RawHyperlink, RawInline, RawNumPr, RawParagraph, RawParagraphProperties};
use oxidize_docx_core::raw::runs::{RawRun, RawRunProperties};
use oxidize_docx_core::raw::tables::{
    RawTable, RawTableCell, RawTableCellProperties, RawTableProperties, RawTableRow, RawVMerge,
};
use oxidize_docx_core::styles::table::{StyleEntry, StyleTable, StyleType};
use oxidize_docx_core::word::comments_xml::{CommentInfo, CommentMap};
use oxidize_docx_core::word::endnotes_xml::EndnoteMap;
use oxidize_docx_core::word::footnotes_xml::FootnoteMap;
use oxidize_docx_core::DocxError;

fn paragraph_style(id: &str, name: &str) -> StyleEntry {
    StyleEntry {
        style_id: id.into(),
        name: name.into(),
        style_type: StyleType::Paragraph,
        based_on: None,
        next_style: None,
        is_default: false,
        paragraph_properties: None,
        run_properties: None,
    }
}

fn paragraph_with(style_id: Option<&str>, runs: Vec<RawRun>) -> RawParagraph {
    RawParagraph {
        properties: RawParagraphProperties {
            style_id: style_id.map(|s| s.into()),
            ..Default::default()
        },
        content: runs.into_iter().map(RawInline::Run).collect(),
        ..Default::default()
    }
}

fn run(text: &str) -> RawRun {
    RawRun {
        text: Some(text.into()),
        properties: RawRunProperties::default(),
    }
}

fn paragraph_with_runs(runs: Vec<RawRun>) -> RawParagraph {
    RawParagraph {
        content: runs.into_iter().map(RawInline::Run).collect(),
        ..Default::default()
    }
}

fn decimal_numbering() -> NumberingDefs {
    let mut numbering = NumberingDefs::new();
    numbering.insert_abstract(AbstractNum {
        abstract_num_id: 0,
        levels: vec![NumberingLevel {
            ilvl: 0,
            start: 1,
            num_fmt: "decimal".into(),
            level_text: "%1.".into(),
            ..Default::default()
        }],
    });
    numbering.insert_concrete(ConcreteNum {
        num_id: 1,
        abstract_num_id: 0,
        level_overrides: vec![],
    });
    numbering
}

#[test]
fn vmerge_restart_then_continue_yields_row_span_2_and_drops_continuation() {
    let styles = StyleTable::new();
    let numbering = NumberingDefs::new();
    let mut classifier = ClassifierPipeline::new(&styles, &numbering);

    let restart_cell = RawTableCell {
        properties: RawTableCellProperties { v_merge: Some(RawVMerge::Restart), ..Default::default() },
        paragraphs: vec![paragraph_with(None, vec![run("top")])],
    };
    let continue_cell = RawTableCell {
        properties: RawTableCellProperties { v_merge: Some(RawVMerge::Continue), ..Default::default() },
        paragraphs: vec![],
    };
    let table = RawTable {
        properties: RawTableProperties::default(),
        rows: vec![RawTableRow { cells: vec![restart_cell] }, RawTableRow { cells: vec![continue_cell] }],
    };
    let body = RawBody { items: vec![RawBodyItem::Table(table)] };

    let elements = classifier.classify(&body).unwrap();
    assert_eq!(
        elements,
        vec![DocxElement::Table {
            rows: vec![
                TableRow { cells: vec![TableCell { text: "top".into(), col_span: 1, row_span: 2 }] },
                TableRow { cells: vec![] },
            ],
        }]
    );
}

#[test]
fn cell_grid_span_3_collapses_into_single_table_cell_with_col_span_3() {
    let styles = StyleTable::new();
    let numbering = NumberingDefs::new();
    let mut classifier = ClassifierPipeline::new(&styles, &numbering);
    let table = RawTable {
        properties: RawTableProperties::default(),
        rows: vec![RawTableRow {
            cells: vec![RawTableCell {
                properties: RawTableCellProperties { grid_span: 3, ..Default::default() },
                paragraphs: vec![paragraph_with(None, vec![run("wide")])],
            }],
        }],
    };
    let body = RawBody { items: vec![RawBodyItem::Table(table)] };
    let elements = classifier.classify(&body).unwrap();
    assert_eq!(
        elements,
        vec![DocxElement::Table {
            rows: vec![TableRow { cells: vec![TableCell { text: "wide".into(), col_span: 3, row_span: 1 }] }],
        }]
    );
}

#[test]
fn table_with_one_cell_becomes_table_element_with_single_row_and_cell() {
    let styles = StyleTable::new();
    let numbering = NumberingDefs::new();
    let mut classifier = ClassifierPipeline::new(&styles, &numbering);
    let table = RawTable {
        properties: RawTableProperties::default(),
        rows: vec![RawTableRow {
            cells: vec![RawTableCell {
                properties: RawTableCellProperties::default(),
                paragraphs: vec![paragraph_with(None, vec![run("A")])],
            }],
        }],
    };
    let body = RawBody { items: vec![RawBodyItem::Table(table)] };
    let elements = classifier.classify(&body).unwrap();
    assert_eq!(
        elements,
        vec![DocxElement::Table {
            rows: vec![TableRow { cells: vec![TableCell { text: "A".into(), col_span: 1, row_span: 1 }] }],
        }]
    );
}

#[test]
fn paragraph_with_comment_ref_emits_comment_after_endnotes() {
    let styles = StyleTable::new();
    let numbering = NumberingDefs::new();
    let mut comments = CommentMap::new();
    comments.insert(0, CommentInfo { author: "Editor".into(), text: "needs work".into() });
    let mut classifier = ClassifierPipeline::new(&styles, &numbering).with_comments(&comments);
    let mut p = paragraph_with(None, vec![run("body")]);
    p.comment_ref_ids = vec![0];
    let body = RawBody { items: vec![RawBodyItem::Paragraph(p)] };
    let elements = classifier.classify(&body).unwrap();
    assert_eq!(
        elements,
        vec![
            DocxElement::Paragraph { text: "body".into(), parent_heading: None, links: vec![] },
            DocxElement::Comment { id: 0, author: "Editor".into(), text: "needs work".into() },
        ]
    );
}

#[test]
fn paragraph_with_endnote_ref_emits_endnote_after_footnotes() {
    let styles = StyleTable::new();
    let numbering = NumberingDefs::new();
    let mut footnotes = FootnoteMap::new();
    footnotes.insert(1, "fn1".into());
    let mut endnotes = EndnoteMap::new();
    endnotes.insert(2, "en2".into());
    let mut classifier = ClassifierPipeline::new(&styles, &numbering)
        .with_footnotes(&footnotes)
        .with_endnotes(&endnotes);
    let mut p = paragraph_with(None, vec![run("body")]);
    p.footnote_ref_ids = vec![1];
    p.endnote_ref_ids = vec![2];
    let body = RawBody { items: vec![RawBodyItem::Paragraph(p)] };
    let elements = classifier.classify(&body).unwrap();
    assert_eq!(
        elements,
        vec![
            DocxElement::Paragraph { text: "body".into(), parent_heading: None, links: vec![] },
            DocxElement::Footnote { id: 1, text: "fn1".into() },
            DocxElement::Endnote { id: 2, text: "en2".into() },
        ]
    );
}

#[test]
fn paragraph_with_footnote_ref_emits_footnote_element_after_paragraph() {
    let styles = StyleTable::new();
    let numbering = NumberingDefs::new();
    let mut footnotes = FootnoteMap::new();
    footnotes.insert(1, "explanation".into());
    let mut classifier = ClassifierPipeline::new(&styles, &numbering).with_footnotes(&footnotes);
    let mut p = paragraph_with(None, vec![run("body")]);
    p.footnote_ref_ids = vec![1];
    let body = RawBody { items: vec![RawBodyItem::Paragraph(p)] };
    let elements = classifier.classify(&body).unwrap();
    assert_eq!(
        elements,
        vec![
            DocxElement::Paragraph { text: "body".into(), parent_heading: None, links: vec![] },
            DocxElement::Footnote { id: 1, text: "explanation".into() },
        ]
    );
}

#[test]
fn document_order_preserved_with_heading_paragraph_list_item_paragraph() {
    let mut styles = StyleTable::new();
    styles.insert(paragraph_style("Heading1", "heading 1"));
    let numbering = decimal_numbering();
    let mut classifier = ClassifierPipeline::new(&styles, &numbering);
    let mut li = paragraph_with(None, vec![run("li-text")]);
    li.properties.num_pr = Some(RawNumPr { num_id: 1, ilvl: 0 });
    let body = RawBody {
        items: vec![
            RawBodyItem::Paragraph(paragraph_with(Some("Heading1"), vec![run("A")])),
            RawBodyItem::Paragraph(paragraph_with(None, vec![run("p1")])),
            RawBodyItem::Paragraph(li),
            RawBodyItem::Paragraph(paragraph_with(None, vec![run("p2")])),
        ],
    };
    let elements = classifier.classify(&body).unwrap();
    let parent_a = Some(HeadingContext { level: 1, text: "A".into() });
    assert_eq!(
        elements,
        vec![
            DocxElement::Heading { level: 1, text: "A".into() },
            DocxElement::Paragraph { text: "p1".into(), parent_heading: parent_a.clone(), links: vec![] },
            DocxElement::ListItem {
                text: "li-text".into(),
                level: 0,
                list_type: ListType::Decimal,
                display_index: Some(1),
            },
            DocxElement::Paragraph { text: "p2".into(), parent_heading: parent_a, links: vec![] },
        ]
    );
}

#[test]
fn paragraph_with_num_pr_becomes_list_item_with_decimal_index() {
    let styles = StyleTable::new();
    let numbering = decimal_numbering();
    let mut classifier = ClassifierPipeline::new(&styles, &numbering);
    let mut p = paragraph_with(None, vec![run("item one")]);
    p.properties.num_pr = Some(RawNumPr { num_id: 1, ilvl: 0 });
    let body = RawBody { items: vec![RawBodyItem::Paragraph(p)] };
    let elements = classifier.classify(&body).unwrap();
    assert_eq!(
        elements,
        vec![DocxElement::ListItem {
            text: "item one".into(),
            level: 0,
            list_type: ListType::Decimal,
            display_index: Some(1),
        }]
    );
}

#[test]
fn paragraph_after_heading_carries_parent_heading_context() {
    let mut styles = StyleTable::new();
    styles.insert(paragraph_style("Heading1", "heading 1"));
    let numbering = NumberingDefs::new();
    let mut classifier = ClassifierPipeline::new(&styles, &numbering);
    let body = RawBody {
        items: vec![
            RawBodyItem::Paragraph(paragraph_with(Some("Heading1"), vec![run("Intro")])),
            RawBodyItem::Paragraph(paragraph_with(None, vec![run("body text")])),
        ],
    };
    let elements = classifier.classify(&body).unwrap();
    assert_eq!(
        elements,
        vec![
            DocxElement::Heading { level: 1, text: "Intro".into() },
            DocxElement::Paragraph {
                text: "body text".into(),
                parent_heading: Some(HeadingContext { level: 1, text: "Intro".into() }),
                links: vec![],
            },
        ]
    );
}

#[test]
fn classifier_emits_header_and_footer_for_resolved_section_refs() {
    let styles = StyleTable::new();
    let numbering = NumberingDefs::new();
    let rels_xml = br#"<?xml version="1.0"?>
<Relationships xmlns="http://schemas.openxmlformats.org/package/2006/relationships">
  <Relationship Id="rId10" Type="http://schemas.openxmlformats.org/officeDocument/2006/relationships/header" Target="header1.xml"/>
  <Relationship Id="rId20" Type="http://schemas.openxmlformats.org/officeDocument/2006/relationships/footer" Target="footer1.xml"/>
</Relationships>"#;
    let rels = RelationshipMap::parse(rels_xml, "word/_rels/document.xml.rels").unwrap();
    let header_bodies: Vec<(String, RawBody)> = vec![(
        "word/header1.xml".into(),
        RawBody { items: vec![RawBodyItem::Paragraph(paragraph_with(None, vec![run("page header")]))] },
    )];
    let footer_bodies: Vec<(String, RawBody)> = vec![(
        "word/footer1.xml".into(),
        RawBody { items: vec![RawBodyItem::Paragraph(paragraph_with(None, vec![run("page footer")]))] },
    )];
    let mut classifier = ClassifierPipeline::new(&styles, &numbering)
        .with_relationships(&rels)
        .with_section_bodies(&header_bodies, &footer_bodies);
    let body = RawBody {
        items: vec![
            RawBodyItem::Paragraph(paragraph_with(None, vec![run("body")])),
            RawBodyItem::SectionBreak(RawSectionProperties {
                header_refs: vec![RawSectionRef { rel_id: "rId10".into(), ref_type: SectionRefType::Default }],
                footer_refs: vec![RawSectionRef { rel_id: "rId20".into(), ref_type: SectionRefType::Default }],
            }),
        ],
    };
    let elements = classifier.classify(&body).unwrap();
    assert_eq!(
        elements,
        vec![
            DocxElement::Paragraph { text: "body".into(), parent_heading: None, links: vec![] },
            DocxElement::Header {
                kind: HeaderKind::Default,
                content: vec![DocxElement::Paragraph { text: "page header".into(), parent_heading: None, links: vec![] }],
            },
            DocxElement::Footer {
                kind: HeaderKind::Default,
                content: vec![DocxElement::Paragraph { text: "page footer".into(), parent_heading: None, links: vec![] }],
            },
        ]
    );
}

#[test]
fn paragraph_text_concatenates_runs_and_hyperlink_text_in_document_order() {
    let styles = StyleTable::new();
    let numbering = NumberingDefs::new();
    let mut classifier = ClassifierPipeline::new(&styles, &numbering);
    let p = RawParagraph {
        content: vec![
            RawInline::Run(run("before ")),
            RawInline::Hyperlink(RawHyperlink { rel_id: None, anchor: None, runs: vec![run("link")] }),
            RawInline::Run(run(" after")),
        ],
        ..Default::default()
    };
    let body = RawBody { items: vec![RawBodyItem::Paragraph(p)] };
    let elements = classifier.classify(&body).unwrap();
    match &elements[0] {
        DocxElement::Paragraph { text, .. } => assert_eq!(text, "before link after"),
        other => panic!("expected Paragraph, got {other:?}"),
    }
}

#[test]
fn paragraph_with_external_hyperlink_populates_links_span_and_does_not_emit_satellite() {
    let styles = StyleTable::new();
    let numbering = NumberingDefs::new();
    let rels_xml = br#"<?xml version="1.0"?>
<Relationships xmlns="http://schemas.openxmlformats.org/package/2006/relationships">
  <Relationship Id="rId5" Type="http://schemas.openxmlformats.org/officeDocument/2006/relationships/hyperlink" Target="https://example.com" TargetMode="External"/>
</Relationships>"#;
    let rels = RelationshipMap::parse(rels_xml, "word/_rels/document.xml.rels").unwrap();
    let mut classifier = ClassifierPipeline::new(&styles, &numbering).with_relationships(&rels);
    let mut p = paragraph_with(None, vec![run("body")]);
    p.content.push(RawInline::Hyperlink(RawHyperlink {
        rel_id: Some("rId5".into()),
        anchor: None,
        runs: vec![run("click here")],
    }));
    let body = RawBody { items: vec![RawBodyItem::Paragraph(p)] };
    let elements = classifier.classify(&body).unwrap();
    assert_eq!(
        elements,
        vec![DocxElement::Paragraph {
            text: "bodyclick here".into(),
            parent_heading: None,
            links: vec![LinkSpan { text: "click here".into(), url: "https://example.com".into() }],
        }]
    );
}

#[test]
fn classifier_detects_heading_via_outline_lvl_when_name_does_not_match() {
    let mut styles = StyleTable::new();
    styles.insert(StyleEntry {
        style_id: "MyCustom".into(),
        name: "Section Heading".into(),
        style_type: StyleType::Paragraph,
        based_on: None,
        next_style: None,
        is_default: false,
        paragraph_properties: Some(RawParagraphProperties { outline_level: Some(2), ..Default::default() }),
        run_properties: None,
    });
    let numbering = NumberingDefs::new();
    let mut classifier = ClassifierPipeline::new(&styles, &numbering);
    let body = RawBody {
        items: vec![RawBodyItem::Paragraph(paragraph_with(Some("MyCustom"), vec![run("Custom Section")]))],
    };
    let elements = classifier.classify(&body).unwrap();
    assert_eq!(elements, vec![DocxElement::Heading { level: 3, text: "Custom Section".into() }]);
}

#[test]
fn paragraph_with_heading2_style_becomes_heading_level_2() {
    let mut styles = StyleTable::new();
    styles.insert(paragraph_style("Heading2", "heading 2"));
    let numbering = NumberingDefs::new();
    let mut classifier = ClassifierPipeline::new(&styles, &numbering);
    let body = RawBody {
        items: vec![RawBodyItem::Paragraph(paragraph_with(Some("Heading2"), vec![run("Section")]))],
    };
    let elements = classifier.classify(&body).unwrap();
    assert_eq!(elements, vec![DocxElement::Heading { level: 2, text: "Section".into() }]);
}

#[test]
fn styleless_paragraph_with_one_run_becomes_paragraph_element() {
    let styles = StyleTable::new();
    let numbering = NumberingDefs::new();
    let mut classifier = ClassifierPipeline::new(&styles, &numbering);
    let body = RawBody { items: vec![RawBodyItem::Paragraph(paragraph_with_runs(vec![run("hello")]))] };
    let elements = classifier.classify(&body).expect("classify");
    assert_eq!(
        elements,
        vec![DocxElement::Paragraph { text: "hello".into(), parent_heading: None, links: vec![] }]
    );
}

#[test]
fn list_paragraph_with_unknown_numbering_fails_with_numbering_error() {
    let styles = StyleTable::new();
    let numbering = NumberingDefs::new();
    let mut classifier = ClassifierPipeline::new(&styles, &numbering);
    let mut p = paragraph_with(None, vec![run("orphan")]);
    p.properties.num_pr = Some(RawNumPr { num_id: 4, ilvl: 0 });
    let body = RawBody { items: vec![RawBodyItem::Paragraph(p)] };
    assert!(matches!(classifier.classify(&body), Err(DocxError::NumberingDefNotFound { num_id: 4 })));
}

#[test]
fn heading_inside_header_does_not_leak_into_body_context() {
    let mut styles = StyleTable::new();
    styles.insert(paragraph_style("Heading1", "heading 1"));
    let numbering = NumberingDefs::new();
    let rels_xml = br#"<?xml version="1.0"?>
<Relationships xmlns="http://schemas.openxmlformats.org/package/2006/relationships">
  <Relationship Id="rId10" Type="http://schemas.openxmlformats.org/officeDocument/2006/relationships/header" Target="header1.xml"/>
</Relationships>"#;
    let rels = RelationshipMap::parse(rels_xml, "word/_rels/document.xml.rels").unwrap();
    let header_bodies: Vec<(String, RawBody)> = vec![(
        "word/header1.xml".into(),
        RawBody { items: vec![RawBodyItem::Paragraph(paragraph_with(Some("Heading1"), vec![run("Banner")]))] },
    )];
    let footer_bodies: Vec<(String, RawBody)> = vec![];
    let mut classifier = ClassifierPipeline::new(&styles, &numbering)
        .with_relationships(&rels)
        .with_section_bodies(&header_bodies, &footer_bodies);
    let body = RawBody {
        items: vec![
            RawBodyItem::SectionBreak(RawSectionProperties {
                header_refs: vec![RawSectionRef { rel_id: "rId10".into(), ref_type: SectionRefType::First }],
                footer_refs: vec![],
            }),
            RawBodyItem::Paragraph(paragraph_with(None, vec![run("after")])),
        ],
    };
    let elements = classifier.classify(&body).unwrap();
    assert_eq!(
        elements,
        vec![
            DocxElement::Header {
                kind: HeaderKind::First,
                content: vec![DocxElement::Heading { level: 1, text: "Banner".into() }],
            },
            DocxElement::Paragraph { text: "after".into(), parent_heading: None, links: vec![] },
        ]
    );
}

fn self_anchored_table() -> RawTable {
    let restart_cell = RawTableCell {
        properties: RawTableCellProperties { v_merge: Some(RawVMerge::Restart), grid_span: 0, ..Default::default() },
        paragraphs: vec![paragraph_with(None, vec![run("anchor")])],
    };
    let continue_cell = RawTableCell {
        properties: RawTableCellProperties { v_merge: Some(RawVMerge::Continue), ..Default::default() },
        paragraphs: vec![],
    };
    RawTable { properties: RawTableProperties::default(), rows: vec![RawTableRow { cells: vec![restart_cell, continue_cell] }] }
}

#[test]
fn num_id_zero_without_numbering_part_is_plain_paragraph() {
    let styles = StyleTable::new();
    let numbering = NumberingDefs::new();
    let mut classifier = ClassifierPipeline::new(&styles, &numbering);
    let mut p = paragraph_with(None, vec![run("x")]);
    p.properties.num_pr = Some(RawNumPr { num_id: 0, ilvl: 0 });
    let body = RawBody { items: vec![RawBodyItem::Paragraph(p)] };
    assert_eq!(
        classifier.classify(&body).unwrap(),
        vec![DocxElement::Paragraph { text: "x".into(), parent_heading: None, links: vec![] }]
    );
}

#[test]
fn num_id_zero_with_defined_num_zero_is_list_item() {
    let styles = StyleTable::new();
    let mut numbering = decimal_numbering();
    numbering.insert_concrete(ConcreteNum { num_id: 0, abstract_num_id: 0, level_overrides: vec![] });
    let mut classifier = ClassifierPipeline::new(&styles, &numbering);
    let mut p = paragraph_with(None, vec![run("x")]);
    p.properties.num_pr = Some(RawNumPr { num_id: 0, ilvl: 0 });
    let body = RawBody { items: vec![RawBodyItem::Paragraph(p)] };
    assert_eq!(
        classifier.classify(&body).unwrap(),
        vec![DocxElement::ListItem { text: "x".into(), level: 0, list_type: ListType::Decimal, display_index: Some(1) }]
    );
}

#[test]
fn classify_checked_refuses_a_reached_self_anchored_table() {
    let styles = StyleTable::new();
    let numbering = NumberingDefs::new();
    let mut classifier = ClassifierPipeline::new(&styles, &numbering);
    let body = RawBody {
        items: vec![
            RawBodyItem::Paragraph(paragraph_with(None, vec![run("before")])),
            RawBodyItem::Table(self_anchored_table()),
        ],
    };
    assert!(classifier.classify_checked(&body).is_none());
}

#[test]
fn classify_checked_runs_when_the_bad_table_follows_an_error() {
    let styles = StyleTable::new();
    let numbering = NumberingDefs::new();
    let mut classifier = ClassifierPipeline::new(&styles, &numbering);
    let mut p = paragraph_with(None, vec![run("orphan")]);
    p.properties.num_pr = Some(RawNumPr { num_id: 4, ilvl: 0 });
    let body = RawBody { items: vec![RawBodyItem::Paragraph(p), RawBodyItem::Table(self_anchored_table())] };
    assert!(matches!(
        classifier.classify_checked(&body),
        Some(Err(DocxError::NumberingDefNotFound { num_id: 4 }))
    ));
}

#[test]
fn classify_checked_ignores_a_bad_table_in_an_unreferenced_header() {
    let styles = StyleTable::new();
    let numbering = NumberingDefs::new();
    let header_bodies: Vec<(String, RawBody)> =
        vec![("word/header1.xml".into(), RawBody { items: vec![RawBodyItem::Table(self_anchored_table())] })];
    let footer_bodies: Vec<(String, RawBody)> = vec![];
    let mut classifier =
        ClassifierPipeline::new(&styles, &numbering).with_section_bodies(&header_bodies, &footer_bodies);
    let body = RawBody { items: vec![RawBodyItem::Paragraph(paragraph_with(None, vec![run("body")]))] };
    let elements = classifier.classify_checked(&body).unwrap().unwrap();
    assert_eq!(elements, vec![DocxElement::Paragraph { text: "body".into(), parent_heading: None, links: vec![] }]);
}

#[test]
fn classify_checked_refuses_a_bad_table_in_a_referenced_header() {
    let styles = StyleTable::new();
    let numbering = NumberingDefs::new();
    let rels_xml = br#"<?xml version="1.0"?>
<Relationships xmlns="http://schemas.openxmlformats.org/package/2006/relationships">
  <Relationship Id="rId10" Type="http://schemas.openxmlformats.org/officeDocument/2006/relationships/header" Target="header1.xml"/>
</Relationships>"#;
    let rels = RelationshipMap::parse(rels_xml, "word/_rels/document.xml.rels").unwrap();
    let header_bodies: Vec<(String, RawBody)> =
        vec![("word/header1.xml".into(), RawBody { items: vec![RawBodyItem::Table(self_anchored_table())] })];
    let footer_bodies: Vec<(String, RawBody)> = vec![];
    let mut classifier = ClassifierPipeline::new(&styles, &numbering)
        .with_relationships(&rels)
        .with_section_bodies(&header_bodies, &footer_bodies);
    let body = RawBody {
        items: vec![RawBodyItem::SectionBreak(RawSectionProperties {
            header_refs: vec![RawSectionRef { rel_id: "rId10".into(), ref_type: SectionRefType::Default }],
            footer_refs: vec![],
        })],
    };
    assert!(classifier.classify_checked(&body).is_none());
}
