use oxidize_docx_core::raw::body::{RawBody, RawBodyItem, RawSectionProperties};
use oxidize_docx_core::raw::drawing::RawDrawing;
use oxidize_docx_core::raw::fields::RawFieldInst;
use oxidize_docx_core::raw::paragraphs::{RawHyperlink, RawNumPr, RawParagraph, RawParagraphProperties};
use oxidize_docx_core::raw::runs::{RawRun, RawRunProperties};
use oxidize_docx_core::raw::tables::{
    RawTable, RawTableCell, RawTableCellProperties, RawTableProperties, RawTableRow, RawVMerge,
};

#[test]
fn raw_body_item_paragraph_variant() {
    let item = RawBodyItem::Paragraph(RawParagraph::default());
    assert!(matches!(item, RawBodyItem::Paragraph(_)));
}

#[test]
fn raw_body_item_table_variant() {
    let item = RawBodyItem::Table(RawTable { properties: RawTableProperties::default(), rows: vec![] });
    assert!(matches!(item, RawBodyItem::Table(_)));
}

#[test]
fn raw_body_item_section_break_variant() {
    let item = RawBodyItem::SectionBreak(RawSectionProperties::default());
    assert!(matches!(item, RawBodyItem::SectionBreak(_)));
}

#[test]
fn raw_body_mixed_items() {
    let body = RawBody {
        items: vec![
            RawBodyItem::Paragraph(RawParagraph::default()),
            RawBodyItem::Table(RawTable {
                properties: RawTableProperties::default(),
                rows: vec![RawTableRow { cells: vec![] }],
            }),
            RawBodyItem::Paragraph(RawParagraph::default()),
            RawBodyItem::SectionBreak(RawSectionProperties::default()),
        ],
    };
    assert_eq!(body.items.len(), 4);
    assert!(matches!(body.items[0], RawBodyItem::Paragraph(_)));
    assert!(matches!(body.items[1], RawBodyItem::Table(_)));
    assert!(matches!(body.items[3], RawBodyItem::SectionBreak(_)));
}

#[test]
fn raw_drawing_has_rel_id() {
    let d = RawDrawing {
        rel_id: "rId3".into(),
        width_emu: Some(1234),
        height_emu: Some(5678),
        title: None,
        description: None,
        is_inline: true,
    };
    assert_eq!(d.rel_id, "rId3");
    assert_eq!(d.width_emu, Some(1234));
    assert_eq!(d.height_emu, Some(5678));
    assert!(d.is_inline);
}

#[test]
fn raw_drawing_anchor_not_inline() {
    let d = RawDrawing {
        rel_id: "rId5".into(),
        width_emu: None,
        height_emu: None,
        title: Some("Logo".into()),
        description: Some("Company logo".into()),
        is_inline: false,
    };
    assert!(!d.is_inline);
    assert_eq!(d.title.as_deref(), Some("Logo"));
    assert_eq!(d.description.as_deref(), Some("Company logo"));
}

#[test]
fn raw_field_inst_hyperlink() {
    let f = RawFieldInst { instruction: "HYPERLINK \"https://example.com\"".into(), runs: vec![] };
    assert!(f.instruction.contains("HYPERLINK"));
    assert!(f.runs.is_empty());
}

#[test]
fn raw_field_inst_with_runs() {
    let f = RawFieldInst {
        instruction: "TOC \\o \"1-3\"".into(),
        runs: vec![RawRun { text: Some("Table of Contents".into()), properties: RawRunProperties::default() }],
    };
    assert!(f.instruction.contains("TOC"));
    assert_eq!(f.runs.len(), 1);
    assert_eq!(f.runs[0].text.as_deref(), Some("Table of Contents"));
}

#[test]
fn paragraph_props_default() {
    let ppr = RawParagraphProperties::default();
    assert!(ppr.style_id.is_none());
    assert!(ppr.num_pr.is_none());
    assert!(ppr.alignment.is_none());
    assert!(ppr.outline_level.is_none());
    assert!(!ppr.keep_next);
    assert!(!ppr.page_break_before);
}

#[test]
fn num_pr_values() {
    let np = RawNumPr { num_id: 1, ilvl: 0 };
    assert_eq!(np.num_id, 1);
    assert_eq!(np.ilvl, 0);
}

#[test]
fn paragraph_has_runs() {
    let p = RawParagraph {
        runs: vec![
            RawRun { text: Some("Hello ".into()), properties: RawRunProperties::default() },
            RawRun { text: Some("World".into()), properties: RawRunProperties::default() },
        ],
        ..Default::default()
    };
    assert_eq!(p.runs.len(), 2);
}

#[test]
fn paragraph_with_hyperlink() {
    let p = RawParagraph {
        hyperlinks: vec![RawHyperlink {
            rel_id: Some("rId5".into()),
            anchor: None,
            runs: vec![RawRun { text: Some("Click here".into()), properties: RawRunProperties::default() }],
        }],
        ..Default::default()
    };
    assert_eq!(p.hyperlinks.len(), 1);
    assert_eq!(p.hyperlinks[0].rel_id.as_deref(), Some("rId5"));
    assert_eq!(p.hyperlinks[0].runs[0].text.as_deref(), Some("Click here"));
}

#[test]
fn paragraph_with_style_and_numbering() {
    let ppr = RawParagraphProperties {
        style_id: Some("ListParagraph".into()),
        num_pr: Some(RawNumPr { num_id: 2, ilvl: 1 }),
        alignment: Some("center".into()),
        ..Default::default()
    };
    assert_eq!(ppr.style_id.as_deref(), Some("ListParagraph"));
    assert_eq!(ppr.num_pr.as_ref().unwrap().num_id, 2);
    assert_eq!(ppr.num_pr.as_ref().unwrap().ilvl, 1);
    assert_eq!(ppr.alignment.as_deref(), Some("center"));
}

#[test]
fn raw_run_properties_default() {
    let rpr = RawRunProperties::default();
    assert!(rpr.bold.is_none());
    assert!(rpr.italic.is_none());
    assert!(rpr.underline.is_none());
    assert!(rpr.strikethrough.is_none());
    assert!(rpr.font_size_half_points.is_none());
    assert!(rpr.color.is_none());
    assert!(rpr.highlight.is_none());
    assert!(rpr.vertical_align.is_none());
}

#[test]
fn raw_run_with_text() {
    let run = RawRun { text: Some("Hello".into()), properties: RawRunProperties::default() };
    assert_eq!(run.text.as_deref(), Some("Hello"));
}

#[test]
fn raw_run_break_has_no_text() {
    let run = RawRun { text: None, properties: RawRunProperties::default() };
    assert!(run.text.is_none());
}

#[test]
fn raw_run_properties_with_formatting() {
    let rpr = RawRunProperties {
        bold: Some(true),
        italic: Some(true),
        font_size_half_points: Some(24),
        color: Some("FF0000".into()),
        ..Default::default()
    };
    assert_eq!(rpr.bold, Some(true));
    assert_eq!(rpr.italic, Some(true));
    assert_eq!(rpr.font_size_half_points, Some(24));
    assert_eq!(rpr.color.as_deref(), Some("FF0000"));
}

#[test]
fn cell_props_default() {
    let cp = RawTableCellProperties::default();
    assert_eq!(cp.grid_span, 1);
    assert!(cp.v_merge.is_none());
    assert!(cp.width.is_none());
}

#[test]
fn cell_contains_paragraphs() {
    let cell = RawTableCell { properties: RawTableCellProperties::default(), paragraphs: vec![RawParagraph::default()] };
    assert_eq!(cell.paragraphs.len(), 1);
}

#[test]
fn row_has_cells() {
    let row = RawTableRow {
        cells: vec![
            RawTableCell { properties: RawTableCellProperties::default(), paragraphs: vec![] },
            RawTableCell { properties: RawTableCellProperties::default(), paragraphs: vec![] },
        ],
    };
    assert_eq!(row.cells.len(), 2);
}

#[test]
fn table_has_rows() {
    let table = RawTable {
        properties: RawTableProperties::default(),
        rows: vec![RawTableRow {
            cells: vec![RawTableCell {
                properties: RawTableCellProperties::default(),
                paragraphs: vec![RawParagraph::default()],
            }],
        }],
    };
    assert_eq!(table.rows.len(), 1);
    assert_eq!(table.rows[0].cells.len(), 1);
    assert_eq!(table.rows[0].cells[0].paragraphs.len(), 1);
}

#[test]
fn v_merge_restart() {
    let cp = RawTableCellProperties { v_merge: Some(RawVMerge::Restart), ..Default::default() };
    assert_eq!(cp.v_merge, Some(RawVMerge::Restart));
}

#[test]
fn v_merge_continue() {
    let cp = RawTableCellProperties { v_merge: Some(RawVMerge::Continue), ..Default::default() };
    assert_eq!(cp.v_merge, Some(RawVMerge::Continue));
}

#[test]
fn grid_span_multi_column() {
    let cp = RawTableCellProperties { grid_span: 3, ..Default::default() };
    assert_eq!(cp.grid_span, 3);
}
