use oxidize_docx_core::numbering::NumberingLevel;
use oxidize_docx_core::raw::paragraphs::{RawParagraph, RawParagraphProperties};
use oxidize_docx_core::raw::runs::{RawRun, RawRunProperties};
use oxidize_docx_core::styles::{StyleEntry, StyleResolver, StyleTable, StyleType};
use oxidize_docx_core::DocxError;

fn paragraph_style(id: &str, based_on: Option<&str>, rpr: Option<RawRunProperties>) -> StyleEntry {
    StyleEntry {
        style_id: id.into(),
        name: id.into(),
        style_type: StyleType::Paragraph,
        based_on: based_on.map(|s| s.into()),
        next_style: None,
        is_default: false,
        paragraph_properties: None,
        run_properties: rpr,
    }
}

fn styled(id: &str) -> RawParagraph {
    RawParagraph {
        properties: RawParagraphProperties { style_id: Some(id.into()), ..Default::default() },
        ..Default::default()
    }
}

fn plain_run(t: &str) -> RawRun {
    RawRun { text: Some(t.into()), properties: RawRunProperties::default() }
}

#[test]
fn run_inherits_font_size_from_doc_defaults() {
    let mut table = StyleTable::new();
    table.doc_defaults_run = Some(RawRunProperties { font_size_half_points: Some(24), ..Default::default() });
    let resolver = StyleResolver::new(&table);
    let paragraph = RawParagraph::default();
    let run = plain_run("hello");
    let resolved = resolver.resolve_run(&paragraph, &run, None).unwrap();
    assert_eq!(resolved.font_size_half_points, Some(24));
}

#[test]
fn run_inherits_through_based_on_chain_three_levels() {
    let mut table = StyleTable::new();
    table.insert(paragraph_style(
        "Normal",
        None,
        Some(RawRunProperties { font_size_half_points: Some(22), ..Default::default() }),
    ));
    table.insert(paragraph_style(
        "Heading1",
        Some("Normal"),
        Some(RawRunProperties { color: Some("FF0000".into()), ..Default::default() }),
    ));
    table.insert(paragraph_style(
        "Title",
        Some("Heading1"),
        Some(RawRunProperties { font_size_half_points: Some(36), ..Default::default() }),
    ));
    let resolver = StyleResolver::new(&table);
    let paragraph = styled("Title");
    let run = plain_run("h");
    let resolved = resolver.resolve_run(&paragraph, &run, None).unwrap();
    assert_eq!(resolved.font_size_half_points, Some(36), "Title should override font_size");
    assert_eq!(resolved.color.as_deref(), Some("FF0000"), "Heading1's color should propagate to Title");
}

#[test]
fn chain_deeper_than_max_returns_style_chain_too_deep() {
    let mut table = StyleTable::new();
    table.insert(paragraph_style("Style0", None, None));
    for i in 1..=70u32 {
        let parent = format!("Style{}", i - 1);
        let id = format!("Style{i}");
        table.insert(paragraph_style(&id, Some(&parent), None));
    }
    let resolver = StyleResolver::new(&table);
    let paragraph = styled("Style70");
    let run = plain_run("x");
    let result = resolver.resolve_run(&paragraph, &run, None);
    match result {
        Err(DocxError::StyleChainTooDeep { style, limit }) => {
            assert_eq!(limit, 64, "expected MAX_STYLE_DEPTH=64, got {limit}");
            assert_eq!(style, "Style70", "expected starting style in error");
        }
        Ok(r) => panic!("expected StyleChainTooDeep, got Ok({r:?})"),
        Err(e) => panic!("expected StyleChainTooDeep, got {e:?}"),
    }
}

#[test]
fn resolve_run_applies_list_level_rpr_between_chain_and_direct() {
    let mut table = StyleTable::new();
    table.insert(StyleEntry {
        style_id: "Normal".into(),
        name: "Normal".into(),
        style_type: StyleType::Paragraph,
        based_on: None,
        next_style: None,
        is_default: false,
        paragraph_properties: None,
        run_properties: Some(RawRunProperties { color: Some("FF0000".into()), ..Default::default() }),
    });
    let level = NumberingLevel {
        ilvl: 0,
        start: 1,
        num_fmt: "decimal".into(),
        level_text: "%1.".into(),
        run_properties: Some(RawRunProperties { color: Some("00FF00".into()), ..Default::default() }),
        ..Default::default()
    };
    let resolver = StyleResolver::new(&table);
    let paragraph = styled("Normal");
    let run = plain_run("item");
    let resolved = resolver.resolve_run(&paragraph, &run, Some(&level)).unwrap();
    assert_eq!(
        resolved.color.as_deref(),
        Some("00FF00"),
        "list-level rPr must override basedOn chain rPr (layer 3 > layer 2)"
    );
}

#[test]
fn resolve_paragraph_inherits_outline_level_through_chain() {
    let mut table = StyleTable::new();
    table.insert(StyleEntry {
        style_id: "Normal".into(),
        name: "Normal".into(),
        style_type: StyleType::Paragraph,
        based_on: None,
        next_style: None,
        is_default: false,
        paragraph_properties: Some(RawParagraphProperties { outline_level: Some(2), ..Default::default() }),
        run_properties: None,
    });
    table.insert(StyleEntry {
        style_id: "Heading1".into(),
        name: "heading 1".into(),
        style_type: StyleType::Paragraph,
        based_on: Some("Normal".into()),
        next_style: None,
        is_default: false,
        paragraph_properties: None,
        run_properties: None,
    });
    let resolver = StyleResolver::new(&table);
    let paragraph = styled("Heading1");
    let resolved = resolver.resolve_paragraph(&paragraph).unwrap();
    assert_eq!(resolved.outline_level, Some(2), "Heading1 inherits outline_level=2 from Normal via basedOn");
}

#[test]
fn cyclic_based_on_chain_returns_circular_style_reference() {
    let mut table = StyleTable::new();
    table.insert(paragraph_style("A", Some("B"), None));
    table.insert(paragraph_style("B", Some("A"), None));
    let resolver = StyleResolver::new(&table);
    let paragraph = styled("A");
    let run = plain_run("x");
    let result = resolver.resolve_run(&paragraph, &run, None);
    match result {
        Err(DocxError::CircularStyleReference(id)) => {
            assert!(id == "A" || id == "B", "expected cycle to be reported on A or B, got '{id}'");
        }
        Ok(r) => panic!("expected CircularStyleReference, got Ok({r:?})"),
        Err(e) => panic!("expected CircularStyleReference, got {e:?}"),
    }
}

#[test]
fn direct_run_false_switches_off_inherited_bold() {
    let mut table = StyleTable::new();
    table.insert(paragraph_style("Strong", None, Some(RawRunProperties { bold: Some(true), ..Default::default() })));
    let resolver = StyleResolver::new(&table);
    let paragraph = styled("Strong");
    let inherited = resolver.resolve_run(&paragraph, &plain_run("a"), None).unwrap();
    assert!(inherited.bold);
    let run = RawRun { text: Some("b".into()), properties: RawRunProperties { bold: Some(false), ..Default::default() } };
    let off = resolver.resolve_run(&paragraph, &run, None).unwrap();
    assert!(!off.bold);
}

#[test]
fn outline_level_derives_heading_level_and_body_level_is_none() {
    let resolver_table = StyleTable::new();
    let resolver = StyleResolver::new(&resolver_table);
    let p0 = RawParagraph {
        properties: RawParagraphProperties { outline_level: Some(0), ..Default::default() },
        ..Default::default()
    };
    assert_eq!(resolver.resolve_paragraph(&p0).unwrap().heading_level, Some(1));
    let p9 = RawParagraph {
        properties: RawParagraphProperties { outline_level: Some(9), ..Default::default() },
        ..Default::default()
    };
    assert_eq!(resolver.resolve_paragraph(&p9).unwrap().heading_level, None);
}

#[test]
fn unknown_style_id_resolves_to_direct_formatting_only() {
    let table = StyleTable::new();
    let resolver = StyleResolver::new(&table);
    let paragraph = styled("Missing");
    let r = resolver.resolve_run(&paragraph, &plain_run("x"), None).unwrap();
    assert!(!r.bold);
    assert_eq!(r.font_size_half_points, None);
}

#[test]
fn style_entry_construction() {
    let entry = StyleEntry {
        style_id: "Heading1".into(),
        name: "heading 1".into(),
        style_type: StyleType::Paragraph,
        based_on: Some("Normal".into()),
        next_style: None,
        is_default: false,
        paragraph_properties: None,
        run_properties: None,
    };
    assert_eq!(entry.style_id, "Heading1");
    assert_eq!(entry.name, "heading 1");
    assert_eq!(entry.style_type, StyleType::Paragraph);
    assert_eq!(entry.based_on.as_deref(), Some("Normal"));
    assert!(!entry.is_default);
}

#[test]
fn style_table_get_by_id() {
    let mut table = StyleTable::new();
    table.insert(StyleEntry {
        style_id: "Heading1".into(),
        name: "heading 1".into(),
        style_type: StyleType::Paragraph,
        based_on: Some("Normal".into()),
        next_style: None,
        is_default: false,
        paragraph_properties: None,
        run_properties: None,
    });
    assert!(table.get("Heading1").is_some());
    assert_eq!(table.get("Heading1").unwrap().name, "heading 1");
}

#[test]
fn style_table_missing_returns_none() {
    let table = StyleTable::new();
    assert!(table.get("NonExistent").is_none());
}

#[test]
fn style_table_doc_defaults() {
    let mut table = StyleTable::new();
    table.doc_defaults_run = Some(RawRunProperties { font_size_half_points: Some(24), ..Default::default() });
    assert_eq!(table.doc_defaults_run_properties().and_then(|r| r.font_size_half_points), Some(24));
}

#[test]
fn style_table_len() {
    let mut table = StyleTable::new();
    assert_eq!(table.len(), 0);
    table.insert(StyleEntry {
        style_id: "Normal".into(),
        name: "Normal".into(),
        style_type: StyleType::Paragraph,
        based_on: None,
        next_style: None,
        is_default: true,
        paragraph_properties: None,
        run_properties: None,
    });
    assert_eq!(table.len(), 1);
}

#[test]
fn style_type_variants() {
    assert_eq!(StyleType::Paragraph, StyleType::Paragraph);
    assert_ne!(StyleType::Paragraph, StyleType::Character);
    assert_ne!(StyleType::Table, StyleType::Numbering);
}

#[test]
fn style_entry_with_run_properties() {
    let entry = StyleEntry {
        style_id: "Strong".into(),
        name: "Strong".into(),
        style_type: StyleType::Character,
        based_on: None,
        next_style: None,
        is_default: false,
        paragraph_properties: None,
        run_properties: Some(RawRunProperties { bold: Some(true), ..Default::default() }),
    };
    assert_eq!(entry.run_properties.as_ref().unwrap().bold, Some(true));
}

#[test]
fn inserting_same_id_replaces_definition() {
    let mut table = StyleTable::new();
    table.insert(paragraph_style("S", None, None));
    let mut second = paragraph_style("S", None, None);
    second.name = "renamed".into();
    table.insert(second);
    assert_eq!(table.len(), 1);
    assert_eq!(table.get("S").unwrap().name, "renamed");
}
