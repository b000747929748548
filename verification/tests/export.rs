use oxidize_docx_core::numbering::ListType;
use oxidize_docx_core::pipeline::element::{DocxElement, LinkSpan, TableCell, TableRow};
use oxidize_docx_core::pipeline::export::{to_markdown, to_plain_text};

fn cell(t: &str) -> TableCell {
    TableCell { text: t.into(), col_span: 1, row_span: 1 }
}

fn para(t: &str) -> DocxElement {
    DocxElement::Paragraph { text: t.into(), parent_heading: None, links: vec![] }
}

#[test]
fn markdown_table_with_two_rows_emits_header_separator_and_data_row() {
    let elements = vec![DocxElement::Table {
        rows: vec![
            TableRow { cells: vec![cell("A"), cell("B")] },
            TableRow { cells: vec![cell("C"), cell("D")] },
        ],
    }];
    assert_eq!(to_markdown(&elements), "| A | B |\n| --- | --- |\n| C | D |");
}

#[test]
fn markdown_list_items_indent_by_two_spaces_per_level_and_use_bullet_or_number() {
    let elements = vec![
        DocxElement::ListItem { text: "A".into(), level: 0, list_type: ListType::Decimal, display_index: Some(1) },
        DocxElement::ListItem { text: "A.1".into(), level: 1, list_type: ListType::Bullet, display_index: None },
        DocxElement::ListItem { text: "B".into(), level: 0, list_type: ListType::Decimal, display_index: Some(2) },
    ];
    assert_eq!(to_markdown(&elements), "1. A\n  - A.1\n2. B");
}

#[test]
fn markdown_heading_followed_by_paragraph_uses_blank_line_separator() {
    let elements = vec![DocxElement::Heading { level: 2, text: "S".into() }, para("body")];
    assert_eq!(to_markdown(&elements), "## S\n\nbody");
}

#[test]
fn markdown_two_paragraphs_are_joined_by_blank_line() {
    let elements = vec![para("first"), para("second")];
    assert_eq!(to_markdown(&elements), "first\n\nsecond");
}

#[test]
fn markdown_heading_levels_1_through_6_emit_corresponding_hash_prefix() {
    for level in 1u8..=6 {
        let elements = vec![DocxElement::Heading { level, text: "Section".into() }];
        let prefix = "#".repeat(level as usize);
        assert_eq!(to_markdown(&elements), format!("{prefix} Section"));
    }
}

#[test]
fn list_items_are_tight_and_table_rows_are_pipe_separated() {
    let elements = vec![
        DocxElement::Heading { level: 1, text: "Section".into() },
        DocxElement::ListItem { text: "item1".into(), level: 0, list_type: ListType::Decimal, display_index: Some(1) },
        DocxElement::ListItem { text: "item2".into(), level: 0, list_type: ListType::Decimal, display_index: Some(2) },
        DocxElement::Table {
            rows: vec![
                TableRow { cells: vec![cell("A"), cell("B")] },
                TableRow { cells: vec![cell("C"), cell("D")] },
            ],
        },
    ];
    assert_eq!(to_plain_text(&elements), "Section\n\nitem1\nitem2\n\nA | B\nC | D");
}

#[test]
fn heading_and_paragraph_are_joined_by_blank_line() {
    let elements = vec![DocxElement::Heading { level: 1, text: "Intro".into() }, para("body")];
    assert_eq!(to_plain_text(&elements), "Intro\n\nbody");
}

#[test]
fn two_paragraphs_are_joined_by_blank_line() {
    let elements = vec![para("first"), para("second")];
    assert_eq!(to_plain_text(&elements), "first\n\nsecond");
}

#[test]
fn single_paragraph_yields_its_text_verbatim() {
    let elements = vec![para("hello")];
    assert_eq!(to_plain_text(&elements), "hello");
}

#[test]
fn empty_input_exports_to_empty_text() {
    assert_eq!(to_plain_text(&[]), "");
    assert_eq!(to_markdown(&[]), "");
}

fn linked(t: &str, links: &[(&str, &str)]) -> DocxElement {
    DocxElement::Paragraph {
        text: t.into(),
        parent_heading: None,
        links: links.iter().map(|(text, url)| LinkSpan { text: (*text).into(), url: (*url).into() }).collect(),
    }
}

#[test]
fn markdown_paragraph_writes_its_link_inline() {
    let elements = vec![linked("see this page", &[("this page", "https://x.test/p")])];
    assert_eq!(to_markdown(&elements), "see [this page](https://x.test/p)");
}

#[test]
fn markdown_links_are_decorated_in_order_after_one_another() {
    let elements = vec![linked("a b a", &[("a", "u1"), ("a", "u2")])];
    assert_eq!(to_markdown(&elements), "[a](u1) b [a](u2)");
}

#[test]
fn markdown_link_after_an_earlier_one_is_not_looked_for_before_it() {
    let elements = vec![linked("a b c", &[("b", "u1"), ("a", "u2")])];
    assert_eq!(to_markdown(&elements), "a [b](u1) c");
}

#[test]
fn markdown_link_whose_text_is_missing_leaves_the_paragraph_as_is() {
    let elements = vec![linked("see this page", &[("elsewhere", "https://x.test/q")])];
    assert_eq!(to_markdown(&elements), "see this page");
}

#[test]
fn plain_text_keeps_link_text_undecorated() {
    let elements = vec![linked("see this page", &[("this page", "https://x.test/p")])];
    assert_eq!(to_plain_text(&elements), "see this page");
}
