use oxidize_docx_core::numbering::ListType;
use oxidize_docx_core::pipeline::element::DocxElement;
use oxidize_docx_core::pipeline::list_builder::{nest_list_items, NestedList, NestedListItem};

fn item(text: &str, level: u8, idx: u32) -> DocxElement {
    DocxElement::ListItem { text: text.into(), level, list_type: ListType::Decimal, display_index: Some(idx) }
}

fn leaf(text: &str, idx: u32) -> NestedListItem {
    NestedListItem { text: text.into(), list_type: ListType::Decimal, display_index: Some(idx), children: vec![] }
}

#[test]
fn list_items_separated_by_heading_produce_two_distinct_nested_lists() {
    let elements = vec![item("A", 0, 1), DocxElement::Heading { level: 1, text: "H".into() }, item("B", 0, 1)];
    let nested = nest_list_items(&elements);
    assert_eq!(
        nested,
        vec![NestedList { items: vec![leaf("A", 1)] }, NestedList { items: vec![leaf("B", 1)] }]
    );
}

#[test]
fn nested_levels_0_1_0_1_2_build_correct_parent_child_tree() {
    let elements = vec![item("A", 0, 1), item("A.1", 1, 1), item("B", 0, 2), item("B.1", 1, 1), item("B.1.a", 2, 1)];
    let nested = nest_list_items(&elements);
    assert_eq!(
        nested,
        vec![NestedList {
            items: vec![
                NestedListItem {
                    text: "A".into(),
                    list_type: ListType::Decimal,
                    display_index: Some(1),
                    children: vec![leaf("A.1", 1)],
                },
                NestedListItem {
                    text: "B".into(),
                    list_type: ListType::Decimal,
                    display_index: Some(2),
                    children: vec![NestedListItem {
                        text: "B.1".into(),
                        list_type: ListType::Decimal,
                        display_index: Some(1),
                        children: vec![leaf("B.1.a", 1)],
                    }],
                },
            ],
        }]
    );
}

#[test]
fn two_same_level_items_are_grouped_into_one_nested_list_as_siblings() {
    let elements = vec![item("A", 0, 1), item("B", 0, 2)];
    let nested = nest_list_items(&elements);
    assert_eq!(nested, vec![NestedList { items: vec![leaf("A", 1), leaf("B", 2)] }]);
}

#[test]
fn single_list_item_yields_one_nested_list_with_one_leaf_item() {
    let elements = vec![DocxElement::ListItem {
        text: "A".into(),
        level: 0,
        list_type: ListType::Decimal,
        display_index: Some(1),
    }];
    let nested = nest_list_items(&elements);
    assert_eq!(
        nested,
        vec![NestedList {
            items: vec![NestedListItem {
                text: "A".into(),
                list_type: ListType::Decimal,
                display_index: Some(1),
                children: vec![],
            }]
        }]
    );
}

#[test]
fn non_list_input_yields_no_lists() {
    let elements = vec![DocxElement::Paragraph { text: "p".into(), parent_heading: None, links: vec![] }];
    assert!(nest_list_items(&elements).is_empty());
}

#[test]
fn item_after_deeper_item_returns_to_the_shallower_parent() {
    let elements = vec![item("A", 0, 1), item("A.1", 2, 1), item("A.2", 1, 2)];
    let nested = nest_list_items(&elements);
    assert_eq!(
        nested,
        vec![NestedList {
            items: vec![NestedListItem {
                text: "A".into(),
                list_type: ListType::Decimal,
                display_index: Some(1),
                children: vec![leaf("A.1", 1), leaf("A.2", 2)],
            }],
        }]
    );
}
