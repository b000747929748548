use oxidize_docx_core::numbering::{
    AbstractNum, ConcreteNum, ListType, NumberingDefs, NumberingLevel, NumberingResolver,
};
use oxidize_docx_core::DocxError;

fn level(ilvl: u8, num_fmt: &str, start: u32) -> NumberingLevel {
    NumberingLevel {
        ilvl,
        start,
        num_fmt: num_fmt.into(),
        level_text: format!("%{}.", ilvl + 1),
        indent_left: None,
        indent_hanging: None,
        run_properties: None,
        paragraph_properties: None,
    }
}

fn defs_with(num_id: u32, levels: Vec<NumberingLevel>) -> NumberingDefs {
    let mut defs = NumberingDefs::new();
    defs.insert_abstract(AbstractNum { abstract_num_id: 0, levels });
    defs.insert_concrete(ConcreteNum { num_id, abstract_num_id: 0, level_overrides: vec![] });
    defs
}

fn defs_two_nums() -> NumberingDefs {
    let mut defs = NumberingDefs::new();
    defs.insert_abstract(AbstractNum {
        abstract_num_id: 0,
        levels: vec![level(0, "decimal", 1), level(1, "decimal", 1)],
    });
    defs.insert_concrete(ConcreteNum { num_id: 1, abstract_num_id: 0, level_overrides: vec![] });
    defs.insert_concrete(ConcreteNum { num_id: 2, abstract_num_id: 0, level_overrides: vec![] });
    defs
}

#[test]
fn advance_with_unknown_num_id_returns_numbering_def_not_found() {
    let defs = defs_with(1, vec![level(0, "decimal", 1)]);
    let mut r = NumberingResolver::new(&defs);
    let result = r.advance(99, 0);
    match result {
        Err(DocxError::NumberingDefNotFound { num_id }) => assert_eq!(num_id, 99),
        Ok(v) => panic!("expected NumberingDefNotFound, got Ok({v:?})"),
        Err(e) => panic!("expected NumberingDefNotFound, got {e:?}"),
    }
}

#[test]
fn deeper_level_reset_does_not_wipe_other_num_ids() {
    let defs = defs_two_nums();
    let mut r = NumberingResolver::new(&defs);
    let one_zero = r.advance(1, 0).unwrap();
    let one_one_a = r.advance(1, 1).unwrap();
    let two_zero = r.advance(2, 0).unwrap();
    let one_one_b = r.advance(1, 1).unwrap();
    assert_eq!(one_zero.display_index, Some(1));
    assert_eq!(one_one_a.display_index, Some(1));
    assert_eq!(two_zero.display_index, Some(1));
    assert_eq!(one_one_b.display_index, Some(2), "advancing num_id=2 must not reset num_id=1 ilvl=1 counter");
}

#[test]
fn level_start_above_one_seeds_first_index() {
    let defs = defs_with(1, vec![level(0, "decimal", 5)]);
    let mut r = NumberingResolver::new(&defs);
    let a = r.advance(1, 0).unwrap();
    let b = r.advance(1, 0).unwrap();
    assert_eq!(a.display_index, Some(5), "first index must equal level.start");
    assert_eq!(b.display_index, Some(6));
}

#[test]
fn list_type_maps_bullet_decimal_lower_roman_and_bullet_has_no_index() {
    let bullet_defs = defs_with(1, vec![level(0, "bullet", 1)]);
    let mut br = NumberingResolver::new(&bullet_defs);
    let b = br.advance(1, 0).unwrap();
    assert_eq!(b.list_type, ListType::Bullet);
    assert_eq!(b.display_index, None, "bullets must not carry a numeric index");

    let decimal_defs = defs_with(2, vec![level(0, "decimal", 1)]);
    let mut dr = NumberingResolver::new(&decimal_defs);
    let d = dr.advance(2, 0).unwrap();
    assert_eq!(d.list_type, ListType::Decimal);
    assert_eq!(d.display_index, Some(1));

    let roman_defs = defs_with(3, vec![level(0, "lowerRoman", 1)]);
    let mut rr = NumberingResolver::new(&roman_defs);
    let r = rr.advance(3, 0).unwrap();
    assert_eq!(r.list_type, ListType::LowerRoman);
    assert_eq!(r.display_index, Some(1));
}

#[test]
fn shallower_advance_resets_deeper_levels() {
    let defs = defs_with(1, vec![level(0, "decimal", 1), level(1, "decimal", 1)]);
    let mut r = NumberingResolver::new(&defs);
    let seq = [(1, 0), (1, 1), (1, 1), (1, 0), (1, 1)];
    let got: Vec<Option<u32>> = seq.iter().map(|(n, l)| r.advance(*n, *l).unwrap().display_index).collect();
    assert_eq!(got, vec![Some(1), Some(1), Some(2), Some(2), Some(1)], "ilvl=1 counter must reset after the second ilvl=0 advance");
}

#[test]
fn three_advances_at_same_level_yield_1_2_3() {
    let defs = defs_with(1, vec![level(0, "decimal", 1)]);
    let mut resolver = NumberingResolver::new(&defs);
    let a = resolver.advance(1, 0).expect("first advance");
    let b = resolver.advance(1, 0).expect("second advance");
    let c = resolver.advance(1, 0).expect("third advance");
    assert_eq!(a.display_index, Some(1), "first item must be 1");
    assert_eq!(b.display_index, Some(2), "second item must be 2");
    assert_eq!(c.display_index, Some(3), "third item must be 3");
    assert_eq!(a.list_type, ListType::Decimal);
    assert_eq!(a.num_id, 1);
    assert_eq!(a.ilvl, 0);
    assert_eq!(a.level_text, "%1.");
}

#[test]
fn none_format_has_no_index_and_other_formats_keep_their_text() {
    let none_defs = defs_with(1, vec![level(0, "none", 1)]);
    let mut nr = NumberingResolver::new(&none_defs);
    let n = nr.advance(1, 0).unwrap();
    assert_eq!(n.list_type, ListType::NoMarker);
    assert_eq!(n.display_index, None);

    let other_defs = defs_with(1, vec![level(0, "upperLetter", 3)]);
    let mut or = NumberingResolver::new(&other_defs);
    let o = or.advance(1, 0).unwrap();
    assert_eq!(o.list_type, ListType::Other("upperLetter".into()));
    assert_eq!(o.display_index, Some(3));
}

#[test]
fn failed_advance_leaves_counters_unchanged() {
    let defs = defs_with(1, vec![level(0, "decimal", 1)]);
    let mut r = NumberingResolver::new(&defs);
    assert_eq!(r.advance(1, 0).unwrap().display_index, Some(1));
    assert!(r.advance(1, 4).is_err());
    assert_eq!(r.advance(1, 0).unwrap().display_index, Some(2));
}

#[test]
fn counter_is_start_plus_items_since_the_last_shallower_item() {
    let defs = defs_with(1, vec![level(0, "decimal", 5), level(1, "decimal", 3)]);
    let mut r = NumberingResolver::new(&defs);
    let seen: Vec<Option<u32>> = [(1, 0), (1, 0), (1, 1), (1, 1), (1, 0), (1, 1), (7, 0), (1, 1)]
        .iter()
        .map(|&(n, l)| r.advance(n, l).ok().and_then(|info| info.display_index))
        .collect();
    assert_eq!(seen, vec![Some(5), Some(6), Some(3), Some(4), Some(7), Some(3), None, Some(4)]);
}

#[test]
fn counter_wraps_after_the_largest_index() {
    let defs = defs_with(1, vec![level(0, "decimal", u32::MAX)]);
    let mut r = NumberingResolver::new(&defs);
    assert_eq!(r.advance(1, 0).unwrap().display_index, Some(u32::MAX));
    assert_eq!(r.advance(1, 0).unwrap().display_index, Some(0));
}
