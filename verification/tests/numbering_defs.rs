use oxidize_docx_core::numbering::{AbstractNum, ConcreteNum, NumberingDefs, NumberingLevel};
use oxidize_docx_core::DocxError;

fn sample_level(ilvl: u8) -> NumberingLevel {
    NumberingLevel {
        ilvl,
        start: 1,
        num_fmt: "decimal".into(),
        level_text: format!("%{}.", ilvl),
        ..Default::default()
    }
}

fn sample_defs() -> NumberingDefs {
    let mut defs = NumberingDefs::new();
    defs.insert_abstract(AbstractNum {
        abstract_num_id: 0,
        levels: vec![sample_level(0), sample_level(1), sample_level(2)],
    });
    defs.insert_concrete(ConcreteNum {
        num_id: 1,
        abstract_num_id: 0,
        level_overrides: vec![],
    });
    defs
}

#[test]
fn numbering_level_defaults() {
    let level = sample_level(0);
    assert_eq!(level.start, 1);
    assert_eq!(level.num_fmt, "decimal");
    assert_eq!(level.ilvl, 0);
}

#[test]
fn abstract_num_has_levels() {
    let an = AbstractNum {
        abstract_num_id: 0,
        levels: vec![sample_level(0)],
    };
    assert_eq!(an.levels.len(), 1);
}

#[test]
fn concrete_num_links_abstract() {
    let cn = ConcreteNum {
        num_id: 1,
        abstract_num_id: 0,
        level_overrides: vec![],
    };
    assert_eq!(cn.num_id, 1);
    assert_eq!(cn.abstract_num_id, 0);
}

#[test]
fn resolve_num_id() {
    let defs = sample_defs();
    let level = defs.resolve(1, 0).unwrap();
    assert_eq!(level.num_fmt, "decimal");
    assert_eq!(level.start, 1);
    assert_eq!(level.ilvl, 0);
}

#[test]
fn resolve_deeper_level() {
    let defs = sample_defs();
    let level = defs.resolve(1, 2).unwrap();
    assert_eq!(level.ilvl, 2);
}

#[test]
fn resolve_missing_num_id_returns_error() {
    let defs = sample_defs();
    let result = defs.resolve(99, 0);
    assert!(result.is_err());
    assert!(matches!(result.unwrap_err(), DocxError::NumberingDefNotFound { num_id: 99 }));
}

#[test]
fn resolve_missing_abstract_returns_error() {
    let mut defs = NumberingDefs::new();
    defs.insert_concrete(ConcreteNum {
        num_id: 1,
        abstract_num_id: 999,
        level_overrides: vec![],
    });
    let result = defs.resolve(1, 0);
    assert!(result.is_err());
    assert!(matches!(
        result.unwrap_err(),
        DocxError::AbstractNumNotFound { abstract_num_id: 999 }
    ));
}

#[test]
fn resolve_missing_ilvl_returns_error() {
    let defs = sample_defs();
    let result = defs.resolve(1, 9);
    assert!(result.is_err());
}

#[test]
fn later_insertion_under_same_id_replaces_earlier() {
    let mut defs = sample_defs();
    defs.insert_concrete(ConcreteNum {
        num_id: 1,
        abstract_num_id: 5,
        level_overrides: vec![],
    });
    assert!(matches!(
        defs.resolve(1, 0).unwrap_err(),
        DocxError::AbstractNumNotFound { abstract_num_id: 5 }
    ));
}
