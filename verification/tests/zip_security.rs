use oxidize_docx_core::zip::security::{
    validate_entry_count, validate_entry_size, validate_zip_path, MAX_TOTAL_UNCOMPRESSED_SIZE, MAX_UNCOMPRESSED_ENTRY_SIZE,
    MAX_ZIP_ENTRY_COUNT, MIN_COMPRESSION_RATIO_DENOMINATOR, MIN_COMPRESSION_RATIO_NUMERATOR,
};
use oxidize_docx_core::DocxError;

#[test]
fn security_constants_are_correct() {
    assert_eq!(MAX_ZIP_ENTRY_COUNT, 10_000);
    assert_eq!(MAX_UNCOMPRESSED_ENTRY_SIZE, 100 * 1024 * 1024);
    assert_eq!(MAX_TOTAL_UNCOMPRESSED_SIZE, 500 * 1024 * 1024);
}

#[test]
fn compression_ratio_limit_is_correct() {
    assert!((MIN_COMPRESSION_RATIO_NUMERATOR as f64 / MIN_COMPRESSION_RATIO_DENOMINATOR as f64 - 0.001).abs() < f64::EPSILON);
}

#[test]
fn validate_entry_size_accepts_normal_file() {
    let result = validate_entry_size("word/document.xml", 50 * 1024 * 1024, 1024 * 1024);
    assert!(result.is_ok());
}

#[test]
fn validate_entry_size_rejects_oversized() {
    let result = validate_entry_size("evil.xml", MAX_UNCOMPRESSED_ENTRY_SIZE + 1, 100);
    assert!(result.is_err());
    assert!(matches!(result.unwrap_err(), DocxError::ZipBomb { .. }));
}

#[test]
fn validate_entry_size_rejects_zip_bomb_ratio() {
    let result = validate_entry_size("evil.xml", 90 * 1024 * 1024, 1);
    assert!(result.is_err());
}

#[test]
fn validate_entry_size_accepts_zero_compressed() {
    let result = validate_entry_size("stored.xml", 1024, 0);
    assert!(result.is_ok());
}

#[test]
fn validate_entry_count_accepts_normal() {
    assert!(validate_entry_count(500).is_ok());
}

#[test]
fn validate_entry_count_accepts_exactly_limit() {
    assert!(validate_entry_count(MAX_ZIP_ENTRY_COUNT).is_ok());
}

#[test]
fn validate_entry_count_rejects_excess() {
    let result = validate_entry_count(MAX_ZIP_ENTRY_COUNT + 1);
    assert!(result.is_err());
    assert!(matches!(
        result.unwrap_err(),
        DocxError::ZipEntryLimitExceeded { .. }
    ));
}

#[test]
fn validate_path_accepts_normal() {
    assert!(validate_zip_path("word/document.xml").is_ok());
    assert!(validate_zip_path("[Content_Types].xml").is_ok());
    assert!(validate_zip_path("_rels/.rels").is_ok());
}

#[test]
fn validate_path_rejects_traversal() {
    assert!(validate_zip_path("../etc/passwd").is_err());
    assert!(validate_zip_path("word/../../evil").is_err());
}

#[test]
fn validate_path_rejects_absolute() {
    assert!(validate_zip_path("/etc/passwd").is_err());
}

#[test]
fn validate_path_rejects_backslash_traversal() {
    assert!(validate_zip_path("word\\..\\..\\evil").is_err());
    assert!(validate_zip_path("\\etc\\passwd").is_err());
}
