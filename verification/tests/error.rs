use oxidize_docx_core::{DocxError, Result};
use std::io::{Error as IoError, ErrorKind};

fn assert_send_sync<T: Send + Sync>() {}

#[test]
fn error_display_zip_bomb() {
    let e = DocxError::ZipBomb {
        entry: "word/document.xml".into(),
        claimed_size: 200_000_000,
        limit: 100_000_000,
    };
    assert!(e.message().contains("ZIP bomb detected"));
    assert!(e.message().contains("word/document.xml"));
}

#[test]
fn error_display_xml_parse() {
    let e = DocxError::XmlParse {
        part: "[Content_Types].xml".into(),
        reason: "unexpected EOF".into(),
    };
    assert!(e.message().contains("[Content_Types].xml"));
}

#[test]
fn error_display_missing_part() {
    let e = DocxError::MissingPart("word/document.xml".into());
    assert_eq!(e.message(), "Missing required OOXML part: 'word/document.xml'");
}

#[test]
fn error_display_circular_style() {
    let e = DocxError::CircularStyleReference("Heading1".into());
    assert!(e.message().contains("circular reference"));
}

#[test]
fn error_display_numbering_not_found() {
    let e = DocxError::NumberingDefNotFound { num_id: 42 };
    assert!(e.message().contains("42"));
}

#[test]
fn error_display_entity_limit() {
    let e = DocxError::XmlEntityExpansionLimit {
        part: "word/document.xml".into(),
        limit: 100,
    };
    assert!(e.message().contains("100"));
}

#[test]
fn error_display_path_traversal() {
    let e = DocxError::ZipPathTraversal {
        path: "../etc/passwd".into(),
    };
    assert!(e.message().contains("path traversal"));
    assert!(e.message().contains("../etc/passwd"));
}

#[test]
fn result_alias_is_docx_error() {
    let r: Result<i32> = Err(DocxError::Pipeline("test".into()));
    assert!(r.is_err());
}

#[test]
fn error_is_send_sync() {
    assert_send_sync::<DocxError>();
}

#[test]
fn error_from_io() {
    let io = IoError::new(ErrorKind::NotFound, "not found");
    let e = DocxError::from(io);
    assert!(matches!(e, DocxError::Io(_)));
}

#[test]
fn error_from_zip() {
    let zip_err = zip::result::ZipError::FileNotFound;
    let e = DocxError::from(zip_err);
    assert!(matches!(e, DocxError::Zip(_)));
}

#[test]
fn every_message_has_its_exact_text() {
    assert_eq!(
        DocxError::ZipBomb { entry: "a.xml".into(), claimed_size: 200, limit: 100 }.message(),
        "ZIP bomb detected: entry 'a.xml' claims 200 bytes (limit 100 bytes)"
    );
    assert_eq!(
        DocxError::ZipEntryLimitExceeded { count: 10001, limit: 10000 }.message(),
        "ZIP entry count exceeds safety limit: 10001 entries (limit 10000)"
    );
    assert_eq!(
        DocxError::InvalidContentTypes("bad".into()).message(),
        "Invalid content types manifest: bad"
    );
    assert_eq!(
        DocxError::InvalidRelationships { path: "r.rels".into(), reason: "eof".into() }.message(),
        "Invalid relationships file 'r.rels': eof"
    );
    assert_eq!(
        DocxError::UnexpectedElement { element: "w:x".into(), context: "body".into() }.message(),
        "Unexpected XML element 'w:x' in 'body'"
    );
    assert_eq!(
        DocxError::StyleChainTooDeep { style: "S".into(), limit: 64 }.message(),
        "Style chain depth exceeded for style 'S' (limit 64)"
    );
    assert_eq!(
        DocxError::NumberingDefNotFound { num_id: 7 }.message(),
        "Numbering definition '7' not found"
    );
    assert_eq!(
        DocxError::AbstractNumNotFound { abstract_num_id: 0 }.message(),
        "Abstract numbering '0' not found"
    );
    assert_eq!(
        DocxError::ImageRelNotFound { rel_id: "rId9".into() }.message(),
        "Image relationship 'rId9' not found in document relationships"
    );
    assert_eq!(
        DocxError::ImagePartNotFound { path: "word/media/x.png".into() }.message(),
        "Image part 'word/media/x.png' not found in ZIP archive"
    );
    assert_eq!(DocxError::Pipeline("p".into()).message(), "Pipeline error: p");
    assert_eq!(
        DocxError::Encoding { part: "p.xml".into(), reason: "utf8".into() }.message(),
        "Text encoding error in part 'p.xml': utf8"
    );
}

#[test]
fn io_and_zip_messages_carry_their_prefix() {
    let io = std::io::Error::new(std::io::ErrorKind::NotFound, "gone");
    assert!(DocxError::from(io).message().starts_with("IO error: "));
    assert!(DocxError::from(zip::result::ZipError::FileNotFound).message().starts_with("ZIP error: "));
}
