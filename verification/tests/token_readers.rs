use oxidize_docx_core::ooxml::content_types::ContentTypeMap;
use oxidize_docx_core::ooxml::relationships::RelationshipMap;
use oxidize_docx_core::raw::body::RawBodyItem;
use oxidize_docx_core::raw::paragraphs::RawInline;
use oxidize_docx_core::word::comments_xml::comments_from_tokens;
use oxidize_docx_core::word::document_xml::body_from_tokens;
use oxidize_docx_core::word::notes_common::notes_from_tokens;
use oxidize_docx_core::word::numbering_xml::numbering_from_tokens;
use oxidize_docx_core::word::styles_xml::styles_from_tokens;
use oxidize_docx_core::xml::reader::XmlTok;
use oxidize_docx_core::DocxError;

fn attrs(kv: &[(&str, &str)]) -> Vec<Option<(String, String)>> {
    kv.iter().map(|(k, v)| Some(((*k).to_string(), (*v).to_string()))).collect()
}

fn start(name: &str, kv: &[(&str, &str)]) -> XmlTok {
    XmlTok::Start { name: name.into(), attrs: attrs(kv) }
}

fn empty(name: &str, kv: &[(&str, &str)]) -> XmlTok {
    XmlTok::Empty { name: name.into(), attrs: attrs(kv) }
}

fn end(name: &str) -> XmlTok {
    XmlTok::End { name: name.into() }
}

fn text(t: &str) -> XmlTok {
    XmlTok::Text { text: t.into() }
}

#[test]
fn numbering_tokens_give_a_resolvable_level() {
    let toks = vec![
        start("w:numbering", &[]),
        start("w:abstractNum", &[("w:abstractNumId", "0")]),
        start("w:lvl", &[("w:ilvl", "0")]),
        empty("w:start", &[("w:val", "3")]),
        empty("w:numFmt", &[("w:val", "decimal")]),
        empty("w:lvlText", &[("w:val", "%1.")]),
        end("w:lvl"),
        end("w:abstractNum"),
        start("w:num", &[("w:numId", "1")]),
        empty("w:abstractNumId", &[("w:val", "0")]),
        end("w:num"),
        end("w:numbering"),
    ];
    let defs = numbering_from_tokens(&toks).unwrap();
    let level = defs.resolve(1, 0).unwrap();
    assert_eq!(level.start, 3);
    assert_eq!(level.num_fmt, "decimal");
    assert_eq!(level.level_text, "%1.");
    assert!(defs.resolve(2, 0).is_err());
}

#[test]
fn numbering_error_token_names_the_part() {
    let toks = vec![start("w:numbering", &[]), XmlTok::Error { message: "bad".into() }];
    match numbering_from_tokens(&toks) {
        Err(DocxError::XmlParse { part, reason }) => {
            assert_eq!(part, "word/numbering.xml");
            assert_eq!(reason, "bad");
        },
        _ => panic!("expected an XML error"),
    }
}

#[test]
fn style_tokens_give_a_named_style() {
    let toks = vec![
        start("w:styles", &[]),
        start("w:style", &[("w:type", "paragraph"), ("w:styleId", "Heading1")]),
        empty("w:name", &[("w:val", "heading 1")]),
        end("w:style"),
        end("w:styles"),
    ];
    let table = styles_from_tokens(&toks).unwrap();
    assert_eq!(table.len(), 1);
    assert_eq!(table.get("Heading1").unwrap().name, "heading 1");
}

#[test]
fn comment_tokens_give_author_and_text() {
    let toks = vec![
        start("w:comments", &[]),
        start("w:comment", &[("w:id", "5"), ("w:author", "Ann")]),
        start("w:t", &[]),
        text("hi"),
        end("w:t"),
        end("w:comment"),
        end("w:comments"),
    ];
    let map = comments_from_tokens(&toks).unwrap();
    assert_eq!(map.len(), 1);
    assert_eq!(map.get(5).unwrap().author, "Ann");
    assert_eq!(map.get(5).unwrap().text, "hi");
}

#[test]
fn note_tokens_skip_typed_notes() {
    let toks = vec![
        start("w:footnotes", &[]),
        start("w:footnote", &[("w:type", "separator"), ("w:id", "0")]),
        start("w:t", &[]),
        text("sep"),
        end("w:t"),
        end("w:footnote"),
        start("w:footnote", &[("w:id", "1")]),
        start("w:t", &[]),
        text("note"),
        end("w:t"),
        end("w:footnote"),
        end("w:footnotes"),
    ];
    let map = notes_from_tokens(&toks, "word/footnotes.xml", "w:footnote").unwrap();
    assert_eq!(map.len(), 1);
    assert_eq!(map.get(&1).map(|s| s.as_str()), Some("note"));
}

#[test]
fn body_tokens_give_a_paragraph_with_its_run() {
    let toks = vec![
        start("w:document", &[]),
        start("w:body", &[]),
        start("w:p", &[]),
        start("w:r", &[]),
        start("w:t", &[]),
        text("hello"),
        end("w:t"),
        end("w:r"),
        end("w:p"),
        end("w:body"),
        end("w:document"),
    ];
    let body = body_from_tokens(&toks, "w:body").unwrap();
    assert_eq!(body.items.len(), 1);
    match &body.items[0] {
        RawBodyItem::Paragraph(p) => {
            assert_eq!(p.content.len(), 1);
            match &p.content[0] {
                RawInline::Run(r) => assert_eq!(r.text.as_deref(), Some("hello")),
                RawInline::Hyperlink(_) => panic!("expected a run"),
            }
        },
        _ => panic!("expected a paragraph"),
    }
}

#[test]
fn body_tokens_outside_the_envelope_are_ignored() {
    let toks = vec![start("w:p", &[]), start("w:r", &[]), start("w:t", &[]), text("x"), end("w:t"), end("w:r"), end("w:p")];
    let body = body_from_tokens(&toks, "w:hdr").unwrap();
    assert_eq!(body.items.len(), 0);
}

#[test]
fn content_type_tokens_give_overrides() {
    let toks = vec![
        start("Types", &[]),
        empty("Default", &[("Extension", "xml"), ("ContentType", "application/xml")]),
        empty(
            "Override",
            &[
                ("PartName", "/word/document.xml"),
                ("ContentType", "application/vnd.openxmlformats-officedocument.wordprocessingml.document.main+xml"),
            ],
        ),
        end("Types"),
    ];
    let ct = ContentTypeMap::from_tokens(&toks).unwrap();
    assert!(ct.has_part("word/document.xml"));
    assert!(!ct.has_part("word/styles.xml"));
}

#[test]
fn relationship_tokens_give_relationships_by_id() {
    let toks = vec![
        start("Relationships", &[]),
        empty(
            "Relationship",
            &[
                ("Id", "rId1"),
                ("Type", "http://schemas.openxmlformats.org/officeDocument/2006/relationships/image"),
                ("Target", "media/a.png"),
            ],
        ),
        empty(
            "Relationship",
            &[
                ("Id", "rId2"),
                ("Type", "http://schemas.openxmlformats.org/officeDocument/2006/relationships/hyperlink"),
                ("Target", "https://x.test"),
                ("TargetMode", "External"),
            ],
        ),
        end("Relationships"),
    ];
    let map = RelationshipMap::from_tokens(&toks, "word/_rels/document.xml.rels").unwrap();
    assert_eq!(map.len(), 2);
    assert!(map.get_by_id("rId2").unwrap().is_external);
    assert_eq!(map.find_by_type("relationships/image").len(), 1);
}
