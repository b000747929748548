//! A document from its parts: parsing every XML part, classification and
//! the renderings built on it.
use vstd::prelude::*;
use crate::error::DocxError;
use crate::numbering::defs::NumberingDefs;
use crate::numbering::resolver::NumberingResolver;
use crate::ooxml::content_types::{ContentTypeMap, MAIN_DOCUMENT_CONTENT_TYPE};
use crate::ooxml::relationships::{RelView, RelationshipMap, rels_of, rels_view};
use crate::pipeline::classifier::{
    ClassEnv, ClassifierPipeline, class_fold, class_error, describes_all, fresh_state, law_descriptions_fix_elements,
    reach_ok,
};
use crate::pipeline::element::{DocxElement, elements_view, views_agree};
use crate::pipeline::export::{law_exports_respect_agreement, markdown_of, plain_text_of, to_markdown, to_plain_text};
use crate::pipeline::profile::ExtractionProfile;
use crate::pipeline::rag::{DocxRagChunker, RagChunk, chunk_spec, chunks_view};
use crate::raw::body::{BodyItemView, RawBody};
use crate::styles::table::StyleTable;
use crate::text::{chars_of, starts_with_at};
use crate::word::comments_xml::{CommentMap, comments_of, comments_view, parse_comments_xml};
use crate::word::document_xml::{body_of, parse_document_xml, parse_footer_xml, parse_header_xml};
use crate::word::endnotes_xml::{EndnoteMap, parse_endnotes_xml};
use crate::word::footnotes_xml::{FootnoteMap, parse_footnotes_xml};
use crate::word::notes_common::{notes_of, texts_view};
use crate::word::numbering_xml::{defs_match, numbering_of, parse_numbering_xml};
use crate::word::styles_xml::{parse_styles_xml, styles_of, table_styles, xml_error};
use crate::xml::entity_guard::{doctype_reason, has_doctype};

verus! {

// ---------------------------------------------------------------------
// Header and footer part names
// ---------------------------------------------------------------------

/// `word/<kind><digits>.xml`, with at least one ASCII digit.
pub open spec fn is_part_path(name: Seq<char>, kind: Seq<char>) -> bool {
    let pre = "word/"@ + kind;
    let suf = ".xml"@;
    &&& name.len() > pre.len() + suf.len()
    &&& name.take(pre.len() as int) == pre
    &&& name.skip(name.len() - suf.len()) == suf
    &&& forall|i: int| pre.len() <= i < name.len() - suf.len() ==> '0' <= #[trigger] name[i] <= '9'
}

/// Whether `name` is `word/<kind><digits>.xml`.
pub fn matches_part(name: &str, kind: &str) -> (b: bool)
    ensures
        b == is_part_path(name@, kind@),
{
    let c = chars_of(name);
    let mut pre = chars_of("word/");
    let k = chars_of(kind);
    let mut i: usize = 0;
    while i < k.len()
        invariant
            i <= k@.len(),
            pre@ == "word/"@ + k@.take(i as int),
        decreases k.len() - i,
    {
        pre.push(k[i]);
        i = i + 1;
        assert(pre@ =~= "word/"@ + k@.take(i as int));
    }
    assert(k@.take(k@.len() as int) =~= k@);
    let suf = chars_of(".xml");
    if c.len() < pre.len() || c.len() - pre.len() <= suf.len() {
        return false;
    }
    assert(c@.subrange(0, pre@.len() as int) =~= c@.take(pre@.len() as int));
    if !starts_with_at(&c, 0, &pre) {
        return false;
    }
    let end = c.len() - suf.len();
    assert(c@.subrange(end as int, end + suf@.len()) =~= c@.skip(end as int));
    if !starts_with_at(&c, end, &suf) {
        return false;
    }
    digits_between(&c, pre.len(), end)
}

/// Whether `c[lo..hi]` holds ASCII digits only.
fn digits_between(c: &Vec<char>, lo: usize, hi: usize) -> (b: bool)
    requires
        lo <= hi <= c@.len(),
    ensures
        b == forall|t: int| lo <= t < hi ==> '0' <= #[trigger] c@[t] <= '9',
{
    let mut j: usize = lo;
    while j < hi
        invariant
            lo <= j <= hi <= c@.len(),
            forall|t: int| lo <= t < j ==> '0' <= #[trigger] c@[t] <= '9',
        decreases hi - j,
    {
        if c[j] < '0' || c[j] > '9' {
            return false;
        }
        j = j + 1;
    }
    true
}

/// Whether `name` is a header part (`word/header<digits>.xml`).
pub fn is_header_part_path(name: &str) -> (b: bool)
    ensures
        b == is_part_path(name@, "header"@),
{
    matches_part(name, "header")
}

/// Whether `name` is a footer part (`word/footer<digits>.xml`).
pub fn is_footer_part_path(name: &str) -> (b: bool)
    ensures
        b == is_part_path(name@, "footer"@),
{
    matches_part(name, "footer")
}

/// The archive path of the main document part named by the content-type
/// manifest, or the error that the document has none.
pub fn main_document_path(content_types: &ContentTypeMap) -> (r: Result<String, DocxError>)
    requires
        content_types.wf(),
    ensures
        match r {
            Ok(k) => content_types.overrides().contains_key(k@)
                && content_types.overrides()[k@] == MAIN_DOCUMENT_CONTENT_TYPE@,
            Err(e) => (e matches DocxError::MissingPart(p) && p@ == "main document part (word/document.xml)"@)
                && forall|k: Seq<char>| #[trigger] content_types.overrides().contains_key(k)
                    ==> content_types.overrides()[k] != MAIN_DOCUMENT_CONTENT_TYPE@,
        },
{
    match content_types.main_document_part() {
        Some(p) => Ok(p),
        None => Err(DocxError::MissingPart("main document part (word/document.xml)".to_string())),
    }
}

// ---------------------------------------------------------------------
// Parsing the parts
// ---------------------------------------------------------------------

/// The XML parts of a document as read from its archive: the main part,
/// the optional ones, and every header and footer part by archive path.
pub struct DocxParts {
    pub document_xml: Vec<u8>,
    pub styles_xml: Option<Vec<u8>>,
    pub numbering_xml: Option<Vec<u8>>,
    pub footnotes_xml: Option<Vec<u8>>,
    pub endnotes_xml: Option<Vec<u8>>,
    pub comments_xml: Option<Vec<u8>>,
    pub document_rels_xml: Option<Vec<u8>>,
    pub header_parts: Vec<(String, Vec<u8>)>,
    pub footer_parts: Vec<(String, Vec<u8>)>,
}

pub open spec fn body_ok(b: Seq<u8>, envelope: Seq<char>) -> bool {
    !has_doctype(b) && body_of(b, envelope) is Ok
}

pub open spec fn body_error(e: DocxError, b: Seq<u8>, envelope: Seq<char>, source: Seq<char>) -> bool {
    if has_doctype(b) {
        xml_error(e, source, doctype_reason())
    } else {
        match body_of(b, envelope) {
            Err((p, m)) => xml_error(e, p, m),
            Ok(_) => false,
        }
    }
}

pub open spec fn styles_ok(b: Option<Vec<u8>>) -> bool {
    match b { Some(b) => !has_doctype(b@) && styles_of(b@) is Ok, None => true }
}

pub open spec fn styles_error(e: DocxError, b: Seq<u8>) -> bool {
    if has_doctype(b) {
        xml_error(e, "word/styles.xml"@, doctype_reason())
    } else {
        match styles_of(b) { Err((p, m)) => xml_error(e, p, m), Ok(_) => false }
    }
}

pub open spec fn numbering_ok(b: Option<Vec<u8>>) -> bool {
    match b { Some(b) => !has_doctype(b@) && numbering_of(b@) is Ok, None => true }
}

pub open spec fn numbering_error(e: DocxError, b: Seq<u8>) -> bool {
    if has_doctype(b) {
        xml_error(e, "word/numbering.xml"@, doctype_reason())
    } else {
        match numbering_of(b) { Err((p, m)) => xml_error(e, p, m), Ok(_) => false }
    }
}

pub open spec fn notes_ok(b: Option<Vec<u8>>, part: Seq<char>, tag: Seq<char>) -> bool {
    match b { Some(b) => !has_doctype(b@) && notes_of(b@, part, tag) is Ok, None => true }
}

pub open spec fn notes_error(e: DocxError, b: Seq<u8>, part: Seq<char>, tag: Seq<char>) -> bool {
    if has_doctype(b) {
        xml_error(e, part, doctype_reason())
    } else {
        match notes_of(b, part, tag) { Err((p, m)) => xml_error(e, p, m), Ok(_) => false }
    }
}

pub open spec fn comments_ok(b: Option<Vec<u8>>) -> bool {
    match b { Some(b) => !has_doctype(b@) && comments_of(b@) is Ok, None => true }
}

pub open spec fn comments_error(e: DocxError, b: Seq<u8>) -> bool {
    if has_doctype(b) {
        xml_error(e, "word/comments.xml"@, doctype_reason())
    } else {
        match comments_of(b) { Err((p, m)) => xml_error(e, p, m), Ok(_) => false }
    }
}

pub open spec fn rels_ok(b: Option<Vec<u8>>) -> bool {
    match b { Some(b) => !has_doctype(b@) && rels_of(b@) is Ok, None => true }
}

pub open spec fn rels_error(e: DocxError, b: Seq<u8>) -> bool {
    if has_doctype(b) {
        e matches DocxError::XmlParse { part, reason } && part@ == "word/_rels/document.xml.rels"@ && reason@ == doctype_reason()
    } else {
        match rels_of(b) {
            Err(m) => e matches DocxError::InvalidRelationships { path, reason } && path@ == "word/_rels/document.xml.rels"@ && reason@ == m,
            Ok(_) => false,
        }
    }
}

pub open spec fn section_parts_ok(parts: Seq<(String, Vec<u8>)>, envelope: Seq<char>) -> bool {
    forall|i: int| 0 <= i < parts.len() ==> body_ok((#[trigger] parts[i]).1@, envelope)
}

/// The error of the first part of `parts` that does not parse.
pub open spec fn first_section_error(e: DocxError, parts: Seq<(String, Vec<u8>)>, envelope: Seq<char>, source: Seq<char>) -> bool
    decreases parts.len(),
{
    if parts.len() == 0 {
        false
    } else if !body_ok(parts[0].1@, envelope) {
        body_error(e, parts[0].1@, envelope, source)
    } else {
        first_section_error(e, parts.drop_first(), envelope, source)
    }
}

/// Every part parses.
pub open spec fn parts_ok(p: DocxParts) -> bool {
    &&& body_ok(p.document_xml@, "w:body"@)
    &&& styles_ok(p.styles_xml)
    &&& numbering_ok(p.numbering_xml)
    &&& notes_ok(p.footnotes_xml, "word/footnotes.xml"@, "w:footnote"@)
    &&& notes_ok(p.endnotes_xml, "word/endnotes.xml"@, "w:endnote"@)
    &&& comments_ok(p.comments_xml)
    &&& rels_ok(p.document_rels_xml)
    &&& section_parts_ok(p.header_parts@, "w:hdr"@)
    &&& section_parts_ok(p.footer_parts@, "w:ftr"@)
}

/// `e` is the error of the first part that does not parse, in the order
/// body, styles, numbering, footnotes, endnotes, comments, relationships,
/// headers, footers.
pub open spec fn first_error(e: DocxError, p: DocxParts) -> bool {
    if !body_ok(p.document_xml@, "w:body"@) {
        body_error(e, p.document_xml@, "w:body"@, "word/document.xml"@)
    } else if !styles_ok(p.styles_xml) {
        styles_error(e, p.styles_xml.unwrap()@)
    } else if !numbering_ok(p.numbering_xml) {
        numbering_error(e, p.numbering_xml.unwrap()@)
    } else if !notes_ok(p.footnotes_xml, "word/footnotes.xml"@, "w:footnote"@) {
        notes_error(e, p.footnotes_xml.unwrap()@, "word/footnotes.xml"@, "w:footnote"@)
    } else if !notes_ok(p.endnotes_xml, "word/endnotes.xml"@, "w:endnote"@) {
        notes_error(e, p.endnotes_xml.unwrap()@, "word/endnotes.xml"@, "w:endnote"@)
    } else if !comments_ok(p.comments_xml) {
        comments_error(e, p.comments_xml.unwrap()@)
    } else if !rels_ok(p.document_rels_xml) {
        rels_error(e, p.document_rels_xml.unwrap()@)
    } else if !section_parts_ok(p.header_parts@, "w:hdr"@) {
        first_section_error(e, p.header_parts@, "w:hdr"@, "word/header*.xml"@)
    } else {
        first_section_error(e, p.footer_parts@, "w:ftr"@, "word/footer*.xml"@)
    }
}

proof fn lemma_first_section_error(parts: Seq<(String, Vec<u8>)>, envelope: Seq<char>, source: Seq<char>, k: int, e: DocxError)
    requires
        0 <= k < parts.len(),
        forall|i: int| 0 <= i < k ==> body_ok((#[trigger] parts[i]).1@, envelope),
        !body_ok(parts[k].1@, envelope),
        body_error(e, parts[k].1@, envelope, source),
    ensures
        first_section_error(e, parts, envelope, source),
    decreases k,
{
    if k > 0 {
        assert(body_ok(parts[0].1@, envelope));
        assert forall|i: int| 0 <= i < k - 1 implies body_ok((#[trigger] parts.drop_first()[i]).1@, envelope) by {
            assert(parts.drop_first()[i] == parts[i + 1]);
        }
        lemma_first_section_error(parts.drop_first(), envelope, source, k - 1, e);
    }
}

/// Parses section parts in order into (path, body) pairs.
fn parse_section_parts(parts: &Vec<(String, Vec<u8>)>, header: bool) -> (r: Result<Vec<(String, RawBody)>, DocxError>)
    ensures
        r is Ok <==> section_parts_ok(parts@, if header { "w:hdr"@ } else { "w:ftr"@ }),
        r matches Ok(v) ==> v@.len() == parts@.len() && forall|i: int| 0 <= i < parts@.len() ==> {
            &&& (#[trigger] v@[i]).0@ == parts@[i].0@
            &&& body_of(parts@[i].1@, if header { "w:hdr"@ } else { "w:ftr"@ }) == Ok::<Seq<BodyItemView>, (Seq<char>, Seq<char>)>(v@[i].1@)
        },
        r matches Err(e) ==> first_section_error(e, parts@, if header { "w:hdr"@ } else { "w:ftr"@ },
            if header { "word/header*.xml"@ } else { "word/footer*.xml"@ }),
{
    let ghost env = if header { "w:hdr"@ } else { "w:ftr"@ };
    let ghost src = if header { "word/header*.xml"@ } else { "word/footer*.xml"@ };
    let mut out: Vec<(String, RawBody)> = Vec::new();
    let mut i: usize = 0;
    while i < parts.len()
        invariant
            i <= parts@.len(),
            env == (if header { "w:hdr"@ } else { "w:ftr"@ }),
            src == (if header { "word/header*.xml"@ } else { "word/footer*.xml"@ }),
            out@.len() == i,
            forall|k: int| 0 <= k < i ==> body_ok((#[trigger] parts@[k]).1@, env),
            forall|k: int| 0 <= k < i ==> {
                &&& (#[trigger] out@[k]).0@ == parts@[k].0@
                &&& body_of(parts@[k].1@, env) == Ok::<Seq<BodyItemView>, (Seq<char>, Seq<char>)>(out@[k].1@)
            },
        decreases parts.len() - i,
    {
        let parsed = if header { parse_header_xml(parts[i].1.as_slice()) } else { parse_footer_xml(parts[i].1.as_slice()) };
        match parsed {
            Ok(b) => {
                out.push((parts[i].0.clone(), b));
            },
            Err(e) => {
                proof {
                    lemma_first_section_error(parts@, env, src, i as int, e);
                }
                return Err(e);
            },
        }
        i = i + 1;
    }
    Ok(out)
}

/// The parsed parts of a document, ready for classification.
pub struct ParsedDocument {
    body: RawBody,
    styles: StyleTable,
    numbering: NumberingDefs,
    footnotes: Option<FootnoteMap>,
    endnotes: Option<EndnoteMap>,
    comments: Option<CommentMap>,
    rels: Option<RelationshipMap>,
    header_bodies: Vec<(String, RawBody)>,
    footer_bodies: Vec<(String, RawBody)>,
}

/// The configuration of `DocxRagChunker::new()`.
pub open spec fn default_chunker() -> DocxRagChunker {
    DocxRagChunker {
        max_tokens: 800,
        profile: ExtractionProfile::Default,
        merge_policy: crate::pipeline::hybrid::MergePolicy::AnyInlineContent,
        group_sections: false,
    }
}

impl ParsedDocument {
    pub closed spec fn body(self) -> RawBody {
        self.body
    }

    pub closed spec fn styles(self) -> StyleTable {
        self.styles
    }

    pub closed spec fn numbering(self) -> NumberingDefs {
        self.numbering
    }

    pub closed spec fn footnotes(self) -> Option<FootnoteMap> {
        self.footnotes
    }

    pub closed spec fn endnotes(self) -> Option<EndnoteMap> {
        self.endnotes
    }

    pub closed spec fn comments(self) -> Option<CommentMap> {
        self.comments
    }

    pub closed spec fn rels(self) -> Option<RelationshipMap> {
        self.rels
    }

    pub closed spec fn header_bodies(self) -> Seq<(String, RawBody)> {
        self.header_bodies@
    }

    pub closed spec fn footer_bodies(self) -> Seq<(String, RawBody)> {
        self.footer_bodies@
    }

    pub open spec fn wf(self) -> bool {
        &&& self.styles().wf()
        &&& (self.rels() matches Some(r) ==> r.wf())
    }

    /// What classification reads besides the body.
    pub open spec fn env(self) -> ClassEnv {
        ClassEnv {
            styles: self.styles().styles_map(),
            paragraph_defaults: self.styles().defaults_paragraph(),
            defs: self.numbering(),
            footnotes: match self.footnotes() { Some(f) => Some(f.notes_map()), None => None },
            endnotes: match self.endnotes() { Some(f) => Some(f.notes_map()), None => None },
            comments: match self.comments() { Some(c) => Some(c.comments_map()), None => None },
            rels: match self.rels() { Some(r) => Some(r.rels()), None => None },
            headers: Some(self.header_bodies()),
            footers: Some(self.footer_bodies()),
        }
    }

    /// Whether every table that classification of the body reaches
    /// resolves its vertical merges.
    pub open spec fn resolvable(self) -> bool {
        reach_ok(self.env(), fresh_state(), self.body().items@)
    }

    /// Parses every part of a document: the main body, then styles,
    /// numbering, footnotes, endnotes, comments and relationships when
    /// present (empty styles and numbering stand in for absent ones), then
    /// each header and footer part. Fails with the first part that does
    /// not parse.
    pub fn parse(parts: &DocxParts) -> (r: Result<Self, DocxError>)
        ensures
            r is Ok <==> parts_ok(*parts),
            r matches Err(e) ==> first_error(e, *parts),
            r matches Ok(d) ==> {
                &&& d.wf()
                &&& body_of(parts.document_xml@, "w:body"@) == Ok::<Seq<BodyItemView>, (Seq<char>, Seq<char>)>(d.body()@)
                &&& match parts.styles_xml {
                    Some(b) => styles_of(b@) matches Ok(st) && table_styles(d.styles()) == st.styles
                        && (match d.styles().defaults_run() { Some(p) => Some(p@), None => None }) == st.defaults_run
                        && (match d.styles().defaults_paragraph() { Some(p) => Some(p@), None => None }) == st.defaults_paragraph,
                    None => d.styles().styles_map() == Map::<Seq<char>, crate::styles::table::StyleEntry>::empty()
                        && d.styles().defaults_run() is None && d.styles().defaults_paragraph() is None,
                }
                &&& match parts.numbering_xml {
                    Some(b) => numbering_of(b@) matches Ok(st) && defs_match(d.numbering(), st.abstracts, st.concretes),
                    None => (forall|id: u32| d.numbering().get_abstract(id) is None)
                        && (forall|id: u32| d.numbering().get_concrete(id) is None),
                }
                &&& match parts.footnotes_xml {
                    Some(b) => d.footnotes() matches Some(f) && notes_of(b@, "word/footnotes.xml"@, "w:footnote"@)
                        == Ok::<Map<u32, Seq<char>>, (Seq<char>, Seq<char>)>(texts_view(f.notes_map())),
                    None => d.footnotes() is None,
                }
                &&& match parts.endnotes_xml {
                    Some(b) => d.endnotes() matches Some(f) && notes_of(b@, "word/endnotes.xml"@, "w:endnote"@)
                        == Ok::<Map<u32, Seq<char>>, (Seq<char>, Seq<char>)>(texts_view(f.notes_map())),
                    None => d.endnotes() is None,
                }
                &&& match parts.comments_xml {
                    Some(b) => d.comments() matches Some(c) && comments_of(b@)
                        == Ok::<Map<u32, (Seq<char>, Seq<char>)>, (Seq<char>, Seq<char>)>(comments_view(c.comments_map())),
                    None => d.comments() is None,
                }
                &&& match parts.document_rels_xml {
                    Some(b) => d.rels() matches Some(m) && rels_of(b@) == Ok::<Map<Seq<char>, RelView>, Seq<char>>(rels_view(m.rels())),
                    None => d.rels() is None,
                }
                &&& d.header_bodies().len() == parts.header_parts@.len()
                &&& forall|i: int| 0 <= i < parts.header_parts@.len() ==> {
                    &&& (#[trigger] d.header_bodies()[i]).0@ == parts.header_parts@[i].0@
                    &&& body_of(parts.header_parts@[i].1@, "w:hdr"@) == Ok::<Seq<BodyItemView>, (Seq<char>, Seq<char>)>(d.header_bodies()[i].1@)
                }
                &&& d.footer_bodies().len() == parts.footer_parts@.len()
                &&& forall|i: int| 0 <= i < parts.footer_parts@.len() ==> {
                    &&& (#[trigger] d.footer_bodies()[i]).0@ == parts.footer_parts@[i].0@
                    &&& body_of(parts.footer_parts@[i].1@, "w:ftr"@) == Ok::<Seq<BodyItemView>, (Seq<char>, Seq<char>)>(d.footer_bodies()[i].1@)
                }
            },
    {
        let body = match parse_document_xml(parts.document_xml.as_slice()) {
            Ok(b) => b,
            Err(e) => return Err(e),
        };
        let styles = match &parts.styles_xml {
            Some(b) => match parse_styles_xml(b.as_slice()) {
                Ok(s) => s,
                Err(e) => return Err(e),
            },
            None => StyleTable::new(),
        };
        let numbering = match &parts.numbering_xml {
            Some(b) => match parse_numbering_xml(b.as_slice()) {
                Ok(n) => n,
                Err(e) => return Err(e),
            },
            None => NumberingDefs::new(),
        };
        let footnotes = match &parts.footnotes_xml {
            Some(b) => match parse_footnotes_xml(b.as_slice()) {
                Ok(f) => Some(f),
                Err(e) => return Err(e),
            },
            None => None,
        };
        let endnotes = match &parts.endnotes_xml {
            Some(b) => match parse_endnotes_xml(b.as_slice()) {
                Ok(f) => Some(f),
                Err(e) => return Err(e),
            },
            None => None,
        };
        let comments = match &parts.comments_xml {
            Some(b) => match parse_comments_xml(b.as_slice()) {
                Ok(c) => Some(c),
                Err(e) => return Err(e),
            },
            None => None,
        };
        let rels = match &parts.document_rels_xml {
            Some(b) => match RelationshipMap::parse(b.as_slice(), "word/_rels/document.xml.rels") {
                Ok(m) => Some(m),
                Err(e) => return Err(e),
            },
            None => None,
        };
        let header_bodies = match parse_section_parts(&parts.header_parts, true) {
            Ok(h) => h,
            Err(e) => return Err(e),
        };
        let footer_bodies = match parse_section_parts(&parts.footer_parts, false) {
            Ok(f) => f,
            Err(e) => return Err(e),
        };
        Ok(ParsedDocument { body, styles, numbering, footnotes, endnotes, comments, rels, header_bodies, footer_bodies })
    }

    /// Whether classification can run: every table that classifying the
    /// body reaches, in the body itself or in a header or footer part that
    /// a section references, resolves its vertical merges.
    pub fn spans_resolvable(&self) -> (b: bool)
        requires
            self.wf(),
        ensures
            b == self.resolvable(),
    {
        let mut classifier = self.classifier();
        classifier.classify_checked(&self.body).is_some()
    }

    /// A fresh classifier over the styles, numbering, notes, comments,
    /// relationships and header/footer bodies of the document.
    fn classifier(&self) -> (c: ClassifierPipeline)
        requires
            self.wf(),
        ensures
            c.wf(),
            c.env() == self.env(),
            c.state() == fresh_state(),
    {
        let mut classifier = ClassifierPipeline::new(&self.styles, &self.numbering);
        if let Some(f) = &self.footnotes {
            classifier = classifier.with_footnotes(f);
        }
        if let Some(en) = &self.endnotes {
            classifier = classifier.with_endnotes(en);
        }
        if let Some(c) = &self.comments {
            classifier = classifier.with_comments(c);
        }
        if let Some(m) = &self.rels {
            classifier = classifier.with_relationships(m);
        }
        classifier = classifier.with_section_bodies(&self.header_bodies, &self.footer_bodies);
        assert(classifier.env() == self.env());
        assert(classifier.state() =~= fresh_state()) by {
            assert((classifier.state().counters) =~= (fresh_state().counters));
        }
        classifier
    }

    /// Classifies the body into semantic elements, with the styles,
    /// numbering, notes, comments, relationships and header/footer bodies
    /// of the document.
    pub fn elements(&self) -> (r: Result<Vec<DocxElement>, DocxError>)
        requires
            self.wf(),
            self.resolvable(),
        ensures
            match class_fold(self.env(), fresh_state(), self.body().items@) {
                Ok(s) => r matches Ok(v) && describes_all(v@, s.out),
                Err(ce) => r matches Err(e) && class_error(e, ce),
            },
    {
        let mut classifier = self.classifier();
        classifier.classify(&self.body)
    }

    /// Classifying a document is repeatable: any two element sequences
    /// that `elements` may return agree element by element, and so do the
    /// Markdown and plain texts made from them.
    pub proof fn law_results_repeat(self, v1: Seq<DocxElement>, v2: Seq<DocxElement>)
        requires
            class_fold(self.env(), fresh_state(), self.body().items@) is Ok,
            describes_all(v1, class_fold(self.env(), fresh_state(), self.body().items@)->Ok_0.out),
            describes_all(v2, class_fold(self.env(), fresh_state(), self.body().items@)->Ok_0.out),
        ensures
            views_agree(elements_view(v1), elements_view(v2)),
            markdown_of(elements_view(v1)) == markdown_of(elements_view(v2)),
            plain_text_of(elements_view(v1)) == plain_text_of(elements_view(v2)),
    {
        let d = class_fold(self.env(), fresh_state(), self.body().items@)->Ok_0.out;
        law_descriptions_fix_elements(v1, v2, d);
        law_exports_respect_agreement(elements_view(v1), elements_view(v2));
    }

    /// The Markdown of a document is the same on every call: two texts
    /// that `to_markdown` may return are equal, and so are two plain texts
    /// that `plain_text` may return.
    pub proof fn law_exports_repeat(self, t1: Seq<char>, t2: Seq<char>, p1: Seq<char>, p2: Seq<char>)
        requires
            class_fold(self.env(), fresh_state(), self.body().items@) is Ok,
            exists|v: Seq<DocxElement>| describes_all(v, class_fold(self.env(), fresh_state(), self.body().items@)->Ok_0.out)
                && t1 == markdown_of(elements_view(v)),
            exists|v: Seq<DocxElement>| describes_all(v, class_fold(self.env(), fresh_state(), self.body().items@)->Ok_0.out)
                && t2 == markdown_of(elements_view(v)),
            exists|v: Seq<DocxElement>| describes_all(v, class_fold(self.env(), fresh_state(), self.body().items@)->Ok_0.out)
                && p1 == plain_text_of(elements_view(v)),
            exists|v: Seq<DocxElement>| describes_all(v, class_fold(self.env(), fresh_state(), self.body().items@)->Ok_0.out)
                && p2 == plain_text_of(elements_view(v)),
        ensures
            t1 == t2,
            p1 == p2,
    {
        let d = class_fold(self.env(), fresh_state(), self.body().items@)->Ok_0.out;
        let a = choose|v: Seq<DocxElement>| describes_all(v, d) && t1 == markdown_of(elements_view(v));
        let b = choose|v: Seq<DocxElement>| describes_all(v, d) && t2 == markdown_of(elements_view(v));
        self.law_results_repeat(a, b);
        let c = choose|v: Seq<DocxElement>| describes_all(v, d) && p1 == plain_text_of(elements_view(v));
        let e = choose|v: Seq<DocxElement>| describes_all(v, d) && p2 == plain_text_of(elements_view(v));
        self.law_results_repeat(c, e);
    }

    /// The document as plain text.
    pub fn plain_text(&self) -> (r: Result<String, DocxError>)
        requires
            self.wf(),
            self.resolvable(),
        ensures
            match class_fold(self.env(), fresh_state(), self.body().items@) {
                Ok(s) => r matches Ok(t) && exists|v: Seq<DocxElement>| describes_all(v, s.out) && t@ == plain_text_of(elements_view(v)),
                Err(ce) => r matches Err(e) && class_error(e, ce),
            },
    {
        let elements = match self.elements() {
            Ok(e) => e,
            Err(e) => return Err(e),
        };
        Ok(to_plain_text(elements.as_slice()))
    }

    /// The document as GitHub-flavored Markdown.
    pub fn to_markdown(&self) -> (r: Result<String, DocxError>)
        requires
            self.wf(),
            self.resolvable(),
        ensures
            match class_fold(self.env(), fresh_state(), self.body().items@) {
                Ok(s) => r matches Ok(t) && exists|v: Seq<DocxElement>| describes_all(v, s.out) && t@ == markdown_of(elements_view(v)),
                Err(ce) => r matches Err(e) && class_error(e, ce),
            },
    {
        let elements = match self.elements() {
            Ok(e) => e,
            Err(e) => return Err(e),
        };
        Ok(to_markdown(elements.as_slice()))
    }

    /// The document in RAG chunks of the default chunker.
    pub fn rag_chunks(&self) -> (r: Result<Vec<RagChunk>, DocxError>)
        requires
            self.wf(),
            self.resolvable(),
        ensures
            match class_fold(self.env(), fresh_state(), self.body().items@) {
                Ok(s) => r matches Ok(c) && exists|v: Seq<DocxElement>| describes_all(v, s.out)
                    && chunks_view(c@) == chunk_spec(default_chunker(), elements_view(v)),
                Err(ce) => r matches Err(e) && class_error(e, ce),
            },
    {
        let elements = match self.elements() {
            Ok(e) => e,
            Err(e) => return Err(e),
        };
        Ok(DocxRagChunker::new().chunk(elements.as_slice()))
    }

    /// The document in RAG chunks after applying `profile`.
    pub fn rag_chunks_with_profile(&self, profile: ExtractionProfile) -> (r: Result<Vec<RagChunk>, DocxError>)
        requires
            self.wf(),
            self.resolvable(),
        ensures
            match class_fold(self.env(), fresh_state(), self.body().items@) {
                Ok(s) => r matches Ok(c) && exists|v: Seq<DocxElement>| describes_all(v, s.out)
                    && chunks_view(c@) == chunk_spec(DocxRagChunker { profile, ..default_chunker() }, elements_view(v)),
                Err(ce) => r matches Err(e) && class_error(e, ce),
            },
    {
        let elements = match self.elements() {
            Ok(e) => e,
            Err(e) => return Err(e),
        };
        Ok(DocxRagChunker::new().with_profile(profile).chunk(elements.as_slice()))
    }
}

} // verus!
