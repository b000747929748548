//! Classification of the raw body into semantic elements.
use vstd::prelude::*;
use crate::error::DocxError;
use crate::numbering::defs::NumberingDefs;
use crate::numbering::resolver::{ListType, NumberingResolver, list_type_of, next_index};
use crate::ooxml::relationships::{Relationship, RelationshipMap};
use crate::pipeline::element::{
    DocxElement, HeaderKind, HeadingContext, LinkSpan, element_view, elements_view, header_kind_of,
    lemma_elements_view_index, lemma_elements_view_len, view_agrees, views_agree,
};
use crate::pipeline::table_builder::{CellView, build_table, resolved_rows, rows_match, spans_resolvable, table_spans_resolvable};
use crate::raw::body::{RawBody, RawBodyItem, RawSectionProperties, RawSectionRef};
use crate::raw::paragraphs::{RawHyperlink, RawInline, RawNumPr, RawParagraph};
use crate::raw::runs::RawRun;
use crate::styles::resolver::{ChainOutcome, StyleResolver, chain_error, paragraph_chain, paragraph_formatting};
use crate::styles::table::{StyleEntry, StyleTable};
use crate::text::{chars_of, str_eq};
use crate::word::comments_xml::{CommentInfo, CommentMap};
use crate::word::endnotes_xml::EndnoteMap;
use crate::word::footnotes_xml::FootnoteMap;

verus! {

// ---------------------------------------------------------------------
// What classification computes
// ---------------------------------------------------------------------

/// Everything classification reads besides the body itself.
pub struct ClassEnv {
    pub styles: Map<Seq<char>, StyleEntry>,
    pub paragraph_defaults: Option<crate::raw::paragraphs::RawParagraphProperties>,
    pub defs: NumberingDefs,
    pub footnotes: Option<Map<u32, String>>,
    pub endnotes: Option<Map<u32, String>>,
    pub comments: Option<Map<u32, CommentInfo>>,
    pub rels: Option<Map<Seq<char>, Relationship>>,
    pub headers: Option<Seq<(String, RawBody)>>,
    pub footers: Option<Seq<(String, RawBody)>>,
}

/// The environment of a header or footer: the same styles, numbering,
/// notes, comments and relationships, with fresh counters and no section
/// bodies of its own.
pub open spec fn inner_env(env: ClassEnv) -> ClassEnv {
    ClassEnv { headers: None, footers: None, ..env }
}

/// A classified element as a mathematical value.
pub enum ElemDesc {
    Paragraph { text: Seq<char>, parent_heading: Option<(u8, Seq<char>)>, links: Seq<(Seq<char>, Seq<char>)> },
    Heading { level: u8, text: Seq<char> },
    /// `num_fmt` is the level's `<w:numFmt>`, which the list type follows.
    ListItem { text: Seq<char>, level: u8, num_fmt: Seq<char>, display_index: Option<u32> },
    Table { rows: Seq<Seq<CellView>> },
    Footnote { id: u32, text: Seq<char> },
    Endnote { id: u32, text: Seq<char> },
    Comment { id: u32, author: Seq<char>, text: Seq<char> },
    Header { kind: HeaderKind, content: Seq<ElemDesc> },
    Footer { kind: HeaderKind, content: Seq<ElemDesc> },
}

/// The counters, heading context and output of classification so far.
pub struct ClassState {
    pub counters: spec_fn(u32, u8) -> Option<u32>,
    pub heading: Option<(u8, Seq<char>)>,
    pub out: Seq<ElemDesc>,
}

/// Why classification stopped.
pub enum ClassError {
    /// A list paragraph's numbering could not be resolved.
    Numbering(DocxError),
    /// A paragraph style's `basedOn` chain from the given id is circular or
    /// too deep.
    Chain(ChainOutcome, Seq<char>),
}

pub open spec fn class_error(e: DocxError, ce: ClassError) -> bool {
    match ce {
        ClassError::Numbering(d) => e == d,
        ClassError::Chain(o, start) => chain_error(e, o, start),
    }
}

pub open spec fn fresh_state() -> ClassState {
    ClassState { counters: |n: u32, l: u8| None::<u32>, heading: None, out: Seq::empty() }
}

pub open spec fn opt_text(t: Option<String>) -> Seq<char> {
    match t {
        Some(s) => s@,
        None => Seq::empty(),
    }
}

pub open spec fn runs_text(runs: Seq<RawRun>) -> Seq<char>
    decreases runs.len(),
{
    if runs.len() == 0 { Seq::empty() } else { runs_text(runs.drop_last()) + opt_text(runs.last().text) }
}

/// A paragraph's text: its runs' and its hyperlinks' runs' text in order.
pub open spec fn paragraph_text_of(content: Seq<RawInline>) -> Seq<char>
    decreases content.len(),
{
    if content.len() == 0 {
        Seq::empty()
    } else {
        paragraph_text_of(content.drop_last()) + match content.last() {
            RawInline::Run(r) => opt_text(r.text),
            RawInline::Hyperlink(l) => runs_text(l.runs@),
        }
    }
}

/// The URL a hyperlink shows: the target of its relationship when that is
/// known and non-empty, else `#` and its anchor, else none.
pub open spec fn link_url(link: RawHyperlink, rels: Option<Map<Seq<char>, Relationship>>) -> Option<Seq<char>> {
    let by_rel = match (link.rel_id, rels) {
        (Some(id), Some(m)) => m.contains_key(id@) && m[id@].target@.len() > 0,
        _ => false,
    };
    if by_rel {
        Some(rels.unwrap()[link.rel_id.unwrap()@].target@)
    } else {
        match link.anchor {
            Some(a) => Some(seq!['#'] + a@),
            None => None,
        }
    }
}

/// The (text, url) of each hyperlink with a URL, in order.
pub open spec fn link_spans(content: Seq<RawInline>, rels: Option<Map<Seq<char>, Relationship>>) -> Seq<(Seq<char>, Seq<char>)>
    decreases content.len(),
{
    if content.len() == 0 {
        Seq::empty()
    } else {
        let prev = link_spans(content.drop_last(), rels);
        match content.last() {
            RawInline::Hyperlink(l) => match link_url(l, rels) {
                Some(url) => prev.push((runs_text(l.runs@), url)),
                None => prev,
            },
            RawInline::Run(_) => prev,
        }
    }
}

/// A style name of the form "heading N" (ASCII case ignored), N in 1..=9.
pub open spec fn name_heading_level(name: Seq<char>) -> Option<u8> {
    if name.len() >= 9 && (forall|k: int| 0 <= k < 8 ==> name[k] == "heading "@[k] || name[k] == "HEADING "@[k])
        && '1' <= name[8] <= '9' {
        Some((name[8] as u32 - '0' as u32) as u8)
    } else {
        None
    }
}

/// A character with ASCII upper case letters turned to lower case.
pub open spec fn ascii_lower_char(c: char) -> char {
    if 'A' <= c && c <= 'Z' { ((c as u32) + 32) as char } else { c }
}

/// A text with every ASCII upper case letter turned to lower case.
pub open spec fn ascii_lower(s: Seq<char>) -> Seq<char> {
    Seq::new(s.len(), |i: int| ascii_lower_char(s[i]))
}

/// Reading a heading level from a style name ignores ASCII case: a name
/// and its lower-cased form give the same level. A name that starts with
/// `heading ` (in any case) and then a digit from 1 to 9 gives that digit.
pub proof fn law_heading_name_ignores_case(name: Seq<char>)
    ensures
        name_heading_level(name) == name_heading_level(ascii_lower(name)),
        name.len() >= 9 && ascii_lower(name).take(8) == "heading "@ && '1' <= name[8] <= '9'
            ==> name_heading_level(name) == Some((name[8] as u32 - '0' as u32) as u8),
        name.len() < 9 || ascii_lower(name).take(8) != "heading "@ || !('1' <= name[8] <= '9')
            ==> name_heading_level(name) is None,
{
    reveal_strlit("heading ");
    reveal_strlit("HEADING ");
    let low = ascii_lower(name);
    let ok = name.len() >= 9 && (forall|k: int| 0 <= k < 8 ==> name[k] == "heading "@[k] || name[k] == "HEADING "@[k]);
    let ok_low = low.len() >= 9 && (forall|k: int| 0 <= k < 8 ==> low[k] == "heading "@[k] || low[k] == "HEADING "@[k]);
    if name.len() >= 9 {
        assert forall|k: int| 0 <= k < 8 implies
            ((name[k] == "heading "@[k] || name[k] == "HEADING "@[k]) <==> low[k] == "heading "@[k])
            && ((low[k] == "heading "@[k] || low[k] == "HEADING "@[k]) <==> low[k] == "heading "@[k]) by {
            assert(low[k] == ascii_lower_char(name[k]));
            let c = name[k];
            if 'A' <= c && c <= 'Z' {
                assert(((c as u32) + 32) as char as u32 == (c as u32) + 32);
            }
        }
        assert(ok <==> low.take(8) =~= "heading "@) by {
            if low.take(8) =~= "heading "@ {
                assert forall|k: int| 0 <= k < 8 implies low[k] == "heading "@[k] by {
                    assert(low.take(8)[k] == low[k]);
                }
            }
        }
        assert(ok_low <==> ok);
        assert(low[8] == ascii_lower_char(name[8]));
    }
}

/// `heading N` and `Heading N`, N from 1 to 9, give level N.
pub proof fn law_heading_names(d: char)
    requires
        '1' <= d <= '9',
    ensures
        name_heading_level("heading "@.push(d)) == Some((d as u32 - '0' as u32) as u8),
        name_heading_level("Heading "@.push(d)) == Some((d as u32 - '0' as u32) as u8),
{
    reveal_strlit("heading ");
    reveal_strlit("HEADING ");
    reveal_strlit("Heading ");
}

pub open spec fn heading_by_name(styles: Map<Seq<char>, StyleEntry>, p: RawParagraph) -> Option<u8> {
    match p.properties.style_id {
        Some(id) => if styles.contains_key(id@) { name_heading_level(styles[id@].name@) } else { None },
        None => None,
    }
}

/// A paragraph's heading level: from its resolved outline level, else from
/// its style's name.
pub open spec fn heading_of(env: ClassEnv, p: RawParagraph) -> Result<Option<u8>, ClassError> {
    match paragraph_chain(env.styles, p) {
        ChainOutcome::Chain(walk) => {
            let f = paragraph_formatting(env.paragraph_defaults, walk, p.properties);
            if f.heading_level is Some { Ok(f.heading_level) } else { Ok(heading_by_name(env.styles, p)) }
        },
        o => Err(ClassError::Chain(o, p.properties.style_id.unwrap()@)),
    }
}

/// The counters after a list item at `(num_id, ilvl)` took `next`: deeper
/// levels of the same list restart.
pub open spec fn advanced(cs: spec_fn(u32, u8) -> Option<u32>, num_id: u32, ilvl: u8, next: u32) -> spec_fn(u32, u8) -> Option<u32> {
    |n: u32, l: u8| if n == num_id && l == ilvl { Some(next) } else if n == num_id && l > ilvl { None } else { cs(n, l) }
}

pub open spec fn footnote_descs(notes: Option<Map<u32, String>>, ids: Seq<u32>) -> Seq<ElemDesc>
    decreases ids.len(),
{
    if ids.len() == 0 {
        Seq::empty()
    } else {
        let prev = footnote_descs(notes, ids.drop_last());
        let id = ids.last();
        match notes {
            Some(m) => if m.contains_key(id) { prev.push(ElemDesc::Footnote { id, text: m[id]@ }) } else { prev },
            None => prev,
        }
    }
}

pub open spec fn endnote_descs(notes: Option<Map<u32, String>>, ids: Seq<u32>) -> Seq<ElemDesc>
    decreases ids.len(),
{
    if ids.len() == 0 {
        Seq::empty()
    } else {
        let prev = endnote_descs(notes, ids.drop_last());
        let id = ids.last();
        match notes {
            Some(m) => if m.contains_key(id) { prev.push(ElemDesc::Endnote { id, text: m[id]@ }) } else { prev },
            None => prev,
        }
    }
}

pub open spec fn comment_descs(comments: Option<Map<u32, CommentInfo>>, ids: Seq<u32>) -> Seq<ElemDesc>
    decreases ids.len(),
{
    if ids.len() == 0 {
        Seq::empty()
    } else {
        let prev = comment_descs(comments, ids.drop_last());
        let id = ids.last();
        match comments {
            Some(m) => if m.contains_key(id) {
                prev.push(ElemDesc::Comment { id, author: m[id].author@, text: m[id].text@ })
            } else {
                prev
            },
            None => prev,
        }
    }
}

/// The numbering reference that makes a paragraph a list item: its
/// `numPr`, except `numId` 0 when no numbering 0 is defined, which Word
/// writes to mean "not a list".
pub open spec fn list_ref(env: ClassEnv, p: RawParagraph) -> Option<RawNumPr> {
    match p.properties.num_pr {
        Some(np) => if np.num_id == 0 && env.defs.get_concrete(0) is None { None } else { Some(np) },
        None => None,
    }
}

/// One paragraph: a list item when it has a numbering reference, else a
/// heading or a paragraph under the current heading; then its footnotes,
/// endnotes and comments, each in reference order.
pub open spec fn para_step(env: ClassEnv, st: ClassState, p: RawParagraph) -> Result<ClassState, ClassError> {
    let text = paragraph_text_of(p.content@);
    let main: Result<ClassState, ClassError> = match list_ref(env, p) {
        Some(np) => match env.defs.resolves_to(np.num_id, np.ilvl) {
            Err(e) => Err(ClassError::Numbering(e)),
            Ok(level) => {
                let next = next_index((st.counters)(np.num_id, np.ilvl), level.start) as u32;
                let kind = list_type_of(level.num_fmt@);
                let display_index = if kind is Bullet || kind is NoMarker { None } else { Some(next) };
                Ok(ClassState {
                    counters: advanced(st.counters, np.num_id, np.ilvl, next),
                    heading: st.heading,
                    out: st.out.push(ElemDesc::ListItem { text, level: np.ilvl, num_fmt: level.num_fmt@, display_index }),
                })
            },
        },
        None => match heading_of(env, p) {
            Err(e) => Err(e),
            Ok(Some(level)) => Ok(ClassState {
                heading: Some((level, text)),
                out: st.out.push(ElemDesc::Heading { level, text }),
                ..st
            }),
            Ok(None) => Ok(ClassState {
                out: st.out.push(ElemDesc::Paragraph {
                    text,
                    parent_heading: st.heading,
                    links: link_spans(p.content@, env.rels),
                }),
                ..st
            }),
        },
    };
    match main {
        Err(e) => Err(e),
        Ok(s) => Ok(ClassState {
            out: s.out + footnote_descs(env.footnotes, p.footnote_ref_ids@)
                + endnote_descs(env.endnotes, p.endnote_ref_ids@) + comment_descs(env.comments, p.comment_ref_ids@),
            ..s
        }),
    }
}

/// A body item without regard to section bodies: a section break adds
/// nothing.
pub open spec fn plain_step(env: ClassEnv, st: ClassState, item: RawBodyItem) -> Result<ClassState, ClassError> {
    match item {
        RawBodyItem::Table(t) => Ok(ClassState { out: st.out.push(ElemDesc::Table { rows: resolved_rows(t) }), ..st }),
        RawBodyItem::SectionBreak(_) => Ok(st),
        RawBodyItem::Paragraph(p) => para_step(env, st, p),
    }
}

pub open spec fn plain_fold(env: ClassEnv, st: ClassState, items: Seq<RawBodyItem>) -> Result<ClassState, ClassError>
    decreases items.len(),
{
    if items.len() == 0 {
        Ok(st)
    } else {
        match plain_fold(env, st, items.drop_last()) {
            Err(e) => Err(e),
            Ok(s) => plain_step(env, s, items.last()),
        }
    }
}

/// The body stored under `path` (the first entry with that key).
pub open spec fn find_body(bodies: Seq<(String, RawBody)>, path: Seq<char>) -> Option<RawBody>
    decreases bodies.len(),
{
    if bodies.len() == 0 {
        None
    } else if bodies[0].0@ == path {
        Some(bodies[0].1)
    } else {
        find_body(bodies.drop_first(), path)
    }
}

/// The archive path of a part the main document's relationships point at.
pub open spec fn part_path(target: Seq<char>) -> Seq<char> {
    "word/"@ + target
}

/// A header (or footer) reference: the classified body of the part its
/// relationship targets, or nothing when any link of that chain is missing.
pub open spec fn section_elem(env: ClassEnv, sref: RawSectionRef, header: bool) -> Result<Option<ElemDesc>, ClassError> {
    let bodies = if header { env.headers } else { env.footers };
    match env.rels {
        None => Ok(None),
        Some(m) => if !m.contains_key(sref.rel_id@) {
            Ok(None)
        } else {
            match bodies {
                None => Ok(None),
                Some(bs) => match find_body(bs, part_path(m[sref.rel_id@].target@)) {
                    None => Ok(None),
                    Some(b) => match plain_fold(inner_env(env), fresh_state(), b.items@) {
                        Err(e) => Err(e),
                        Ok(s) => {
                            let kind = header_kind_of(sref.ref_type);
                            Ok(Some(if header { ElemDesc::Header { kind, content: s.out } } else { ElemDesc::Footer { kind, content: s.out } }))
                        },
                    },
                },
            }
        },
    }
}

pub open spec fn refs_fold(env: ClassEnv, refs: Seq<RawSectionRef>, header: bool) -> Result<Seq<ElemDesc>, ClassError>
    decreases refs.len(),
{
    if refs.len() == 0 {
        Ok(Seq::empty())
    } else {
        match refs_fold(env, refs.drop_last(), header) {
            Err(e) => Err(e),
            Ok(prev) => match section_elem(env, refs.last(), header) {
                Err(e) => Err(e),
                Ok(Some(d)) => Ok(prev.push(d)),
                Ok(None) => Ok(prev),
            },
        }
    }
}

/// One body item: tables resolve their spans, a section break adds its
/// headers then its footers, a paragraph goes through `para_step`.
pub open spec fn item_step(env: ClassEnv, st: ClassState, item: RawBodyItem) -> Result<ClassState, ClassError> {
    match item {
        RawBodyItem::SectionBreak(props) => match refs_fold(env, props.header_refs@, true) {
            Err(e) => Err(e),
            Ok(hs) => match refs_fold(env, props.footer_refs@, false) {
                Err(e) => Err(e),
                Ok(fs) => Ok(ClassState { out: st.out + hs + fs, ..st }),
            },
        },
        _ => plain_step(env, st, item),
    }
}

/// Classification of a body's items from state `st`.
pub open spec fn class_fold(env: ClassEnv, st: ClassState, items: Seq<RawBodyItem>) -> Result<ClassState, ClassError>
    decreases items.len(),
{
    if items.len() == 0 {
        Ok(st)
    } else {
        match class_fold(env, st, items.drop_last()) {
            Err(e) => Err(e),
            Ok(s) => item_step(env, s, items.last()),
        }
    }
}

/// Every table that classifying `items` without section bodies, from
/// `st`, reaches (before any error) resolves its spans.
pub open spec fn plain_reach_ok(env: ClassEnv, st: ClassState, items: Seq<RawBodyItem>) -> bool
    decreases items.len(),
{
    if items.len() == 0 {
        true
    } else {
        &&& plain_reach_ok(env, st, items.drop_last())
        &&& (plain_fold(env, st, items.drop_last()) is Ok ==> (items.last() matches RawBodyItem::Table(t) ==> spans_resolvable(t)))
    }
}

/// Every table reached in the part that a header or footer reference
/// names resolves its spans.
pub open spec fn section_reach_ok(env: ClassEnv, sref: RawSectionRef, header: bool) -> bool {
    let bodies = if header { env.headers } else { env.footers };
    match env.rels {
        None => true,
        Some(m) => if !m.contains_key(sref.rel_id@) {
            true
        } else {
            match bodies {
                None => true,
                Some(bs) => match find_body(bs, part_path(m[sref.rel_id@].target@)) {
                    None => true,
                    Some(b) => plain_reach_ok(inner_env(env), fresh_state(), b.items@),
                },
            }
        },
    }
}

pub open spec fn refs_reach_ok(env: ClassEnv, refs: Seq<RawSectionRef>, header: bool) -> bool
    decreases refs.len(),
{
    if refs.len() == 0 {
        true
    } else {
        &&& refs_reach_ok(env, refs.drop_last(), header)
        &&& (refs_fold(env, refs.drop_last(), header) is Ok ==> section_reach_ok(env, refs.last(), header))
    }
}

/// Every table that classifying one body item reaches resolves its spans.
pub open spec fn item_reach_ok(env: ClassEnv, item: RawBodyItem) -> bool {
    match item {
        RawBodyItem::Table(t) => spans_resolvable(t),
        RawBodyItem::SectionBreak(props) => {
            &&& refs_reach_ok(env, props.header_refs@, true)
            &&& (refs_fold(env, props.header_refs@, true) is Ok ==> refs_reach_ok(env, props.footer_refs@, false))
        },
        RawBodyItem::Paragraph(_) => true,
    }
}

/// Every table that classifying `items` from `st` reaches, in the body or
/// in a header or footer part a reached section break names, resolves its
/// spans: classification never meets a table it cannot build.
pub open spec fn reach_ok(env: ClassEnv, st: ClassState, items: Seq<RawBodyItem>) -> bool
    decreases items.len(),
{
    if items.len() == 0 {
        true
    } else {
        &&& reach_ok(env, st, items.drop_last())
        &&& (class_fold(env, st, items.drop_last()) is Ok ==> item_reach_ok(env, items.last()))
    }
}

proof fn lemma_plain_reach_prefix(env: ClassEnv, st: ClassState, items: Seq<RawBodyItem>, k: int)
    requires
        0 <= k <= items.len(),
        plain_reach_ok(env, st, items),
    ensures
        plain_reach_ok(env, st, items.take(k)),
    decreases items.len() - k,
{
    if k < items.len() {
        lemma_plain_reach_prefix(env, st, items.drop_last(), k);
        assert(items.drop_last().take(k) =~= items.take(k));
    } else {
        assert(items.take(k) =~= items);
    }
}

proof fn lemma_plain_reach_after_err(env: ClassEnv, st: ClassState, items: Seq<RawBodyItem>, k: int)
    requires
        0 <= k <= items.len(),
        plain_reach_ok(env, st, items.take(k)),
        plain_fold(env, st, items.take(k)) is Err,
    ensures
        plain_reach_ok(env, st, items),
    decreases items.len() - k,
{
    if k < items.len() {
        assert(items.take(k + 1).drop_last() =~= items.take(k));
        lemma_plain_reach_after_err(env, st, items, k + 1);
    } else {
        assert(items.take(k) =~= items);
    }
}

proof fn lemma_refs_reach_prefix(env: ClassEnv, refs: Seq<RawSectionRef>, header: bool, k: int)
    requires
        0 <= k <= refs.len(),
        refs_reach_ok(env, refs, header),
    ensures
        refs_reach_ok(env, refs.take(k), header),
    decreases refs.len() - k,
{
    if k < refs.len() {
        lemma_refs_reach_prefix(env, refs.drop_last(), header, k);
        assert(refs.drop_last().take(k) =~= refs.take(k));
    } else {
        assert(refs.take(k) =~= refs);
    }
}

proof fn lemma_refs_reach_after_err(env: ClassEnv, refs: Seq<RawSectionRef>, header: bool, k: int)
    requires
        0 <= k <= refs.len(),
        refs_reach_ok(env, refs.take(k), header),
        refs_fold(env, refs.take(k), header) is Err,
    ensures
        refs_reach_ok(env, refs, header),
    decreases refs.len() - k,
{
    if k < refs.len() {
        assert(refs.take(k + 1).drop_last() =~= refs.take(k));
        lemma_refs_reach_after_err(env, refs, header, k + 1);
    } else {
        assert(refs.take(k) =~= refs);
    }
}

proof fn lemma_reach_prefix(env: ClassEnv, st: ClassState, items: Seq<RawBodyItem>, k: int)
    requires
        0 <= k <= items.len(),
        reach_ok(env, st, items),
    ensures
        reach_ok(env, st, items.take(k)),
    decreases items.len() - k,
{
    if k < items.len() {
        lemma_reach_prefix(env, st, items.drop_last(), k);
        assert(items.drop_last().take(k) =~= items.take(k));
    } else {
        assert(items.take(k) =~= items);
    }
}

proof fn lemma_reach_after_err(env: ClassEnv, st: ClassState, items: Seq<RawBodyItem>, k: int)
    requires
        0 <= k <= items.len(),
        reach_ok(env, st, items.take(k)),
        class_fold(env, st, items.take(k)) is Err,
    ensures
        reach_ok(env, st, items),
    decreases items.len() - k,
{
    if k < items.len() {
        assert(items.take(k + 1).drop_last() =~= items.take(k));
        lemma_reach_after_err(env, st, items, k + 1);
    } else {
        assert(items.take(k) =~= items);
    }
}

// ---------------------------------------------------------------------
// How an element matches its description
// ---------------------------------------------------------------------

pub open spec fn heading_matches(h: Option<HeadingContext>, d: Option<(u8, Seq<char>)>) -> bool {
    match (h, d) {
        (Some(h), Some(d)) => h.level == d.0 && h.text@ == d.1,
        (None, None) => true,
        _ => false,
    }
}

pub open spec fn links_match(links: Seq<LinkSpan>, d: Seq<(Seq<char>, Seq<char>)>) -> bool {
    &&& links.len() == d.len()
    &&& forall|i: int| 0 <= i < d.len() ==> (#[trigger] links[i]).text@ == d[i].0 && links[i].url@ == d[i].1
}

pub open spec fn describes(e: DocxElement, d: ElemDesc) -> bool
    decreases d,
{
    match (e, d) {
        (DocxElement::Paragraph { text, parent_heading, links }, ElemDesc::Paragraph { text: t, parent_heading: h, links: l }) =>
            text@ == t && heading_matches(parent_heading, h) && links_match(links@, l),
        (DocxElement::Heading { level, text }, ElemDesc::Heading { level: lv, text: t }) => level == lv && text@ == t,
        (DocxElement::ListItem { text, level, list_type, display_index }, ElemDesc::ListItem { text: t, level: lv, num_fmt, display_index: di }) =>
            text@ == t && level == lv && crate::numbering::resolver::is_list_type_of(list_type, num_fmt) && display_index == di,
        (DocxElement::Table { rows }, ElemDesc::Table { rows: r }) => rows_match(rows@, r),
        (DocxElement::Footnote { id, text }, ElemDesc::Footnote { id: i, text: t }) => id == i && text@ == t,
        (DocxElement::Endnote { id, text }, ElemDesc::Endnote { id: i, text: t }) => id == i && text@ == t,
        (DocxElement::Comment { id, author, text }, ElemDesc::Comment { id: i, author: a, text: t }) =>
            id == i && author@ == a && text@ == t,
        (DocxElement::Header { kind, content }, ElemDesc::Header { kind: k, content: c }) =>
            kind == k && content@.len() == c.len() && forall|i: int| 0 <= i < c.len() ==> describes(#[trigger] content@[i], c[i]),
        (DocxElement::Footer { kind, content }, ElemDesc::Footer { kind: k, content: c }) =>
            kind == k && content@.len() == c.len() && forall|i: int| 0 <= i < c.len() ==> describes(#[trigger] content@[i], c[i]),
        _ => false,
    }
}

pub open spec fn describes_all(v: Seq<DocxElement>, d: Seq<ElemDesc>) -> bool {
    &&& v.len() == d.len()
    &&& forall|i: int| 0 <= i < d.len() ==> describes(#[trigger] v[i], d[i])
}


/// Two elements that match one description agree as views.
proof fn lemma_describes_agree(e1: DocxElement, e2: DocxElement, x: ElemDesc)
    requires
        describes(e1, x),
        describes(e2, x),
    ensures
        view_agrees(element_view(e1), element_view(e2)),
    decreases x,
{
    match (e1, e2, x) {
        (DocxElement::ListItem { list_type: k1, .. }, DocxElement::ListItem { list_type: k2, .. }, ElemDesc::ListItem { num_fmt, .. }) => {
            assert(crate::numbering::resolver::is_list_type_of(k1, num_fmt));
            assert(crate::numbering::resolver::is_list_type_of(k2, num_fmt));
        },
        (DocxElement::Table { rows: r1 }, DocxElement::Table { rows: r2 }, ElemDesc::Table { rows: r }) => {
            let v1 = crate::pipeline::element::rows_view(r1@);
            let v2 = crate::pipeline::element::rows_view(r2@);
            assert forall|i: int| 0 <= i < v1.len() implies crate::pipeline::element::cells_agree(#[trigger] v1[i], v2[i]) by {
                assert(crate::pipeline::table_builder::row_matches(r1@[i].cells@, r[i]));
                assert(crate::pipeline::table_builder::row_matches(r2@[i].cells@, r[i]));
            }
        },
        (DocxElement::Header { content: c1, .. }, DocxElement::Header { content: c2, .. }, ElemDesc::Header { content: c, .. }) => {
            lemma_elements_view_len(c1@);
            lemma_elements_view_len(c2@);
            assert forall|i: int| 0 <= i < elements_view(c1@).len() implies
                view_agrees(#[trigger] elements_view(c1@)[i], elements_view(c2@)[i]) by {
                lemma_elements_view_index(c1@, i);
                lemma_elements_view_index(c2@, i);
                lemma_describes_agree(c1@[i], c2@[i], c[i]);
            }
        },
        (DocxElement::Footer { content: c1, .. }, DocxElement::Footer { content: c2, .. }, ElemDesc::Footer { content: c, .. }) => {
            lemma_elements_view_len(c1@);
            lemma_elements_view_len(c2@);
            assert forall|i: int| 0 <= i < elements_view(c1@).len() implies
                view_agrees(#[trigger] elements_view(c1@)[i], elements_view(c2@)[i]) by {
                lemma_elements_view_index(c1@, i);
                lemma_elements_view_index(c2@, i);
                lemma_describes_agree(c1@[i], c2@[i], c[i]);
            }
        },
        _ => {},
    }
}

/// A description fixes the elements it describes: two element sequences
/// that both match it agree element by element, every field equal and
/// every string of the same characters. So classifying the same input
/// twice gives agreeing results.
pub proof fn law_descriptions_fix_elements(v1: Seq<DocxElement>, v2: Seq<DocxElement>, d: Seq<ElemDesc>)
    requires
        describes_all(v1, d),
        describes_all(v2, d),
    ensures
        views_agree(elements_view(v1), elements_view(v2)),
{
    lemma_elements_view_len(v1);
    lemma_elements_view_len(v2);
    assert forall|i: int| 0 <= i < elements_view(v1).len() implies
        view_agrees(#[trigger] elements_view(v1)[i], elements_view(v2)[i]) by {
        lemma_elements_view_index(v1, i);
        lemma_elements_view_index(v2, i);
        lemma_describes_agree(v1[i], v2[i], d[i]);
    }
}

// ---------------------------------------------------------------------
// The classifier
// ---------------------------------------------------------------------

proof fn lemma_describes_push(v: Seq<DocxElement>, d: Seq<ElemDesc>, e: DocxElement, x: ElemDesc)
    requires
        describes_all(v, d),
        describes(e, x),
    ensures
        describes_all(v.push(e), d.push(x)),
{
    assert forall|i: int| 0 <= i < d.push(x).len() implies describes(#[trigger] v.push(e)[i], d.push(x)[i]) by {
        if i < d.len() {
            assert(v.push(e)[i] == v[i]);
        }
    }
}

fn runs_text_into(out: &mut String, runs: &Vec<RawRun>)
    ensures
        final(out)@ == old(out)@ + runs_text(runs@),
{
    let mut i: usize = 0;
    while i < runs.len()
        invariant
            i <= runs@.len(),
            out@ == old(out)@ + runs_text(runs@.take(i as int)),
        decreases runs.len() - i,
    {
        assert(runs@.take(i + 1).drop_last() =~= runs@.take(i as int));
        if let Some(t) = &runs[i].text {
            out.append(t.as_str());
        }
        i = i + 1;
    }
    assert(runs@.take(runs@.len() as int) =~= runs@);
}

/// A paragraph's text: its runs and its hyperlinks' runs in order.
fn paragraph_text(p: &RawParagraph) -> (s: String)
    ensures
        s@ == paragraph_text_of(p.content@),
{
    let mut s = String::new();
    let mut i: usize = 0;
    while i < p.content.len()
        invariant
            i <= p.content@.len(),
            s@ == paragraph_text_of(p.content@.take(i as int)),
        decreases p.content.len() - i,
    {
        assert(p.content@.take(i + 1).drop_last() =~= p.content@.take(i as int));
        match &p.content[i] {
            RawInline::Run(run) => {
                if let Some(t) = &run.text {
                    s.append(t.as_str());
                }
            },
            RawInline::Hyperlink(link) => {
                runs_text_into(&mut s, &link.runs);
            },
        }
        i = i + 1;
    }
    assert(p.content@.take(p.content@.len() as int) =~= p.content@);
    s
}

fn hyperlink_text(link: &RawHyperlink) -> (s: String)
    ensures
        s@ == runs_text(link.runs@),
{
    let mut s = String::new();
    runs_text_into(&mut s, &link.runs);
    s
}

pub open spec fn rels_of(relationships: Option<&RelationshipMap>) -> Option<Map<Seq<char>, Relationship>> {
    match relationships {
        Some(r) => Some(r.rels()),
        None => None,
    }
}

/// The URL a hyperlink shows: its relationship's non-empty target, else
/// `#` and its anchor.
fn resolve_hyperlink_url(link: &RawHyperlink, relationships: Option<&RelationshipMap>) -> (r: Option<String>)
    requires
        relationships matches Some(m) ==> m.wf(),
    ensures
        match r {
            Some(u) => link_url(*link, rels_of(relationships)) == Some(u@),
            None => link_url(*link, rels_of(relationships)) is None,
        },
{
    if let (Some(rel_id), Some(rels)) = (&link.rel_id, relationships) {
        if let Some(rel) = rels.get_by_id(rel_id.as_str()) {
            if !rel.target.as_str().is_empty() {
                return Some(rel.target.clone());
            }
        }
    }
    match &link.anchor {
        Some(a) => {
            let mut u = String::new();
            u.push('#');
            u.append(a.as_str());
            Some(u)
        },
        None => None,
    }
}

/// The part of a section a reference points into.
#[derive(Clone, Copy)]
enum SectionPart {
    Header,
    Footer,
}

/// "heading N" in a style name, ASCII case ignored.
fn name_heading_digit(name: &str) -> (r: Option<u8>)
    ensures
        r == name_heading_level(name@),
{
    let c = chars_of(name);
    if c.len() < 9 {
        return None;
    }
    let lower = ['h', 'e', 'a', 'd', 'i', 'n', 'g', ' '];
    let upper = ['H', 'E', 'A', 'D', 'I', 'N', 'G', ' '];
    proof {
        reveal_strlit("heading ");
        reveal_strlit("HEADING ");
        assert(lower@ == "heading "@);
        assert(upper@ == "HEADING "@);
    }
    let mut k: usize = 0;
    while k < 8
        invariant
            k <= 8,
            c@ == name@,
            c@.len() >= 9,
            lower@ == "heading "@,
            upper@ == "HEADING "@,
            forall|j: int| 0 <= j < k ==> c@[j] == "heading "@[j] || c@[j] == "HEADING "@[j],
        decreases 8 - k,
    {
        if c[k] != lower[k] && c[k] != upper[k] {
            return None;
        }
        k = k + 1;
    }
    let d = c[8];
    if d >= '1' && d <= '9' {
        let v: u8 = if d == '1' { 1 } else if d == '2' { 2 } else if d == '3' { 3 } else if d == '4' { 4 }
            else if d == '5' { 5 } else if d == '6' { 6 } else if d == '7' { 7 } else if d == '8' { 8 } else { 9 };
        Some(v)
    } else {
        None
    }
}

/// Walks a raw body in document order and emits semantic elements. The
/// heading context and list counters carry over from one call to the next.
pub struct ClassifierPipeline<'a> {
    style_table: &'a StyleTable,
    numbering_defs: &'a NumberingDefs,
    numbering_resolver: NumberingResolver<'a>,
    footnotes: Option<&'a FootnoteMap>,
    endnotes: Option<&'a EndnoteMap>,
    comments: Option<&'a CommentMap>,
    relationships: Option<&'a RelationshipMap>,
    header_bodies: Option<&'a Vec<(String, RawBody)>>,
    footer_bodies: Option<&'a Vec<(String, RawBody)>>,
    current_heading: Option<HeadingContext>,
}

impl<'a> ClassifierPipeline<'a> {
    pub closed spec fn env(self) -> ClassEnv {
        ClassEnv {
            styles: self.style_table.styles_map(),
            paragraph_defaults: self.style_table.defaults_paragraph(),
            defs: *self.numbering_defs,
            footnotes: match self.footnotes { Some(f) => Some(f.notes_map()), None => None },
            endnotes: match self.endnotes { Some(f) => Some(f.notes_map()), None => None },
            comments: match self.comments { Some(c) => Some(c.comments_map()), None => None },
            rels: rels_of(self.relationships),
            headers: match self.header_bodies { Some(h) => Some(h@), None => None },
            footers: match self.footer_bodies { Some(f) => Some(f@), None => None },
        }
    }

    pub closed spec fn wf(self) -> bool {
        &&& self.style_table.wf()
        &&& (self.relationships matches Some(r) ==> r.wf())
        &&& self.numbering_resolver.definitions() == *self.numbering_defs
    }

    /// The most recent heading: its level and text.
    pub closed spec fn heading(self) -> Option<(u8, Seq<char>)> {
        match self.current_heading {
            Some(h) => Some((h.level, h.text@)),
            None => None,
        }
    }

    /// The list counter of `(num_id, ilvl)`.
    pub closed spec fn counter(self, num_id: u32, ilvl: u8) -> Option<u32> {
        self.numbering_resolver.counter(num_id, ilvl)
    }

    /// The classification state this pipeline starts a call from.
    pub open spec fn state(self) -> ClassState {
        ClassState { counters: |n: u32, l: u8| self.counter(n, l), heading: self.heading(), out: Seq::empty() }
    }

    pub fn new(style_table: &'a StyleTable, numbering_defs: &'a NumberingDefs) -> (r: Self)
        requires
            style_table.wf(),
        ensures
            r.wf(),
            r.env() == (ClassEnv {
                styles: style_table.styles_map(),
                paragraph_defaults: style_table.defaults_paragraph(),
                defs: *numbering_defs,
                footnotes: None,
                endnotes: None,
                comments: None,
                rels: None,
                headers: None,
                footers: None,
            }),
            r.heading() is None,
            forall|n: u32, l: u8| r.counter(n, l) is None,
    {
        ClassifierPipeline {
            style_table,
            numbering_defs,
            numbering_resolver: NumberingResolver::new(numbering_defs),
            footnotes: None,
            endnotes: None,
            comments: None,
            relationships: None,
            header_bodies: None,
            footer_bodies: None,
            current_heading: None,
        }
    }

    pub fn with_footnotes(self, footnotes: &'a FootnoteMap) -> (r: Self)
        ensures
            r.wf() == self.wf(),
            r.env() == (ClassEnv { footnotes: Some(footnotes.notes_map()), ..self.env() }),
            r.heading() == self.heading(),
            forall|n: u32, l: u8| r.counter(n, l) == self.counter(n, l),
    {
        ClassifierPipeline { footnotes: Some(footnotes), ..self }
    }

    pub fn with_endnotes(self, endnotes: &'a EndnoteMap) -> (r: Self)
        ensures
            r.wf() == self.wf(),
            r.env() == (ClassEnv { endnotes: Some(endnotes.notes_map()), ..self.env() }),
            r.heading() == self.heading(),
            forall|n: u32, l: u8| r.counter(n, l) == self.counter(n, l),
    {
        ClassifierPipeline { endnotes: Some(endnotes), ..self }
    }

    pub fn with_comments(self, comments: &'a CommentMap) -> (r: Self)
        ensures
            r.wf() == self.wf(),
            r.env() == (ClassEnv { comments: Some(comments.comments_map()), ..self.env() }),
            r.heading() == self.heading(),
            forall|n: u32, l: u8| r.counter(n, l) == self.counter(n, l),
    {
        ClassifierPipeline { comments: Some(comments), ..self }
    }

    pub fn with_relationships(self, relationships: &'a RelationshipMap) -> (r: Self)
        requires
            relationships.wf(),
        ensures
            self.wf() ==> r.wf(),
            r.env() == (ClassEnv { rels: Some(relationships.rels()), ..self.env() }),
            r.heading() == self.heading(),
            forall|n: u32, l: u8| r.counter(n, l) == self.counter(n, l),
    {
        ClassifierPipeline { relationships: Some(relationships), ..self }
    }

    /// The parsed header and footer bodies, keyed by the archive path that
    /// a relationship target resolves to (e.g. `"word/header1.xml"`).
    pub fn with_section_bodies(
        self,
        header_bodies: &'a Vec<(String, RawBody)>,
        footer_bodies: &'a Vec<(String, RawBody)>,
    ) -> (r: Self)
        ensures
            r.wf() == self.wf(),
            r.env() == (ClassEnv { headers: Some(header_bodies@), footers: Some(footer_bodies@), ..self.env() }),
            r.heading() == self.heading(),
            forall|n: u32, l: u8| r.counter(n, l) == self.counter(n, l),
    {
        ClassifierPipeline { header_bodies: Some(header_bodies), footer_bodies: Some(footer_bodies), ..self }
    }

    /// The (text, url) of each hyperlink of `p` that has a URL.
    fn collect_link_spans(&self, p: &RawParagraph) -> (spans: Vec<LinkSpan>)
        requires
            self.wf(),
        ensures
            links_match(spans@, link_spans(p.content@, self.env().rels)),
    {
        let mut spans: Vec<LinkSpan> = Vec::new();
        let mut i: usize = 0;
        while i < p.content.len()
            invariant
                i <= p.content@.len(),
                self.wf(),
                links_match(spans@, link_spans(p.content@.take(i as int), self.env().rels)),
            decreases p.content.len() - i,
        {
            assert(p.content@.take(i + 1).drop_last() =~= p.content@.take(i as int));
            if let RawInline::Hyperlink(link) = &p.content[i] {
                if let Some(url) = resolve_hyperlink_url(link, self.relationships) {
                    let text = hyperlink_text(link);
                    spans.push(LinkSpan { text, url });
                }
            }
            i = i + 1;
        }
        assert(p.content@.take(p.content@.len() as int) =~= p.content@);
        spans
    }

    fn heading_level_by_name(&self, p: &RawParagraph) -> (r: Option<u8>)
        requires
            self.wf(),
        ensures
            r == heading_by_name(self.env().styles, *p),
    {
        let style_id = match &p.properties.style_id {
            Some(s) => s,
            None => return None,
        };
        let style = match self.style_table.get(style_id.as_str()) {
            Some(s) => s,
            None => return None,
        };
        name_heading_digit(style.name.as_str())
    }

    /// 1..=9 when the paragraph is a heading: from the outline level of its
    /// resolved formatting, else from its style's name.
    fn heading_level(&self, p: &RawParagraph) -> (r: Result<Option<u8>, DocxError>)
        requires
            self.wf(),
        ensures
            match heading_of(self.env(), *p) {
                Ok(h) => r == Ok::<Option<u8>, DocxError>(h),
                Err(ce) => r matches Err(e) && class_error(e, ce),
            },
    {
        let resolver = StyleResolver::new(self.style_table);
        let f = match resolver.resolve_paragraph(p) {
            Ok(f) => f,
            Err(e) => return Err(e),
        };
        if let Some(level) = f.heading_level {
            return Ok(Some(level));
        }
        Ok(self.heading_level_by_name(p))
    }

    /// One paragraph, its notes and its comments, appended to `out`.
    fn classify_paragraph(&mut self, p: &RawParagraph, out: &mut Vec<DocxElement>, Ghost(st): Ghost<ClassState>) -> (r: Result<(), DocxError>)
        requires
            old(self).wf(),
            describes_all(old(out)@, st.out),
            st.heading == old(self).heading(),
            forall|n: u32, l: u8| #[trigger] (st.counters)(n, l) == old(self).counter(n, l),
        ensures
            final(self).wf(),
            final(self).env() == old(self).env(),
            match para_step(old(self).env(), st, *p) {
                Ok(s) => r is Ok && describes_all(final(out)@, s.out) && final(self).heading() == s.heading
                    && forall|n: u32, l: u8| #[trigger] final(self).counter(n, l) == (s.counters)(n, l),
                Err(ce) => r matches Err(e) && class_error(e, ce),
            },
    {
        let ghost env = self.env();
        let text = paragraph_text(p);
        let links = self.collect_link_spans(p);
        let ghost mut mid: ClassState = st;
        let num_ref = match p.properties.num_pr {
            Some(np) => if np.num_id == 0 && !self.numbering_defs.has_num(0) { None } else { Some(np) },
            None => None,
        };
        assert(num_ref == list_ref(env, *p));
        match num_ref {
            Some(num_pr) => {
                let info = match self.numbering_resolver.advance(num_pr.num_id, num_pr.ilvl) {
                    Ok(i) => i,
                    Err(e) => return Err(e),
                };
                let ghost level = env.defs.resolves_to(num_pr.num_id, num_pr.ilvl)->Ok_0;
                let ghost next = next_index((st.counters)(num_pr.num_id, num_pr.ilvl), level.start) as u32;
                let ghost kind = list_type_of(level.num_fmt@);
                let ghost d = ElemDesc::ListItem {
                    text: text@,
                    level: num_pr.ilvl,
                    num_fmt: level.num_fmt@,
                    display_index: if kind is Bullet || kind is NoMarker { None } else { Some(next) },
                };
                let e = DocxElement::ListItem {
                    text,
                    level: info.ilvl,
                    list_type: info.list_type,
                    display_index: info.display_index,
                };
                proof {
                    lemma_describes_push(out@, st.out, e, d);
                    mid = ClassState {
                        counters: advanced(st.counters, num_pr.num_id, num_pr.ilvl, next),
                        heading: st.heading,
                        out: st.out.push(d),
                    };
                }
                out.push(e);
                assert forall|n: u32, l: u8| #[trigger] self.counter(n, l) == (mid.counters)(n, l) by {}
            },
            None => {
                let h = match self.heading_level(p) {
                    Ok(h) => h,
                    Err(e) => return Err(e),
                };
                match h {
                    Some(level) => {
                        self.current_heading = Some(HeadingContext { level, text: text.clone() });
                        let ghost d = ElemDesc::Heading { level, text: text@ };
                        let e = DocxElement::Heading { level, text };
                        proof {
                            lemma_describes_push(out@, st.out, e, d);
                            mid = ClassState { heading: Some((level, e->Heading_text@)), out: st.out.push(d), ..st };
                        }
                        out.push(e);
                    },
                    None => {
                        let parent_heading = match &self.current_heading {
                            Some(hc) => Some(hc.clone()),
                            None => None,
                        };
                        let ghost d = ElemDesc::Paragraph {
                            text: text@,
                            parent_heading: st.heading,
                            links: link_spans(p.content@, env.rels),
                        };
                        let e = DocxElement::Paragraph { text, parent_heading, links };
                        proof {
                            lemma_describes_push(out@, st.out, e, d);
                            mid = ClassState { out: st.out.push(d), ..st };
                        }
                        out.push(e);
                    },
                }
            },
        }
        // Notes and comments, each in reference order.
        let ghost base = mid.out;
        if let Some(footnotes) = self.footnotes {
            let mut i: usize = 0;
            while i < p.footnote_ref_ids.len()
                invariant
                    i <= p.footnote_ref_ids@.len(),
                    self.footnotes == Some(footnotes),
                    env.footnotes == Some(footnotes.notes_map()),
                    describes_all(out@, base + footnote_descs(env.footnotes, p.footnote_ref_ids@.take(i as int))),
                decreases p.footnote_ref_ids.len() - i,
            {
                let id = p.footnote_ref_ids[i];
                assert(p.footnote_ref_ids@.take(i + 1).drop_last() =~= p.footnote_ref_ids@.take(i as int));
                let ghost prev = footnote_descs(env.footnotes, p.footnote_ref_ids@.take(i as int));
                if let Some(text) = footnotes.get(id) {
                    let e = DocxElement::Footnote { id, text: text.to_owned() };
                    proof {
                        let d = ElemDesc::Footnote { id, text: footnotes.notes_map()[id]@ };
                        lemma_describes_push(out@, base + prev, e, d);
                        assert((base + prev).push(d) =~= base + prev.push(d));
                    }
                    out.push(e);
                }
                i = i + 1;
            }
            assert(p.footnote_ref_ids@.take(p.footnote_ref_ids@.len() as int) =~= p.footnote_ref_ids@);
        } else {
            proof { lemma_no_notes(p.footnote_ref_ids@); }
            assert(base + footnote_descs(env.footnotes, p.footnote_ref_ids@) =~= base);
        }
        let ghost base2 = base + footnote_descs(env.footnotes, p.footnote_ref_ids@);
        if let Some(endnotes) = self.endnotes {
            let mut i: usize = 0;
            while i < p.endnote_ref_ids.len()
                invariant
                    i <= p.endnote_ref_ids@.len(),
                    self.endnotes == Some(endnotes),
                    env.endnotes == Some(endnotes.notes_map()),
                    describes_all(out@, base2 + endnote_descs(env.endnotes, p.endnote_ref_ids@.take(i as int))),
                decreases p.endnote_ref_ids.len() - i,
            {
                let id = p.endnote_ref_ids[i];
                assert(p.endnote_ref_ids@.take(i + 1).drop_last() =~= p.endnote_ref_ids@.take(i as int));
                let ghost prev = endnote_descs(env.endnotes, p.endnote_ref_ids@.take(i as int));
                if let Some(text) = endnotes.get(id) {
                    let e = DocxElement::Endnote { id, text: text.to_owned() };
                    proof {
                        let d = ElemDesc::Endnote { id, text: endnotes.notes_map()[id]@ };
                        lemma_describes_push(out@, base2 + prev, e, d);
                        assert((base2 + prev).push(d) =~= base2 + prev.push(d));
                    }
                    out.push(e);
                }
                i = i + 1;
            }
            assert(p.endnote_ref_ids@.take(p.endnote_ref_ids@.len() as int) =~= p.endnote_ref_ids@);
        } else {
            proof { lemma_no_endnotes(p.endnote_ref_ids@); }
            assert(base2 + endnote_descs(env.endnotes, p.endnote_ref_ids@) =~= base2);
        }
        let ghost base3 = base2 + endnote_descs(env.endnotes, p.endnote_ref_ids@);
        if let Some(comments) = self.comments {
            let mut i: usize = 0;
            while i < p.comment_ref_ids.len()
                invariant
                    i <= p.comment_ref_ids@.len(),
                    self.comments == Some(comments),
                    env.comments == Some(comments.comments_map()),
                    describes_all(out@, base3 + comment_descs(env.comments, p.comment_ref_ids@.take(i as int))),
                decreases p.comment_ref_ids.len() - i,
            {
                let id = p.comment_ref_ids[i];
                assert(p.comment_ref_ids@.take(i + 1).drop_last() =~= p.comment_ref_ids@.take(i as int));
                let ghost prev = comment_descs(env.comments, p.comment_ref_ids@.take(i as int));
                if let Some(info) = comments.get(id) {
                    let e = DocxElement::Comment { id, author: info.author.clone(), text: info.text.clone() };
                    proof {
                        let d = ElemDesc::Comment { id, author: info.author@, text: info.text@ };
                        lemma_describes_push(out@, base3 + prev, e, d);
                        assert((base3 + prev).push(d) =~= base3 + prev.push(d));
                    }
                    out.push(e);
                }
                i = i + 1;
            }
            assert(p.comment_ref_ids@.take(p.comment_ref_ids@.len() as int) =~= p.comment_ref_ids@);
        } else {
            proof { lemma_no_comments(p.comment_ref_ids@); }
            assert(base3 + comment_descs(env.comments, p.comment_ref_ids@) =~= base3);
        }
        proof {
            assert(base + footnote_descs(env.footnotes, p.footnote_ref_ids@)
                + endnote_descs(env.endnotes, p.endnote_ref_ids@) + comment_descs(env.comments, p.comment_ref_ids@)
                =~= base3 + comment_descs(env.comments, p.comment_ref_ids@));
        }
        Ok(())
    }
}

proof fn lemma_plain_fold_err(env: ClassEnv, st: ClassState, items: Seq<RawBodyItem>, k: int)
    requires
        0 <= k <= items.len(),
        plain_fold(env, st, items.take(k)) is Err,
    ensures
        plain_fold(env, st, items) == plain_fold(env, st, items.take(k)),
    decreases items.len() - k,
{
    if k < items.len() {
        assert(items.take(k + 1).drop_last() =~= items.take(k));
        lemma_plain_fold_err(env, st, items, k + 1);
    } else {
        assert(items.take(k) =~= items);
    }
}

proof fn lemma_class_fold_err(env: ClassEnv, st: ClassState, items: Seq<RawBodyItem>, k: int)
    requires
        0 <= k <= items.len(),
        class_fold(env, st, items.take(k)) is Err,
    ensures
        class_fold(env, st, items) == class_fold(env, st, items.take(k)),
    decreases items.len() - k,
{
    if k < items.len() {
        assert(items.take(k + 1).drop_last() =~= items.take(k));
        lemma_class_fold_err(env, st, items, k + 1);
    } else {
        assert(items.take(k) =~= items);
    }
}

proof fn lemma_refs_fold_err(env: ClassEnv, refs: Seq<RawSectionRef>, header: bool, k: int)
    requires
        0 <= k <= refs.len(),
        refs_fold(env, refs.take(k), header) is Err,
    ensures
        refs_fold(env, refs, header) == refs_fold(env, refs.take(k), header),
    decreases refs.len() - k,
{
    if k < refs.len() {
        assert(refs.take(k + 1).drop_last() =~= refs.take(k));
        lemma_refs_fold_err(env, refs, header, k + 1);
    } else {
        assert(refs.take(k) =~= refs);
    }
}

/// The body stored under `path`.
fn find_section_body<'b>(bodies: &'b Vec<(String, RawBody)>, path: &str) -> (r: Option<&'b RawBody>)
    ensures
        match r {
            Some(b) => find_body(bodies@, path@) == Some(*b),
            None => find_body(bodies@, path@) is None,
        },
{
    let mut i: usize = 0;
    assert(bodies@.skip(0) =~= bodies@);
    while i < bodies.len()
        invariant
            i <= bodies@.len(),
            find_body(bodies@, path@) == find_body(bodies@.skip(i as int), path@),
        decreases bodies.len() - i,
    {
        assert(bodies@.skip(i as int).drop_first() =~= bodies@.skip(i + 1));
        assert(bodies@.skip(i as int)[0] == bodies@[i as int]);
        if str_eq(bodies[i].0.as_str(), path) {
            return Some(&bodies[i].1);
        }
        i = i + 1;
    }
    None
}

impl<'a> ClassifierPipeline<'a> {
    /// The items of a header or footer body: section breaks there add
    /// nothing. `None` when classification reaches a table whose spans do
    /// not resolve.
    fn classify_plain(&mut self, body: &RawBody, Ghost(st): Ghost<ClassState>) -> (r: Option<Result<Vec<DocxElement>, DocxError>>)
        requires
            old(self).wf(),
            st.out.len() == 0,
            st.heading == old(self).heading(),
            forall|n: u32, l: u8| #[trigger] (st.counters)(n, l) == old(self).counter(n, l),
        ensures
            final(self).wf(),
            final(self).env() == old(self).env(),
            r is None <==> !plain_reach_ok(old(self).env(), st, body.items@),
            r matches Some(x) ==> match plain_fold(old(self).env(), st, body.items@) {
                Ok(s) => x matches Ok(v) && describes_all(v@, s.out) && final(self).heading() == s.heading
                    && forall|n: u32, l: u8| #[trigger] final(self).counter(n, l) == (s.counters)(n, l),
                Err(ce) => x matches Err(e) && class_error(e, ce),
            },
    {
        let ghost env = self.env();
        let ghost items = body.items@;
        let mut out: Vec<DocxElement> = Vec::new();
        let mut i: usize = 0;
        while i < body.items.len()
            invariant
                i <= items.len(),
                items == body.items@,
                plain_reach_ok(env, st, items.take(i as int)),
                self.wf(),
                self.env() == env,
                env == old(self).env(),
                plain_fold(env, st, items.take(i as int)) is Ok,
                describes_all(out@, plain_fold(env, st, items.take(i as int))->Ok_0.out),
                self.heading() == plain_fold(env, st, items.take(i as int))->Ok_0.heading,
                forall|n: u32, l: u8| #[trigger] self.counter(n, l) == (plain_fold(env, st, items.take(i as int))->Ok_0.counters)(n, l),
            decreases items.len() - i,
        {
            let ghost s = plain_fold(env, st, items.take(i as int))->Ok_0;
            proof {
                assert(items.take(i + 1).drop_last() =~= items.take(i as int));
                assert(items.take(i + 1).last() == items[i as int]);
            }
            match &body.items[i] {
                RawBodyItem::Table(t) => {
                    if !table_spans_resolvable(t) {
                        proof {
                            if plain_reach_ok(env, st, items) {
                                lemma_plain_reach_prefix(env, st, items, i + 1);
                            }
                        }
                        return None;
                    }
                    let rows = build_table(t);
                    let e = DocxElement::Table { rows };
                    proof {
                        lemma_describes_push(out@, s.out, e, ElemDesc::Table { rows: resolved_rows(*t) });
                    }
                    out.push(e);
                },
                RawBodyItem::SectionBreak(_) => {},
                RawBodyItem::Paragraph(p) => {
                    match self.classify_paragraph(p, &mut out, Ghost(s)) {
                        Ok(()) => {},
                        Err(e) => {
                            proof {
                                lemma_plain_fold_err(env, st, items, i + 1);
                                lemma_plain_reach_after_err(env, st, items, i + 1);
                            }
                            return Some(Err(e));
                        },
                    }
                },
            }
            i = i + 1;
        }
        assert(items.take(items.len() as int) =~= items);
        Some(Ok(out))
    }

    /// A header or footer reference as a classified `Header` / `Footer`,
    /// or nothing when the relationship, the bodies or the target body is
    /// missing. The part gets fresh counters and heading context.
    fn build_section_element(&self, sref: &RawSectionRef, part: SectionPart) -> (r: Option<Result<Option<DocxElement>, DocxError>>)
        requires
            self.wf(),
        ensures
            r is None <==> !section_reach_ok(self.env(), *sref, part is Header),
            r matches Some(x) ==> match section_elem(self.env(), *sref, part is Header) {
                Ok(Some(d)) => x matches Ok(Some(e)) && describes(e, d),
                Ok(None) => x matches Ok(None),
                Err(ce) => x matches Err(e) && class_error(e, ce),
            },
    {
        let rels = match self.relationships {
            Some(r) => r,
            None => return Some(Ok(None)),
        };
        let rel = match rels.get_by_id(sref.rel_id.as_str()) {
            Some(rel) => rel,
            None => return Some(Ok(None)),
        };
        let mut path = String::new();
        path.append("word/");
        path.append(rel.target.as_str());
        let bodies = match part {
            SectionPart::Header => self.header_bodies,
            SectionPart::Footer => self.footer_bodies,
        };
        let map = match bodies {
            Some(m) => m,
            None => return Some(Ok(None)),
        };
        let part_body = match find_section_body(map, path.as_str()) {
            Some(b) => b,
            None => return Some(Ok(None)),
        };
        let mut inner = ClassifierPipeline::new(self.style_table, self.numbering_defs);
        if let Some(r) = self.relationships {
            inner = inner.with_relationships(r);
        }
        if let Some(f) = self.footnotes {
            inner = inner.with_footnotes(f);
        }
        if let Some(en) = self.endnotes {
            inner = inner.with_endnotes(en);
        }
        if let Some(c) = self.comments {
            inner = inner.with_comments(c);
        }
        assert(inner.env() == inner_env(self.env()));
        let content = match inner.classify_plain(part_body, Ghost(fresh_state())) {
            None => return None,
            Some(Ok(c)) => c,
            Some(Err(e)) => return Some(Err(e)),
        };
        let kind = HeaderKind::from(&sref.ref_type);
        Some(Ok(Some(match part {
            SectionPart::Header => DocxElement::Header { kind, content },
            SectionPart::Footer => DocxElement::Footer { kind, content },
        })))
    }

    /// The headers, then the footers, of a section break, appended to `out`;
    /// `None` when one of their parts reaches a table whose spans do not
    /// resolve.
    fn classify_section(&self, props: &RawSectionProperties, out: &mut Vec<DocxElement>, Ghost(base): Ghost<Seq<ElemDesc>>) -> (r: Option<Result<(), DocxError>>)
        requires
            self.wf(),
            describes_all(old(out)@, base),
        ensures
            r is None <==> !item_reach_ok(self.env(), RawBodyItem::SectionBreak(*props)),
            r matches Some(x) ==> match refs_fold(self.env(), props.header_refs@, true) {
                Err(ce) => x matches Err(e) && class_error(e, ce),
                Ok(hd) => match refs_fold(self.env(), props.footer_refs@, false) {
                    Err(ce) => x matches Err(e) && class_error(e, ce),
                    Ok(fd) => x is Ok && describes_all(final(out)@, base + hd + fd),
                },
            },
    {
        let ghost env = self.env();
        let ghost hs = props.header_refs@;
        let ghost fs = props.footer_refs@;
        let mut k: usize = 0;
        while k < props.header_refs.len()
            invariant
                k <= hs.len(),
                hs == props.header_refs@,
                fs == props.footer_refs@,
                describes_all(old(out)@, base),
                self.wf(),
                self.env() == env,
                refs_reach_ok(env, hs.take(k as int), true),
                refs_fold(env, hs.take(k as int), true) is Ok,
                describes_all(out@, base + refs_fold(env, hs.take(k as int), true)->Ok_0),
            decreases hs.len() - k,
        {
            assert(hs.take(k + 1).drop_last() =~= hs.take(k as int));
            assert(hs.take(k + 1).last() == hs[k as int]);
            let ghost prev = refs_fold(env, hs.take(k as int), true)->Ok_0;
            match self.build_section_element(&props.header_refs[k], SectionPart::Header) {
                None => {
                    proof {
                        if refs_reach_ok(env, hs, true) {
                            lemma_refs_reach_prefix(env, hs, true, k + 1);
                        }
                    }
                    return None;
                },
                Some(Err(e)) => {
                    proof {
                        lemma_refs_fold_err(env, hs, true, k + 1);
                        lemma_refs_reach_after_err(env, hs, true, k + 1);
                    }
                    return Some(Err(e));
                },
                Some(Ok(Some(elem))) => {
                    proof {
                        let d = section_elem(env, hs[k as int], true)->Ok_0->Some_0;
                        lemma_describes_push(out@, base + prev, elem, d);
                        assert((base + prev).push(d) =~= base + prev.push(d));
                    }
                    out.push(elem);
                },
                Some(Ok(None)) => {},
            }
            k = k + 1;
        }
        assert(hs.take(hs.len() as int) =~= hs);
        let ghost hd = refs_fold(env, hs, true)->Ok_0;
        let mut k: usize = 0;
        while k < props.footer_refs.len()
            invariant
                k <= fs.len(),
                fs == props.footer_refs@,
                hs == props.header_refs@,
                refs_fold(env, hs, true) is Ok,
                refs_reach_ok(env, hs, true),
                hd == refs_fold(env, hs, true)->Ok_0,
                self.wf(),
                self.env() == env,
                refs_reach_ok(env, fs.take(k as int), false),
                refs_fold(env, fs.take(k as int), false) is Ok,
                describes_all(out@, base + hd + refs_fold(env, fs.take(k as int), false)->Ok_0),
            decreases fs.len() - k,
        {
            assert(fs.take(k + 1).drop_last() =~= fs.take(k as int));
            assert(fs.take(k + 1).last() == fs[k as int]);
            let ghost prev = refs_fold(env, fs.take(k as int), false)->Ok_0;
            match self.build_section_element(&props.footer_refs[k], SectionPart::Footer) {
                None => {
                    proof {
                        if refs_reach_ok(env, fs, false) {
                            lemma_refs_reach_prefix(env, fs, false, k + 1);
                        }
                    }
                    return None;
                },
                Some(Err(e)) => {
                    proof {
                        lemma_refs_fold_err(env, fs, false, k + 1);
                        lemma_refs_reach_after_err(env, fs, false, k + 1);
                    }
                    return Some(Err(e));
                },
                Some(Ok(Some(elem))) => {
                    proof {
                        let d = section_elem(env, fs[k as int], false)->Ok_0->Some_0;
                        lemma_describes_push(out@, base + hd + prev, elem, d);
                        assert((base + hd + prev).push(d) =~= base + hd + prev.push(d));
                    }
                    out.push(elem);
                },
                Some(Ok(None)) => {},
            }
            k = k + 1;
        }
        assert(fs.take(fs.len() as int) =~= fs);
        Some(Ok(()))
    }

    /// Classifies a body in document order: paragraphs become list items,
    /// headings or paragraphs (each followed by its footnotes, endnotes and
    /// comments), tables get their spans resolved, and section breaks add
    /// their headers and footers. Fails when a list paragraph's numbering
    /// is undefined or a paragraph style's `basedOn` chain is circular or
    /// too deep.
    pub fn classify(&mut self, body: &RawBody) -> (r: Result<Vec<DocxElement>, DocxError>)
        requires
            old(self).wf(),
            reach_ok(old(self).env(), old(self).state(), body.items@),
        ensures
            final(self).wf(),
            final(self).env() == old(self).env(),
            match class_fold(old(self).env(), old(self).state(), body.items@) {
                Ok(s) => r matches Ok(v) && describes_all(v@, s.out) && final(self).heading() == s.heading
                    && forall|n: u32, l: u8| #[trigger] final(self).counter(n, l) == (s.counters)(n, l),
                Err(ce) => r matches Err(e) && class_error(e, ce),
            },
    {
        match self.classify_checked(body) {
            Some(x) => x,
            None => {
                proof {
                    assert(false);
                }
                Ok(Vec::new())
            },
        }
    }

    /// Classifies a body as `classify` does, or gives `None` when
    /// classification reaches a table, in the body or in a header or footer
    /// part, whose vertical merges cannot be resolved.
    pub fn classify_checked(&mut self, body: &RawBody) -> (r: Option<Result<Vec<DocxElement>, DocxError>>)
        requires
            old(self).wf(),
        ensures
            final(self).wf(),
            final(self).env() == old(self).env(),
            r is None <==> !reach_ok(old(self).env(), old(self).state(), body.items@),
            r matches Some(x) ==> match class_fold(old(self).env(), old(self).state(), body.items@) {
                Ok(s) => x matches Ok(v) && describes_all(v@, s.out) && final(self).heading() == s.heading
                    && forall|n: u32, l: u8| #[trigger] final(self).counter(n, l) == (s.counters)(n, l),
                Err(ce) => x matches Err(e) && class_error(e, ce),
            },
    {
        let ghost env = self.env();
        let ghost st = self.state();
        let ghost items = body.items@;
        let mut out: Vec<DocxElement> = Vec::new();
        let mut i: usize = 0;
        while i < body.items.len()
            invariant
                i <= items.len(),
                items == body.items@,
                reach_ok(env, st, items.take(i as int)),
                self.wf(),
                self.env() == env,
                env == old(self).env(),
                st == old(self).state(),
                class_fold(env, st, items.take(i as int)) is Ok,
                describes_all(out@, class_fold(env, st, items.take(i as int))->Ok_0.out),
                self.heading() == class_fold(env, st, items.take(i as int))->Ok_0.heading,
                forall|n: u32, l: u8| #[trigger] self.counter(n, l) == (class_fold(env, st, items.take(i as int))->Ok_0.counters)(n, l),
            decreases items.len() - i,
        {
            let ghost s = class_fold(env, st, items.take(i as int))->Ok_0;
            proof {
                assert(items.take(i + 1).drop_last() =~= items.take(i as int));
                assert(items.take(i + 1).last() == items[i as int]);
            }
            match &body.items[i] {
                RawBodyItem::Table(t) => {
                    if !table_spans_resolvable(t) {
                        proof {
                            if reach_ok(env, st, items) {
                                lemma_reach_prefix(env, st, items, i + 1);
                            }
                        }
                        return None;
                    }
                    let rows = build_table(t);
                    let e = DocxElement::Table { rows };
                    proof {
                        lemma_describes_push(out@, s.out, e, ElemDesc::Table { rows: resolved_rows(*t) });
                    }
                    out.push(e);
                },
                RawBodyItem::SectionBreak(props) => {
                    match self.classify_section(props, &mut out, Ghost(s.out)) {
                        None => {
                            proof {
                                if reach_ok(env, st, items) {
                                    lemma_reach_prefix(env, st, items, i + 1);
                                }
                            }
                            return None;
                        },
                        Some(Ok(())) => {},
                        Some(Err(e)) => {
                            proof {
                                lemma_class_fold_err(env, st, items, i + 1);
                                lemma_reach_after_err(env, st, items, i + 1);
                            }
                            return Some(Err(e));
                        },
                    }
                },
                RawBodyItem::Paragraph(p) => {
                    match self.classify_paragraph(p, &mut out, Ghost(s)) {
                        Ok(()) => {},
                        Err(e) => {
                            proof {
                                lemma_class_fold_err(env, st, items, i + 1);
                                lemma_reach_after_err(env, st, items, i + 1);
                            }
                            return Some(Err(e));
                        },
                    }
                },
            }
            i = i + 1;
        }
        assert(items.take(items.len() as int) =~= items);
        Some(Ok(out))
    }
}

proof fn lemma_find_body_in(bs: Seq<(String, RawBody)>, path: Seq<char>)
    requires
        find_body(bs, path) is Some,
    ensures
        exists|k: int| 0 <= k < bs.len() && bs[k].1 == find_body(bs, path)->Some_0,
    decreases bs.len(),
{
    if bs[0].0@ != path {
        lemma_find_body_in(bs.drop_first(), path);
        let k = choose|k: int| 0 <= k < bs.drop_first().len() && bs.drop_first()[k].1 == find_body(bs, path)->Some_0;
        assert(bs[k + 1] == bs.drop_first()[k]);
    } else {
        assert(bs[0].1 == find_body(bs, path)->Some_0);
    }
}

proof fn lemma_no_notes(ids: Seq<u32>)
    ensures
        footnote_descs(None, ids) == Seq::<ElemDesc>::empty(),
    decreases ids.len(),
{
    if ids.len() > 0 {
        lemma_no_notes(ids.drop_last());
    }
}

proof fn lemma_no_endnotes(ids: Seq<u32>)
    ensures
        endnote_descs(None, ids) == Seq::<ElemDesc>::empty(),
    decreases ids.len(),
{
    if ids.len() > 0 {
        lemma_no_endnotes(ids.drop_last());
    }
}

proof fn lemma_no_comments(ids: Seq<u32>)
    ensures
        comment_descs(None, ids) == Seq::<ElemDesc>::empty(),
    decreases ids.len(),
{
    if ids.len() > 0 {
        lemma_no_comments(ids.drop_last());
    }
}

} // verus!
