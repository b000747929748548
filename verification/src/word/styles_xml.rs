//! `word/styles.xml`, and the `<w:rPr>` / `<w:pPr>` blocks that the other
//! parts share.
use vstd::prelude::*;
use crate::error::DocxError;
use crate::raw::paragraphs::{ParaPropsView, RawNumPr, RawParagraphProperties};
use crate::raw::runs::{RawRunProperties, RunPropsView, opt_view};
use crate::styles::table::{StyleEntry, StyleTable, StyleType};
use crate::text::{parse_u32, parse_u8, parse_unsigned, str_eq};
use crate::xml::entity_guard::{doctype_reason, has_doctype};
use crate::xml::reader::{TokView, XmlTok, first_attr_value, part_toks, read_part, sattrs_view, sfirst_attr, toks_view};

verus! {

pub open spec fn val_of(attrs: Seq<Option<(Seq<char>, Seq<char>)>>) -> Option<Seq<char>> {
    sfirst_attr(attrs, "w:val"@)
}

pub open spec fn u32_of(v: Seq<char>) -> Option<u32> {
    match parse_unsigned(v, u32::MAX as int) {
        Some(x) => Some(x as u32),
        None => None,
    }
}

pub open spec fn u8_of(v: Seq<char>) -> Option<u8> {
    match parse_unsigned(v, u8::MAX as int) {
        Some(x) => Some(x as u8),
        None => None,
    }
}

pub open spec fn u16_of(v: Seq<char>) -> Option<u16> {
    match parse_unsigned(v, u16::MAX as int) {
        Some(x) => Some(x as u16),
        None => None,
    }
}

/// An OOXML on/off property: on without `w:val`, off for "false", "0"
/// or "off", on for anything else.
pub open spec fn toggle_of(attrs: Seq<Option<(Seq<char>, Seq<char>)>>) -> bool {
    match val_of(attrs) {
        Some(v) => !(v == "false"@ || v == "0"@ || v == "off"@),
        None => true,
    }
}

pub open spec fn empty_run_props() -> RunPropsView {
    RunPropsView {
        bold: None,
        italic: None,
        underline: None,
        strikethrough: None,
        font_size_half_points: None,
        color: None,
        highlight: None,
        vertical_align: None,
    }
}

/// The effect of one empty element inside `<w:rPr>`.
pub open spec fn rpr_tag(acc: RunPropsView, name: Seq<char>, attrs: Seq<Option<(Seq<char>, Seq<char>)>>) -> RunPropsView {
    if name == "w:b"@ {
        RunPropsView { bold: Some(toggle_of(attrs)), ..acc }
    } else if name == "w:i"@ {
        RunPropsView { italic: Some(toggle_of(attrs)), ..acc }
    } else if name == "w:u"@ {
        RunPropsView { underline: Some(toggle_of(attrs)), ..acc }
    } else if name == "w:strike"@ {
        RunPropsView { strikethrough: Some(toggle_of(attrs)), ..acc }
    } else if name == "w:sz"@ {
        match val_of(attrs) {
            Some(v) => RunPropsView { font_size_half_points: u32_of(v), ..acc },
            None => acc,
        }
    } else if name == "w:color"@ {
        RunPropsView { color: val_of(attrs), ..acc }
    } else if name == "w:highlight"@ {
        RunPropsView { highlight: val_of(attrs), ..acc }
    } else if name == "w:vertAlign"@ {
        RunPropsView { vertical_align: val_of(attrs), ..acc }
    } else {
        acc
    }
}

/// Reading a `<w:rPr>` block from position `i` (just after its start tag)
/// at nesting `depth`: the properties and the position after its end
/// tag (the end of input when it never closes), or the message of the
/// first reader error.
pub open spec fn rpr_loop(t: Seq<TokView>, i: int, depth: int, acc: RunPropsView) -> Result<(RunPropsView, int), Seq<char>>
    decreases t.len() - i,
{
    if i < 0 || i >= t.len() {
        Ok((acc, t.len() as int))
    } else {
        match t[i] {
            TokView::Start { name, .. } => rpr_loop(t, i + 1, if name == "w:rPr"@ { depth + 1 } else { depth }, acc),
            TokView::Empty { name, attrs } => rpr_loop(t, i + 1, depth, rpr_tag(acc, name, attrs)),
            TokView::End { name } => if name == "w:rPr"@ {
                if depth - 1 == 0 { Ok((acc, i + 1)) } else { rpr_loop(t, i + 1, depth - 1, acc) }
            } else {
                rpr_loop(t, i + 1, depth, acc)
            },
            TokView::Error { message } => Err(message),
            _ => rpr_loop(t, i + 1, depth, acc),
        }
    }
}

pub open spec fn run_properties_at(t: Seq<TokView>, i: int) -> Result<(RunPropsView, int), Seq<char>> {
    rpr_loop(t, i, 1, empty_run_props())
}

/// `e` is the parse error of `part` with the reader's message.
pub open spec fn xml_error(e: DocxError, part: Seq<char>, message: Seq<char>) -> bool {
    e matches DocxError::XmlParse { part: p, reason } && p@ == part && reason@ == message
}

fn read_toggle_val(attrs: &Vec<Option<(String, String)>>) -> (b: bool)
    ensures
        b == toggle_of(sattrs_view(attrs@)),
{
    match first_attr_value(attrs, "w:val") {
        Some(v) => !(str_eq(v.as_str(), "false") || str_eq(v.as_str(), "0") || str_eq(v.as_str(), "off")),
        None => true,
    }
}

fn apply_rpr_tag(acc: &mut RawRunProperties, name: &str, attrs: &Vec<Option<(String, String)>>)
    ensures
        final(acc)@ == rpr_tag(old(acc)@, name@, sattrs_view(attrs@)),
{
    if str_eq(name, "w:b") {
        acc.bold = Some(read_toggle_val(attrs));
    } else if str_eq(name, "w:i") {
        acc.italic = Some(read_toggle_val(attrs));
    } else if str_eq(name, "w:u") {
        acc.underline = Some(read_toggle_val(attrs));
    } else if str_eq(name, "w:strike") {
        acc.strikethrough = Some(read_toggle_val(attrs));
    } else if str_eq(name, "w:sz") {
        if let Some(v) = first_attr_value(attrs, "w:val") {
            acc.font_size_half_points = parse_u32(v.as_str());
        }
    } else if str_eq(name, "w:color") {
        acc.color = first_attr_value(attrs, "w:val");
    } else if str_eq(name, "w:highlight") {
        acc.highlight = first_attr_value(attrs, "w:val");
    } else if str_eq(name, "w:vertAlign") {
        acc.vertical_align = first_attr_value(attrs, "w:val");
    }
}

/// Reads a `<w:rPr>` block from `start`, just after its start tag: the
/// run properties and the position after the matching end tag.
pub fn parse_run_properties(toks: &Vec<XmlTok>, start: usize) -> (r: Result<(RawRunProperties, usize), DocxError>)
    ensures
        match run_properties_at(toks_view(toks@), start as int) {
            Ok((v, j)) => r matches Ok((p, k)) && p@ == v && k == j,
            Err(m) => r matches Err(e) && xml_error(e, "rPr"@, m),
        },
{
    let ghost t = toks_view(toks@);
    let mut acc = RawRunProperties::default();
    let mut nested: usize = 0;
    let mut i: usize = start;
    assert(acc@ == empty_run_props());
    while i < toks.len()
        invariant
            t == toks_view(toks@),
            t.len() == toks@.len(),
            start <= i,
            nested <= i - start,
            rpr_loop(t, i as int, nested + 1, acc@) == run_properties_at(t, start as int),
        decreases toks.len() - i,
    {
        assert(t[i as int] == toks@[i as int]@);
        match &toks[i] {
            XmlTok::Start { name, .. } => {
                if str_eq(name.as_str(), "w:rPr") {
                    nested = nested + 1;
                }
            },
            XmlTok::Empty { name, attrs } => {
                apply_rpr_tag(&mut acc, name.as_str(), attrs);
            },
            XmlTok::End { name } => {
                if str_eq(name.as_str(), "w:rPr") {
                    if nested == 0 {
                        return Ok((acc, i + 1));
                    }
                    nested = nested - 1;
                }
            },
            XmlTok::Error { message } => {
                return Err(DocxError::XmlParse { part: "rPr".to_owned(), reason: message.clone() });
            },
            _ => {},
        }
        i = i + 1;
    }
    Ok((acc, toks.len()))
}

pub open spec fn empty_para_props() -> ParaPropsView {
    ParaPropsView {
        style_id: None,
        num_pr: None,
        alignment: None,
        outline_level: None,
        keep_next: false,
        page_break_before: false,
    }
}

/// The effect of one empty element inside `<w:pPr>` (outside `<w:numPr>`).
pub open spec fn ppr_tag(acc: ParaPropsView, name: Seq<char>, attrs: Seq<Option<(Seq<char>, Seq<char>)>>) -> ParaPropsView {
    if name == "w:pStyle"@ {
        ParaPropsView { style_id: val_of(attrs), ..acc }
    } else if name == "w:jc"@ {
        ParaPropsView { alignment: val_of(attrs), ..acc }
    } else if name == "w:outlineLvl"@ {
        match val_of(attrs) {
            Some(v) => ParaPropsView { outline_level: u8_of(v), ..acc },
            None => acc,
        }
    } else if name == "w:keepNext"@ {
        ParaPropsView { keep_next: true, ..acc }
    } else if name == "w:pageBreakBefore"@ {
        ParaPropsView { page_break_before: true, ..acc }
    } else {
        acc
    }
}

/// The effect of one empty element inside `<w:numPr>`.
pub open spec fn numpr_tag(np: (Option<u8>, Option<u32>), name: Seq<char>, attrs: Seq<Option<(Seq<char>, Seq<char>)>>) -> (Option<u8>, Option<u32>) {
    if name == "w:ilvl"@ {
        match val_of(attrs) { Some(v) => (u8_of(v), np.1), None => np }
    } else if name == "w:numId"@ {
        match val_of(attrs) { Some(v) => (np.0, u32_of(v)), None => np }
    } else {
        np
    }
}

/// Closing a `<w:numPr>`: a numbering reference when both parts were read.
pub open spec fn close_numpr(acc: ParaPropsView, np: (Option<u8>, Option<u32>)) -> ParaPropsView {
    match (np.0, np.1) {
        (Some(ilvl), Some(num_id)) => ParaPropsView { num_pr: Some(RawNumPr { num_id, ilvl }), ..acc },
        _ => acc,
    }
}

/// Reading a `<w:pPr>` block from position `i` at nesting `depth`; `np`
/// holds the `<w:numPr>` being read, if any. Inside `<w:numPr>` only
/// `<w:ilvl>` and `<w:numId>` count, and its end tag, a reader error or the
/// end of input close it.
pub open spec fn ppr_loop(t: Seq<TokView>, i: int, depth: int, acc: ParaPropsView, np: Option<(Option<u8>, Option<u32>)>) -> Result<(ParaPropsView, int), Seq<char>>
    decreases t.len() - i,
{
    if i < 0 || i >= t.len() {
        match np {
            Some(n) => Ok((close_numpr(acc, n), t.len() as int)),
            None => Ok((acc, t.len() as int)),
        }
    } else {
        match np {
            Some(n) => match t[i] {
                TokView::Empty { name, attrs } => ppr_loop(t, i + 1, depth, acc, Some(numpr_tag(n, name, attrs))),
                TokView::End { name } => if name == "w:numPr"@ {
                    ppr_loop(t, i + 1, depth, close_numpr(acc, n), None)
                } else {
                    ppr_loop(t, i + 1, depth, acc, np)
                },
                TokView::Error { .. } => ppr_loop(t, i + 1, depth, close_numpr(acc, n), None),
                _ => ppr_loop(t, i + 1, depth, acc, np),
            },
            None => match t[i] {
                TokView::Start { name, .. } => if name == "w:pPr"@ {
                    ppr_loop(t, i + 1, depth + 1, acc, None)
                } else if name == "w:numPr"@ {
                    ppr_loop(t, i + 1, depth, acc, Some((None, None)))
                } else {
                    ppr_loop(t, i + 1, depth, acc, None)
                },
                TokView::Empty { name, attrs } => ppr_loop(t, i + 1, depth, ppr_tag(acc, name, attrs), None),
                TokView::End { name } => if name == "w:pPr"@ {
                    if depth - 1 == 0 { Ok((acc, i + 1)) } else { ppr_loop(t, i + 1, depth - 1, acc, None) }
                } else {
                    ppr_loop(t, i + 1, depth, acc, None)
                },
                TokView::Error { message } => Err(message),
                _ => ppr_loop(t, i + 1, depth, acc, None),
            },
        }
    }
}

pub open spec fn paragraph_properties_at(t: Seq<TokView>, i: int) -> Result<(ParaPropsView, int), Seq<char>> {
    ppr_loop(t, i, 1, empty_para_props(), None)
}

fn apply_ppr_tag(acc: &mut RawParagraphProperties, name: &str, attrs: &Vec<Option<(String, String)>>)
    ensures
        final(acc)@ == ppr_tag(old(acc)@, name@, sattrs_view(attrs@)),
{
    if str_eq(name, "w:pStyle") {
        acc.style_id = first_attr_value(attrs, "w:val");
    } else if str_eq(name, "w:jc") {
        acc.alignment = first_attr_value(attrs, "w:val");
    } else if str_eq(name, "w:outlineLvl") {
        if let Some(v) = first_attr_value(attrs, "w:val") {
            acc.outline_level = parse_u8(v.as_str());
        }
    } else if str_eq(name, "w:keepNext") {
        acc.keep_next = true;
    } else if str_eq(name, "w:pageBreakBefore") {
        acc.page_break_before = true;
    }
}

fn apply_numpr_tag(np: (Option<u8>, Option<u32>), name: &str, attrs: &Vec<Option<(String, String)>>) -> (r: (Option<u8>, Option<u32>))
    ensures
        r == numpr_tag(np, name@, sattrs_view(attrs@)),
{
    if str_eq(name, "w:ilvl") {
        match first_attr_value(attrs, "w:val") {
            Some(v) => (parse_u8(v.as_str()), np.1),
            None => np,
        }
    } else if str_eq(name, "w:numId") {
        match first_attr_value(attrs, "w:val") {
            Some(v) => (np.0, parse_u32(v.as_str())),
            None => np,
        }
    } else {
        np
    }
}

fn apply_close_numpr(acc: &mut RawParagraphProperties, np: (Option<u8>, Option<u32>))
    ensures
        final(acc)@ == close_numpr(old(acc)@, np),
{
    if let (Some(ilvl), Some(num_id)) = np {
        acc.num_pr = Some(RawNumPr { num_id, ilvl });
    }
}

/// Reads a `<w:pPr>` block from `start`, just after its start tag: the
/// paragraph properties and the position after the matching end tag.
pub fn parse_paragraph_properties(toks: &Vec<XmlTok>, start: usize) -> (r: Result<(RawParagraphProperties, usize), DocxError>)
    ensures
        match paragraph_properties_at(toks_view(toks@), start as int) {
            Ok((v, j)) => r matches Ok((p, k)) && p@ == v && k == j,
            Err(m) => r matches Err(e) && xml_error(e, "pPr"@, m),
        },
{
    let ghost t = toks_view(toks@);
    let mut acc = RawParagraphProperties::default();
    let mut nested: usize = 0;
    let mut np: Option<(Option<u8>, Option<u32>)> = None;
    let mut i: usize = start;
    assert(acc@ == empty_para_props());
    while i < toks.len()
        invariant
            t == toks_view(toks@),
            t.len() == toks@.len(),
            start <= i,
            nested <= i - start,
            ppr_loop(t, i as int, nested + 1, acc@, np) == paragraph_properties_at(t, start as int),
        decreases toks.len() - i,
    {
        assert(t[i as int] == toks@[i as int]@);
        match np {
            Some(n) => {
                match &toks[i] {
                    XmlTok::Empty { name, attrs } => {
                        np = Some(apply_numpr_tag(n, name.as_str(), attrs));
                    },
                    XmlTok::End { name } => {
                        if str_eq(name.as_str(), "w:numPr") {
                            apply_close_numpr(&mut acc, n);
                            np = None;
                        }
                    },
                    XmlTok::Error { .. } => {
                        apply_close_numpr(&mut acc, n);
                        np = None;
                    },
                    _ => {},
                }
            },
            None => {
                match &toks[i] {
                    XmlTok::Start { name, .. } => {
                        if str_eq(name.as_str(), "w:pPr") {
                            nested = nested + 1;
                        } else if str_eq(name.as_str(), "w:numPr") {
                            np = Some((None, None));
                        }
                    },
                    XmlTok::Empty { name, attrs } => {
                        apply_ppr_tag(&mut acc, name.as_str(), attrs);
                    },
                    XmlTok::End { name } => {
                        if str_eq(name.as_str(), "w:pPr") {
                            if nested == 0 {
                                return Ok((acc, i + 1));
                            }
                            nested = nested - 1;
                        }
                    },
                    XmlTok::Error { message } => {
                        return Err(DocxError::XmlParse { part: "pPr".to_owned(), reason: message.clone() });
                    },
                    _ => {},
                }
            },
        }
        i = i + 1;
    }
    if let Some(n) = np {
        apply_close_numpr(&mut acc, n);
    }
    Ok((acc, toks.len()))
}


pub proof fn lemma_rpr_loop_next(t: Seq<TokView>, i: int, depth: int, acc: RunPropsView)
    requires
        0 <= i <= t.len(),
    ensures
        rpr_loop(t, i, depth, acc) matches Ok((_, j)) ==> i <= j <= t.len(),
    decreases t.len() - i,
{
    if i < t.len() {
        match t[i] {
            TokView::Start { name, .. } => lemma_rpr_loop_next(t, i + 1, if name == "w:rPr"@ { depth + 1 } else { depth }, acc),
            TokView::Empty { name, attrs } => lemma_rpr_loop_next(t, i + 1, depth, rpr_tag(acc, name, attrs)),
            TokView::End { name } => {
                lemma_rpr_loop_next(t, i + 1, depth - 1, acc);
                lemma_rpr_loop_next(t, i + 1, depth, acc);
            },
            TokView::Error { .. } => {},
            _ => lemma_rpr_loop_next(t, i + 1, depth, acc),
        }
    }
}

pub proof fn lemma_ppr_loop_next(t: Seq<TokView>, i: int, depth: int, acc: ParaPropsView, np: Option<(Option<u8>, Option<u32>)>)
    requires
        0 <= i <= t.len(),
    ensures
        ppr_loop(t, i, depth, acc, np) matches Ok((_, j)) ==> i <= j <= t.len(),
    decreases t.len() - i,
{
    if i < t.len() {
        match np {
            Some(n) => match t[i] {
                TokView::Empty { name, attrs } => lemma_ppr_loop_next(t, i + 1, depth, acc, Some(numpr_tag(n, name, attrs))),
                TokView::End { name } => {
                    lemma_ppr_loop_next(t, i + 1, depth, close_numpr(acc, n), None);
                    lemma_ppr_loop_next(t, i + 1, depth, acc, np);
                },
                TokView::Error { .. } => lemma_ppr_loop_next(t, i + 1, depth, close_numpr(acc, n), None),
                _ => lemma_ppr_loop_next(t, i + 1, depth, acc, np),
            },
            None => match t[i] {
                TokView::Start { name, .. } => {
                    lemma_ppr_loop_next(t, i + 1, depth + 1, acc, None);
                    lemma_ppr_loop_next(t, i + 1, depth, acc, Some((None, None)));
                    lemma_ppr_loop_next(t, i + 1, depth, acc, None);
                },
                TokView::Empty { name, attrs } => lemma_ppr_loop_next(t, i + 1, depth, ppr_tag(acc, name, attrs), None),
                TokView::End { name } => {
                    lemma_ppr_loop_next(t, i + 1, depth - 1, acc, None);
                    lemma_ppr_loop_next(t, i + 1, depth, acc, None);
                },
                TokView::Error { .. } => {},
                _ => lemma_ppr_loop_next(t, i + 1, depth, acc, None),
            },
        }
    }
}

// ---------------------------------------------------------------------
// word/styles.xml
// ---------------------------------------------------------------------

/// A style definition as a mathematical value.
pub struct StyleEntryView {
    pub style_id: Seq<char>,
    pub name: Seq<char>,
    pub style_type: StyleType,
    pub based_on: Option<Seq<char>>,
    pub next_style: Option<Seq<char>>,
    pub is_default: bool,
    pub paragraph_properties: Option<ParaPropsView>,
    pub run_properties: Option<RunPropsView>,
}

pub open spec fn style_entry_view(e: StyleEntry) -> StyleEntryView {
    StyleEntryView {
        style_id: e.style_id@,
        name: e.name@,
        style_type: e.style_type,
        based_on: opt_view(e.based_on),
        next_style: opt_view(e.next_style),
        is_default: e.is_default,
        paragraph_properties: match e.paragraph_properties { Some(p) => Some(p@), None => None },
        run_properties: match e.run_properties { Some(p) => Some(p@), None => None },
    }
}

/// The styles of a table by id, as values.
pub open spec fn table_styles(t: StyleTable) -> Map<Seq<char>, StyleEntryView> {
    t.styles_map().map_values(|e: StyleEntry| style_entry_view(e))
}

pub open spec fn style_type_of(v: Seq<char>) -> Option<StyleType> {
    if v == "paragraph"@ {
        Some(StyleType::Paragraph)
    } else if v == "character"@ {
        Some(StyleType::Character)
    } else if v == "table"@ {
        Some(StyleType::Table)
    } else if v == "numbering"@ {
        Some(StyleType::Numbering)
    } else {
        None
    }
}

/// The state of reading `word/styles.xml`.
pub struct StylesState {
    pub styles: Map<Seq<char>, StyleEntryView>,
    pub defaults_run: Option<RunPropsView>,
    pub defaults_paragraph: Option<ParaPropsView>,
    pub in_style: bool,
    pub id: Option<Seq<char>>,
    pub style_type: Option<StyleType>,
    pub name: Option<Seq<char>>,
    pub based_on: Option<Seq<char>>,
    pub next: Option<Seq<char>>,
    pub is_default: bool,
    pub rpr: Option<RunPropsView>,
    pub ppr: Option<ParaPropsView>,
    pub in_doc_defaults: bool,
    pub in_rpr_default: bool,
    pub in_ppr_default: bool,
}

pub open spec fn styles_start() -> StylesState {
    StylesState {
        styles: Map::empty(),
        defaults_run: None,
        defaults_paragraph: None,
        in_style: false,
        id: None,
        style_type: None,
        name: None,
        based_on: None,
        next: None,
        is_default: false,
        rpr: None,
        ppr: None,
        in_doc_defaults: false,
        in_rpr_default: false,
        in_ppr_default: false,
    }
}

/// The attributes of a `<w:style>` start tag, read in order.
pub open spec fn style_attrs(st: StylesState, attrs: Seq<Option<(Seq<char>, Seq<char>)>>) -> StylesState
    decreases attrs.len(),
{
    if attrs.len() == 0 {
        st
    } else {
        let prev = style_attrs(st, attrs.drop_last());
        match attrs.last() {
            Some((k, v)) => if k == "w:styleId"@ {
                StylesState { id: Some(v), ..prev }
            } else if k == "w:type"@ {
                StylesState { style_type: style_type_of(v), ..prev }
            } else if k == "w:default"@ {
                StylesState { is_default: v == "1"@ || v == "true"@, ..prev }
            } else {
                prev
            },
            None => prev,
        }
    }
}

/// Closing a `<w:style>`: the style is added when it has an id and a type.
pub open spec fn close_style(st: StylesState) -> StylesState {
    match (st.id, st.style_type) {
        (Some(id), Some(ty)) => StylesState {
            styles: st.styles.insert(id, StyleEntryView {
                style_id: id,
                name: match st.name { Some(n) => n, None => Seq::empty() },
                style_type: ty,
                based_on: st.based_on,
                next_style: st.next,
                is_default: st.is_default,
                paragraph_properties: st.ppr,
                run_properties: st.rpr,
            }),
            id: None,
            style_type: None,
            name: None,
            based_on: None,
            next: None,
            ppr: None,
            rpr: None,
            in_style: false,
            ..st
        },
        _ => StylesState { id: None, style_type: None, in_style: false, ..st },
    }
}

/// One read of `word/styles.xml` at position `i`: the next state and
/// position, or the failing part and message.
pub open spec fn styles_step(t: Seq<TokView>, i: int, st: StylesState) -> Result<(StylesState, int), (Seq<char>, Seq<char>)>
    recommends
        0 <= i < t.len(),
{
    match t[i] {
        TokView::Start { name, attrs } => {
            if name == "w:style"@ {
                Ok((style_attrs(StylesState { in_style: true, is_default: false, ..st }, attrs), i + 1))
            } else if name == "w:rPr"@ && (st.in_style || st.in_rpr_default) {
                match run_properties_at(t, i + 1) {
                    Err(m) => Err(("rPr"@, m)),
                    Ok((p, j)) => if st.in_style {
                        Ok((StylesState { rpr: Some(p), ..st }, j))
                    } else {
                        Ok((StylesState { defaults_run: Some(p), ..st }, j))
                    },
                }
            } else if name == "w:pPr"@ && (st.in_style || st.in_ppr_default) {
                match paragraph_properties_at(t, i + 1) {
                    Err(m) => Err(("pPr"@, m)),
                    Ok((p, j)) => if st.in_style {
                        Ok((StylesState { ppr: Some(p), ..st }, j))
                    } else {
                        Ok((StylesState { defaults_paragraph: Some(p), ..st }, j))
                    },
                }
            } else if name == "w:docDefaults"@ {
                Ok((StylesState { in_doc_defaults: true, ..st }, i + 1))
            } else if name == "w:rPrDefault"@ && st.in_doc_defaults {
                Ok((StylesState { in_rpr_default: true, ..st }, i + 1))
            } else if name == "w:pPrDefault"@ && st.in_doc_defaults {
                Ok((StylesState { in_ppr_default: true, ..st }, i + 1))
            } else {
                Ok((st, i + 1))
            }
        },
        TokView::Empty { name, attrs } => {
            if st.in_style && name == "w:name"@ {
                Ok((StylesState { name: val_of(attrs), ..st }, i + 1))
            } else if st.in_style && name == "w:basedOn"@ {
                Ok((StylesState { based_on: val_of(attrs), ..st }, i + 1))
            } else if st.in_style && name == "w:next"@ {
                Ok((StylesState { next: val_of(attrs), ..st }, i + 1))
            } else {
                Ok((st, i + 1))
            }
        },
        TokView::End { name } => {
            if name == "w:style"@ && st.in_style {
                Ok((close_style(st), i + 1))
            } else if name == "w:docDefaults"@ {
                Ok((StylesState { in_doc_defaults: false, ..st }, i + 1))
            } else if name == "w:rPrDefault"@ {
                Ok((StylesState { in_rpr_default: false, ..st }, i + 1))
            } else if name == "w:pPrDefault"@ {
                Ok((StylesState { in_ppr_default: false, ..st }, i + 1))
            } else {
                Ok((st, i + 1))
            }
        },
        TokView::Error { message } => Err(("word/styles.xml"@, message)),
        _ => Ok((st, i + 1)),
    }
}

pub proof fn lemma_styles_step_next(t: Seq<TokView>, i: int, st: StylesState)
    requires
        0 <= i < t.len(),
    ensures
        styles_step(t, i, st) matches Ok((_, j)) ==> i < j <= t.len(),
{
    lemma_rpr_loop_next(t, i + 1, 1, empty_run_props());
    lemma_ppr_loop_next(t, i + 1, 1, empty_para_props(), None);
}

/// Reading `word/styles.xml` from position `i` in state `st`.
pub open spec fn styles_loop(t: Seq<TokView>, i: int, st: StylesState) -> Result<StylesState, (Seq<char>, Seq<char>)>
    decreases t.len() - i,
{
    if i < 0 || i >= t.len() {
        Ok(st)
    } else {
        match styles_step(t, i, st) {
            Err(e) => Err(e),
            Ok((st2, j)) => {
                proof { lemma_styles_step_next(t, i, st); }
                if i < j { styles_loop(t, j, st2) } else { Ok(st2) }
            },
        }
    }
}


/// The reader of `word/styles.xml` in progress.
struct StylesReader {
    table: StyleTable,
    in_style: bool,
    id: Option<String>,
    style_type: Option<StyleType>,
    name: Option<String>,
    based_on: Option<String>,
    next: Option<String>,
    is_default: bool,
    rpr: Option<RawRunProperties>,
    ppr: Option<RawParagraphProperties>,
    in_doc_defaults: bool,
    in_rpr_default: bool,
    in_ppr_default: bool,
}

impl View for StylesReader {
    type V = StylesState;

    closed spec fn view(&self) -> StylesState {
        StylesState {
            styles: table_styles(self.table),
            defaults_run: match self.table.defaults_run() { Some(p) => Some(p@), None => None },
            defaults_paragraph: match self.table.defaults_paragraph() { Some(p) => Some(p@), None => None },
            in_style: self.in_style,
            id: opt_view(self.id),
            style_type: self.style_type,
            name: opt_view(self.name),
            based_on: opt_view(self.based_on),
            next: opt_view(self.next),
            is_default: self.is_default,
            rpr: match self.rpr { Some(p) => Some(p@), None => None },
            ppr: match self.ppr { Some(p) => Some(p@), None => None },
            in_doc_defaults: self.in_doc_defaults,
            in_rpr_default: self.in_rpr_default,
            in_ppr_default: self.in_ppr_default,
        }
    }
}

fn style_type_from(v: &str) -> (r: Option<StyleType>)
    ensures
        r == style_type_of(v@),
{
    if str_eq(v, "paragraph") {
        Some(StyleType::Paragraph)
    } else if str_eq(v, "character") {
        Some(StyleType::Character)
    } else if str_eq(v, "table") {
        Some(StyleType::Table)
    } else if str_eq(v, "numbering") {
        Some(StyleType::Numbering)
    } else {
        None
    }
}

impl StylesReader {
    fn read_style_attrs(&mut self, attrs: &Vec<Option<(String, String)>>)
        ensures
            final(self)@ == style_attrs(old(self)@, sattrs_view(attrs@)),
            final(self).table == old(self).table,
    {
        let ghost a = sattrs_view(attrs@);
        let ghost st0 = self@;
        let mut i: usize = 0;
        while i < attrs.len()
            invariant
                i <= attrs@.len(),
                a == sattrs_view(attrs@),
                self@ == style_attrs(st0, a.take(i as int)),
                self.table == old(self).table,
            decreases attrs.len() - i,
        {
            assert(a.take(i + 1).drop_last() =~= a.take(i as int));
            assert(a.take(i + 1).last() == a[i as int]);
            if let Some((k, v)) = &attrs[i] {
                if str_eq(k.as_str(), "w:styleId") {
                    self.id = Some(v.clone());
                } else if str_eq(k.as_str(), "w:type") {
                    self.style_type = style_type_from(v.as_str());
                } else if str_eq(k.as_str(), "w:default") {
                    self.is_default = str_eq(v.as_str(), "1") || str_eq(v.as_str(), "true");
                }
            }
            i = i + 1;
        }
        assert(a.take(attrs@.len() as int) =~= a);
    }

    fn close_style(&mut self)
        requires
            old(self).table.wf(),
        ensures
            final(self).table.wf(),
            final(self)@ == close_style(old(self)@),
    {
        let id = self.id.take();
        let ty = self.style_type.take();
        if let (Some(style_id), Some(style_type)) = (id, ty) {
            let name = match self.name.take() {
                Some(n) => n,
                None => String::new(),
            };
            let entry = StyleEntry {
                style_id,
                name,
                style_type,
                based_on: self.based_on.take(),
                next_style: self.next.take(),
                is_default: self.is_default,
                paragraph_properties: self.ppr.take(),
                run_properties: self.rpr.take(),
            };
            let ghost before = self.table.styles_map();
            let ghost e = entry;
            self.table.insert(entry);
            proof {
                assert(table_styles(self.table) =~= before.map_values(|x: StyleEntry| style_entry_view(x)).insert(e.style_id@, style_entry_view(e)));
            }
        }
        self.in_style = false;
    }

    /// One read at position `i`.
    fn step(&mut self, toks: &Vec<XmlTok>, i: usize) -> (r: Result<usize, DocxError>)
        requires
            old(self).table.wf(),
            i < toks@.len(),
        ensures
            final(self).table.wf(),
            match styles_step(toks_view(toks@), i as int, old(self)@) {
                Ok((st, j)) => r == Ok::<usize, DocxError>(j as usize) && final(self)@ == st,
                Err((p, m)) => r matches Err(e) && xml_error(e, p, m),
            },
    {
        let ghost t = toks_view(toks@);
        let _len = toks.len();
        assert(t[i as int] == toks@[i as int]@);
        match &toks[i] {
            XmlTok::Start { name, attrs } => {
                let n = name.as_str();
                if str_eq(n, "w:style") {
                    self.in_style = true;
                    self.is_default = false;
                    self.read_style_attrs(attrs);
                    Ok(i + 1)
                } else if str_eq(n, "w:rPr") && (self.in_style || self.in_rpr_default) {
                    match parse_run_properties(toks, i + 1) {
                        Err(e) => Err(e),
                        Ok((p, j)) => {
                            if self.in_style {
                                self.rpr = Some(p);
                            } else {
                                self.table.set_doc_defaults_run(Some(p));
                                assert(table_styles(self.table) == table_styles(old(self).table));
                            }
                            Ok(j)
                        },
                    }
                } else if str_eq(n, "w:pPr") && (self.in_style || self.in_ppr_default) {
                    match parse_paragraph_properties(toks, i + 1) {
                        Err(e) => Err(e),
                        Ok((p, j)) => {
                            if self.in_style {
                                self.ppr = Some(p);
                            } else {
                                self.table.set_doc_defaults_paragraph(Some(p));
                                assert(table_styles(self.table) == table_styles(old(self).table));
                            }
                            Ok(j)
                        },
                    }
                } else if str_eq(n, "w:docDefaults") {
                    self.in_doc_defaults = true;
                    Ok(i + 1)
                } else if str_eq(n, "w:rPrDefault") && self.in_doc_defaults {
                    self.in_rpr_default = true;
                    Ok(i + 1)
                } else if str_eq(n, "w:pPrDefault") && self.in_doc_defaults {
                    self.in_ppr_default = true;
                    Ok(i + 1)
                } else {
                    Ok(i + 1)
                }
            },
            XmlTok::Empty { name, attrs } => {
                let n = name.as_str();
                if self.in_style && str_eq(n, "w:name") {
                    self.name = first_attr_value(attrs, "w:val");
                } else if self.in_style && str_eq(n, "w:basedOn") {
                    self.based_on = first_attr_value(attrs, "w:val");
                } else if self.in_style && str_eq(n, "w:next") {
                    self.next = first_attr_value(attrs, "w:val");
                }
                Ok(i + 1)
            },
            XmlTok::End { name } => {
                let n = name.as_str();
                if str_eq(n, "w:style") && self.in_style {
                    self.close_style();
                } else if str_eq(n, "w:docDefaults") {
                    self.in_doc_defaults = false;
                } else if str_eq(n, "w:rPrDefault") {
                    self.in_rpr_default = false;
                } else if str_eq(n, "w:pPrDefault") {
                    self.in_ppr_default = false;
                }
                Ok(i + 1)
            },
            XmlTok::Error { message } => {
                Err(DocxError::XmlParse { part: "word/styles.xml".to_owned(), reason: message.clone() })
            },
            _ => Ok(i + 1),
        }
    }
}

/// What `word/styles.xml` reads as: the styles by id and the document
/// defaults, or the failing part and the reader's message.
pub open spec fn styles_of(bytes: Seq<u8>) -> Result<StylesState, (Seq<char>, Seq<char>)> {
    styles_of_toks(part_toks(bytes, false))
}

/// What a token stream of `word/styles.xml` reads as.
pub open spec fn styles_of_toks(t: Seq<TokView>) -> Result<StylesState, (Seq<char>, Seq<char>)> {
    styles_loop(t, 0, styles_start())
}

/// Parses `word/styles.xml` into a `StyleTable`: each `<w:style>` with an
/// id and a known type becomes an entry (a later one replacing an earlier
/// one with the same id), and `<w:docDefaults>` gives the document
/// defaults. Fails on a DOCTYPE or on a reader error.
pub fn parse_styles_xml(xml_bytes: &[u8]) -> (r: Result<StyleTable, DocxError>)
    ensures
        has_doctype(xml_bytes@) ==> (r matches Err(e) && xml_error(e, "word/styles.xml"@, doctype_reason())),
        !has_doctype(xml_bytes@) ==> match styles_of(xml_bytes@) {
            Ok(st) => r matches Ok(t) && t.wf() && table_styles(t) == st.styles
                && (match t.defaults_run() { Some(p) => Some(p@), None => None }) == st.defaults_run
                && (match t.defaults_paragraph() { Some(p) => Some(p@), None => None }) == st.defaults_paragraph,
            Err((p, m)) => r matches Err(e) && xml_error(e, p, m),
        },
{
    let toks = match read_part(xml_bytes, "word/styles.xml", false) {
        Ok(t) => t,
        Err(e) => return Err(e),
    };
    styles_from_tokens(&toks)
}

/// Reads a `StyleTable` from the tokens of `word/styles.xml`.
pub fn styles_from_tokens(toks: &Vec<XmlTok>) -> (r: Result<StyleTable, DocxError>)
    ensures
        match styles_of_toks(toks_view(toks@)) {
            Ok(st) => r matches Ok(t) && t.wf() && table_styles(t) == st.styles
                && (match t.defaults_run() { Some(p) => Some(p@), None => None }) == st.defaults_run
                && (match t.defaults_paragraph() { Some(p) => Some(p@), None => None }) == st.defaults_paragraph,
            Err((p, m)) => r matches Err(e) && xml_error(e, p, m),
        },
{
    let ghost t = toks_view(toks@);
    let mut rd = StylesReader {
        table: StyleTable::new(),
        in_style: false,
        id: None,
        style_type: None,
        name: None,
        based_on: None,
        next: None,
        is_default: false,
        rpr: None,
        ppr: None,
        in_doc_defaults: false,
        in_rpr_default: false,
        in_ppr_default: false,
    };
    assert(table_styles(rd.table) =~= Map::<Seq<char>, StyleEntryView>::empty());
    assert(rd@ == styles_start());
    let mut i: usize = 0;
    while i < toks.len()
        invariant
            t == toks_view(toks@),
            t.len() == toks@.len(),
            i <= toks@.len(),
            rd.table.wf(),
            styles_loop(t, i as int, rd@) == styles_of_toks(t),
        decreases toks.len() - i,
    {
        proof {
            lemma_styles_step_next(t, i as int, rd@);
        }
        match rd.step(toks, i) {
            Ok(j) => {
                i = j;
            },
            Err(e) => return Err(e),
        }
    }
    Ok(rd.table)
}

} // verus!
