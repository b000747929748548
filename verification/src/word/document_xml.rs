//! `word/document.xml` and the header/footer parts: the body grammar.
use vstd::prelude::*;
use crate::error::DocxError;
use crate::raw::body::{BodyItemView, RawBody, RawBodyItem, RawSectionProperties, RawSectionRef, SectionPropsView, SectionRefType, SectionRefView};
use crate::raw::paragraphs::{InlineView, ParagraphView, RawHyperlink, RawInline, RawParagraph, blank_paragraph};
use crate::raw::runs::{RawRun, RawRunProperties, RunPropsView, RunView};
use crate::raw::tables::{CellView, RawTable, RawTableCell, RawTableCellProperties, RawTableProperties, RawTableRow, RawVMerge, RowView, TableView};
use crate::text::{parse_u16, parse_u32, str_eq};
use crate::word::styles_xml::{
    empty_para_props, empty_run_props, lemma_ppr_loop_next, lemma_rpr_loop_next, paragraph_properties_at,
    parse_paragraph_properties, parse_run_properties, run_properties_at, u16_of, u32_of, val_of, xml_error,
};
use crate::xml::entity_guard::{doctype_reason, has_doctype};
use crate::xml::reader::{TokView, XmlTok, first_attr_value, part_toks, read_part, sattrs_view, sfirst_attr, toks_view};

verus! {

pub type Attrs = Seq<Option<(Seq<char>, Seq<char>)>>;

// ---------------------------------------------------------------------
// Section properties, table properties and skipped elements
// ---------------------------------------------------------------------

pub open spec fn section_ref_type_of(v: Seq<char>) -> SectionRefType {
    if v == "first"@ {
        SectionRefType::First
    } else if v == "even"@ {
        SectionRefType::Even
    } else {
        SectionRefType::Default
    }
}

/// A header or footer reference: its `r:id` (required) and `w:type`.
pub open spec fn section_ref_of(attrs: Attrs) -> Option<SectionRefView> {
    match sfirst_attr(attrs, "r:id"@) {
        None => None,
        Some(rel_id) => Some(SectionRefView {
            rel_id,
            ref_type: match sfirst_attr(attrs, "w:type"@) {
                Some(v) => section_ref_type_of(v),
                None => SectionRefType::Default,
            },
        }),
    }
}

pub open spec fn sect_tag(acc: SectionPropsView, name: Seq<char>, attrs: Attrs) -> SectionPropsView {
    if name == "w:headerReference"@ {
        match section_ref_of(attrs) {
            Some(r) => SectionPropsView { header_refs: acc.header_refs.push(r), ..acc },
            None => acc,
        }
    } else if name == "w:footerReference"@ {
        match section_ref_of(attrs) {
            Some(r) => SectionPropsView { footer_refs: acc.footer_refs.push(r), ..acc },
            None => acc,
        }
    } else {
        acc
    }
}

/// Reading a `<w:sectPr>` block from position `i` at nesting `depth`.
pub open spec fn sect_loop(t: Seq<TokView>, i: int, depth: int, acc: SectionPropsView) -> Result<(SectionPropsView, int), Seq<char>>
    decreases t.len() - i,
{
    if i < 0 || i >= t.len() {
        Ok((acc, t.len() as int))
    } else {
        match t[i] {
            TokView::Start { name, .. } => sect_loop(t, i + 1, if name == "w:sectPr"@ { depth + 1 } else { depth }, acc),
            TokView::Empty { name, attrs } => sect_loop(t, i + 1, depth, sect_tag(acc, name, attrs)),
            TokView::End { name } => if name == "w:sectPr"@ {
                if depth - 1 == 0 { Ok((acc, i + 1)) } else { sect_loop(t, i + 1, depth - 1, acc) }
            } else {
                sect_loop(t, i + 1, depth, acc)
            },
            TokView::Error { message } => Err(message),
            _ => sect_loop(t, i + 1, depth, acc),
        }
    }
}

pub open spec fn section_properties_at(t: Seq<TokView>, i: int) -> Result<(SectionPropsView, int), Seq<char>> {
    sect_loop(t, i, 1, SectionPropsView { header_refs: Seq::empty(), footer_refs: Seq::empty() })
}

/// Reading a `<w:tblPr>` block: the table style (the `w:val` of the last
/// `<w:tblStyle>`) and the position after its end tag; a reader error or
/// the end of input also ends it.
pub open spec fn tblpr_loop(t: Seq<TokView>, i: int, depth: int, style: Option<Seq<char>>) -> (Option<Seq<char>>, int)
    decreases t.len() - i,
{
    if i < 0 || i >= t.len() {
        (style, t.len() as int)
    } else {
        match t[i] {
            TokView::Start { name, .. } => tblpr_loop(t, i + 1, if name == "w:tblPr"@ { depth + 1 } else { depth }, style),
            TokView::Empty { name, attrs } => tblpr_loop(t, i + 1, depth, if name == "w:tblStyle"@ { val_of(attrs) } else { style }),
            TokView::End { name } => if name == "w:tblPr"@ {
                if depth - 1 == 0 { (style, i + 1) } else { tblpr_loop(t, i + 1, depth - 1, style) }
            } else {
                tblpr_loop(t, i + 1, depth, style)
            },
            TokView::Error { .. } => (style, i + 1),
            _ => tblpr_loop(t, i + 1, depth, style),
        }
    }
}

/// Skipping to the end of an element named `tag`: the position after its
/// end tag, after a reader error, or the end of input.
pub open spec fn skip_loop(t: Seq<TokView>, i: int, depth: int, tag: Seq<char>) -> int
    decreases t.len() - i,
{
    if i < 0 || i >= t.len() {
        t.len() as int
    } else {
        match t[i] {
            TokView::Start { name, .. } => skip_loop(t, i + 1, if name == tag { depth + 1 } else { depth }, tag),
            TokView::End { name } => if name == tag {
                if depth - 1 == 0 { i + 1 } else { skip_loop(t, i + 1, depth - 1, tag) }
            } else {
                skip_loop(t, i + 1, depth, tag)
            },
            TokView::Error { .. } => i + 1,
            _ => skip_loop(t, i + 1, depth, tag),
        }
    }
}

pub proof fn lemma_sect_loop_next(t: Seq<TokView>, i: int, depth: int, acc: SectionPropsView)
    requires
        0 <= i <= t.len(),
    ensures
        sect_loop(t, i, depth, acc) matches Ok((_, j)) ==> i <= j <= t.len(),
    decreases t.len() - i,
{
    if i < t.len() {
        match t[i] {
            TokView::Start { name, .. } => lemma_sect_loop_next(t, i + 1, if name == "w:sectPr"@ { depth + 1 } else { depth }, acc),
            TokView::Empty { name, attrs } => lemma_sect_loop_next(t, i + 1, depth, sect_tag(acc, name, attrs)),
            TokView::End { name } => {
                lemma_sect_loop_next(t, i + 1, depth - 1, acc);
                lemma_sect_loop_next(t, i + 1, depth, acc);
            },
            TokView::Error { .. } => {},
            _ => lemma_sect_loop_next(t, i + 1, depth, acc),
        }
    }
}

pub proof fn lemma_tblpr_loop_next(t: Seq<TokView>, i: int, depth: int, style: Option<Seq<char>>)
    requires
        0 <= i <= t.len(),
    ensures
        i <= tblpr_loop(t, i, depth, style).1 <= t.len(),
    decreases t.len() - i,
{
    if i < t.len() {
        match t[i] {
            TokView::Start { name, .. } => lemma_tblpr_loop_next(t, i + 1, if name == "w:tblPr"@ { depth + 1 } else { depth }, style),
            TokView::Empty { name, attrs } => lemma_tblpr_loop_next(t, i + 1, depth, if name == "w:tblStyle"@ { val_of(attrs) } else { style }),
            TokView::End { name } => {
                lemma_tblpr_loop_next(t, i + 1, depth - 1, style);
                lemma_tblpr_loop_next(t, i + 1, depth, style);
            },
            TokView::Error { .. } => {},
            _ => lemma_tblpr_loop_next(t, i + 1, depth, style),
        }
    }
}

pub proof fn lemma_skip_loop_next(t: Seq<TokView>, i: int, depth: int, tag: Seq<char>)
    requires
        0 <= i <= t.len(),
    ensures
        i <= skip_loop(t, i, depth, tag) <= t.len(),
    decreases t.len() - i,
{
    if i < t.len() {
        match t[i] {
            TokView::Start { name, .. } => lemma_skip_loop_next(t, i + 1, if name == tag { depth + 1 } else { depth }, tag),
            TokView::End { name } => {
                lemma_skip_loop_next(t, i + 1, depth - 1, tag);
                lemma_skip_loop_next(t, i + 1, depth, tag);
            },
            TokView::Error { .. } => {},
            _ => lemma_skip_loop_next(t, i + 1, depth, tag),
        }
    }
}

// ---------------------------------------------------------------------
// The body state machine
// ---------------------------------------------------------------------

/// A table being read: its style, finished rows, the row and cell in
/// progress, and where in them the reader is.
pub struct TableSt {
    pub style_id: Option<Seq<char>>,
    pub rows: Seq<RowView>,
    pub row_cells: Seq<CellView>,
    pub cell_paragraphs: Seq<ParagraphView>,
    pub cell_props: RawTableCellProperties,
    pub in_row: bool,
    pub in_cell: bool,
    pub in_cell_props: bool,
}

pub open spec fn default_cell_props() -> RawTableCellProperties {
    RawTableCellProperties { grid_span: 1, v_merge: None, width: None }
}

pub open spec fn new_table() -> TableSt {
    TableSt {
        style_id: None,
        rows: Seq::empty(),
        row_cells: Seq::empty(),
        cell_paragraphs: Seq::empty(),
        cell_props: default_cell_props(),
        in_row: false,
        in_cell: false,
        in_cell_props: false,
    }
}

pub open spec fn finish_cell(ts: TableSt) -> TableSt {
    if ts.in_cell {
        TableSt {
            row_cells: ts.row_cells.push(CellView { properties: ts.cell_props, paragraphs: ts.cell_paragraphs }),
            cell_props: default_cell_props(),
            cell_paragraphs: Seq::empty(),
            in_cell: false,
            ..ts
        }
    } else {
        ts
    }
}

pub open spec fn finish_row(ts: TableSt) -> TableSt {
    let ts = finish_cell(ts);
    if ts.in_row {
        TableSt { rows: ts.rows.push(RowView { cells: ts.row_cells }), row_cells: Seq::empty(), in_row: false, ..ts }
    } else {
        ts
    }
}

pub open spec fn into_table(ts: TableSt) -> TableView {
    let ts = finish_row(ts);
    TableView { style_id: ts.style_id, rows: ts.rows }
}

/// The state of reading a body.
pub struct DocSt {
    pub items: Seq<BodyItemView>,
    pub in_body: bool,
    pub in_paragraph: bool,
    pub paragraph: ParagraphView,
    pub in_run: bool,
    pub run_text: Option<Seq<char>>,
    pub run_props: RunPropsView,
    pub in_text: bool,
    pub in_hyperlink: bool,
    pub link_rel: Option<Seq<char>>,
    pub link_anchor: Option<Seq<char>>,
    pub link_runs: Seq<RunView>,
    pub tables: Seq<TableSt>,
}

pub open spec fn doc_start_state() -> DocSt {
    DocSt {
        items: Seq::empty(),
        in_body: false,
        in_paragraph: false,
        paragraph: blank_paragraph(empty_para_props()),
        in_run: false,
        run_text: None,
        run_props: empty_run_props(),
        in_text: false,
        in_hyperlink: false,
        link_rel: None,
        link_anchor: None,
        link_runs: Seq::empty(),
        tables: Seq::empty(),
    }
}

/// `st` with the innermost open table replaced.
pub open spec fn with_top(st: DocSt, ts: TableSt) -> DocSt {
    DocSt { tables: st.tables.update(st.tables.len() - 1, ts), ..st }
}

pub open spec fn top(st: DocSt) -> TableSt {
    st.tables.last()
}

/// A finished paragraph goes into the current cell of the innermost open
/// table (dropped when no cell is open), or into the body.
pub open spec fn place_paragraph(st: DocSt, p: ParagraphView) -> DocSt {
    if st.tables.len() > 0 {
        if top(st).in_cell {
            with_top(st, TableSt { cell_paragraphs: top(st).cell_paragraphs.push(p), ..top(st) })
        } else {
            st
        }
    } else {
        DocSt { items: st.items.push(BodyItemView::Paragraph(p)), ..st }
    }
}

/// A start tag at position `i`; sub-blocks (`<w:pPr>`, `<w:rPr>`,
/// `<w:tblPr>`, `<w:tblGrid>`, `<w:sectPr>`) are read to their end.
pub open spec fn doc_start(t: Seq<TokView>, i: int, envelope: Seq<char>, st: DocSt, name: Seq<char>, attrs: Attrs) -> Result<(DocSt, int), (Seq<char>, Seq<char>)> {
    if name == envelope {
        Ok((DocSt { in_body: true, ..st }, i + 1))
    } else if name == "w:p"@ && st.in_body {
        Ok((DocSt { in_paragraph: true, paragraph: blank_paragraph(empty_para_props()), ..st }, i + 1))
    } else if name == "w:pPr"@ && st.in_paragraph {
        match paragraph_properties_at(t, i + 1) {
            Err(m) => Err(("pPr"@, m)),
            Ok((p, j)) => Ok((DocSt { paragraph: ParagraphView { properties: p, ..st.paragraph }, ..st }, j)),
        }
    } else if name == "w:r"@ && st.in_paragraph {
        Ok((DocSt { in_run: true, run_text: None, run_props: empty_run_props(), ..st }, i + 1))
    } else if name == "w:rPr"@ && st.in_run {
        match run_properties_at(t, i + 1) {
            Err(m) => Err(("rPr"@, m)),
            Ok((p, j)) => Ok((DocSt { run_props: p, ..st }, j)),
        }
    } else if name == "w:t"@ && st.in_run {
        Ok((DocSt { in_text: true, ..st }, i + 1))
    } else if name == "w:hyperlink"@ && st.in_paragraph {
        Ok((DocSt {
            in_hyperlink: true,
            link_rel: sfirst_attr(attrs, "r:id"@),
            link_anchor: sfirst_attr(attrs, "w:anchor"@),
            link_runs: Seq::empty(),
            ..st
        }, i + 1))
    } else {
        doc_start_table(t, i, st, name)
    }
}

/// A start tag of a table or section part.
pub open spec fn doc_start_table(t: Seq<TokView>, i: int, st: DocSt, name: Seq<char>) -> Result<(DocSt, int), (Seq<char>, Seq<char>)> {
    if name == "w:tbl"@ && st.in_body {
        Ok((DocSt { tables: st.tables.push(new_table()), ..st }, i + 1))
    } else if name == "w:tblPr"@ && st.tables.len() > 0 {
        let (style, j) = tblpr_loop(t, i + 1, 1, top(st).style_id);
        Ok((with_top(st, TableSt { style_id: style, ..top(st) }), j))
    } else if name == "w:tblGrid"@ && st.tables.len() > 0 {
        Ok((st, skip_loop(t, i + 1, 1, "w:tblGrid"@)))
    } else if name == "w:tr"@ && st.tables.len() > 0 {
        Ok((with_top(st, TableSt { in_row: true, row_cells: Seq::empty(), ..top(st) }), i + 1))
    } else if name == "w:tc"@ && st.tables.len() > 0 {
        Ok((with_top(st, TableSt {
            in_cell: true,
            cell_paragraphs: Seq::empty(),
            cell_props: default_cell_props(),
            ..top(st)
        }), i + 1))
    } else if name == "w:tcPr"@ && st.tables.len() > 0 {
        Ok((with_top(st, TableSt { in_cell_props: true, ..top(st) }), i + 1))
    } else if name == "w:sectPr"@ && st.in_body && st.tables.len() == 0 {
        match section_properties_at(t, i + 1) {
            Err(m) => Err(("w:sectPr"@, m)),
            Ok((p, j)) => Ok((DocSt { items: st.items.push(BodyItemView::SectionBreak(p)), ..st }, j)),
        }
    } else {
        Ok((st, i + 1))
    }
}

/// A reference id: the `w:id` attribute read as a `u32`.
pub open spec fn ref_id(attrs: Attrs) -> Option<u32> {
    match sfirst_attr(attrs, "w:id"@) {
        Some(v) => u32_of(v),
        None => None,
    }
}

/// An empty tag.
pub open spec fn doc_empty(st: DocSt, name: Seq<char>, attrs: Attrs) -> DocSt {
    if name == "w:p"@ && st.in_body {
        place_paragraph(st, blank_paragraph(empty_para_props()))
    } else if name == "w:gridSpan"@ {
        if st.tables.len() > 0 && top(st).in_cell_props && val_of(attrs) is Some {
            let span = match u16_of(val_of(attrs).unwrap()) { Some(v) => v, None => 1 };
            with_top(st, TableSt { cell_props: RawTableCellProperties { grid_span: span, ..top(st).cell_props }, ..top(st) })
        } else {
            st
        }
    } else if name == "w:vMerge"@ {
        if st.tables.len() > 0 && top(st).in_cell_props {
            let m = if val_of(attrs) == Some("restart"@) { RawVMerge::Restart } else { RawVMerge::Continue };
            with_top(st, TableSt { cell_props: RawTableCellProperties { v_merge: Some(m), ..top(st).cell_props }, ..top(st) })
        } else {
            st
        }
    } else if name == "w:tcW"@ {
        if st.tables.len() > 0 && top(st).in_cell_props && sfirst_attr(attrs, "w:w"@) is Some {
            let w = u32_of(sfirst_attr(attrs, "w:w"@).unwrap());
            with_top(st, TableSt { cell_props: RawTableCellProperties { width: w, ..top(st).cell_props }, ..top(st) })
        } else {
            st
        }
    } else if name == "w:footnoteReference"@ && st.in_paragraph {
        match ref_id(attrs) {
            Some(id) => DocSt { paragraph: ParagraphView { footnote_ref_ids: st.paragraph.footnote_ref_ids.push(id), ..st.paragraph }, ..st },
            None => st,
        }
    } else if name == "w:endnoteReference"@ && st.in_paragraph {
        match ref_id(attrs) {
            Some(id) => DocSt { paragraph: ParagraphView { endnote_ref_ids: st.paragraph.endnote_ref_ids.push(id), ..st.paragraph }, ..st },
            None => st,
        }
    } else if name == "w:commentReference"@ && st.in_paragraph {
        match ref_id(attrs) {
            Some(id) => DocSt { paragraph: ParagraphView { comment_ref_ids: st.paragraph.comment_ref_ids.push(id), ..st.paragraph }, ..st },
            None => st,
        }
    } else {
        st
    }
}

/// Text inside `<w:t>` extends the run's text.
pub open spec fn doc_text(st: DocSt, text: Seq<char>) -> DocSt {
    if st.in_text {
        DocSt { run_text: Some(match st.run_text { Some(e) => e + text, None => text }), ..st }
    } else {
        st
    }
}

/// An end tag.
pub open spec fn doc_end(st: DocSt, name: Seq<char>) -> DocSt {
    if name == "w:body"@ {
        DocSt { in_body: false, ..st }
    } else if name == "w:t"@ {
        DocSt { in_text: false, ..st }
    } else if name == "w:r"@ && st.in_run {
        let run = RunView { text: st.run_text, properties: st.run_props };
        let st2 = DocSt { run_text: None, run_props: empty_run_props(), in_run: false, ..st };
        if st.in_hyperlink {
            DocSt { link_runs: st.link_runs.push(run), ..st2 }
        } else {
            DocSt { paragraph: ParagraphView { content: st.paragraph.content.push(InlineView::Run(run)), ..st.paragraph }, ..st2 }
        }
    } else if name == "w:hyperlink"@ && st.in_hyperlink {
        let link = crate::raw::paragraphs::HyperlinkView { rel_id: st.link_rel, anchor: st.link_anchor, runs: st.link_runs };
        DocSt {
            paragraph: ParagraphView { content: st.paragraph.content.push(InlineView::Hyperlink(link)), ..st.paragraph },
            link_rel: None,
            link_anchor: None,
            link_runs: Seq::empty(),
            in_hyperlink: false,
            ..st
        }
    } else if name == "w:p"@ && st.in_paragraph {
        let st2 = DocSt { paragraph: blank_paragraph(empty_para_props()), in_paragraph: false, ..st };
        place_paragraph(st2, st.paragraph)
    } else if name == "w:tcPr"@ {
        if st.tables.len() > 0 { with_top(st, TableSt { in_cell_props: false, ..top(st) }) } else { st }
    } else if name == "w:tc"@ {
        if st.tables.len() > 0 { with_top(st, finish_cell(top(st))) } else { st }
    } else if name == "w:tr"@ {
        if st.tables.len() > 0 { with_top(st, finish_row(top(st))) } else { st }
    } else if name == "w:tbl"@ {
        if st.tables.len() > 0 {
            DocSt {
                tables: st.tables.drop_last(),
                items: st.items.push(BodyItemView::Table(into_table(top(st)))),
                ..st
            }
        } else {
            st
        }
    } else {
        st
    }
}

/// One read of a body part at position `i`.
pub open spec fn doc_step(t: Seq<TokView>, i: int, envelope: Seq<char>, st: DocSt) -> Result<(DocSt, int), (Seq<char>, Seq<char>)>
    recommends
        0 <= i < t.len(),
{
    match t[i] {
        TokView::Start { name, attrs } => doc_start(t, i, envelope, st, name, attrs),
        TokView::Empty { name, attrs } => Ok((doc_empty(st, name, attrs), i + 1)),
        TokView::Text { text } => Ok((doc_text(st, text), i + 1)),
        TokView::End { name } => Ok((doc_end(st, name), i + 1)),
        TokView::Error { message } => Err(("word/document.xml"@, message)),
        TokView::Other => Ok((st, i + 1)),
    }
}

pub proof fn lemma_doc_step_next(t: Seq<TokView>, i: int, envelope: Seq<char>, st: DocSt)
    requires
        0 <= i < t.len(),
    ensures
        doc_step(t, i, envelope, st) matches Ok((_, j)) ==> i < j <= t.len(),
{
    lemma_rpr_loop_next(t, i + 1, 1, empty_run_props());
    lemma_ppr_loop_next(t, i + 1, 1, empty_para_props(), None);
    lemma_sect_loop_next(t, i + 1, 1, SectionPropsView { header_refs: Seq::empty(), footer_refs: Seq::empty() });
    if st.tables.len() > 0 {
        lemma_tblpr_loop_next(t, i + 1, 1, top(st).style_id);
    }
    lemma_skip_loop_next(t, i + 1, 1, "w:tblGrid"@);
}

/// Reading a body part from position `i` in state `st`: the body items,
/// or the failing part and message.
pub open spec fn doc_loop(t: Seq<TokView>, i: int, envelope: Seq<char>, st: DocSt) -> Result<Seq<BodyItemView>, (Seq<char>, Seq<char>)>
    decreases t.len() - i,
{
    if i < 0 || i >= t.len() {
        Ok(st.items)
    } else {
        match doc_step(t, i, envelope, st) {
            Err(e) => Err(e),
            Ok((st2, j)) => {
                proof { lemma_doc_step_next(t, i, envelope, st); }
                if i < j { doc_loop(t, j, envelope, st2) } else { Ok(st2.items) }
            },
        }
    }
}

/// What a body part reads as.
pub open spec fn body_of(bytes: Seq<u8>, envelope: Seq<char>) -> Result<Seq<BodyItemView>, (Seq<char>, Seq<char>)> {
    body_of_toks(part_toks(bytes, true), envelope)
}

/// What a token stream of a body part reads as.
pub open spec fn body_of_toks(t: Seq<TokView>, envelope: Seq<char>) -> Result<Seq<BodyItemView>, (Seq<char>, Seq<char>)> {
    doc_loop(t, 0, envelope, doc_start_state())
}


// ---------------------------------------------------------------------
// The reader
// ---------------------------------------------------------------------

struct TableState {
    properties: RawTableProperties,
    rows: Vec<RawTableRow>,
    current_row_cells: Vec<RawTableCell>,
    current_cell_paragraphs: Vec<RawParagraph>,
    current_cell_props: RawTableCellProperties,
    in_row: bool,
    in_cell: bool,
    in_cell_props: bool,
}

spec fn paras_view(s: Seq<RawParagraph>) -> Seq<ParagraphView> {
    s.map_values(|p: RawParagraph| p@)
}

spec fn cells_view(s: Seq<RawTableCell>) -> Seq<CellView> {
    s.map_values(|c: RawTableCell| c@)
}

spec fn rows_view(s: Seq<RawTableRow>) -> Seq<RowView> {
    s.map_values(|r: RawTableRow| r@)
}

impl View for TableState {
    type V = TableSt;

    closed spec fn view(&self) -> TableSt {
        TableSt {
            style_id: crate::raw::runs::opt_view(self.properties.style_id),
            rows: rows_view(self.rows@),
            row_cells: cells_view(self.current_row_cells@),
            cell_paragraphs: paras_view(self.current_cell_paragraphs@),
            cell_props: self.current_cell_props,
            in_row: self.in_row,
            in_cell: self.in_cell,
            in_cell_props: self.in_cell_props,
        }
    }
}

impl TableState {
    fn new() -> (r: Self)
        ensures
            r@ == new_table(),
    {
        let r = TableState {
            properties: RawTableProperties::default(),
            rows: Vec::new(),
            current_row_cells: Vec::new(),
            current_cell_paragraphs: Vec::new(),
            current_cell_props: RawTableCellProperties::default(),
            in_row: false,
            in_cell: false,
            in_cell_props: false,
        };
        assert(rows_view(r.rows@) =~= Seq::<RowView>::empty());
        assert(cells_view(r.current_row_cells@) =~= Seq::<CellView>::empty());
        assert(paras_view(r.current_cell_paragraphs@) =~= Seq::<ParagraphView>::empty());
        r
    }

    fn finish_cell(&mut self)
        ensures
            final(self)@ == finish_cell(old(self)@),
    {
        if self.in_cell {
            let mut paragraphs: Vec<RawParagraph> = Vec::new();
            std::mem::swap(&mut paragraphs, &mut self.current_cell_paragraphs);
            let mut properties = RawTableCellProperties::default();
            std::mem::swap(&mut properties, &mut self.current_cell_props);
            let cell = RawTableCell { properties, paragraphs };
            let ghost before = self.current_row_cells@;
            self.current_row_cells.push(cell);
            self.in_cell = false;
            assert(cells_view(self.current_row_cells@) =~= cells_view(before).push(cell@));
            assert(paras_view(self.current_cell_paragraphs@) =~= Seq::<ParagraphView>::empty());
        }
    }

    fn finish_row(&mut self)
        ensures
            final(self)@ == finish_row(old(self)@),
    {
        self.finish_cell();
        if self.in_row {
            let mut cells: Vec<RawTableCell> = Vec::new();
            std::mem::swap(&mut cells, &mut self.current_row_cells);
            let row = RawTableRow { cells };
            let ghost before = self.rows@;
            self.rows.push(row);
            self.in_row = false;
            assert(rows_view(self.rows@) =~= rows_view(before).push(row@));
            assert(cells_view(self.current_row_cells@) =~= Seq::<CellView>::empty());
        }
    }

    fn into_table(self) -> (t: RawTable)
        ensures
            t@ == into_table(self@),
    {
        let mut s = self;
        s.finish_row();
        RawTable { properties: s.properties, rows: s.rows }
    }
}

struct BodyReader {
    items: Vec<RawBodyItem>,
    in_body: bool,
    in_paragraph: bool,
    paragraph: RawParagraph,
    in_run: bool,
    run_text: Option<String>,
    run_props: RawRunProperties,
    in_text: bool,
    in_hyperlink: bool,
    link_rel: Option<String>,
    link_anchor: Option<String>,
    link_runs: Vec<RawRun>,
    tables: Vec<TableState>,
}

spec fn items_view(s: Seq<RawBodyItem>) -> Seq<BodyItemView> {
    s.map_values(|i: RawBodyItem| i@)
}

spec fn tables_view(s: Seq<TableState>) -> Seq<TableSt> {
    s.map_values(|t: TableState| t@)
}

impl View for BodyReader {
    type V = DocSt;

    closed spec fn view(&self) -> DocSt {
        DocSt {
            items: items_view(self.items@),
            in_body: self.in_body,
            in_paragraph: self.in_paragraph,
            paragraph: self.paragraph@,
            in_run: self.in_run,
            run_text: crate::raw::runs::opt_view(self.run_text),
            run_props: self.run_props@,
            in_text: self.in_text,
            in_hyperlink: self.in_hyperlink,
            link_rel: crate::raw::runs::opt_view(self.link_rel),
            link_anchor: crate::raw::runs::opt_view(self.link_anchor),
            link_runs: crate::raw::runs::runs_view(self.link_runs@),
            tables: tables_view(self.tables@),
        }
    }
}

fn blank() -> (p: RawParagraph)
    ensures
        p@ == blank_paragraph(empty_para_props()),
{
    let p = RawParagraph::default();
    proof {
        assert(p@.content =~= Seq::<InlineView>::empty());
        assert(p@.runs =~= Seq::<RunView>::empty());
        assert(p@.hyperlinks =~= Seq::<crate::raw::paragraphs::HyperlinkView>::empty());
        assert(p@.drawings =~= Seq::<crate::raw::drawing::DrawingView>::empty());
        assert(p@.fields =~= Seq::<crate::raw::fields::FieldView>::empty());
        assert(p@.footnote_ref_ids =~= Seq::<u32>::empty());
        assert(p@.endnote_ref_ids =~= Seq::<u32>::empty());
        assert(p@.comment_ref_ids =~= Seq::<u32>::empty());
    }
    p
}

fn ref_id_of(attrs: &Vec<Option<(String, String)>>) -> (r: Option<u32>)
    ensures
        r == ref_id(sattrs_view(attrs@)),
{
    match first_attr_value(attrs, "w:id") {
        Some(v) => parse_u32(v.as_str()),
        None => None,
    }
}

fn section_ref_type_from(v: &str) -> (r: SectionRefType)
    ensures
        r == section_ref_type_of(v@),
{
    if str_eq(v, "first") {
        SectionRefType::First
    } else if str_eq(v, "even") {
        SectionRefType::Even
    } else {
        SectionRefType::Default
    }
}

fn parse_section_ref(attrs: &Vec<Option<(String, String)>>) -> (r: Option<RawSectionRef>)
    ensures
        match r {
            Some(x) => section_ref_of(sattrs_view(attrs@)) == Some(x@),
            None => section_ref_of(sattrs_view(attrs@)) is None,
        },
{
    let rel_id = match first_attr_value(attrs, "r:id") {
        Some(v) => v,
        None => return None,
    };
    let ref_type = match first_attr_value(attrs, "w:type") {
        Some(v) => section_ref_type_from(v.as_str()),
        None => SectionRefType::Default,
    };
    Some(RawSectionRef { rel_id, ref_type })
}

/// Reads a `<w:sectPr>` block from `start`, just after its start tag.
fn parse_section_properties(toks: &Vec<XmlTok>, start: usize) -> (r: Result<(RawSectionProperties, usize), DocxError>)
    ensures
        match section_properties_at(toks_view(toks@), start as int) {
            Ok((v, j)) => r matches Ok((p, k)) && p@ == v && k == j,
            Err(m) => r matches Err(e) && xml_error(e, "w:sectPr"@, m),
        },
{
    let ghost t = toks_view(toks@);
    let mut acc = RawSectionProperties::default();
    let mut nested: usize = 0;
    let mut i: usize = start;
    assert(acc@.header_refs =~= Seq::<SectionRefView>::empty());
    assert(acc@.footer_refs =~= Seq::<SectionRefView>::empty());
    while i < toks.len()
        invariant
            t == toks_view(toks@),
            t.len() == toks@.len(),
            start <= i,
            nested <= i - start,
            sect_loop(t, i as int, nested + 1, acc@) == section_properties_at(t, start as int),
        decreases toks.len() - i,
    {
        assert(t[i as int] == toks@[i as int]@);
        match &toks[i] {
            XmlTok::Start { name, .. } => {
                if str_eq(name.as_str(), "w:sectPr") {
                    nested = nested + 1;
                }
            },
            XmlTok::Empty { name, attrs } => {
                let ghost before = acc@;
                if str_eq(name.as_str(), "w:headerReference") {
                    if let Some(r) = parse_section_ref(attrs) {
                        let ghost hs = acc.header_refs@;
                        acc.header_refs.push(r);
                        assert(acc.header_refs@.map_values(|x: RawSectionRef| x@) =~= hs.map_values(|x: RawSectionRef| x@).push(r@));
                    }
                } else if str_eq(name.as_str(), "w:footerReference") {
                    if let Some(r) = parse_section_ref(attrs) {
                        let ghost fs = acc.footer_refs@;
                        acc.footer_refs.push(r);
                        assert(acc.footer_refs@.map_values(|x: RawSectionRef| x@) =~= fs.map_values(|x: RawSectionRef| x@).push(r@));
                    }
                }
                assert(acc@ == sect_tag(before, name@, sattrs_view(attrs@)));
            },
            XmlTok::End { name } => {
                if str_eq(name.as_str(), "w:sectPr") {
                    if nested == 0 {
                        return Ok((acc, i + 1));
                    }
                    nested = nested - 1;
                }
            },
            XmlTok::Error { message } => {
                return Err(DocxError::XmlParse { part: "w:sectPr".to_owned(), reason: message.clone() });
            },
            _ => {},
        }
        i = i + 1;
    }
    Ok((acc, toks.len()))
}

/// Reads a `<w:tblPr>` block from `start`: the table style and the
/// position after it.
fn parse_table_style(toks: &Vec<XmlTok>, start: usize, initial: Option<String>) -> (r: (Option<String>, usize))
    ensures
        (crate::raw::runs::opt_view(r.0), r.1 as int) == tblpr_loop(toks_view(toks@), start as int, 1, crate::raw::runs::opt_view(initial)),
{
    let ghost t = toks_view(toks@);
    let ghost s0 = crate::raw::runs::opt_view(initial);
    let mut style = initial;
    let mut nested: usize = 0;
    let mut i: usize = start;
    while i < toks.len()
        invariant
            t == toks_view(toks@),
            t.len() == toks@.len(),
            start <= i,
            nested <= i - start,
            s0 == crate::raw::runs::opt_view(initial),
            tblpr_loop(t, i as int, nested + 1, crate::raw::runs::opt_view(style)) == tblpr_loop(t, start as int, 1, s0),
        decreases toks.len() - i,
    {
        assert(t[i as int] == toks@[i as int]@);
        match &toks[i] {
            XmlTok::Start { name, .. } => {
                if str_eq(name.as_str(), "w:tblPr") {
                    nested = nested + 1;
                }
            },
            XmlTok::Empty { name, attrs } => {
                if str_eq(name.as_str(), "w:tblStyle") {
                    style = first_attr_value(attrs, "w:val");
                }
            },
            XmlTok::End { name } => {
                if str_eq(name.as_str(), "w:tblPr") {
                    if nested == 0 {
                        return (style, i + 1);
                    }
                    nested = nested - 1;
                }
            },
            XmlTok::Error { .. } => {
                return (style, i + 1);
            },
            _ => {},
        }
        i = i + 1;
    }
    (style, toks.len())
}

/// Skips to the end of the element `tag` opened just before `start`.
fn skip_element(toks: &Vec<XmlTok>, start: usize, tag: &str) -> (r: usize)
    ensures
        r as int == skip_loop(toks_view(toks@), start as int, 1, tag@),
{
    let ghost t = toks_view(toks@);
    let mut nested: usize = 0;
    let mut i: usize = start;
    while i < toks.len()
        invariant
            t == toks_view(toks@),
            t.len() == toks@.len(),
            start <= i,
            nested <= i - start,
            skip_loop(t, i as int, nested + 1, tag@) == skip_loop(t, start as int, 1, tag@),
        decreases toks.len() - i,
    {
        assert(t[i as int] == toks@[i as int]@);
        match &toks[i] {
            XmlTok::Start { name, .. } => {
                if str_eq(name.as_str(), tag) {
                    nested = nested + 1;
                }
            },
            XmlTok::End { name } => {
                if str_eq(name.as_str(), tag) {
                    if nested == 0 {
                        return i + 1;
                    }
                    nested = nested - 1;
                }
            },
            XmlTok::Error { .. } => {
                return i + 1;
            },
            _ => {},
        }
        i = i + 1;
    }
    toks.len()
}


impl BodyReader {
    fn new() -> (r: Self)
        ensures
            r@ == doc_start_state(),
    {
        let r = BodyReader {
            items: Vec::new(),
            in_body: false,
            in_paragraph: false,
            paragraph: blank(),
            in_run: false,
            run_text: None,
            run_props: RawRunProperties::default(),
            in_text: false,
            in_hyperlink: false,
            link_rel: None,
            link_anchor: None,
            link_runs: Vec::new(),
            tables: Vec::new(),
        };
        assert(items_view(r.items@) =~= Seq::<BodyItemView>::empty());
        assert(crate::raw::runs::runs_view(r.link_runs@) =~= Seq::<RunView>::empty());
        assert(tables_view(r.tables@) =~= Seq::<TableSt>::empty());
        r
    }

    /// Replaces the innermost table's state through `f`-like updates made
    /// by the caller; this lemma relates the views.
    proof fn lemma_top_update(old_tables: Seq<TableState>, new_tables: Seq<TableState>, k: int)
        requires
            0 <= k < old_tables.len(),
            new_tables == old_tables.update(k, new_tables[k]),
        ensures
            tables_view(new_tables) =~= tables_view(old_tables).update(k, new_tables[k]@),
    {
        assert(new_tables.len() == old_tables.len());
    }

    fn place_paragraph(&mut self, p: RawParagraph)
        ensures
            final(self)@ == place_paragraph(old(self)@, p@),
    {
        let n = self.tables.len();
        if n > 0 {
            assert(tables_view(self.tables@).last() == self.tables@[n - 1]@);
            if self.tables[n - 1].in_cell {
                let ghost old_tables = self.tables@;
                let ghost old_ps = self.tables@[n - 1].current_cell_paragraphs@;
                self.tables[n - 1].current_cell_paragraphs.push(p);
                proof {
                    Self::lemma_top_update(old_tables, self.tables@, n - 1);
                    assert(paras_view(self.tables@[n - 1].current_cell_paragraphs@) =~= paras_view(old_ps).push(p@));
                }
            }
        } else {
            let ghost old_items = self.items@;
            self.items.push(RawBodyItem::Paragraph(p));
            assert(items_view(self.items@) =~= items_view(old_items).push(BodyItemView::Paragraph(p@)));
        }
    }

    fn empty_tag(&mut self, name: &str, attrs: &Vec<Option<(String, String)>>)
        ensures
            final(self)@ == doc_empty(old(self)@, name@, sattrs_view(attrs@)),
    {
        let n = self.tables.len();
        let ghost old_tables = self.tables@;
        if n > 0 {
            assert(tables_view(self.tables@).last() == self.tables@[n - 1]@);
        }
        if str_eq(name, "w:p") && self.in_body {
            let b = blank();
            self.place_paragraph(b);
        } else if str_eq(name, "w:gridSpan") {
            if n > 0 && self.tables[n - 1].in_cell_props {
                if let Some(v) = first_attr_value(attrs, "w:val") {
                    let span = match parse_u16(v.as_str()) {
                        Some(x) => x,
                        None => 1,
                    };
                    self.tables[n - 1].current_cell_props.grid_span = span;
                    proof { Self::lemma_top_update(old_tables, self.tables@, n - 1); }
                }
            }
        } else if str_eq(name, "w:vMerge") {
            if n > 0 && self.tables[n - 1].in_cell_props {
                let m = match first_attr_value(attrs, "w:val") {
                    Some(v) => if str_eq(v.as_str(), "restart") { RawVMerge::Restart } else { RawVMerge::Continue },
                    None => RawVMerge::Continue,
                };
                proof {
                    reveal_strlit("restart");
                }
                self.tables[n - 1].current_cell_props.v_merge = Some(m);
                proof { Self::lemma_top_update(old_tables, self.tables@, n - 1); }
            }
        } else if str_eq(name, "w:tcW") {
            if n > 0 && self.tables[n - 1].in_cell_props {
                if let Some(v) = first_attr_value(attrs, "w:w") {
                    self.tables[n - 1].current_cell_props.width = parse_u32(v.as_str());
                    proof { Self::lemma_top_update(old_tables, self.tables@, n - 1); }
                }
            }
        } else if str_eq(name, "w:footnoteReference") && self.in_paragraph {
            if let Some(id) = ref_id_of(attrs) {
                self.paragraph.footnote_ref_ids.push(id);
            }
        } else if str_eq(name, "w:endnoteReference") && self.in_paragraph {
            if let Some(id) = ref_id_of(attrs) {
                self.paragraph.endnote_ref_ids.push(id);
            }
        } else if str_eq(name, "w:commentReference") && self.in_paragraph {
            if let Some(id) = ref_id_of(attrs) {
                self.paragraph.comment_ref_ids.push(id);
            }
        }
    }

    fn text(&mut self, text: &String)
        ensures
            final(self)@ == doc_text(old(self)@, text@),
    {
        if self.in_text {
            match &mut self.run_text {
                Some(existing) => existing.append(text.as_str()),
                None => self.run_text = Some(text.clone()),
            }
        }
    }

    fn end_tag(&mut self, name: &str)
        ensures
            final(self)@ == doc_end(old(self)@, name@),
    {
        let n = self.tables.len();
        let ghost old_tables = self.tables@;
        if n > 0 {
            assert(tables_view(self.tables@).last() == self.tables@[n - 1]@);
        }
        if str_eq(name, "w:body") {
            self.in_body = false;
        } else if str_eq(name, "w:t") {
            self.in_text = false;
        } else if str_eq(name, "w:r") && self.in_run {
            let text = self.run_text.take();
            let mut props = RawRunProperties::default();
            std::mem::swap(&mut props, &mut self.run_props);
            let run = RawRun { text, properties: props };
            if self.in_hyperlink {
                let ghost old_runs = self.link_runs@;
                self.link_runs.push(run);
                assert(crate::raw::runs::runs_view(self.link_runs@) =~= crate::raw::runs::runs_view(old_runs).push(run@));
            } else {
                let ghost old_content = self.paragraph.content@;
                self.paragraph.content.push(RawInline::Run(run));
                assert(self.paragraph.content@.map_values(|x: RawInline| x@) =~= old_content.map_values(|x: RawInline| x@).push(InlineView::Run(run@)));
            }
            self.in_run = false;
        } else if str_eq(name, "w:hyperlink") && self.in_hyperlink {
            let mut runs: Vec<RawRun> = Vec::new();
            std::mem::swap(&mut runs, &mut self.link_runs);
            let link = RawHyperlink { rel_id: self.link_rel.take(), anchor: self.link_anchor.take(), runs };
            let ghost old_content = self.paragraph.content@;
            self.paragraph.content.push(RawInline::Hyperlink(link));
            assert(self.paragraph.content@.map_values(|x: RawInline| x@) =~= old_content.map_values(|x: RawInline| x@).push(InlineView::Hyperlink(link@)));
            assert(crate::raw::runs::runs_view(self.link_runs@) =~= Seq::<RunView>::empty());
            self.in_hyperlink = false;
        } else if str_eq(name, "w:p") && self.in_paragraph {
            let mut para = blank();
            std::mem::swap(&mut para, &mut self.paragraph);
            self.in_paragraph = false;
            self.place_paragraph(para);
        } else if str_eq(name, "w:tcPr") {
            if n > 0 {
                self.tables[n - 1].in_cell_props = false;
                proof { Self::lemma_top_update(old_tables, self.tables@, n - 1); }
            }
        } else if str_eq(name, "w:tc") {
            if n > 0 {
                let mut ts = self.tables.pop().unwrap();
                ts.finish_cell();
                self.tables.push(ts);
                proof {
                    assert(self.tables@ =~= old_tables.update(n - 1, ts));
                    Self::lemma_top_update(old_tables, self.tables@, n - 1);
                }
            }
        } else if str_eq(name, "w:tr") {
            if n > 0 {
                let mut ts = self.tables.pop().unwrap();
                ts.finish_row();
                self.tables.push(ts);
                proof {
                    assert(self.tables@ =~= old_tables.update(n - 1, ts));
                    Self::lemma_top_update(old_tables, self.tables@, n - 1);
                }
            }
        } else if str_eq(name, "w:tbl") {
            if n > 0 {
                let ts = self.tables.pop().unwrap();
                assert(tables_view(self.tables@) =~= tables_view(old_tables).drop_last());
                let table = ts.into_table();
                let ghost old_items = self.items@;
                self.items.push(RawBodyItem::Table(table));
                assert(items_view(self.items@) =~= items_view(old_items).push(BodyItemView::Table(table@)));
            }
        }
    }

    fn start_tag(&mut self, toks: &Vec<XmlTok>, i: usize, envelope: &str, name: &str, attrs: &Vec<Option<(String, String)>>) -> (r: Result<usize, DocxError>)
        requires
            i < toks@.len(),
        ensures
            match doc_start(toks_view(toks@), i as int, envelope@, old(self)@, name@, sattrs_view(attrs@)) {
                Ok((st, j)) => r == Ok::<usize, DocxError>(j as usize) && final(self)@ == st,
                Err((p, m)) => r matches Err(e) && xml_error(e, p, m),
            },
    {
        let _len = toks.len();
        let n = self.tables.len();
        let ghost old_tables = self.tables@;
        if n > 0 {
            assert(tables_view(self.tables@).last() == self.tables@[n - 1]@);
        }
        if str_eq(name, envelope) {
            self.in_body = true;
            Ok(i + 1)
        } else if str_eq(name, "w:p") && self.in_body {
            self.in_paragraph = true;
            self.paragraph = blank();
            Ok(i + 1)
        } else if str_eq(name, "w:pPr") && self.in_paragraph {
            match parse_paragraph_properties(toks, i + 1) {
                Err(e) => Err(e),
                Ok((p, j)) => {
                    self.paragraph.properties = p;
                    Ok(j)
                },
            }
        } else if str_eq(name, "w:r") && self.in_paragraph {
            self.in_run = true;
            self.run_text = None;
            self.run_props = RawRunProperties::default();
            Ok(i + 1)
        } else if str_eq(name, "w:rPr") && self.in_run {
            match parse_run_properties(toks, i + 1) {
                Err(e) => Err(e),
                Ok((p, j)) => {
                    self.run_props = p;
                    Ok(j)
                },
            }
        } else if str_eq(name, "w:t") && self.in_run {
            self.in_text = true;
            Ok(i + 1)
        } else if str_eq(name, "w:hyperlink") && self.in_paragraph {
            self.in_hyperlink = true;
            self.link_rel = first_attr_value(attrs, "r:id");
            self.link_anchor = first_attr_value(attrs, "w:anchor");
            self.link_runs = Vec::new();
            assert(crate::raw::runs::runs_view(self.link_runs@) =~= Seq::<RunView>::empty());
            Ok(i + 1)
        } else {
            self.start_table_tag(toks, i, name)
        }
    }

    fn start_table_tag(&mut self, toks: &Vec<XmlTok>, i: usize, name: &str) -> (r: Result<usize, DocxError>)
        requires
            i < toks@.len(),
        ensures
            match doc_start_table(toks_view(toks@), i as int, old(self)@, name@) {
                Ok((st, j)) => r == Ok::<usize, DocxError>(j as usize) && final(self)@ == st,
                Err((p, m)) => r matches Err(e) && xml_error(e, p, m),
            },
    {
        let _len = toks.len();
        let n = self.tables.len();
        let ghost old_tables = self.tables@;
        if n > 0 {
            assert(tables_view(self.tables@).last() == self.tables@[n - 1]@);
        }
        if str_eq(name, "w:tbl") && self.in_body {
            let ts = TableState::new();
            self.tables.push(ts);
            assert(tables_view(self.tables@) =~= tables_view(old_tables).push(new_table()));
            Ok(i + 1)
        } else if str_eq(name, "w:tblPr") && n > 0 {
            let mut ts = self.tables.pop().unwrap();
            let current = ts.properties.style_id.clone();
            let (style, j) = parse_table_style(toks, i + 1, current);
            ts.properties.style_id = style;
            self.tables.push(ts);
            proof {
                assert(self.tables@ =~= old_tables.update(n - 1, ts));
                Self::lemma_top_update(old_tables, self.tables@, n - 1);
            }
            Ok(j)
        } else if str_eq(name, "w:tblGrid") && n > 0 {
            Ok(skip_element(toks, i + 1, "w:tblGrid"))
        } else if str_eq(name, "w:tr") && n > 0 {
            let mut ts = self.tables.pop().unwrap();
            ts.in_row = true;
            ts.current_row_cells = Vec::new();
            self.tables.push(ts);
            proof {
                assert(self.tables@ =~= old_tables.update(n - 1, ts));
                Self::lemma_top_update(old_tables, self.tables@, n - 1);
                assert(cells_view(self.tables@[n - 1].current_row_cells@) =~= Seq::<CellView>::empty());
            }
            Ok(i + 1)
        } else if str_eq(name, "w:tc") && n > 0 {
            let mut ts = self.tables.pop().unwrap();
            ts.in_cell = true;
            ts.current_cell_paragraphs = Vec::new();
            ts.current_cell_props = RawTableCellProperties::default();
            self.tables.push(ts);
            proof {
                assert(self.tables@ =~= old_tables.update(n - 1, ts));
                Self::lemma_top_update(old_tables, self.tables@, n - 1);
                assert(paras_view(self.tables@[n - 1].current_cell_paragraphs@) =~= Seq::<ParagraphView>::empty());
            }
            Ok(i + 1)
        } else if str_eq(name, "w:tcPr") && n > 0 {
            let mut ts = self.tables.pop().unwrap();
            ts.in_cell_props = true;
            self.tables.push(ts);
            proof {
                assert(self.tables@ =~= old_tables.update(n - 1, ts));
                Self::lemma_top_update(old_tables, self.tables@, n - 1);
            }
            Ok(i + 1)
        } else if str_eq(name, "w:sectPr") && self.in_body && n == 0 {
            match parse_section_properties(toks, i + 1) {
                Err(e) => Err(e),
                Ok((p, j)) => {
                    let ghost old_items = self.items@;
                    self.items.push(RawBodyItem::SectionBreak(p));
                    assert(items_view(self.items@) =~= items_view(old_items).push(BodyItemView::SectionBreak(p@)));
                    Ok(j)
                },
            }
        } else {
            Ok(i + 1)
        }
    }

    fn step(&mut self, toks: &Vec<XmlTok>, i: usize, envelope: &str) -> (r: Result<usize, DocxError>)
        requires
            i < toks@.len(),
        ensures
            match doc_step(toks_view(toks@), i as int, envelope@, old(self)@) {
                Ok((st, j)) => r == Ok::<usize, DocxError>(j as usize) && final(self)@ == st,
                Err((p, m)) => r matches Err(e) && xml_error(e, p, m),
            },
    {
        let _len = toks.len();
        assert(toks_view(toks@)[i as int] == toks@[i as int]@);
        match &toks[i] {
            XmlTok::Start { name, attrs } => self.start_tag(toks, i, envelope, name.as_str(), attrs),
            XmlTok::Empty { name, attrs } => {
                self.empty_tag(name.as_str(), attrs);
                Ok(i + 1)
            },
            XmlTok::Text { text } => {
                self.text(text);
                Ok(i + 1)
            },
            XmlTok::End { name } => {
                self.end_tag(name.as_str());
                Ok(i + 1)
            },
            XmlTok::Error { message } => {
                Err(DocxError::XmlParse { part: "word/document.xml".to_owned(), reason: message.clone() })
            },
            XmlTok::Other => Ok(i + 1),
        }
    }
}

/// Reads a body part whose content sits in the element `envelope`.
fn parse_body_envelope(xml_bytes: &[u8], envelope: &str, source: &str) -> (r: Result<RawBody, DocxError>)
    ensures
        has_doctype(xml_bytes@) ==> (r matches Err(e) && xml_error(e, source@, doctype_reason())),
        !has_doctype(xml_bytes@) ==> match body_of(xml_bytes@, envelope@) {
            Ok(items) => r matches Ok(b) && b@ == items,
            Err((p, m)) => r matches Err(e) && xml_error(e, p, m),
        },
{
    let toks = match read_part(xml_bytes, source, true) {
        Ok(t) => t,
        Err(e) => return Err(e),
    };
    body_from_tokens(&toks, envelope)
}

/// Reads the items of a body part from its tokens, the content sitting in
/// the element `envelope` (`w:body`, `w:hdr` or `w:ftr`).
pub fn body_from_tokens(toks: &Vec<XmlTok>, envelope: &str) -> (r: Result<RawBody, DocxError>)
    ensures
        match body_of_toks(toks_view(toks@), envelope@) {
            Ok(items) => r matches Ok(b) && b@ == items,
            Err((p, m)) => r matches Err(e) && xml_error(e, p, m),
        },
{
    let ghost t = toks_view(toks@);
    let mut rd = BodyReader::new();
    let mut i: usize = 0;
    while i < toks.len()
        invariant
            t == toks_view(toks@),
            t.len() == toks@.len(),
            i <= toks@.len(),
            doc_loop(t, i as int, envelope@, rd@) == body_of_toks(t, envelope@),
        decreases toks.len() - i,
    {
        proof {
            lemma_doc_step_next(t, i as int, envelope@, rd@);
        }
        match rd.step(toks, i, envelope) {
            Ok(j) => {
                i = j;
            },
            Err(e) => return Err(e),
        }
    }
    Ok(RawBody { items: rd.items })
}

/// Parses `word/document.xml`: the items of `<w:body>`.
pub fn parse_document_xml(xml_bytes: &[u8]) -> (r: Result<RawBody, DocxError>)
    ensures
        has_doctype(xml_bytes@) ==> (r matches Err(e) && xml_error(e, "word/document.xml"@, doctype_reason())),
        !has_doctype(xml_bytes@) ==> match body_of(xml_bytes@, "w:body"@) {
            Ok(items) => r matches Ok(b) && b@ == items,
            Err((p, m)) => r matches Err(e) && xml_error(e, p, m),
        },
{
    parse_body_envelope(xml_bytes, "w:body", "word/document.xml")
}

/// Parses a `word/headerN.xml` part: the same grammar inside `<w:hdr>`.
pub fn parse_header_xml(xml_bytes: &[u8]) -> (r: Result<RawBody, DocxError>)
    ensures
        has_doctype(xml_bytes@) ==> (r matches Err(e) && xml_error(e, "word/header*.xml"@, doctype_reason())),
        !has_doctype(xml_bytes@) ==> match body_of(xml_bytes@, "w:hdr"@) {
            Ok(items) => r matches Ok(b) && b@ == items,
            Err((p, m)) => r matches Err(e) && xml_error(e, p, m),
        },
{
    parse_body_envelope(xml_bytes, "w:hdr", "word/header*.xml")
}

/// Parses a `word/footerN.xml` part: the same grammar inside `<w:ftr>`.
pub fn parse_footer_xml(xml_bytes: &[u8]) -> (r: Result<RawBody, DocxError>)
    ensures
        has_doctype(xml_bytes@) ==> (r matches Err(e) && xml_error(e, "word/footer*.xml"@, doctype_reason())),
        !has_doctype(xml_bytes@) ==> match body_of(xml_bytes@, "w:ftr"@) {
            Ok(items) => r matches Ok(b) && b@ == items,
            Err((p, m)) => r matches Err(e) && xml_error(e, p, m),
        },
{
    parse_body_envelope(xml_bytes, "w:ftr", "word/footer*.xml")
}

} // verus!
