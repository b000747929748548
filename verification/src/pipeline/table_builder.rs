//! Resolution of `w:gridSpan` / `w:vMerge` spans on parsed tables.
use std::collections::HashMap;
use vstd::prelude::*;
use crate::pipeline::element::{TableCell, TableRow};
use crate::raw::paragraphs::{RawInline, RawParagraph};
use crate::raw::tables::{RawTable, RawTableCell, RawTableRow, RawVMerge};
use crate::text::join;

verus! {

broadcast use vstd::std_specs::hash::group_hash_axioms;

/// The text of one paragraph of a cell: its direct runs' text, in order.
pub open spec fn inline_text(content: Seq<RawInline>) -> Seq<char>
    decreases content.len(),
{
    if content.len() == 0 {
        Seq::empty()
    } else {
        let last = match content.last() {
            RawInline::Run(run) => match run.text {
                Some(t) => t@,
                None => Seq::empty(),
            },
            RawInline::Hyperlink(_) => Seq::empty(),
        };
        inline_text(content.drop_last()) + last
    }
}

/// The text of a cell: its paragraphs' texts joined by newlines.
pub open spec fn cell_text_of(paragraphs: Seq<RawParagraph>) -> Seq<char>
    decreases paragraphs.len(),
{
    if paragraphs.len() == 0 {
        Seq::empty()
    } else if paragraphs.len() == 1 {
        inline_text(paragraphs[0].content@)
    } else {
        cell_text_of(paragraphs.drop_last()) + seq!['\n'] + inline_text(paragraphs.last().content@)
    }
}

/// A resolved cell as a mathematical value.
pub struct CellView {
    pub text: Seq<char>,
    pub col_span: u16,
    pub row_span: u16,
}

/// The state of span resolution: the rows emitted so far, the row being
/// built, the current grid column, the open vertical-merge anchors by
/// column, and whether every step so far stayed in range.
pub struct TableBuild {
    pub rows: Seq<Seq<CellView>>,
    pub row: Seq<CellView>,
    pub col: u32,
    pub anchors: Map<u32, (usize, usize)>,
    pub ok: bool,
}

pub open spec fn cell_view_of(cell: RawTableCell) -> CellView {
    CellView { text: cell_text_of(cell.paragraphs@), col_span: cell.properties.grid_span, row_span: 1 }
}

/// Whether the anchor that a continuation cell grows lies in an emitted
/// row (and not in the row being built).
pub open spec fn can_grow(b: TableBuild, r: usize, c: usize) -> bool {
    &&& r < b.rows.len()
    &&& c < b.rows[r as int].len()
}

pub open spec fn grow(b: TableBuild, r: usize, c: usize) -> TableBuild {
    let old_cell = b.rows[r as int][c as int];
    let new_cell = CellView { row_span: old_cell.row_span.wrapping_add(1), ..old_cell };
    TableBuild { rows: b.rows.update(r as int, b.rows[r as int].update(c as int, new_cell)), ..b }
}

/// One cell: a continuation grows the anchor at its column, a restart
/// becomes the new anchor there, a plain cell clears it; the column then
/// advances by the cell's span. Counts wrap as unsigned machine integers.
pub open spec fn cell_step(b: TableBuild, cell: RawTableCell) -> TableBuild {
    let b2 = match cell.properties.v_merge {
        Some(RawVMerge::Continue) => {
            if b.anchors.contains_key(b.col) {
                let (r, c) = b.anchors[b.col];
                if can_grow(b, r, c) { grow(b, r, c) } else { TableBuild { ok: false, ..b } }
            } else {
                b
            }
        },
        Some(RawVMerge::Restart) => TableBuild {
            row: b.row.push(cell_view_of(cell)),
            anchors: b.anchors.insert(b.col, (b.rows.len() as usize, b.row.len() as usize)),
            ..b
        },
        None => TableBuild { row: b.row.push(cell_view_of(cell)), anchors: b.anchors.remove(b.col), ..b },
    };
    TableBuild { col: b2.col.wrapping_add(cell.properties.grid_span as u32), ..b2 }
}

pub open spec fn row_fold(b: TableBuild, cells: Seq<RawTableCell>) -> TableBuild
    decreases cells.len(),
{
    if cells.len() == 0 { b } else { cell_step(row_fold(b, cells.drop_last()), cells.last()) }
}

pub open spec fn start_row(b: TableBuild) -> TableBuild {
    TableBuild { row: Seq::empty(), col: 0, ..b }
}

pub open spec fn end_row(b: TableBuild) -> TableBuild {
    TableBuild { rows: b.rows.push(b.row), row: Seq::empty(), ..b }
}

pub open spec fn table_fold(rows: Seq<RawTableRow>) -> TableBuild
    decreases rows.len(),
{
    if rows.len() == 0 {
        TableBuild { rows: Seq::empty(), row: Seq::empty(), col: 0, anchors: Map::empty(), ok: true }
    } else {
        end_row(row_fold(start_row(table_fold(rows.drop_last())), rows.last().cells@))
    }
}

/// The rows of a table with spans resolved.
pub open spec fn resolved_rows(raw: RawTable) -> Seq<Seq<CellView>> {
    table_fold(raw.rows@).rows
}

/// Whether resolving the table's spans stays in range: no continuation
/// cell meets an anchor set earlier in its own row (possible only with
/// zero-width spans), which is not yet an emitted row.
pub open spec fn spans_resolvable(raw: RawTable) -> bool {
    table_fold(raw.rows@).ok
}

pub open spec fn row_matches(cells: Seq<TableCell>, v: Seq<CellView>) -> bool {
    &&& cells.len() == v.len()
    &&& forall|c: int| 0 <= c < v.len() ==> {
        &&& (#[trigger] cells[c]).text@ == v[c].text
        &&& cells[c].col_span == v[c].col_span
        &&& cells[c].row_span == v[c].row_span
    }
}

pub open spec fn rows_match(rows: Seq<TableRow>, v: Seq<Seq<CellView>>) -> bool {
    &&& rows.len() == v.len()
    &&& forall|r: int| 0 <= r < v.len() ==> row_matches((#[trigger] rows[r]).cells@, v[r])
}

proof fn lemma_cell_step_not_ok(b: TableBuild, cell: RawTableCell)
    requires
        !b.ok,
    ensures
        !cell_step(b, cell).ok,
{
}

proof fn lemma_row_fold_not_ok(b: TableBuild, cells: Seq<RawTableCell>)
    requires
        !b.ok,
    ensures
        !row_fold(b, cells).ok,
    decreases cells.len(),
{
    if cells.len() > 0 {
        lemma_row_fold_not_ok(b, cells.drop_last());
    }
}

/// A failure is never undone by the cells or rows that follow it.
proof fn lemma_row_fold_ok_prefix(b: TableBuild, cells: Seq<RawTableCell>, k: int)
    requires
        0 <= k <= cells.len(),
        row_fold(b, cells).ok,
    ensures
        row_fold(b, cells.take(k)).ok,
    decreases cells.len() - k,
{
    if k < cells.len() {
        assert(cells.take(cells.len() as int) =~= cells);
        lemma_row_fold_ok_prefix(b, cells, k + 1);
        assert(cells.take(k + 1).drop_last() =~= cells.take(k));
        if !row_fold(b, cells.take(k)).ok {
            lemma_cell_step_not_ok(row_fold(b, cells.take(k)), cells.take(k + 1).last());
        }
    } else {
        assert(cells.take(k) =~= cells);
    }
}

proof fn lemma_table_fold_ok_prefix(rows: Seq<RawTableRow>, k: int)
    requires
        0 <= k <= rows.len(),
        table_fold(rows).ok,
    ensures
        table_fold(rows.take(k)).ok,
    decreases rows.len() - k,
{
    if k < rows.len() {
        lemma_table_fold_ok_prefix(rows, k + 1);
        assert(rows.take(k + 1).drop_last() =~= rows.take(k));
        if !table_fold(rows.take(k)).ok {
            lemma_row_fold_not_ok(start_row(table_fold(rows.take(k))), rows.take(k + 1).last().cells@);
        }
    } else {
        assert(rows.take(k) =~= rows);
    }
}

/// Anchors point at emitted cells or at cells of the row being built.
pub open spec fn anchors_valid(b: TableBuild) -> bool {
    forall|k: u32| #[trigger] b.anchors.contains_key(k) ==> {
        let (r, c) = b.anchors[k];
        ||| (r < b.rows.len() && c < b.rows[r as int].len())
        ||| (r == b.rows.len() && c < b.row.len())
    }
}

fn paragraph_text_into(out: &mut String, content: &Vec<RawInline>)
    ensures
        final(out)@ == old(out)@ + inline_text(content@),
{
    let mut i: usize = 0;
    while i < content.len()
        invariant
            i <= content@.len(),
            out@ == old(out)@ + inline_text(content@.take(i as int)),
        decreases content.len() - i,
    {
        assert(content@.take(i + 1).drop_last() =~= content@.take(i as int));
        match &content[i] {
            RawInline::Run(run) => {
                match &run.text {
                    Some(t) => out.append(t.as_str()),
                    None => {},
                }
            },
            RawInline::Hyperlink(_) => {},
        }
        i = i + 1;
    }
    assert(content@.take(content@.len() as int) =~= content@);
}

/// The text of a cell: its paragraphs' run text, one line per paragraph.
fn cell_text(cell: &RawTableCell) -> (s: String)
    ensures
        s@ == cell_text_of(cell.paragraphs@),
{
    let mut s = String::new();
    let mut i: usize = 0;
    while i < cell.paragraphs.len()
        invariant
            i <= cell.paragraphs@.len(),
            s@ == cell_text_of(cell.paragraphs@.take(i as int)),
        decreases cell.paragraphs.len() - i,
    {
        assert(cell.paragraphs@.take(i + 1).drop_last() =~= cell.paragraphs@.take(i as int));
        if i > 0 {
            s.push('\n');
        }
        paragraph_text_into(&mut s, &cell.paragraphs[i].content);
        i = i + 1;
    }
    assert(cell.paragraphs@.take(cell.paragraphs@.len() as int) =~= cell.paragraphs@);
    s
}

/// Resolves the spans of a table: `col_span` comes from `w:gridSpan`, and
/// each `w:vMerge` continuation adds one to the `row_span` of the restart
/// cell at the same grid column; continuation cells are not emitted.
pub fn build_table(raw: &RawTable) -> (rows: Vec<TableRow>)
    requires
        spans_resolvable(*raw),
    ensures
        rows_match(rows@, resolved_rows(*raw)),
{
    let ghost all = raw.rows@;
    let mut rows: Vec<TableRow> = Vec::new();
    let mut anchors: HashMap<u32, (usize, usize)> = HashMap::new();
    let mut ri: usize = 0;
    while ri < raw.rows.len()
        invariant
            ri <= all.len(),
            all == raw.rows@,
            table_fold(all).ok,
            rows_match(rows@, table_fold(all.take(ri as int)).rows),
            anchors@ == table_fold(all.take(ri as int)).anchors,
            anchors_valid(table_fold(all.take(ri as int))),
            table_fold(all.take(ri as int)).row.len() == 0,
        decreases all.len() - ri,
    {
        proof {
            lemma_table_fold_ok_prefix(all, ri + 1);
            assert(all.take(ri + 1).drop_last() =~= all.take(ri as int));
        }
        let raw_row = &raw.rows[ri];
        let ghost cells = raw_row.cells@;
        let ghost b0 = start_row(table_fold(all.take(ri as int)));
        let row_index = rows.len();
        let mut row_cells: Vec<TableCell> = Vec::new();
        let mut col: u32 = 0;
        let mut ci: usize = 0;
        while ci < raw_row.cells.len()
            invariant
                ci <= cells.len(),
                cells == raw_row.cells@,
                row_index == rows@.len(),
                row_fold(b0, cells).ok,
                b0.rows.len() == rows@.len(),
                rows_match(rows@, row_fold(b0, cells.take(ci as int)).rows),
                row_matches(row_cells@, row_fold(b0, cells.take(ci as int)).row),
                col == row_fold(b0, cells.take(ci as int)).col,
                anchors@ == row_fold(b0, cells.take(ci as int)).anchors,
                anchors_valid(row_fold(b0, cells.take(ci as int))),
                row_fold(b0, cells.take(ci as int)).rows.len() == b0.rows.len(),
            decreases cells.len() - ci,
        {
            let ghost b = row_fold(b0, cells.take(ci as int));
            proof {
                lemma_row_fold_ok_prefix(b0, cells, ci + 1);
                assert(cells.take(ci + 1).drop_last() =~= cells.take(ci as int));
                assert(cells.take(ci + 1).last() == cells[ci as int]);
            }
            let raw_cell = &raw_row.cells[ci];
            let span = raw_cell.properties.grid_span;
            match &raw_cell.properties.v_merge {
                Some(RawVMerge::Continue) => {
                    match anchors.get(&col) {
                        Some(anchor) => {
                            let (r, c) = *anchor;
                            rows[r].cells[c].row_span = rows[r].cells[c].row_span.wrapping_add(1);
                        },
                        None => {},
                    }
                },
                Some(RawVMerge::Restart) => {
                    let cell_index = row_cells.len();
                    row_cells.push(TableCell { text: cell_text(raw_cell), col_span: span, row_span: 1 });
                    anchors.insert(col, (row_index, cell_index));
                },
                None => {
                    row_cells.push(TableCell { text: cell_text(raw_cell), col_span: span, row_span: 1 });
                    anchors.remove(&col);
                },
            }
            col = col.wrapping_add(span as u32);
            ci = ci + 1;
            proof {
                let b2 = row_fold(b0, cells.take(ci as int));
                assert(b2 == cell_step(b, cells[ci - 1]));
                assert(rows_match(rows@, b2.rows));
                assert(row_matches(row_cells@, b2.row));
                assert(anchors_valid(b2));
            }
        }
        proof {
            assert(cells.take(cells.len() as int) =~= cells);
        }
        rows.push(TableRow { cells: row_cells });
        ri = ri + 1;
        proof {
            assert(all.take(ri as int).drop_last() =~= all.take(ri - 1));
            assert(all.take(ri as int).last() == all[ri - 1]);
            assert(rows_match(rows@, table_fold(all.take(ri as int)).rows));
            assert(anchors_valid(table_fold(all.take(ri as int))));
        }
    }
    proof {
        assert(all.take(all.len() as int) =~= all);
    }
    rows
}

/// Whether `build_table` accepts the table: runs span resolution without
/// building cells and reports whether every continuation cell found its
/// anchor in an emitted row.
pub fn table_spans_resolvable(raw: &RawTable) -> (ok: bool)
    ensures
        ok == spans_resolvable(*raw),
{
    let ghost all = raw.rows@;
    let mut anchors: HashMap<u32, (usize, usize)> = HashMap::new();
    let mut ok = true;
    let mut ri: usize = 0;
    while ri < raw.rows.len()
        invariant
            ri <= all.len(),
            all == raw.rows@,
            ri == table_fold(all.take(ri as int)).rows.len(),
            ok == table_fold(all.take(ri as int)).ok,
            anchors@ == table_fold(all.take(ri as int)).anchors,
            anchors_valid(table_fold(all.take(ri as int))),
            table_fold(all.take(ri as int)).row.len() == 0,
        decreases all.len() - ri,
    {
        proof {
            assert(all.take(ri + 1).drop_last() =~= all.take(ri as int));
        }
        let raw_row = &raw.rows[ri];
        let ghost cells = raw_row.cells@;
        let ghost b0 = start_row(table_fold(all.take(ri as int)));
        let mut row_len: usize = 0;
        let mut col: u32 = 0;
        let mut ci: usize = 0;
        while ci < raw_row.cells.len()
            invariant
                ci <= cells.len(),
                cells == raw_row.cells@,
                ri == b0.rows.len(),
                ri == row_fold(b0, cells.take(ci as int)).rows.len(),
                row_len == row_fold(b0, cells.take(ci as int)).row.len(),
                ok == row_fold(b0, cells.take(ci as int)).ok,
                col == row_fold(b0, cells.take(ci as int)).col,
                anchors@ == row_fold(b0, cells.take(ci as int)).anchors,
                anchors_valid(row_fold(b0, cells.take(ci as int))),
                ci <= usize::MAX,
                row_len <= ci,
            decreases cells.len() - ci,
        {
            proof {
                assert(cells.take(ci + 1).drop_last() =~= cells.take(ci as int));
                assert(cells.take(ci + 1).last() == cells[ci as int]);
            }
            let raw_cell = &raw_row.cells[ci];
            match &raw_cell.properties.v_merge {
                Some(RawVMerge::Continue) => {
                    match anchors.get(&col) {
                        Some(anchor) => {
                            let (r, _c) = *anchor;
                            if r >= ri {
                                ok = false;
                            }
                        },
                        None => {},
                    }
                },
                Some(RawVMerge::Restart) => {
                    anchors.insert(col, (ri, row_len));
                    row_len = row_len + 1;
                },
                None => {
                    anchors.remove(&col);
                    row_len = row_len + 1;
                },
            }
            col = col.wrapping_add(raw_cell.properties.grid_span as u32);
            ci = ci + 1;
            proof {
                let b2 = row_fold(b0, cells.take(ci as int));
                assert(anchors_valid(b2));
            }
        }
        proof {
            assert(cells.take(cells.len() as int) =~= cells);
        }
        ri = ri + 1;
        proof {
            assert(all.take(ri as int).drop_last() =~= all.take(ri - 1));
            assert(all.take(ri as int).last() == all[ri - 1]);
            assert(anchors_valid(table_fold(all.take(ri as int))));
        }
    }
    proof {
        assert(all.take(all.len() as int) =~= all);
    }
    ok
}


// ---------------------------------------------------------------------
// What a cell's text is made of
// ---------------------------------------------------------------------

/// The run texts of each paragraph of a cell, in order.
pub open spec fn paragraph_texts(ps: Seq<RawParagraph>) -> Seq<Seq<char>> {
    Seq::new(ps.len(), |i: int| inline_text(ps[i].content@))
}

/// A cell's text holds every one of its paragraphs: their run texts, in
/// order, one line each, joined by newlines.
pub proof fn law_cell_text_joins_paragraphs(ps: Seq<RawParagraph>)
    ensures
        cell_text_of(ps) == join(paragraph_texts(ps), "\n"@),
    decreases ps.len(),
{
    reveal_strlit("\n");
    if ps.len() > 1 {
        law_cell_text_joins_paragraphs(ps.drop_last());
        assert(paragraph_texts(ps).drop_last() =~= paragraph_texts(ps.drop_last()));
        assert(seq!['\n'] =~= "\n"@);
    } else if ps.len() == 1 {
        assert(paragraph_texts(ps)[0] == inline_text(ps[0].content@));
    }
}

/// No cell of the rows is part of a vertical merge.
pub open spec fn rows_unmerged(rows: Seq<RawTableRow>) -> bool {
    forall|r: int, c: int| 0 <= r < rows.len() && 0 <= c < rows[r].cells@.len()
        ==> (#[trigger] rows[r].cells@[c]).properties.v_merge is None
}

/// The resolved view of each cell of plain rows.
pub open spec fn plain_rows(rows: Seq<RawTableRow>) -> Seq<Seq<CellView>> {
    Seq::new(rows.len(), |r: int| Seq::new(rows[r].cells@.len(), |c: int| cell_view_of(rows[r].cells@[c])))
}

proof fn lemma_row_fold_plain(b: TableBuild, cells: Seq<RawTableCell>)
    requires
        forall|c: int| 0 <= c < cells.len() ==> (#[trigger] cells[c]).properties.v_merge is None,
    ensures
        row_fold(b, cells).rows == b.rows,
        row_fold(b, cells).ok == b.ok,
        row_fold(b, cells).row == b.row + Seq::new(cells.len(), |c: int| cell_view_of(cells[c])),
    decreases cells.len(),
{
    if cells.len() > 0 {
        let pre = cells.drop_last();
        assert forall|c: int| 0 <= c < pre.len() implies (#[trigger] pre[c]).properties.v_merge is None by {
            assert(pre[c] == cells[c]);
        }
        lemma_row_fold_plain(b, pre);
        assert(cells.last().properties.v_merge is None);
        assert(b.row + Seq::new(cells.len(), |c: int| cell_view_of(cells[c]))
            =~= (b.row + Seq::new(pre.len(), |c: int| cell_view_of(pre[c]))).push(cell_view_of(cells.last())));
    }
}

proof fn lemma_table_fold_plain(rows: Seq<RawTableRow>)
    requires
        rows_unmerged(rows),
    ensures
        table_fold(rows).rows == plain_rows(rows),
        table_fold(rows).row.len() == 0,
        table_fold(rows).ok,
    decreases rows.len(),
{
    if rows.len() == 0 {
        assert(plain_rows(rows) =~= Seq::<Seq<CellView>>::empty());
    } else {
        let pre = rows.drop_last();
        assert forall|r: int, c: int| 0 <= r < pre.len() && 0 <= c < pre[r].cells@.len()
            implies (#[trigger] pre[r].cells@[c]).properties.v_merge is None by {
            assert(pre[r] == rows[r]);
        }
        lemma_table_fold_plain(pre);
        let cells = rows.last().cells@;
        assert forall|c: int| 0 <= c < cells.len() implies (#[trigger] cells[c]).properties.v_merge is None by {
            assert(rows[rows.len() - 1].cells@[c] == cells[c]);
        }
        let b = start_row(table_fold(pre));
        lemma_row_fold_plain(b, cells);
        assert(b.row =~= Seq::<CellView>::empty());
        assert(Seq::<CellView>::empty() + Seq::new(cells.len(), |c: int| cell_view_of(cells[c]))
            =~= Seq::new(cells.len(), |c: int| cell_view_of(cells[c])));
        assert(plain_rows(rows) =~= plain_rows(pre).push(Seq::new(cells.len(), |c: int| cell_view_of(cells[c]))));
    }
}

/// A table without vertical merges resolves cell for cell: one row per
/// row, and each cell keeps its column span, spans one row, and holds its
/// paragraphs' run texts joined by newlines.
pub proof fn law_unmerged_table_cells(raw: RawTable)
    requires
        rows_unmerged(raw.rows@),
    ensures
        spans_resolvable(raw),
        resolved_rows(raw).len() == raw.rows@.len(),
        forall|r: int| 0 <= r < raw.rows@.len() ==> (#[trigger] resolved_rows(raw)[r]).len() == raw.rows@[r].cells@.len(),
        forall|r: int, c: int| 0 <= r < raw.rows@.len() && 0 <= c < raw.rows@[r].cells@.len() ==> {
            let cell = raw.rows@[r].cells@[c];
            let v = #[trigger] resolved_rows(raw)[r][c];
            &&& v.text == join(paragraph_texts(cell.paragraphs@), "\n"@)
            &&& v.col_span == cell.properties.grid_span
            &&& v.row_span == 1
        },
{
    lemma_table_fold_plain(raw.rows@);
    assert forall|r: int, c: int| 0 <= r < raw.rows@.len() && 0 <= c < raw.rows@[r].cells@.len() implies {
        let cell = raw.rows@[r].cells@[c];
        let v = #[trigger] resolved_rows(raw)[r][c];
        &&& v.text == join(paragraph_texts(cell.paragraphs@), "\n"@)
        &&& v.col_span == cell.properties.grid_span
        &&& v.row_span == 1
    } by {
        law_cell_text_joins_paragraphs(raw.rows@[r].cells@[c].paragraphs@);
    }
}
} // verus!
