use vstd::prelude::*;
use crate::raw::paragraphs::{ParagraphView, RawParagraph};

verus! {

/// `<w:vMerge>`: `restart` opens a vertical merge, anything else continues one.
#[derive(Debug, Clone, Copy, PartialEq, Eq)]
pub enum RawVMerge {
    Restart,
    Continue,
}

/// `<w:tcPr>` cell properties.
#[derive(Debug, Clone, PartialEq, Eq)]
pub struct RawTableCellProperties {
    pub grid_span: u16,
    pub v_merge: Option<RawVMerge>,
    pub width: Option<u32>,
}

impl Default for RawTableCellProperties {
    fn default() -> (r: Self)
        ensures
            r.grid_span == 1,
            r.v_merge is None,
            r.width is None,
    {
        RawTableCellProperties { grid_span: 1, v_merge: None, width: None }
    }
}

#[derive(Debug, Clone, PartialEq, Eq)]
pub struct RawTableCell {
    pub properties: RawTableCellProperties,
    pub paragraphs: Vec<RawParagraph>,
}

#[derive(Debug, Clone, PartialEq, Eq)]
pub struct RawTableRow {
    pub cells: Vec<RawTableCell>,
}

/// `<w:tblPr>` table properties; only the table style is kept.
#[derive(Debug, Clone, PartialEq, Eq)]
pub struct RawTableProperties {
    pub style_id: Option<String>,
}

impl Default for RawTableProperties {
    fn default() -> (r: Self)
        ensures
            r.style_id is None,
    {
        RawTableProperties { style_id: None }
    }
}

#[derive(Debug, Clone, PartialEq, Eq)]
pub struct RawTable {
    pub properties: RawTableProperties,
    pub rows: Vec<RawTableRow>,
}


pub struct CellView {
    pub properties: RawTableCellProperties,
    pub paragraphs: Seq<ParagraphView>,
}

impl View for RawTableCell {
    type V = CellView;

    open spec fn view(&self) -> CellView {
        CellView { properties: self.properties, paragraphs: self.paragraphs@.map_values(|p: RawParagraph| p@) }
    }
}

pub struct RowView {
    pub cells: Seq<CellView>,
}

impl View for RawTableRow {
    type V = RowView;

    open spec fn view(&self) -> RowView {
        RowView { cells: self.cells@.map_values(|c: RawTableCell| c@) }
    }
}

pub struct TableView {
    pub style_id: Option<Seq<char>>,
    pub rows: Seq<RowView>,
}

impl View for RawTable {
    type V = TableView;

    open spec fn view(&self) -> TableView {
        TableView {
            style_id: crate::raw::runs::opt_view(self.properties.style_id),
            rows: self.rows@.map_values(|r: RawTableRow| r@),
        }
    }
}

} // verus!
