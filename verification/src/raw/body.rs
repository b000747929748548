use vstd::prelude::*;
use crate::raw::paragraphs::{ParagraphView, RawParagraph};
use crate::raw::tables::{RawTable, TableView};

verus! {

/// Which page slot a header or footer reference fills.
#[derive(Debug, Clone, Copy, PartialEq, Eq)]
pub enum SectionRefType {
    Default,
    First,
    Even,
}

/// A `<w:headerReference>` / `<w:footerReference>`.
#[derive(Debug, Clone, PartialEq, Eq)]
pub struct RawSectionRef {
    pub rel_id: String,
    pub ref_type: SectionRefType,
}

/// The header and footer references of a `<w:sectPr>`.
#[derive(Debug, Clone, PartialEq, Eq)]
pub struct RawSectionProperties {
    pub header_refs: Vec<RawSectionRef>,
    pub footer_refs: Vec<RawSectionRef>,
}

impl Default for RawSectionProperties {
    fn default() -> (r: Self)
        ensures
            r.header_refs@.len() == 0,
            r.footer_refs@.len() == 0,
    {
        RawSectionProperties { header_refs: Vec::new(), footer_refs: Vec::new() }
    }
}

#[derive(Debug, Clone, PartialEq, Eq)]
pub enum RawBodyItem {
    Paragraph(RawParagraph),
    Table(RawTable),
    SectionBreak(RawSectionProperties),
}

/// The block-level content of a `<w:body>`, `<w:hdr>` or `<w:ftr>`.
#[derive(Debug, Clone, PartialEq, Eq)]
pub struct RawBody {
    pub items: Vec<RawBodyItem>,
}

impl Default for RawBody {
    fn default() -> (r: Self)
        ensures
            r.items@.len() == 0,
    {
        RawBody { items: Vec::new() }
    }
}


pub struct SectionRefView {
    pub rel_id: Seq<char>,
    pub ref_type: SectionRefType,
}

impl View for RawSectionRef {
    type V = SectionRefView;

    open spec fn view(&self) -> SectionRefView {
        SectionRefView { rel_id: self.rel_id@, ref_type: self.ref_type }
    }
}

pub struct SectionPropsView {
    pub header_refs: Seq<SectionRefView>,
    pub footer_refs: Seq<SectionRefView>,
}

impl View for RawSectionProperties {
    type V = SectionPropsView;

    open spec fn view(&self) -> SectionPropsView {
        SectionPropsView {
            header_refs: self.header_refs@.map_values(|r: RawSectionRef| r@),
            footer_refs: self.footer_refs@.map_values(|r: RawSectionRef| r@),
        }
    }
}

pub enum BodyItemView {
    Paragraph(ParagraphView),
    Table(TableView),
    SectionBreak(SectionPropsView),
}

impl View for RawBodyItem {
    type V = BodyItemView;

    open spec fn view(&self) -> BodyItemView {
        match self {
            RawBodyItem::Paragraph(p) => BodyItemView::Paragraph(p@),
            RawBodyItem::Table(t) => BodyItemView::Table(t@),
            RawBodyItem::SectionBreak(s) => BodyItemView::SectionBreak(s@),
        }
    }
}

impl View for RawBody {
    type V = Seq<BodyItemView>;

    open spec fn view(&self) -> Seq<BodyItemView> {
        self.items@.map_values(|i: RawBodyItem| i@)
    }
}

} // verus!
