use vstd::prelude::*;
use crate::raw::drawing::{DrawingView, RawDrawing};
use crate::raw::fields::{FieldView, RawFieldInst};
use crate::raw::runs::{RawRun, RunView, opt_view, runs_view};

verus! {

/// A `<w:numPr>` numbering reference.
#[derive(Debug, Clone, Copy, PartialEq, Eq)]
pub struct RawNumPr {
    pub num_id: u32,
    pub ilvl: u8,
}

/// Direct paragraph formatting (`<w:pPr>`).
#[derive(Debug, Clone, PartialEq, Eq)]
pub struct RawParagraphProperties {
    pub style_id: Option<String>,
    pub num_pr: Option<RawNumPr>,
    pub alignment: Option<String>,
    pub outline_level: Option<u8>,
    pub keep_next: bool,
    pub page_break_before: bool,
}

impl RawParagraphProperties {
    /// No paragraph formatting declared.
    pub open spec fn is_empty(self) -> bool {
        &&& self.style_id is None
        &&& self.num_pr is None
        &&& self.alignment is None
        &&& self.outline_level is None
        &&& !self.keep_next
        &&& !self.page_break_before
    }
}

impl Default for RawParagraphProperties {
    fn default() -> (r: Self)
        ensures
            r.is_empty(),
    {
        RawParagraphProperties {
            style_id: None,
            num_pr: None,
            alignment: None,
            outline_level: None,
            keep_next: false,
            page_break_before: false,
        }
    }
}

/// A `<w:hyperlink>`: its relationship id or in-document anchor, and the
/// runs it wraps.
#[derive(Debug, Clone, PartialEq, Eq)]
pub struct RawHyperlink {
    pub rel_id: Option<String>,
    pub anchor: Option<String>,
    pub runs: Vec<RawRun>,
}

/// An inline child of a paragraph, in document order.
#[derive(Debug, Clone, PartialEq, Eq)]
pub enum RawInline {
    Run(RawRun),
    Hyperlink(RawHyperlink),
}

/// A `<w:p>` paragraph. `content` keeps runs and hyperlinks interleaved in
/// document order; `runs`, `hyperlinks`, `drawings` and `fields` are
/// separate per-kind collections that the body parser leaves empty.
#[derive(Debug, Clone, PartialEq, Eq)]
pub struct RawParagraph {
    pub properties: RawParagraphProperties,
    pub content: Vec<RawInline>,
    pub runs: Vec<RawRun>,
    pub hyperlinks: Vec<RawHyperlink>,
    pub drawings: Vec<RawDrawing>,
    pub fields: Vec<RawFieldInst>,
    pub footnote_ref_ids: Vec<u32>,
    pub endnote_ref_ids: Vec<u32>,
    pub comment_ref_ids: Vec<u32>,
}

impl RawParagraph {
    /// A paragraph with no properties and no content.
    pub open spec fn is_blank(self) -> bool {
        &&& self.properties.is_empty()
        &&& self.content@.len() == 0
        &&& self.runs@.len() == 0
        &&& self.hyperlinks@.len() == 0
        &&& self.drawings@.len() == 0
        &&& self.fields@.len() == 0
        &&& self.footnote_ref_ids@.len() == 0
        &&& self.endnote_ref_ids@.len() == 0
        &&& self.comment_ref_ids@.len() == 0
    }
}

impl Default for RawParagraph {
    fn default() -> (r: Self)
        ensures
            r.is_blank(),
    {
        RawParagraph {
            properties: RawParagraphProperties::default(),
            content: Vec::new(),
            runs: Vec::new(),
            hyperlinks: Vec::new(),
            drawings: Vec::new(),
            fields: Vec::new(),
            footnote_ref_ids: Vec::new(),
            endnote_ref_ids: Vec::new(),
            comment_ref_ids: Vec::new(),
        }
    }
}


pub struct ParaPropsView {
    pub style_id: Option<Seq<char>>,
    pub num_pr: Option<RawNumPr>,
    pub alignment: Option<Seq<char>>,
    pub outline_level: Option<u8>,
    pub keep_next: bool,
    pub page_break_before: bool,
}

impl View for RawParagraphProperties {
    type V = ParaPropsView;

    open spec fn view(&self) -> ParaPropsView {
        ParaPropsView {
            style_id: opt_view(self.style_id),
            num_pr: self.num_pr,
            alignment: opt_view(self.alignment),
            outline_level: self.outline_level,
            keep_next: self.keep_next,
            page_break_before: self.page_break_before,
        }
    }
}

pub struct HyperlinkView {
    pub rel_id: Option<Seq<char>>,
    pub anchor: Option<Seq<char>>,
    pub runs: Seq<RunView>,
}

impl View for RawHyperlink {
    type V = HyperlinkView;

    open spec fn view(&self) -> HyperlinkView {
        HyperlinkView { rel_id: opt_view(self.rel_id), anchor: opt_view(self.anchor), runs: runs_view(self.runs@) }
    }
}

pub enum InlineView {
    Run(RunView),
    Hyperlink(HyperlinkView),
}

impl View for RawInline {
    type V = InlineView;

    open spec fn view(&self) -> InlineView {
        match self {
            RawInline::Run(r) => InlineView::Run(r@),
            RawInline::Hyperlink(h) => InlineView::Hyperlink(h@),
        }
    }
}

pub struct ParagraphView {
    pub properties: ParaPropsView,
    pub content: Seq<InlineView>,
    pub runs: Seq<RunView>,
    pub hyperlinks: Seq<HyperlinkView>,
    pub drawings: Seq<DrawingView>,
    pub fields: Seq<FieldView>,
    pub footnote_ref_ids: Seq<u32>,
    pub endnote_ref_ids: Seq<u32>,
    pub comment_ref_ids: Seq<u32>,
}

impl View for RawParagraph {
    type V = ParagraphView;

    open spec fn view(&self) -> ParagraphView {
        ParagraphView {
            properties: self.properties@,
            content: self.content@.map_values(|x: RawInline| x@),
            runs: runs_view(self.runs@),
            hyperlinks: self.hyperlinks@.map_values(|x: RawHyperlink| x@),
            drawings: self.drawings@.map_values(|x: RawDrawing| x@),
            fields: self.fields@.map_values(|x: RawFieldInst| x@),
            footnote_ref_ids: self.footnote_ref_ids@,
            endnote_ref_ids: self.endnote_ref_ids@,
            comment_ref_ids: self.comment_ref_ids@,
        }
    }
}

/// The value of an empty paragraph with the given properties.
pub open spec fn blank_paragraph(properties: ParaPropsView) -> ParagraphView {
    ParagraphView {
        properties,
        content: Seq::empty(),
        runs: Seq::empty(),
        hyperlinks: Seq::empty(),
        drawings: Seq::empty(),
        fields: Seq::empty(),
        footnote_ref_ids: Seq::empty(),
        endnote_ref_ids: Seq::empty(),
        comment_ref_ids: Seq::empty(),
    }
}

} // verus!
