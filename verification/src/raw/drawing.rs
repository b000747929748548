use vstd::prelude::*;

verus! {

/// A `<w:drawing>` reference to an embedded picture.
#[derive(Debug, Clone, PartialEq, Eq)]
pub struct RawDrawing {
    pub rel_id: String,
    pub width_emu: Option<u64>,
    pub height_emu: Option<u64>,
    pub title: Option<String>,
    pub description: Option<String>,
    pub is_inline: bool,
}


pub struct DrawingView {
    pub rel_id: Seq<char>,
    pub width_emu: Option<u64>,
    pub height_emu: Option<u64>,
    pub title: Option<Seq<char>>,
    pub description: Option<Seq<char>>,
    pub is_inline: bool,
}

impl View for RawDrawing {
    type V = DrawingView;

    open spec fn view(&self) -> DrawingView {
        DrawingView {
            rel_id: self.rel_id@,
            width_emu: self.width_emu,
            height_emu: self.height_emu,
            title: crate::raw::runs::opt_view(self.title),
            description: crate::raw::runs::opt_view(self.description),
            is_inline: self.is_inline,
        }
    }
}

} // verus!
