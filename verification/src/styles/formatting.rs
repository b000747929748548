use vstd::prelude::*;
use crate::raw::paragraphs::RawNumPr;

verus! {

/// Formatting after all style layers were applied.
#[derive(Debug, Clone, PartialEq, Eq)]
pub struct ResolvedFormatting {
    pub bold: bool,
    pub italic: bool,
    pub underline: bool,
    pub strikethrough: bool,
    pub font_size_half_points: Option<u32>,
    pub color: Option<String>,
    pub outline_level: Option<u8>,
    /// 1..=9 for outline levels 0..=8; level 9 is body text.
    pub heading_level: Option<u8>,
    /// Numbering reference resolved through the style chain: Word's list
    /// styles carry the `numPr` on the style rather than the paragraph.
    pub num_pr: Option<RawNumPr>,
}

impl ResolvedFormatting {
    /// Nothing set.
    pub open spec fn is_plain(self) -> bool {
        &&& !self.bold
        &&& !self.italic
        &&& !self.underline
        &&& !self.strikethrough
        &&& self.font_size_half_points is None
        &&& self.color is None
        &&& self.outline_level is None
        &&& self.heading_level is None
        &&& self.num_pr is None
    }
}

impl Default for ResolvedFormatting {
    fn default() -> (r: Self)
        ensures
            r.is_plain(),
    {
        ResolvedFormatting {
            bold: false,
            italic: false,
            underline: false,
            strikethrough: false,
            font_size_half_points: None,
            color: None,
            outline_level: None,
            heading_level: None,
            num_pr: None,
        }
    }
}

} // verus!
