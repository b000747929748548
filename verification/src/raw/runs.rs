use vstd::prelude::*;

verus! {

/// Direct run formatting (`<w:rPr>`). Toggles are `Some(false)` when the
/// document switches them off explicitly and `None` when it says nothing.
#[derive(Debug, Clone, PartialEq, Eq)]
pub struct RawRunProperties {
    pub bold: Option<bool>,
    pub italic: Option<bool>,
    pub underline: Option<bool>,
    pub strikethrough: Option<bool>,
    pub font_size_half_points: Option<u32>,
    pub color: Option<String>,
    pub highlight: Option<String>,
    pub vertical_align: Option<String>,
}

impl RawRunProperties {
    /// No formatting declared.
    pub open spec fn is_empty(self) -> bool {
        &&& self.bold is None
        &&& self.italic is None
        &&& self.underline is None
        &&& self.strikethrough is None
        &&& self.font_size_half_points is None
        &&& self.color is None
        &&& self.highlight is None
        &&& self.vertical_align is None
    }
}

impl Default for RawRunProperties {
    fn default() -> (r: Self)
        ensures
            r.is_empty(),
    {
        RawRunProperties {
            bold: None,
            italic: None,
            underline: None,
            strikethrough: None,
            font_size_half_points: None,
            color: None,
            highlight: None,
            vertical_align: None,
        }
    }
}

/// A `<w:r>` run: its concatenated `<w:t>` text, if any, and its formatting.
#[derive(Debug, Clone, PartialEq, Eq)]
pub struct RawRun {
    pub text: Option<String>,
    pub properties: RawRunProperties,
}


/// A string option by its characters.
pub open spec fn opt_view(o: Option<String>) -> Option<Seq<char>> {
    match o {
        Some(s) => Some(s@),
        None => None,
    }
}

pub struct RunPropsView {
    pub bold: Option<bool>,
    pub italic: Option<bool>,
    pub underline: Option<bool>,
    pub strikethrough: Option<bool>,
    pub font_size_half_points: Option<u32>,
    pub color: Option<Seq<char>>,
    pub highlight: Option<Seq<char>>,
    pub vertical_align: Option<Seq<char>>,
}

impl View for RawRunProperties {
    type V = RunPropsView;

    open spec fn view(&self) -> RunPropsView {
        RunPropsView {
            bold: self.bold,
            italic: self.italic,
            underline: self.underline,
            strikethrough: self.strikethrough,
            font_size_half_points: self.font_size_half_points,
            color: opt_view(self.color),
            highlight: opt_view(self.highlight),
            vertical_align: opt_view(self.vertical_align),
        }
    }
}

pub struct RunView {
    pub text: Option<Seq<char>>,
    pub properties: RunPropsView,
}

impl View for RawRun {
    type V = RunView;

    open spec fn view(&self) -> RunView {
        RunView { text: opt_view(self.text), properties: self.properties@ }
    }
}

pub open spec fn runs_view(s: Seq<RawRun>) -> Seq<RunView> {
    s.map_values(|r: RawRun| r@)
}

} // verus!
