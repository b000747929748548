use vstd::prelude::*;
use crate::raw::runs::RawRun;

verus! {

/// A field instruction (`<w:instrText>`) with the runs of its result.
#[derive(Debug, Clone, PartialEq, Eq)]
pub struct RawFieldInst {
    pub instruction: String,
    pub runs: Vec<RawRun>,
}


pub struct FieldView {
    pub instruction: Seq<char>,
    pub runs: Seq<crate::raw::runs::RunView>,
}

impl View for RawFieldInst {
    type V = FieldView;

    open spec fn view(&self) -> FieldView {
        FieldView { instruction: self.instruction@, runs: crate::raw::runs::runs_view(self.runs@) }
    }
}

} // verus!
