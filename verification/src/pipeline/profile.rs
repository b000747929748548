use vstd::prelude::*;

verus! {

/// How the chunker folds annotations into the main text stream.
#[derive(Debug, Clone, Copy, PartialEq, Eq)]
pub enum ExtractionProfile {
    /// Every element as-is; notes and comments are blocks of their own.
    Default,
    /// Footnote and endnote text is inlined into the element before it.
    Academic,
    /// Same as `Default`.
    Technical,
    /// Footnotes, endnotes and comments are dropped before chunking.
    Minimal,
}

impl Default for ExtractionProfile {
    fn default() -> (r: Self)
        ensures
            r == ExtractionProfile::Default,
    {
        ExtractionProfile::Default
    }
}

} // verus!
