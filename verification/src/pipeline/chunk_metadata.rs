//! Metadata derived for RAG chunks: content-type flags and heading paths.
use vstd::prelude::*;
use crate::pipeline::element::HeadingContext;
use crate::text::str_eq;

verus! {

/// Coarse flags describing what a chunk contains.
#[derive(Debug, Clone, Copy, PartialEq, Eq)]
pub struct ContentTypeFlags {
    pub has_table: bool,
    pub has_list: bool,
    /// True when the chunk holds only headings and no body content.
    pub heading_only: bool,
}

impl Default for ContentTypeFlags {
    fn default() -> (r: Self)
        ensures
            !r.has_table && !r.has_list && !r.heading_only,
    {
        ContentTypeFlags { has_table: false, has_list: false, heading_only: false }
    }
}

/// The flags that a chunk's element-type tags imply.
pub open spec fn flags_of(types: Seq<Seq<char>>) -> ContentTypeFlags {
    ContentTypeFlags {
        has_table: exists|i: int| 0 <= i < types.len() && #[trigger] types[i] == "table"@,
        has_list: exists|i: int| 0 <= i < types.len() && #[trigger] types[i] == "list_item"@,
        heading_only: types.len() > 0 && forall|i: int| 0 <= i < types.len() ==> #[trigger] types[i] == "heading"@,
    }
}

/// Derives content flags from a chunk's `element_types` tags.
pub fn content_type_flags(element_types: &[String]) -> (f: ContentTypeFlags)
    ensures
        f == flags_of(Seq::new(element_types@.len(), |i: int| element_types@[i]@)),
{
    let ghost ts = Seq::new(element_types@.len(), |i: int| element_types@[i]@);
    let mut has_table = false;
    let mut has_list = false;
    let mut all_heading = true;
    let mut i: usize = 0;
    while i < element_types.len()
        invariant
            i <= element_types@.len(),
            ts == Seq::new(element_types@.len(), |i: int| element_types@[i]@),
            has_table == exists|j: int| 0 <= j < i && #[trigger] ts[j] == "table"@,
            has_list == exists|j: int| 0 <= j < i && #[trigger] ts[j] == "list_item"@,
            all_heading == forall|j: int| 0 <= j < i ==> #[trigger] ts[j] == "heading"@,
        decreases element_types.len() - i,
    {
        let t = element_types[i].as_str();
        assert(ts[i as int] == t@);
        if str_eq(t, "table") {
            has_table = true;
        }
        if str_eq(t, "list_item") {
            has_list = true;
        }
        if !str_eq(t, "heading") {
            all_heading = false;
        }
        i = i + 1;
    }
    ContentTypeFlags {
        has_table,
        has_list,
        heading_only: element_types.len() > 0 && all_heading,
    }
}

/// The texts of a heading context stack, root first.
pub open spec fn heading_path_of(ctx: Seq<(u8, Seq<char>)>) -> Seq<Seq<char>> {
    Seq::new(ctx.len(), |i: int| ctx[i].1)
}

/// A heading context as a level and a text.
pub open spec fn heading_view(h: HeadingContext) -> (u8, Seq<char>) {
    (h.level, h.text@)
}

pub open spec fn headings_view(s: Seq<HeadingContext>) -> Seq<(u8, Seq<char>)> {
    Seq::new(s.len(), |i: int| heading_view(s[i]))
}

/// Flattens a heading context stack (root to leaf) to its text breadcrumb.
pub fn heading_path_from(ctx: &[HeadingContext]) -> (r: Vec<String>)
    ensures
        Seq::new(r@.len(), |i: int| r@[i]@) == heading_path_of(headings_view(ctx@)),
{
    let mut out: Vec<String> = Vec::new();
    let mut i: usize = 0;
    while i < ctx.len()
        invariant
            i <= ctx@.len(),
            out@.len() == i,
            forall|j: int| 0 <= j < i ==> #[trigger] out@[j]@ == ctx@[j].text@,
        decreases ctx.len() - i,
    {
        out.push(ctx[i].text.clone());
        i = i + 1;
    }
    assert(Seq::new(out@.len(), |i: int| out@[i]@) =~= heading_path_of(headings_view(ctx@)));
    out
}

} // verus!
