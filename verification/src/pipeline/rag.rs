//! RAG chunks and the chunker configuration.
use vstd::prelude::*;
use crate::pipeline::chunk_metadata::{
    ContentTypeFlags, content_type_flags, flags_of, heading_path_from, heading_path_of, headings_view,
};
use crate::pipeline::element::{
    DocxElement, ElementView, HeadingContext, elements_view, lemma_elements_view_index,
    lemma_elements_view_len,
};
use crate::pipeline::hybrid::{MergePolicy, pack, pack_grouped, pack_grouped_spec, pack_spec, token_estimate};
use crate::pipeline::profile::ExtractionProfile;
use crate::text::{decimal, join, join_strings, push_decimal, string_views};

verus! {

/// A semantically bounded slice of the document ready for embedding.
/// `paragraph_indices` are positions in the element sequence the chunk was
/// built from; `heading_context` is the stack of headings active at the
/// chunk, root first; `token_estimate` is `word_count * 1.5` rounded up.
#[derive(Debug, PartialEq, Eq)]
pub struct RagChunk {
    pub text: String,
    pub paragraph_indices: Vec<usize>,
    pub element_types: Vec<String>,
    pub heading_context: Vec<HeadingContext>,
    pub token_estimate: usize,
    pub is_oversized: bool,
    pub content_types: ContentTypeFlags,
    pub heading_path: Vec<String>,
    pub full_text: String,
}

/// The mathematical value of a `RagChunk`.
pub struct ChunkView {
    pub text: Seq<char>,
    pub paragraph_indices: Seq<usize>,
    pub element_types: Seq<Seq<char>>,
    pub heading_context: Seq<(u8, Seq<char>)>,
    pub token_estimate: nat,
    pub is_oversized: bool,
    pub content_types: ContentTypeFlags,
    pub heading_path: Seq<Seq<char>>,
    pub full_text: Seq<char>,
}

impl View for RagChunk {
    type V = ChunkView;

    open spec fn view(&self) -> ChunkView {
        ChunkView {
            text: self.text@,
            paragraph_indices: self.paragraph_indices@,
            element_types: string_views(self.element_types@),
            heading_context: headings_view(self.heading_context@),
            token_estimate: self.token_estimate as nat,
            is_oversized: self.is_oversized,
            content_types: self.content_types,
            heading_path: string_views(self.heading_path@),
            full_text: self.full_text@,
        }
    }
}

pub open spec fn chunks_view(s: Seq<RagChunk>) -> Seq<ChunkView> {
    Seq::new(s.len(), |i: int| s[i]@)
}

/// The breadcrumb `H1 > H2` followed by a blank line and the text, or the
/// text alone when there is no heading.
pub open spec fn full_text_of(path: Seq<Seq<char>>, text: Seq<char>) -> Seq<char> {
    if path.len() == 0 { text } else { join(path, " > "@) + "\n\n"@ + text }
}

/// The parts of a chunk being built.
pub struct AccView {
    pub parts: Seq<Seq<char>>,
    pub indices: Seq<usize>,
    pub types: Seq<Seq<char>>,
}

pub open spec fn empty_acc() -> AccView {
    AccView { parts: Seq::empty(), indices: Seq::empty(), types: Seq::empty() }
}

pub open spec fn acc_push(a: AccView, idx: usize, text: Seq<char>, etype: Seq<char>) -> AccView {
    AccView { parts: a.parts.push(text), indices: a.indices.push(idx), types: a.types.push(etype) }
}

/// The chunk that an accumulator closes into under a heading context.
pub open spec fn finalize_view(a: AccView, ctx: Seq<(u8, Seq<char>)>) -> ChunkView {
    let text = join(a.parts, "\n\n"@);
    ChunkView {
        text,
        paragraph_indices: a.indices,
        element_types: a.types,
        heading_context: ctx,
        token_estimate: token_estimate(text),
        is_oversized: false,
        content_types: flags_of(a.types),
        heading_path: heading_path_of(ctx),
        full_text: full_text_of(heading_path_of(ctx), text),
    }
}

/// A chunk made of one piece of an element too large for the budget.
pub open spec fn fragment_view(text: Seq<char>, idx: usize, etype: Seq<char>, ctx: Seq<(u8, Seq<char>)>, tokens: nat) -> ChunkView {
    ChunkView {
        text,
        paragraph_indices: seq![idx],
        element_types: seq![etype],
        heading_context: ctx,
        token_estimate: tokens,
        is_oversized: true,
        content_types: flags_of(seq![etype]),
        heading_path: heading_path_of(ctx),
        full_text: full_text_of(heading_path_of(ctx), text),
    }
}

fn clone_headings(v: &Vec<HeadingContext>) -> (r: Vec<HeadingContext>)
    ensures
        r@ == v@,
{
    let mut out: Vec<HeadingContext> = Vec::new();
    let mut i: usize = 0;
    while i < v.len()
        invariant
            i <= v@.len(),
            out@ == v@.take(i as int),
        decreases v.len() - i,
    {
        out.push(v[i].clone());
        assert(v@.take(i + 1 as int) == v@.take(i as int).push(v@[i as int]));
        i = i + 1;
    }
    assert(v@.take(v.len() as int) == v@);
    out
}

fn build_full_text(heading_path: &Vec<String>, text: &String) -> (r: String)
    ensures
        r@ == full_text_of(string_views(heading_path@), text@),
{
    if heading_path.len() == 0 {
        text.clone()
    } else {
        let mut s = join_strings(heading_path, " > ");
        s.append("\n\n");
        s.append(text.as_str());
        s
    }
}

/// Accumulates the elements of a chunk under construction.
pub struct ChunkAccumulator {
    text_parts: Vec<String>,
    paragraph_indices: Vec<usize>,
    element_types: Vec<String>,
}

impl View for ChunkAccumulator {
    type V = AccView;

    closed spec fn view(&self) -> AccView {
        AccView {
            parts: string_views(self.text_parts@),
            indices: self.paragraph_indices@,
            types: string_views(self.element_types@),
        }
    }
}

impl ChunkAccumulator {
    pub fn new() -> (a: Self)
        ensures
            a@ == empty_acc(),
    {
        let a = ChunkAccumulator { text_parts: Vec::new(), paragraph_indices: Vec::new(), element_types: Vec::new() };
        assert(a@.parts =~= empty_acc().parts);
        assert(a@.types =~= empty_acc().types);
        a
    }

    pub fn is_empty(&self) -> (b: bool)
        ensures
            b == (self@.indices.len() == 0),
    {
        self.paragraph_indices.len() == 0
    }

    pub fn push(&mut self, idx: usize, text: String, etype: &str)
        ensures
            final(self)@ == acc_push(old(self)@, idx, text@, etype@),
    {
        self.text_parts.push(text);
        self.paragraph_indices.push(idx);
        self.element_types.push(etype.to_string());
        assert(self@.parts =~= old(self)@.parts.push(text@));
        assert(self@.types =~= old(self)@.types.push(etype@));
    }

    /// The type tag of the last element pushed, if any.
    pub fn last_type(&self) -> (r: Option<&str>)
        ensures
            r matches Some(t) ==> self@.types.len() > 0 && t@ == self@.types.last(),
            r is None ==> self@.types.len() == 0,
    {
        if self.element_types.len() == 0 {
            None
        } else {
            Some(self.element_types[self.element_types.len() - 1].as_str())
        }
    }

    pub fn finalize(self, heading_context: Vec<HeadingContext>) -> (c: RagChunk)
        ensures
            c@ == finalize_view(self@, headings_view(heading_context@)),
    {
        let text = join_strings(&self.text_parts, "\n\n");
        let token_estimate = crate::pipeline::hybrid::estimate_tokens(text.as_str());
        let content_types = content_type_flags(self.element_types.as_slice());
        let heading_path = heading_path_from(heading_context.as_slice());
        let full_text = build_full_text(&heading_path, &text);
        let c = RagChunk {
            text,
            paragraph_indices: self.paragraph_indices,
            element_types: self.element_types,
            heading_context,
            token_estimate,
            is_oversized: false,
            content_types,
            heading_path,
            full_text,
        };
        assert(c@.element_types =~= self@.types);
        c
    }
}

impl RagChunk {
    pub fn oversized_fragment(
        text: String,
        idx: usize,
        etype: &str,
        heading_context: Vec<HeadingContext>,
        token_estimate: usize,
    ) -> (c: Self)
        ensures
            c@ == fragment_view(text@, idx, etype@, headings_view(heading_context@), token_estimate as nat),
    {
        let mut types: Vec<String> = Vec::new();
        types.push(etype.to_string());
        let content_types = content_type_flags(types.as_slice());
        assert(Seq::new(types@.len(), |i: int| types@[i]@) =~= seq![etype@]);
        let heading_path = heading_path_from(heading_context.as_slice());
        let full_text = build_full_text(&heading_path, &text);
        let mut indices: Vec<usize> = Vec::new();
        indices.push(idx);
        let c = RagChunk {
            text,
            paragraph_indices: indices,
            element_types: types,
            heading_context,
            token_estimate,
            is_oversized: true,
            content_types,
            heading_path,
            full_text,
        };
        assert(c@.paragraph_indices =~= seq![idx]);
        assert(c@.element_types =~= seq![etype@]);
        c
    }
}

pub fn copy_headings(v: &Vec<HeadingContext>) -> (r: Vec<HeadingContext>)
    ensures
        r@ == v@,
{
    clone_headings(v)
}

/// Hybrid chunker configuration: the token budget, the extraction
/// profile, the merge policy and whether sections are grouped.
#[derive(Debug, Clone)]
pub struct DocxRagChunker {
    pub max_tokens: usize,
    pub profile: ExtractionProfile,
    pub merge_policy: MergePolicy,
    pub group_sections: bool,
}

impl Default for DocxRagChunker {
    fn default() -> (r: Self)
        ensures
            r.max_tokens == 800,
            r.profile == ExtractionProfile::Default,
            r.merge_policy == MergePolicy::AnyInlineContent,
            !r.group_sections,
    {
        DocxRagChunker {
            max_tokens: 800,
            profile: ExtractionProfile::Default,
            merge_policy: MergePolicy::AnyInlineContent,
            group_sections: false,
        }
    }
}

/// Elements without footnotes, endnotes and comments.
pub open spec fn minimal_filter(es: Seq<ElementView>) -> Seq<ElementView>
    decreases es.len(),
{
    if es.len() == 0 {
        es
    } else {
        let r = minimal_filter(es.drop_last());
        match es.last() {
            ElementView::Footnote { .. } | ElementView::Endnote { .. } | ElementView::Comment { .. } => r,
            e => r.push(e),
        }
    }
}

/// `e` with `add` appended to its text when it is a paragraph, list item
/// or heading; unchanged otherwise.
pub open spec fn append_text_view(e: ElementView, add: Seq<char>) -> ElementView {
    match e {
        ElementView::Paragraph { text, parent_heading, links } => ElementView::Paragraph { text: text + add, parent_heading, links },
        ElementView::ListItem { text, level, list_type, display_index } => ElementView::ListItem { text: text + add, level, list_type, display_index },
        ElementView::Heading { level, text } => ElementView::Heading { level, text: text + add },
        _ => e,
    }
}

/// Folds every footnote and endnote into the text of the element emitted
/// before it, as ` (Note N: text)` / ` (Endnote N: text)`; notes with no
/// element before them are dropped.
pub open spec fn academic_view(es: Seq<ElementView>) -> Seq<ElementView>
    decreases es.len(),
{
    if es.len() == 0 {
        es
    } else {
        let r = academic_view(es.drop_last());
        match es.last() {
            ElementView::Footnote { id, text } => if r.len() > 0 {
                r.update(r.len() - 1, append_text_view(r.last(), " (Note "@ + decimal(id as nat) + ": "@ + text + ")"@))
            } else {
                r
            },
            ElementView::Endnote { id, text } => if r.len() > 0 {
                r.update(r.len() - 1, append_text_view(r.last(), " (Endnote "@ + decimal(id as nat) + ": "@ + text + ")"@))
            } else {
                r
            },
            e => r.push(e),
        }
    }
}

/// The element sequence the chunker sees under a profile.
pub open spec fn profiled(es: Seq<ElementView>, profile: ExtractionProfile) -> Seq<ElementView> {
    match profile {
        ExtractionProfile::Default | ExtractionProfile::Technical => es,
        ExtractionProfile::Minimal => minimal_filter(es),
        ExtractionProfile::Academic => academic_view(es),
    }
}

/// The chunks a configuration produces from a sequence it sees.
pub open spec fn chunk_view_spec(cfg: DocxRagChunker, es: Seq<ElementView>) -> Seq<ChunkView> {
    if cfg.group_sections {
        pack_grouped_spec(es, cfg.max_tokens as nat, cfg.merge_policy)
    } else {
        pack_spec(es, cfg.max_tokens as nat, cfg.merge_policy)
    }
}

/// Whether a profile leaves the element out of the sequence it chunks (a
/// note it inlines counts as left out: its text joins the element before).
pub open spec fn dropped_by(profile: ExtractionProfile, e: ElementView) -> bool {
    match profile {
        ExtractionProfile::Minimal => e is Footnote || e is Endnote || e is Comment,
        ExtractionProfile::Academic => e is Footnote || e is Endnote,
        _ => false,
    }
}

/// The positions in `es` of the elements a profile keeps, in order.
pub open spec fn kept_indices(es: Seq<ElementView>, profile: ExtractionProfile) -> Seq<usize>
    decreases es.len(),
{
    if es.len() == 0 {
        Seq::empty()
    } else if dropped_by(profile, es.last()) {
        kept_indices(es.drop_last(), profile)
    } else {
        kept_indices(es.drop_last(), profile).push((es.len() - 1) as usize)
    }
}

/// The chunks with each index `k` replaced by `ix[k]`.
pub open spec fn remap(cs: Seq<ChunkView>, ix: Seq<usize>) -> Seq<ChunkView> {
    Seq::new(cs.len(), |c: int| ChunkView {
        paragraph_indices: Seq::new(cs[c].paragraph_indices.len(), |k: int| ix[cs[c].paragraph_indices[k] as int]),
        ..cs[c]
    })
}

/// The chunks `chunk` returns: those of the sequence the profile yields,
/// with every index a position in the caller's elements.
pub open spec fn chunk_spec(cfg: DocxRagChunker, es: Seq<ElementView>) -> Seq<ChunkView> {
    match cfg.profile {
        ExtractionProfile::Default | ExtractionProfile::Technical => chunk_view_spec(cfg, es),
        _ => remap(chunk_view_spec(cfg, profiled(es, cfg.profile)), kept_indices(es, cfg.profile)),
    }
}

pub proof fn lemma_kept_len(es: Seq<ElementView>, profile: ExtractionProfile)
    requires
        profile == ExtractionProfile::Minimal || profile == ExtractionProfile::Academic,
    ensures
        kept_indices(es, profile).len() == profiled(es, profile).len(),
        forall|k: int| 0 <= k < kept_indices(es, profile).len() ==> #[trigger] kept_indices(es, profile)[k] < es.len(),
    decreases es.len(),
{
    if es.len() > 0 {
        lemma_kept_len(es.drop_last(), profile);
    }
}

fn append_text(elem: &mut DocxElement, addendum: &str)
    ensures
        final(elem)@ == append_text_view(old(elem)@, addendum@),
{
    match elem {
        DocxElement::Paragraph { text, .. } => text.append(addendum),
        DocxElement::ListItem { text, .. } => text.append(addendum),
        DocxElement::Heading { text, .. } => text.append(addendum),
        _ => {},
    }
}

fn note_suffix(label: &str, id: u32, text: &String) -> (s: String)
    ensures
        s@ == " ("@ + label@ + " "@ + decimal(id as nat) + ": "@ + text@ + ")"@,
{
    let mut s = String::new();
    s.append(" (");
    s.append(label);
    s.append(" ");
    push_decimal(&mut s, id as u64);
    s.append(": ");
    s.append(text.as_str());
    s.append(")");
    s
}

fn academic_inline(elements: &[DocxElement]) -> (r: Vec<DocxElement>)
    ensures
        elements_view(r@) == academic_view(elements_view(elements@)),
{
    let ghost ev = elements_view(elements@);
    proof {
        lemma_elements_view_len(elements@);
    }
    let mut out: Vec<DocxElement> = Vec::new();
    let mut i: usize = 0;
    while i < elements.len()
        invariant
            i <= elements@.len(),
            ev == elements_view(elements@),
            ev.len() == elements@.len(),
            elements_view(out@) == academic_view(ev.take(i as int)),
        decreases elements.len() - i,
    {
        proof {
            lemma_elements_view_index(elements@, i as int);
            assert(ev.take(i + 1 as int).drop_last() == ev.take(i as int));
            assert(ev.take(i + 1 as int).last() == ev[i as int]);
            lemma_elements_view_len(out@);
        }
        let ghost prev = out@;
        match &elements[i] {
            DocxElement::Footnote { id, text } => {
                if out.len() > 0 {
                    let mut last = out.pop().unwrap();
                    proof {
                        assert(prev == out@.push(last));
                        reveal_strlit("Note");
                    }
                    let add = note_suffix("Note", *id, text);
                    assert(add@ == " (Note "@ + decimal(*id as nat) + ": "@ + text@ + ")"@) by {
                        reveal_strlit("Note");
                        reveal_strlit(" (");
                        reveal_strlit(" ");
                        reveal_strlit(" (Note ");
                    }
                    append_text(&mut last, add.as_str());
                    out.push(last);
                    proof {
                        assert(out@.drop_last() == prev.drop_last());
                        lemma_elements_view_len(prev);
                        assert(elements_view(out@) =~= elements_view(prev).update(elements_view(prev).len() - 1,
                            append_text_view(elements_view(prev).last(), add@)));
                    }
                }
            },
            DocxElement::Endnote { id, text } => {
                if out.len() > 0 {
                    let mut last = out.pop().unwrap();
                    proof {
                        assert(prev == out@.push(last));
                    }
                    let add = note_suffix("Endnote", *id, text);
                    assert(add@ == " (Endnote "@ + decimal(*id as nat) + ": "@ + text@ + ")"@) by {
                        reveal_strlit("Endnote");
                        reveal_strlit(" (");
                        reveal_strlit(" ");
                        reveal_strlit(" (Endnote ");
                    }
                    append_text(&mut last, add.as_str());
                    out.push(last);
                    proof {
                        assert(out@.drop_last() == prev.drop_last());
                        lemma_elements_view_len(prev);
                        assert(elements_view(out@) =~= elements_view(prev).update(elements_view(prev).len() - 1,
                            append_text_view(elements_view(prev).last(), add@)));
                    }
                }
            },
            other => {
                let c = other.copy();
                out.push(c);
                assert(out@.drop_last() == prev);
            },
        }
        i = i + 1;
    }
    assert(ev.take(elements.len() as int) == ev);
    out
}

fn minimal_filter_exec(elements: &[DocxElement]) -> (r: Vec<DocxElement>)
    ensures
        elements_view(r@) == minimal_filter(elements_view(elements@)),
{
    let ghost ev = elements_view(elements@);
    proof {
        lemma_elements_view_len(elements@);
    }
    let mut out: Vec<DocxElement> = Vec::new();
    let mut i: usize = 0;
    while i < elements.len()
        invariant
            i <= elements@.len(),
            ev == elements_view(elements@),
            ev.len() == elements@.len(),
            elements_view(out@) == minimal_filter(ev.take(i as int)),
        decreases elements.len() - i,
    {
        proof {
            lemma_elements_view_index(elements@, i as int);
            assert(ev.take(i + 1 as int).drop_last() == ev.take(i as int));
            assert(ev.take(i + 1 as int).last() == ev[i as int]);
        }
        match &elements[i] {
            DocxElement::Footnote { .. } | DocxElement::Endnote { .. } | DocxElement::Comment { .. } => {},
            other => {
                let ghost prev = out@;
                out.push(other.copy());
                assert(out@.drop_last() == prev);
            },
        }
        i = i + 1;
    }
    assert(ev.take(elements.len() as int) == ev);
    out
}

fn copy_elements(elements: &[DocxElement]) -> (r: Vec<DocxElement>)
    ensures
        elements_view(r@) == elements_view(elements@),
{
    let ghost ev = elements_view(elements@);
    proof {
        lemma_elements_view_len(elements@);
    }
    let mut out: Vec<DocxElement> = Vec::new();
    let mut i: usize = 0;
    while i < elements.len()
        invariant
            i <= elements@.len(),
            ev == elements_view(elements@),
            ev.len() == elements@.len(),
            elements_view(out@) == ev.take(i as int),
        decreases elements.len() - i,
    {
        proof {
            lemma_elements_view_index(elements@, i as int);
            assert(ev.take(i + 1 as int).drop_last() == ev.take(i as int));
        }
        let ghost prev = out@;
        out.push(elements[i].copy());
        assert(out@.drop_last() == prev);
        i = i + 1;
    }
    assert(ev.take(elements.len() as int) == ev);
    out
}

fn kept_positions(elements: &[DocxElement], profile: ExtractionProfile) -> (r: Vec<usize>)
    ensures
        r@ == kept_indices(elements_view(elements@), profile),
{
    let ghost ev = elements_view(elements@);
    proof {
        lemma_elements_view_len(elements@);
    }
    let mut out: Vec<usize> = Vec::new();
    let mut i: usize = 0;
    while i < elements.len()
        invariant
            i <= elements@.len(),
            ev == elements_view(elements@),
            ev.len() == elements@.len(),
            out@ == kept_indices(ev.take(i as int), profile),
        decreases elements.len() - i,
    {
        proof {
            lemma_elements_view_index(elements@, i as int);
            assert(ev.take(i + 1 as int).drop_last() == ev.take(i as int));
            assert(ev.take(i + 1 as int).last() == ev[i as int]);
        }
        let dropped = match profile {
            ExtractionProfile::Minimal => match &elements[i] {
                DocxElement::Footnote { .. } | DocxElement::Endnote { .. } | DocxElement::Comment { .. } => true,
                _ => false,
            },
            ExtractionProfile::Academic => match &elements[i] {
                DocxElement::Footnote { .. } | DocxElement::Endnote { .. } => true,
                _ => false,
            },
            _ => false,
        };
        if !dropped {
            out.push(i);
        }
        i = i + 1;
    }
    assert(ev.take(elements.len() as int) == ev);
    out
}

/// Replaces each chunk index `k` by `ix[k]`.
fn remap_chunks(chunks: Vec<RagChunk>, ix: &Vec<usize>) -> (r: Vec<RagChunk>)
    requires
        crate::pipeline::hybrid::chunks_below(chunks_view(chunks@), ix@.len() as int),
    ensures
        chunks_view(r@) == remap(chunks_view(chunks@), ix@),
{
    let ghost cv = chunks_view(chunks@);
    let ghost target = remap(cv, ix@);
    let n = chunks.len();
    assert(target.len() == n);
    let mut src = chunks;
    let mut rev: Vec<RagChunk> = Vec::new();
    while src.len() > 0
        invariant
            n == cv.len(),
            target.len() == n,
            target == remap(cv, ix@),
            src@.len() + rev@.len() == n,
            forall|k: int| 0 <= k < src@.len() ==> #[trigger] src@[k]@ == cv[k],
            forall|m: int| 0 <= m < rev@.len() ==> #[trigger] rev@[m]@ == target[n - 1 - m],
            crate::pipeline::hybrid::chunks_below(cv, ix@.len() as int),
        decreases src@.len(),
    {
        let ghost j = src@.len() - 1;
        assert(src@[j]@ == cv[j]);
        let c = src.pop().unwrap();
        let RagChunk {
            text, paragraph_indices, element_types, heading_context, token_estimate, is_oversized, content_types,
            heading_path, full_text,
        } = c;
        assert(crate::pipeline::hybrid::indices_below(cv[j].paragraph_indices, ix@.len() as int));
        let mut mapped: Vec<usize> = Vec::new();
        let mut k: usize = 0;
        while k < paragraph_indices.len()
            invariant
                k <= paragraph_indices@.len(),
                paragraph_indices@ == cv[j].paragraph_indices,
                crate::pipeline::hybrid::indices_below(paragraph_indices@, ix@.len() as int),
                mapped@ == Seq::new(k as nat, |t: int| ix@[paragraph_indices@[t] as int]),
            decreases paragraph_indices.len() - k,
        {
            let p = paragraph_indices[k];
            mapped.push(ix[p]);
            k = k + 1;
            assert(mapped@ =~= Seq::new(k as nat, |t: int| ix@[paragraph_indices@[t] as int]));
        }
        let nc = RagChunk {
            text, paragraph_indices: mapped, element_types, heading_context, token_estimate, is_oversized, content_types,
            heading_path, full_text,
        };
        assert(mapped@ =~= target[j].paragraph_indices);
        assert(nc@ =~= target[j]);
        rev.push(nc);
    }
    let mut out: Vec<RagChunk> = Vec::new();
    while rev.len() > 0
        invariant
            n == cv.len(),
            target.len() == n,
            rev@.len() + out@.len() == n,
            forall|m: int| 0 <= m < rev@.len() ==> #[trigger] rev@[m]@ == target[n - 1 - m],
            forall|k: int| 0 <= k < out@.len() ==> #[trigger] out@[k]@ == target[k],
        decreases rev@.len(),
    {
        let ghost m = rev@.len() - 1;
        assert(rev@[m]@ == target[n - 1 - m]);
        let c = rev.pop().unwrap();
        out.push(c);
    }
    assert(chunks_view(out@) =~= target);
    out
}

/// The elements transformed by a profile: `Default` and `Technical` leave
/// them unchanged, `Minimal` drops notes and comments, `Academic` inlines
/// notes into the element before them.
pub fn apply_profile(elements: &[DocxElement], profile: ExtractionProfile) -> (r: Vec<DocxElement>)
    ensures
        elements_view(r@) == profiled(elements_view(elements@), profile),
{
    match profile {
        ExtractionProfile::Default | ExtractionProfile::Technical => {
            copy_elements(elements)
        },
        ExtractionProfile::Minimal => minimal_filter_exec(elements),
        ExtractionProfile::Academic => academic_inline(elements),
    }
}

impl DocxRagChunker {
    pub fn new() -> (r: Self)
        ensures
            r.max_tokens == 800,
            r.profile == ExtractionProfile::Default,
            r.merge_policy == MergePolicy::AnyInlineContent,
            !r.group_sections,
    {
        Self::default()
    }

    pub fn with_max_tokens(self, n: usize) -> (r: Self)
        ensures
            r == (DocxRagChunker { max_tokens: n, ..self }),
    {
        DocxRagChunker { max_tokens: n, ..self }
    }

    pub fn with_profile(self, profile: ExtractionProfile) -> (r: Self)
        ensures
            r == (DocxRagChunker { profile, ..self }),
    {
        DocxRagChunker { profile, ..self }
    }

    pub fn with_merge_policy(self, policy: MergePolicy) -> (r: Self)
        ensures
            r == (DocxRagChunker { merge_policy: policy, ..self }),
    {
        DocxRagChunker { merge_policy: policy, ..self }
    }

    pub fn with_section_grouping(self, on: bool) -> (r: Self)
        ensures
            r == (DocxRagChunker { group_sections: on, ..self }),
    {
        DocxRagChunker { group_sections: on, ..self }
    }

    fn chunk_view(&self, elements: &[DocxElement]) -> (r: Vec<RagChunk>)
        ensures
            chunks_view(r@) == chunk_view_spec(*self, elements_view(elements@)),
    {
        if self.group_sections {
            pack_grouped(elements, self.max_tokens, self.merge_policy)
        } else {
            pack(elements, self.max_tokens, self.merge_policy)
        }
    }

    /// Chunks the elements under this configuration; chunk indices are
    /// positions in `elements`.
    pub fn chunk(&self, elements: &[DocxElement]) -> (r: Vec<RagChunk>)
        ensures
            chunks_view(r@) == chunk_spec(*self, elements_view(elements@)),
    {
        match self.profile {
            ExtractionProfile::Default | ExtractionProfile::Technical => self.chunk_view(elements),
            _ => self.chunk_profiled(elements),
        }
    }

    fn chunk_profiled(&self, elements: &[DocxElement]) -> (r: Vec<RagChunk>)
        requires
            self.profile == ExtractionProfile::Minimal || self.profile == ExtractionProfile::Academic,
        ensures
            chunks_view(r@) == remap(chunk_view_spec(*self, profiled(elements_view(elements@), self.profile)),
                kept_indices(elements_view(elements@), self.profile)),
    {
        let view = apply_profile(elements, self.profile);
        let ix = kept_positions(elements, self.profile);
        let chunks = self.chunk_view(view.as_slice());
        let vn = view.len();
        proof {
            assert(view@.len() == vn);
            lemma_elements_view_len(view@);
            lemma_elements_view_len(elements@);
            lemma_kept_len(elements_view(elements@), self.profile);
            crate::pipeline::chunk_laws::lemma_chunk_view_below(*self, elements_view(view@));
        }
        remap_chunks(chunks, &ix)
    }
}

} // verus!
