//! Properties of the RAG chunker that hold of every input: the size budget,
//! the coverage of the input, and the profiles that change nothing.
use vstd::prelude::*;
use crate::pipeline::element::ElementView;
use crate::pipeline::hybrid::{
    MergePolicy, PackState, element_tokens, flush, fragments, grouped_from, lemma_next_heading,
    lemma_section_end, next_heading, pack_fold, pack_grouped_spec, pack_spec, pack_step, rebase,
    section_end, section_tokens, single_chunk_spec, single_fold, text_and_type_of, token_estimate,
    tokens_for_words, word_count, chunks_below, indices_below, lemma_pack_spec_bound, keep_shallower,
    is_sentence_end, pack_from, packed_sentences, sentences_of, split_from, trim, trim_end, trim_start,

};
use crate::pipeline::export::{ends_with, lemma_join_contains, lemma_occurs_self, occurs_in, own_text, plain_render};
use crate::pipeline::profile::ExtractionProfile;
use crate::pipeline::rag::{academic_view, minimal_filter};
use crate::text::decimal;
use crate::pipeline::rag::{
    AccView, ChunkView, DocxRagChunker, acc_push, chunk_spec, chunk_view_spec, dropped_by, empty_acc,
    finalize_view, kept_indices, lemma_kept_len, profiled, remap,
};
use crate::text::{is_space, join};

verus! {

proof fn lemma_word_count_concat(x: Seq<char>, y: Seq<char>)
    requires
        x.len() == 0 || is_space(x.last()),
    ensures
        word_count(x + y) == word_count(x) + word_count(y),
    decreases y.len(),
{
    if y.len() == 0 {
        assert(x + y =~= x);
    } else {
        lemma_word_count_concat(x, y.drop_last());
        let xy = x + y;
        assert(xy.drop_last() =~= x + y.drop_last());
        assert(xy.last() == y.last());
        if y.len() >= 2 {
            assert(xy[xy.len() - 2] == y[y.len() - 2]);
        } else if x.len() > 0 {
            assert(xy[xy.len() - 2] == x.last());
        }
    }
}

proof fn lemma_word_count_spaces(x: Seq<char>, y: Seq<char>)
    requires
        forall|k: int| 0 <= k < y.len() ==> is_space(#[trigger] y[k]),
    ensures
        word_count(x + y) == word_count(x),
    decreases y.len(),
{
    if y.len() == 0 {
        assert(x + y =~= x);
    } else {
        lemma_word_count_spaces(x, y.drop_last());
        let xy = x + y;
        assert(xy.drop_last() =~= x + y.drop_last());
        assert(xy.last() == y[y.len() - 1]);
    }
}

/// The sum of the token estimates of some texts.
pub open spec fn tokens_sum(parts: Seq<Seq<char>>) -> nat
    decreases parts.len(),
{
    if parts.len() == 0 { 0 } else { tokens_sum(parts.drop_last()) + token_estimate(parts.last()) }
}

spec fn words_sum(parts: Seq<Seq<char>>) -> nat
    decreases parts.len(),
{
    if parts.len() == 0 { 0 } else { words_sum(parts.drop_last()) + word_count(parts.last()) }
}

proof fn lemma_tokens_subadditive(a: nat, b: nat)
    ensures
        tokens_for_words(a + b) <= tokens_for_words(a) + tokens_for_words(b),
        tokens_for_words(a) <= tokens_for_words(a + b),
{
}

proof fn lemma_join_words(parts: Seq<Seq<char>>)
    ensures
        word_count(join(parts, "\n\n"@)) == words_sum(parts),
    decreases parts.len(),
{
    reveal_strlit("\n\n");
    if parts.len() == 1 {
        assert(parts.drop_last().len() == 0);
        assert(words_sum(parts.drop_last()) == 0);
        assert(parts.last() == parts[0]);
    } else if parts.len() > 1 {
        let sep = "\n\n"@;
        assert(sep.len() == 2 && sep[0] == '\n' && sep[1] == '\n');
        let j = join(parts.drop_last(), sep);
        lemma_join_words(parts.drop_last());
        assert forall|k: int| 0 <= k < sep.len() implies is_space(#[trigger] sep[k]) by {}
        lemma_word_count_spaces(j, sep);
        let js = j + sep;
        assert(js.last() == '\n');
        lemma_word_count_concat(js, parts.last());
        assert(join(parts, sep) == js + parts.last());
    }
}

proof fn lemma_join_tokens(parts: Seq<Seq<char>>)
    ensures
        token_estimate(join(parts, "\n\n"@)) <= tokens_sum(parts),
{
    lemma_join_words(parts);
    lemma_words_tokens(parts);
}

proof fn lemma_words_tokens(parts: Seq<Seq<char>>)
    ensures
        tokens_for_words(words_sum(parts)) <= tokens_sum(parts),
    decreases parts.len(),
{
    if parts.len() > 0 {
        lemma_words_tokens(parts.drop_last());
        lemma_tokens_subadditive(words_sum(parts.drop_last()), word_count(parts.last()));
    }
}

/// No chunk but the pieces of an oversized element exceeds `max` tokens.
pub open spec fn within_budget(cs: Seq<ChunkView>, max: nat) -> bool {
    forall|c: int| 0 <= c < cs.len() && !(#[trigger] cs[c]).is_oversized ==> cs[c].token_estimate <= max
}

/// No heading alone exceeds `max` tokens.
pub open spec fn headings_fit(es: Seq<ElementView>, max: nat) -> bool {
    forall|i: int| 0 <= i < es.len() ==> match #[trigger] es[i] {
        ElementView::Heading { text, .. } => token_estimate(text) <= max,
        _ => true,
    }
}

spec fn budget_ok(st: PackState, max: nat) -> bool {
    &&& within_budget(st.out, max)
    &&& st.acc.parts.len() == st.acc.indices.len()
    &&& st.tokens == tokens_sum(st.acc.parts)
    &&& st.tokens <= max
}

proof fn lemma_flush_budget(st: PackState, max: nat)
    requires
        budget_ok(st, max),
    ensures
        budget_ok(flush(st), max),
        flush(st).acc.parts.len() == 0,
        flush(st).stack == st.stack,
{
    if st.acc.indices.len() > 0 {
        lemma_join_tokens(st.acc.parts);
        let f = flush(st);
        assert forall|c: int| 0 <= c < f.out.len() && !(#[trigger] f.out[c]).is_oversized implies
            f.out[c].token_estimate <= max by {
            if c < st.out.len() {
                assert(f.out[c] == st.out[c]);
            }
        }
    } else {
        assert(st.acc.parts.len() == 0);
    }
}

proof fn lemma_single_part(text: Seq<char>, acc: AccView, i: usize, etype: Seq<char>)
    requires
        acc == acc_push(empty_acc(), i, text, etype),
    ensures
        join(acc.parts, "\n\n"@) == text,
        tokens_sum(acc.parts) == token_estimate(text),
{
    assert(acc.parts.drop_last().len() == 0);
    assert(tokens_sum(acc.parts.drop_last()) == 0);
    assert(acc.parts.last() == text);
}

proof fn lemma_pack_fold_budget(es: Seq<ElementView>, max: nat, policy: MergePolicy)
    requires
        headings_fit(es, max),
    ensures
        budget_ok(pack_fold(es, max, policy), max),
    decreases es.len(),
{
    if es.len() == 0 {
        assert(within_budget(Seq::<ChunkView>::empty(), max));
    } else {
        let pre = es.drop_last();
        assert(headings_fit(pre, max)) by {
            assert forall|i: int| 0 <= i < pre.len() implies match #[trigger] pre[i] {
                ElementView::Heading { text, .. } => token_estimate(text) <= max,
                _ => true,
            } by {
                assert(pre[i] == es[i]);
            }
        }
        lemma_pack_fold_budget(pre, max, policy);
        let st = pack_fold(pre, max, policy);
        let i = (es.len() - 1) as usize;
        let e = es.last();
        assert(e == es[es.len() - 1]);
        lemma_flush_budget(st, max);
        let f = flush(st);
        let nst = pack_step(st, i, e, max, policy);
        assert(pack_fold(es, max, policy) == nst);
        match e {
            ElementView::Heading { level, text } => {
                lemma_single_part(text, acc_push(empty_acc(), i, text, "heading"@), i, "heading"@);
            },
            ElementView::Table { .. } => {
                let text = crate::pipeline::export::plain_render(e);
                let t = token_estimate(text);
                if t <= max {
                    lemma_single_part(text, acc_push(empty_acc(), i, text, "table"@), i, "table"@);
                    assert(finalize_view(acc_push(empty_acc(), i, text, "table"@), f.stack).token_estimate == t);
                }
                assert forall|c: int| 0 <= c < nst.out.len() && !(#[trigger] nst.out[c]).is_oversized implies
                    nst.out[c].token_estimate <= max by {
                    if c < f.out.len() {
                        assert(nst.out[c] == f.out[c]);
                    }
                }
            },
            _ => {
                match text_and_type_of(e) {
                    None => {},
                    Some((text, etype)) => {
                        let t = token_estimate(text);
                        if t > max {
                            let fr = fragments(text, i, etype, f.stack, max);
                            assert forall|c: int| 0 <= c < nst.out.len() && !(#[trigger] nst.out[c]).is_oversized implies
                                nst.out[c].token_estimate <= max by {
                                if c < f.out.len() {
                                    assert(nst.out[c] == f.out[c]);
                                } else {
                                    assert(nst.out[c] == fr[c - f.out.len()]);
                                }
                            }
                        } else {
                            let blocks = policy == MergePolicy::SameTypeOnly && st.acc.types.len() > 0
                                && st.acc.types.last() != etype;
                            let g = if st.acc.indices.len() > 0 && (st.tokens + t > max || blocks) { f } else { st };
                            let na = acc_push(g.acc, i, text, etype);
                            assert(na.parts.drop_last() == g.acc.parts);
                            assert(na.parts.last() == text);
                        }
                    },
                }
            },
        }
    }
}

/// The greedy packer keeps the budget: every chunk it emits, other than
/// the pieces of an element that alone exceeds the budget, holds at most
/// `max` tokens, whenever no heading alone exceeds the budget.
pub proof fn law_pack_within_budget(es: Seq<ElementView>, max: nat, policy: MergePolicy)
    requires
        headings_fit(es, max),
    ensures
        within_budget(pack_spec(es, max, policy), max),
{
    lemma_pack_fold_budget(es, max, policy);
    lemma_flush_budget(pack_fold(es, max, policy), max);
}

/// The paragraph indices of the chunks, in order, one after another.
pub open spec fn flat_indices(cs: Seq<ChunkView>) -> Seq<usize>
    decreases cs.len(),
{
    if cs.len() == 0 { Seq::empty() } else { flat_indices(cs.drop_last()) + cs.last().paragraph_indices }
}

/// `0, 1, ..., n - 1`.
pub open spec fn upto(n: nat) -> Seq<usize> {
    Seq::new(n, |k: int| k as usize)
}

/// Each index is one more than the one before it.
pub open spec fn consecutive(s: Seq<usize>) -> bool {
    forall|k: int| 0 <= k < s.len() - 1 ==> #[trigger] s[k + 1] == s[k] + 1
}

/// Every chunk holds consecutive indices.
pub open spec fn chunks_consecutive(cs: Seq<ChunkView>) -> bool {
    forall|c: int| 0 <= c < cs.len() ==> consecutive(#[trigger] cs[c].paragraph_indices)
}

/// The element goes into a chunk whole: it is a heading, a table, or an
/// inline element within the budget (page headers and footers are dropped,
/// and a larger inline element is split into pieces).
pub open spec fn goes_whole(e: ElementView, max: nat) -> bool {
    match e {
        ElementView::Heading { .. } => true,
        ElementView::Table { .. } => true,
        _ => match text_and_type_of(e) {
            Some((t, _)) => token_estimate(t) <= max,
            None => false,
        },
    }
}

pub open spec fn all_go_whole(es: Seq<ElementView>, max: nat) -> bool {
    forall|i: int| 0 <= i < es.len() ==> goes_whole(#[trigger] es[i], max)
}

spec fn cover_ok(st: PackState, n: nat) -> bool {
    &&& flat_indices(st.out) + st.acc.indices == upto(n)
    &&& chunks_consecutive(st.out)
    &&& consecutive(st.acc.indices)
}

proof fn lemma_flush_cover(st: PackState, n: nat)
    requires
        cover_ok(st, n),
    ensures
        cover_ok(flush(st), n),
        flush(st).acc.indices.len() == 0,
{
    let f = flush(st);
    if st.acc.indices.len() > 0 {
        assert(f.out.drop_last() == st.out);
        assert(f.out.last().paragraph_indices == st.acc.indices);
        assert(flat_indices(f.out) + f.acc.indices =~= flat_indices(st.out) + st.acc.indices);
        assert forall|c: int| 0 <= c < f.out.len() implies consecutive(#[trigger] f.out[c].paragraph_indices) by {
            if c < st.out.len() {
                assert(f.out[c] == st.out[c]);
            }
        }
    } else {
        assert(st.acc.indices =~= Seq::<usize>::empty());
    }
}

proof fn lemma_push_chunk_cover(f: PackState, c: ChunkView, n: nat)
    requires
        cover_ok(f, n),
        f.acc.indices.len() == 0,
        c.paragraph_indices == seq![n as usize],
    ensures
        cover_ok(PackState { out: f.out.push(c), ..f }, n + 1),
{
    let g = PackState { out: f.out.push(c), ..f };
    assert(g.out.drop_last() == f.out);
    assert(flat_indices(f.out) =~= upto(n));
    assert(flat_indices(g.out) + g.acc.indices =~= upto(n + 1));
    assert forall|k: int| 0 <= k < g.out.len() implies consecutive(#[trigger] g.out[k].paragraph_indices) by {
        if k < f.out.len() {
            assert(g.out[k] == f.out[k]);
        }
    }
}

proof fn lemma_pack_fold_cover(es: Seq<ElementView>, max: nat, policy: MergePolicy)
    requires
        all_go_whole(es, max),
        es.len() <= usize::MAX,
    ensures
        cover_ok(pack_fold(es, max, policy), es.len()),
    decreases es.len(),
{
    if es.len() == 0 {
        assert(flat_indices(Seq::<ChunkView>::empty()) + Seq::<usize>::empty() =~= upto(0));
    } else {
        let pre = es.drop_last();
        let n = pre.len();
        assert(all_go_whole(pre, max)) by {
            assert forall|i: int| 0 <= i < pre.len() implies goes_whole(#[trigger] pre[i], max) by {
                assert(pre[i] == es[i]);
            }
        }
        lemma_pack_fold_cover(pre, max, policy);
        let st = pack_fold(pre, max, policy);
        let i = n as usize;
        let e = es.last();
        assert(goes_whole(es[es.len() - 1], max));
        lemma_flush_cover(st, n);
        let f = flush(st);
        let nst = pack_step(st, i, e, max, policy);
        assert(pack_fold(es, max, policy) == nst);
        match e {
            ElementView::Heading { level, text } => {
                assert(flat_indices(f.out) + f.acc.indices == upto(n));
                assert(f.acc.indices =~= Seq::<usize>::empty());
                assert(flat_indices(nst.out) + nst.acc.indices =~= upto(n + 1));
            },
            ElementView::Table { .. } => {
                let text = crate::pipeline::export::plain_render(e);
                let t = token_estimate(text);
                let c = if t > max {
                    crate::pipeline::rag::fragment_view(text, i, "table"@, f.stack, t)
                } else {
                    finalize_view(acc_push(empty_acc(), i, text, "table"@), f.stack)
                };
                assert(c.paragraph_indices =~= seq![i]);
                lemma_push_chunk_cover(f, c, n);
                assert(nst == PackState { out: f.out.push(c), ..f });
            },
            _ => {
                let (text, etype) = text_and_type_of(e).unwrap();
                let t = token_estimate(text);
                assert(t <= max);
                let blocks = policy == MergePolicy::SameTypeOnly && st.acc.types.len() > 0
                    && st.acc.types.last() != etype;
                let g = if st.acc.indices.len() > 0 && (st.tokens + t > max || blocks) { f } else { st };
                assert(cover_ok(g, n));
                let na = acc_push(g.acc, i, text, etype);
                assert(nst.acc == na);
                assert(nst.out == g.out);
                if g.acc.indices.len() > 0 {
                    let x = flat_indices(g.out);
                    assert((x + g.acc.indices)[n - 1] == g.acc.indices.last());
                    assert(upto(n)[n - 1] == (n - 1) as usize);
                }
                assert(flat_indices(g.out) + na.indices =~= (flat_indices(g.out) + g.acc.indices).push(i));
                assert forall|k: int| 0 <= k < na.indices.len() - 1 implies #[trigger] na.indices[k + 1] == na.indices[k] + 1 by {
                    if k + 1 < g.acc.indices.len() {
                        assert(na.indices[k + 1] == g.acc.indices[k + 1]);
                        assert(na.indices[k] == g.acc.indices[k]);
                    } else {
                        assert(na.indices[k] == g.acc.indices.last());
                    }
                }
                assert(flat_indices(nst.out) + nst.acc.indices =~= upto(n + 1));
            },
        }
    }
}

/// The greedy packer covers its input: when every element goes into a
/// chunk whole (no page header or footer, no inline element above the
/// budget), the chunks' indices, one chunk after another, are exactly
/// `0, 1, ..., n - 1`, and each chunk holds consecutive indices.
pub proof fn law_pack_covers_input(es: Seq<ElementView>, max: nat, policy: MergePolicy)
    requires
        all_go_whole(es, max),
        es.len() <= usize::MAX,
    ensures
        flat_indices(pack_spec(es, max, policy)) == upto(es.len()),
        chunks_consecutive(pack_spec(es, max, policy)),
{
    lemma_pack_fold_cover(es, max, policy);
    lemma_flush_cover(pack_fold(es, max, policy), es.len());
    let f = flush(pack_fold(es, max, policy));
    assert(flat_indices(f.out) + f.acc.indices == upto(es.len()));
    assert(f.acc.indices =~= Seq::<usize>::empty());
    assert(flat_indices(f.out) + f.acc.indices =~= flat_indices(f.out));
}

proof fn lemma_single_fold_tokens(s: Seq<ElementView>)
    ensures
        tokens_sum(single_fold(s).0.parts) == section_tokens(s),
        single_fold(s).0.parts.len() == single_fold(s).0.indices.len(),
    decreases s.len(),
{
    if s.len() > 0 {
        lemma_single_fold_tokens(s.drop_last());
        let (a, h) = single_fold(s.drop_last());
        let rel = (s.len() - 1) as usize;
        match s.last() {
            ElementView::Heading { level, text } => {
                assert(acc_push(a, rel, text, "heading"@).parts.drop_last() == a.parts);
            },
            e => match text_and_type_of(e) {
                Some((t, k)) => {
                    assert(acc_push(a, rel, t, k).parts.drop_last() == a.parts);
                },
                None => {},
            },
        }
    }
}

proof fn lemma_budget_concat(a: Seq<ChunkView>, b: Seq<ChunkView>, max: nat)
    requires
        within_budget(a, max),
        within_budget(b, max),
    ensures
        within_budget(a + b, max),
{
    assert forall|c: int| 0 <= c < (a + b).len() && !(#[trigger] (a + b)[c]).is_oversized implies
        (a + b)[c].token_estimate <= max by {
        if c < a.len() {
            assert((a + b)[c] == a[c]);
        } else {
            assert((a + b)[c] == b[c - a.len()]);
        }
    }
}

proof fn lemma_budget_rebase(cs: Seq<ChunkView>, off: int, max: nat)
    requires
        within_budget(cs, max),
    ensures
        within_budget(rebase(cs, off), max),
{
    assert forall|c: int| 0 <= c < rebase(cs, off).len() && !(#[trigger] rebase(cs, off)[c]).is_oversized implies
        rebase(cs, off)[c].token_estimate <= max by {
        assert(rebase(cs, off)[c].token_estimate == cs[c].token_estimate);
        assert(rebase(cs, off)[c].is_oversized == cs[c].is_oversized);
    }
}

proof fn lemma_headings_fit_subrange(es: Seq<ElementView>, i: int, j: int, max: nat)
    requires
        headings_fit(es, max),
        0 <= i <= j <= es.len(),
    ensures
        headings_fit(es.subrange(i, j), max),
{
    let sub = es.subrange(i, j);
    assert forall|k: int| 0 <= k < sub.len() implies match #[trigger] sub[k] {
        ElementView::Heading { text, .. } => token_estimate(text) <= max,
        _ => true,
    } by {
        assert(sub[k] == es[i + k]);
    }
}

proof fn lemma_grouped_budget(es: Seq<ElementView>, i: int, max: nat, policy: MergePolicy)
    requires
        headings_fit(es, max),
        0 <= i,
    ensures
        within_budget(grouped_from(es, i, max, policy), max),
    decreases es.len() - i,
{
    if i >= es.len() {
        assert(within_budget(Seq::<ChunkView>::empty(), max));
    } else {
        match es[i] {
            ElementView::Heading { level, .. } => {
                lemma_section_end(es, i + 1, level);
                let j = section_end(es, i + 1, level);
                let sec = es.subrange(i, j);
                lemma_headings_fit_subrange(es, i, j, max);
                let cs = if section_tokens(sec) <= max { single_chunk_spec(sec) } else { pack_spec(sec, max, policy) };
                if section_tokens(sec) <= max {
                    let (a, h) = single_fold(sec);
                    lemma_single_fold_tokens(sec);
                    if a.indices.len() > 0 {
                        lemma_join_tokens(a.parts);
                        assert(cs[0] == finalize_view(a, h));
                    }
                } else {
                    law_pack_within_budget(sec, max, policy);
                }
                lemma_budget_rebase(cs, i, max);
                lemma_grouped_budget(es, j, max, policy);
                lemma_budget_concat(rebase(cs, i), grouped_from(es, j, max, policy), max);
            },
            _ => {
                lemma_next_heading(es, i);
                let j = next_heading(es, i);
                lemma_headings_fit_subrange(es, i, j, max);
                law_pack_within_budget(es.subrange(i, j), max, policy);
                lemma_budget_rebase(pack_spec(es.subrange(i, j), max, policy), i, max);
                assert(j > i);
                lemma_grouped_budget(es, j, max, policy);
                lemma_budget_concat(rebase(pack_spec(es.subrange(i, j), max, policy), i),
                    grouped_from(es, j, max, policy), max);
            },
        }
    }
}

/// Section grouping keeps the budget too: a section that fits becomes one
/// chunk within the budget, a larger one is packed greedily.
pub proof fn law_grouped_within_budget(es: Seq<ElementView>, max: nat, policy: MergePolicy)
    requires
        headings_fit(es, max),
    ensures
        within_budget(pack_grouped_spec(es, max, policy), max),
{
    lemma_grouped_budget(es, 0, max, policy);
}

/// The chunker keeps its budget: every chunk `chunk` returns, other than
/// the pieces of an element that alone exceeds `max_tokens`, holds at most
/// `max_tokens` tokens, whenever no heading (as the profile leaves it)
/// alone exceeds the budget.
pub proof fn law_chunker_within_budget(cfg: DocxRagChunker, es: Seq<ElementView>)
    requires
        headings_fit(profiled(es, cfg.profile), cfg.max_tokens as nat),
    ensures
        within_budget(chunk_spec(cfg, es), cfg.max_tokens as nat),
{
    let v = profiled(es, cfg.profile);
    if cfg.group_sections {
        law_grouped_within_budget(v, cfg.max_tokens as nat, cfg.merge_policy);
    } else {
        law_pack_within_budget(v, cfg.max_tokens as nat, cfg.merge_policy);
    }
}

/// `lo, lo + 1, ..., hi - 1`.
pub open spec fn index_range(lo: int, hi: int) -> Seq<usize> {
    Seq::new((hi - lo) as nat, |k: int| (lo + k) as usize)
}

proof fn lemma_flat_concat(a: Seq<ChunkView>, b: Seq<ChunkView>)
    ensures
        flat_indices(a + b) == flat_indices(a) + flat_indices(b),
    decreases b.len(),
{
    if b.len() == 0 {
        assert(a + b =~= a);
        assert(flat_indices(b) =~= Seq::<usize>::empty());
        assert(flat_indices(a) + flat_indices(b) =~= flat_indices(a));
    } else {
        lemma_flat_concat(a, b.drop_last());
        assert((a + b).drop_last() =~= a + b.drop_last());
        assert((a + b).last() == b.last());
        assert(flat_indices(a + b) =~= flat_indices(a) + flat_indices(b));
    }
}

/// The indices shifted by `off`.
spec fn shifted(s: Seq<usize>, off: int) -> Seq<usize> {
    Seq::new(s.len(), |k: int| (s[k] + off) as usize)
}

proof fn lemma_flat_rebase(cs: Seq<ChunkView>, off: int)
    ensures
        flat_indices(rebase(cs, off)) == shifted(flat_indices(cs), off),
    decreases cs.len(),
{
    if cs.len() == 0 {
        assert(flat_indices(rebase(cs, off)) =~= shifted(flat_indices(cs), off));
    } else {
        lemma_flat_rebase(cs.drop_last(), off);
        assert(rebase(cs, off).drop_last() =~= rebase(cs.drop_last(), off));
        let last = rebase(cs, off).last();
        assert(last.paragraph_indices =~= shifted(cs.last().paragraph_indices, off));
        assert(shifted(flat_indices(cs.drop_last()) + cs.last().paragraph_indices, off)
            =~= shifted(flat_indices(cs.drop_last()), off) + shifted(cs.last().paragraph_indices, off));
    }
}

proof fn lemma_rebase_consecutive(cs: Seq<ChunkView>, off: int, n: int)
    requires
        chunks_consecutive(cs),
        chunks_below(cs, n),
        0 <= off,
        off + n <= usize::MAX,
    ensures
        chunks_consecutive(rebase(cs, off)),
{
    assert forall|c: int| 0 <= c < rebase(cs, off).len() implies consecutive(#[trigger] rebase(cs, off)[c].paragraph_indices) by {
        let s = cs[c].paragraph_indices;
        let t = rebase(cs, off)[c].paragraph_indices;
        assert(consecutive(s));
        assert(indices_below(s, n));
        assert forall|k: int| 0 <= k < t.len() - 1 implies #[trigger] t[k + 1] == t[k] + 1 by {
            assert(s[k + 1] == s[k] + 1);
            assert(s[k + 1] < n);
        }
    }
}

proof fn lemma_consecutive_concat(a: Seq<ChunkView>, b: Seq<ChunkView>)
    requires
        chunks_consecutive(a),
        chunks_consecutive(b),
    ensures
        chunks_consecutive(a + b),
{
    assert forall|c: int| 0 <= c < (a + b).len() implies consecutive(#[trigger] (a + b)[c].paragraph_indices) by {
        if c < a.len() {
            assert((a + b)[c] == a[c]);
        } else {
            assert((a + b)[c] == b[c - a.len()]);
        }
    }
}

proof fn lemma_single_fold_indices(s: Seq<ElementView>, max: nat)
    requires
        all_go_whole(s, max),
        s.len() <= usize::MAX,
    ensures
        single_fold(s).0.indices == upto(s.len()),
    decreases s.len(),
{
    if s.len() == 0 {
        assert(single_fold(s).0.indices =~= upto(0));
    } else {
        let pre = s.drop_last();
        assert(all_go_whole(pre, max)) by {
            assert forall|i: int| 0 <= i < pre.len() implies goes_whole(#[trigger] pre[i], max) by {
                assert(pre[i] == s[i]);
            }
        }
        lemma_single_fold_indices(pre, max);
        assert(goes_whole(s[s.len() - 1], max));
        assert(single_fold(s).0.indices =~= upto(pre.len()).push((s.len() - 1) as usize));
        assert(upto(pre.len()).push((s.len() - 1) as usize) =~= upto(s.len()));
    }
}

proof fn lemma_all_go_whole_subrange(es: Seq<ElementView>, i: int, j: int, max: nat)
    requires
        all_go_whole(es, max),
        0 <= i <= j <= es.len(),
    ensures
        all_go_whole(es.subrange(i, j), max),
{
    let sub = es.subrange(i, j);
    assert forall|k: int| 0 <= k < sub.len() implies goes_whole(#[trigger] sub[k], max) by {
        assert(sub[k] == es[i + k]);
    }
}

/// The chunks of a section `es[i..j]`, packed on their own, rebased to `i`.
proof fn lemma_section_cover(es: Seq<ElementView>, i: int, j: int, cs: Seq<ChunkView>, max: nat)
    requires
        0 <= i < j <= es.len(),
        es.len() <= usize::MAX,
        flat_indices(cs) == upto((j - i) as nat),
        chunks_consecutive(cs),
        chunks_below(cs, j - i),
    ensures
        flat_indices(rebase(cs, i)) == index_range(i, j),
        chunks_consecutive(rebase(cs, i)),
{
    lemma_flat_rebase(cs, i);
    assert(shifted(upto((j - i) as nat), i) =~= index_range(i, j));
    lemma_rebase_consecutive(cs, i, j - i);
}

proof fn lemma_single_section_cover(sec: Seq<ElementView>, max: nat)
    requires
        all_go_whole(sec, max),
        0 < sec.len() <= usize::MAX,
    ensures
        flat_indices(single_chunk_spec(sec)) == upto(sec.len()),
        chunks_consecutive(single_chunk_spec(sec)),
        chunks_below(single_chunk_spec(sec), sec.len() as int),
{
    lemma_single_fold_indices(sec, max);
    let (a, h) = single_fold(sec);
    let c = finalize_view(a, h);
    let cs = seq![c];
    assert(single_chunk_spec(sec) == cs);
    assert(cs.drop_last() =~= Seq::<ChunkView>::empty());
    assert(flat_indices(Seq::<ChunkView>::empty()) == Seq::<usize>::empty());
    assert(flat_indices(cs) == flat_indices(cs.drop_last()) + cs.last().paragraph_indices);
    assert(flat_indices(cs) =~= a.indices);
    assert(consecutive(cs[0].paragraph_indices));
    assert(indices_below(cs[0].paragraph_indices, sec.len() as int));
}

/// One step of section grouping from `i`: the section or run that starts
/// there ends at `j`, and its chunks `cs` cover it.
proof fn lemma_group_step(es: Seq<ElementView>, i: int, max: nat, policy: MergePolicy) -> (r: (int, Seq<ChunkView>))
    requires
        all_go_whole(es, max),
        es.len() <= usize::MAX,
        0 <= i < es.len(),
    ensures
        i < r.0 <= es.len(),
        grouped_from(es, i, max, policy) == rebase(r.1, i) + grouped_from(es, r.0, max, policy),
        flat_indices(r.1) == upto((r.0 - i) as nat),
        chunks_consecutive(r.1),
        chunks_below(r.1, r.0 - i),
{
    match es[i] {
        ElementView::Heading { level, .. } => {
            lemma_section_end(es, i + 1, level);
            let j = section_end(es, i + 1, level);
            let sec = es.subrange(i, j);
            lemma_all_go_whole_subrange(es, i, j, max);
            if section_tokens(sec) <= max {
                lemma_single_section_cover(sec, max);
                (j, single_chunk_spec(sec))
            } else {
                law_pack_covers_input(sec, max, policy);
                lemma_pack_spec_bound(sec, max, policy);
                (j, pack_spec(sec, max, policy))
            }
        },
        _ => {
            lemma_next_heading(es, i);
            let j = next_heading(es, i);
            lemma_all_go_whole_subrange(es, i, j, max);
            law_pack_covers_input(es.subrange(i, j), max, policy);
            lemma_pack_spec_bound(es.subrange(i, j), max, policy);
            (j, pack_spec(es.subrange(i, j), max, policy))
        },
    }
}

proof fn lemma_grouped_cover(es: Seq<ElementView>, i: int, max: nat, policy: MergePolicy)
    requires
        all_go_whole(es, max),
        es.len() <= usize::MAX,
        0 <= i <= es.len(),
    ensures
        flat_indices(grouped_from(es, i, max, policy)) == index_range(i, es.len() as int),
        chunks_consecutive(grouped_from(es, i, max, policy)),
    decreases es.len() - i,
{
    if i >= es.len() {
        assert(flat_indices(Seq::<ChunkView>::empty()) =~= index_range(i, es.len() as int));
    } else {
        let (j, cs) = lemma_group_step(es, i, max, policy);
        let rest = grouped_from(es, j, max, policy);
        lemma_section_cover(es, i, j, cs, max);
        lemma_grouped_cover(es, j, max, policy);
        lemma_flat_concat(rebase(cs, i), rest);
        assert(index_range(i, j) + index_range(j, es.len() as int) =~= index_range(i, es.len() as int));
        lemma_consecutive_concat(rebase(cs, i), rest);
    }
}

/// Section grouping covers its input too: when every element goes into a
/// chunk whole, the indices of the grouped chunks are `0, 1, ..., n - 1`
/// in order, consecutive within each chunk.
pub proof fn law_grouped_covers_input(es: Seq<ElementView>, max: nat, policy: MergePolicy)
    requires
        all_go_whole(es, max),
        es.len() <= usize::MAX,
    ensures
        flat_indices(pack_grouped_spec(es, max, policy)) == upto(es.len()),
        chunks_consecutive(pack_grouped_spec(es, max, policy)),
{
    lemma_grouped_cover(es, 0, max, policy);
    assert(index_range(0, es.len() as int) =~= upto(es.len()));
}

/// The chunker covers its input: when every element goes into a chunk
/// whole, the indices of the chunks `chunk` returns under the `Default` or
/// `Technical` profile are `0, ..., n - 1` in order, consecutive within
/// each chunk, with or without section grouping.
pub proof fn law_chunker_covers_input(cfg: DocxRagChunker, es: Seq<ElementView>)
    requires
        cfg.profile == ExtractionProfile::Default || cfg.profile == ExtractionProfile::Technical,
        all_go_whole(es, cfg.max_tokens as nat),
        es.len() <= usize::MAX,
    ensures
        flat_indices(chunk_spec(cfg, es)) == upto(es.len()),
        chunks_consecutive(chunk_spec(cfg, es)),
{
    if cfg.group_sections {
        law_grouped_covers_input(es, cfg.max_tokens as nat, cfg.merge_policy);
    } else {
        law_pack_covers_input(es, cfg.max_tokens as nat, cfg.merge_policy);
    }
}

/// The `Default` and `Technical` profiles change nothing: the chunks are
/// those of the elements as given, the same as under the other settings
/// with no profile applied.
pub proof fn law_default_profile_is_identity(cfg: DocxRagChunker, es: Seq<ElementView>)
    requires
        cfg.profile == ExtractionProfile::Default || cfg.profile == ExtractionProfile::Technical,
    ensures
        chunk_spec(cfg, es) == chunk_view_spec(cfg, es),
        chunk_spec(cfg, es) == chunk_spec(DocxRagChunker { profile: ExtractionProfile::Default, ..cfg }, es),
{
}

proof fn lemma_rebase_below(cs: Seq<ChunkView>, off: int, n: int)
    requires
        chunks_below(cs, n),
        0 <= off,
        off + n <= usize::MAX,
    ensures
        chunks_below(rebase(cs, off), off + n),
{
    assert forall|c: int| 0 <= c < rebase(cs, off).len() implies indices_below(#[trigger] rebase(cs, off)[c].paragraph_indices, off + n) by {
        assert(indices_below(cs[c].paragraph_indices, n));
    }
}

proof fn lemma_below_concat(a: Seq<ChunkView>, b: Seq<ChunkView>, n: int)
    requires
        chunks_below(a, n),
        chunks_below(b, n),
    ensures
        chunks_below(a + b, n),
{
    assert forall|c: int| 0 <= c < (a + b).len() implies indices_below(#[trigger] (a + b)[c].paragraph_indices, n) by {
        if c < a.len() {
            assert((a + b)[c] == a[c]);
        } else {
            assert((a + b)[c] == b[c - a.len()]);
        }
    }
}

proof fn lemma_below_weaken(cs: Seq<ChunkView>, n: int, m: int)
    requires
        chunks_below(cs, n),
        n <= m,
    ensures
        chunks_below(cs, m),
{
    assert forall|c: int| 0 <= c < cs.len() implies indices_below(#[trigger] cs[c].paragraph_indices, m) by {
        assert(indices_below(cs[c].paragraph_indices, n));
    }
}

proof fn lemma_single_below(s: Seq<ElementView>)
    ensures
        chunks_below(single_chunk_spec(s), s.len() as int),
    decreases s.len(),
{
    lemma_single_fold_below(s);
    let (a, h) = single_fold(s);
    if a.indices.len() > 0 {
        assert(single_chunk_spec(s)[0].paragraph_indices == a.indices);
    }
}

proof fn lemma_single_fold_below(s: Seq<ElementView>)
    ensures
        indices_below(single_fold(s).0.indices, s.len() as int),
    decreases s.len(),
{
    if s.len() > 0 {
        lemma_single_fold_below(s.drop_last());
    }
}

proof fn lemma_grouped_below(es: Seq<ElementView>, i: int, max: nat, policy: MergePolicy)
    requires
        0 <= i,
        es.len() <= usize::MAX,
    ensures
        chunks_below(grouped_from(es, i, max, policy), es.len() as int),
    decreases es.len() - i,
{
    if i < es.len() {
        let (j, cs) = match es[i] {
            ElementView::Heading { level, .. } => {
                lemma_section_end(es, i + 1, level);
                let j = section_end(es, i + 1, level);
                let sec = es.subrange(i, j);
                if section_tokens(sec) <= max {
                    lemma_single_below(sec);
                    (j, single_chunk_spec(sec))
                } else {
                    lemma_pack_spec_bound(sec, max, policy);
                    (j, pack_spec(sec, max, policy))
                }
            },
            _ => {
                lemma_next_heading(es, i);
                let j = next_heading(es, i);
                lemma_pack_spec_bound(es.subrange(i, j), max, policy);
                (j, pack_spec(es.subrange(i, j), max, policy))
            },
        };
        assert(grouped_from(es, i, max, policy) == rebase(cs, i) + grouped_from(es, j, max, policy));
        lemma_rebase_below(cs, i, j - i);
        lemma_below_weaken(rebase(cs, i), j, es.len() as int);
        lemma_grouped_below(es, j, max, policy);
        lemma_below_concat(rebase(cs, i), grouped_from(es, j, max, policy), es.len() as int);
    } else {
        assert(chunks_below(Seq::<ChunkView>::empty(), es.len() as int));
    }
}

/// Every index in the chunks of a sequence is a position in it.
pub proof fn lemma_chunk_view_below(cfg: DocxRagChunker, es: Seq<ElementView>)
    requires
        es.len() <= usize::MAX,
    ensures
        chunks_below(chunk_view_spec(cfg, es), es.len() as int),
{
    if cfg.group_sections {
        lemma_grouped_below(es, 0, cfg.max_tokens as nat, cfg.merge_policy);
    } else {
        lemma_pack_spec_bound(es, cfg.max_tokens as nat, cfg.merge_policy);
    }
}

/// Heading levels strictly increase along a heading context.
pub open spec fn levels_increase(ctx: Seq<(u8, Seq<char>)>) -> bool {
    forall|a: int, b: int| 0 <= a < b < ctx.len() ==> (#[trigger] ctx[a]).0 < (#[trigger] ctx[b]).0
}

/// What a chunk's indices say about the elements they name:
/// - a heading is the chunk's first element and the deepest entry of its
///   heading context;
/// - a table is alone in its chunk;
/// - an oversized chunk holds one index and one type, of an element above
///   the budget.
pub open spec fn chunk_shape(c: ChunkView, es: Seq<ElementView>, max: nat) -> bool {
    &&& levels_increase(c.heading_context)
    &&& indices_below(c.paragraph_indices, es.len() as int)
    &&& forall|k: int| 0 <= k < c.paragraph_indices.len() ==> match #[trigger] es[c.paragraph_indices[k] as int] {
        ElementView::Heading { level, text } => k == 0 && c.heading_context.len() > 0
            && c.heading_context.last() == (level, text),
        ElementView::Table { .. } => c.paragraph_indices.len() == 1,
        _ => true,
    }
    &&& c.is_oversized ==> c.paragraph_indices.len() == 1 && c.element_types.len() == 1
        && element_tokens(es[c.paragraph_indices[0] as int]) > max
}

pub open spec fn chunks_shaped(cs: Seq<ChunkView>, es: Seq<ElementView>, max: nat) -> bool {
    forall|c: int| 0 <= c < cs.len() ==> chunk_shape(#[trigger] cs[c], es, max)
}

spec fn shape_ok(st: PackState, es: Seq<ElementView>, max: nat) -> bool {
    &&& chunks_shaped(st.out, es, max)
    &&& levels_increase(st.stack)
    &&& indices_below(st.acc.indices, es.len() as int)
    &&& st.acc.indices.len() == st.acc.types.len()
    &&& forall|k: int| 0 <= k < st.acc.indices.len() ==> match #[trigger] es[st.acc.indices[k] as int] {
        ElementView::Heading { level, text } => k == 0 && st.stack.len() > 0 && st.stack.last() == (level, text),
        ElementView::Table { .. } => false,
        _ => true,
    }
}

proof fn lemma_keep_shallower_shape(s: Seq<(u8, Seq<char>)>, level: u8)
    requires
        levels_increase(s),
    ensures
        levels_increase(keep_shallower(s, level)),
        forall|k: int| 0 <= k < keep_shallower(s, level).len() ==> (#[trigger] keep_shallower(s, level)[k]).0 < level,
        forall|k: int| 0 <= k < keep_shallower(s, level).len() ==> exists|j: int| 0 <= j < s.len()
            && #[trigger] keep_shallower(s, level)[k] == s[j],
    decreases s.len(),
{
    if s.len() > 0 {
        let pre = s.drop_last();
        assert(levels_increase(pre)) by {
            assert forall|a: int, b: int| 0 <= a < b < pre.len() implies (#[trigger] pre[a]).0 < (#[trigger] pre[b]).0 by {
                assert(pre[a] == s[a] && pre[b] == s[b]);
            }
        }
        lemma_keep_shallower_shape(pre, level);
        let r = keep_shallower(pre, level);
        if s.last().0 < level {
            let t = r.push(s.last());
            assert forall|k: int| 0 <= k < r.len() implies (#[trigger] r[k]).0 < s.last().0 by {
                let j = choose|j: int| 0 <= j < pre.len() && r[k] == pre[j];
                assert(pre[j] == s[j]);
                assert(s[j].0 < s[s.len() - 1].0);
            }
            assert forall|a: int, b: int| 0 <= a < b < t.len() implies (#[trigger] t[a]).0 < (#[trigger] t[b]).0 by {
                if b < r.len() {
                    assert(t[a] == r[a] && t[b] == r[b]);
                } else {
                    assert(t[a] == r[a]);
                }
            }
            assert forall|k: int| 0 <= k < t.len() implies exists|j: int| 0 <= j < s.len() && #[trigger] t[k] == s[j] by {
                if k < r.len() {
                    let j = choose|j: int| 0 <= j < pre.len() && r[k] == pre[j];
                    assert(t[k] == s[j]);
                } else {
                    assert(t[k] == s[s.len() - 1]);
                }
            }
        } else {
            assert forall|k: int| 0 <= k < r.len() implies exists|j: int| 0 <= j < s.len() && #[trigger] r[k] == s[j] by {
                let j = choose|j: int| 0 <= j < pre.len() && r[k] == pre[j];
                assert(r[k] == s[j]);
            }
        }
    }
}

proof fn lemma_push_heading(s: Seq<(u8, Seq<char>)>, level: u8, text: Seq<char>)
    requires
        levels_increase(s),
    ensures
        levels_increase(keep_shallower(s, level).push((level, text))),
{
    lemma_keep_shallower_shape(s, level);
    let r = keep_shallower(s, level);
    let t = r.push((level, text));
    assert forall|a: int, b: int| 0 <= a < b < t.len() implies (#[trigger] t[a]).0 < (#[trigger] t[b]).0 by {
        if b < r.len() {
            assert(t[a] == r[a] && t[b] == r[b]);
        } else {
            assert(t[a] == r[a]);
        }
    }
}

proof fn lemma_flush_shape(st: PackState, es: Seq<ElementView>, max: nat)
    requires
        shape_ok(st, es, max),
    ensures
        shape_ok(flush(st), es, max),
        flush(st).acc.indices.len() == 0,
        flush(st).stack == st.stack,
{
    let f = flush(st);
    if st.acc.indices.len() > 0 {
        let c = finalize_view(st.acc, st.stack);
        assert(chunk_shape(c, es, max));
        assert forall|k: int| 0 <= k < f.out.len() implies chunk_shape(#[trigger] f.out[k], es, max) by {
            if k < st.out.len() {
                assert(f.out[k] == st.out[k]);
            }
        }
    } else {
        assert(st.acc.indices =~= Seq::<usize>::empty());
    }
}

proof fn lemma_shape_extend(st: PackState, es: Seq<ElementView>, e: ElementView, max: nat)
    requires
        shape_ok(st, es, max),
    ensures
        shape_ok(st, es.push(e), max),
{
    let es2 = es.push(e);
    assert forall|c: int| 0 <= c < st.out.len() implies chunk_shape(#[trigger] st.out[c], es2, max) by {
        let ch = st.out[c];
        assert(chunk_shape(ch, es, max));
        assert forall|k: int| 0 <= k < ch.paragraph_indices.len() implies
            es2[ch.paragraph_indices[k] as int] == es[ch.paragraph_indices[k] as int] by {
            assert(ch.paragraph_indices[k] < es.len());
        }
        if ch.is_oversized {
            assert(ch.paragraph_indices[0] < es.len());
        }
    }
    assert forall|k: int| 0 <= k < st.acc.indices.len() implies
        es2[st.acc.indices[k] as int] == es[st.acc.indices[k] as int] by {
        assert(st.acc.indices[k] < es.len());
    }
}

proof fn lemma_pack_fold_shape(es: Seq<ElementView>, max: nat, policy: MergePolicy)
    requires
        es.len() <= usize::MAX,
    ensures
        shape_ok(pack_fold(es, max, policy), es, max),
    decreases es.len(),
{
    if es.len() == 0 {
        assert(chunks_shaped(Seq::<ChunkView>::empty(), es, max));
        assert(levels_increase(Seq::<(u8, Seq<char>)>::empty()));
    } else {
        let pre = es.drop_last();
        lemma_pack_fold_shape(pre, max, policy);
        let st0 = pack_fold(pre, max, policy);
        let e = es.last();
        assert(pre.push(e) =~= es);
        lemma_shape_extend(st0, pre, e, max);
        let st = st0;
        assert(shape_ok(st, es, max));
        let i = (es.len() - 1) as usize;
        assert(es[i as int] == e);
        lemma_flush_shape(st, es, max);
        let f = flush(st);
        let nst = pack_step(st, i, e, max, policy);
        assert(pack_fold(es, max, policy) == nst);
        match e {
            ElementView::Heading { level, text } => {
                lemma_push_heading(f.stack, level, text);
                let a = acc_push(empty_acc(), i, text, "heading"@);
                assert(a.indices == seq![i]);
            },
            ElementView::Table { .. } => {
                let text = crate::pipeline::export::plain_render(e);
                let t = token_estimate(text);
                let c = if t > max {
                    crate::pipeline::rag::fragment_view(text, i, "table"@, f.stack, t)
                } else {
                    finalize_view(acc_push(empty_acc(), i, text, "table"@), f.stack)
                };
                assert(c.paragraph_indices =~= seq![i]);
                assert(chunk_shape(c, es, max));
                assert forall|k: int| 0 <= k < nst.out.len() implies chunk_shape(#[trigger] nst.out[k], es, max) by {
                    if k < f.out.len() {
                        assert(nst.out[k] == f.out[k]);
                    }
                }
            },
            _ => {
                match text_and_type_of(e) {
                    None => {},
                    Some((text, etype)) => {
                        let t = token_estimate(text);
                        if t > max {
                            let fr = fragments(text, i, etype, f.stack, max);
                            assert forall|k: int| 0 <= k < nst.out.len() implies chunk_shape(#[trigger] nst.out[k], es, max) by {
                                if k < f.out.len() {
                                    assert(nst.out[k] == f.out[k]);
                                } else {
                                    assert(nst.out[k] == fr[k - f.out.len()]);
                                    assert(fr[k - f.out.len()].paragraph_indices == seq![i]);
                                }
                            }
                        } else {
                            let blocks = policy == MergePolicy::SameTypeOnly && st.acc.types.len() > 0
                                && st.acc.types.last() != etype;
                            let g = if st.acc.indices.len() > 0 && (st.tokens + t > max || blocks) { f } else { st };
                            assert(shape_ok(g, es, max));
                            let na = acc_push(g.acc, i, text, etype);
                            assert forall|k: int| 0 <= k < na.indices.len() implies match #[trigger] es[na.indices[k] as int] {
                                ElementView::Heading { level, text } => k == 0 && g.stack.len() > 0 && g.stack.last() == (level, text),
                                ElementView::Table { .. } => false,
                                _ => true,
                            } by {
                                if k < g.acc.indices.len() {
                                    assert(na.indices[k] == g.acc.indices[k]);
                                }
                            }
                        }
                    },
                }
            },
        }
    }
}

/// The greedy packer's chunks are well shaped: heading levels increase
/// along every heading context; a heading opens its chunk and is the
/// deepest entry of that chunk's context; a table is alone in its chunk;
/// an oversized chunk holds one index and one type, of an element above
/// the budget.
pub proof fn law_pack_chunk_shape(es: Seq<ElementView>, max: nat, policy: MergePolicy)
    requires
        es.len() <= usize::MAX,
    ensures
        chunks_shaped(pack_spec(es, max, policy), es, max),
{
    lemma_pack_fold_shape(es, max, policy);
    lemma_flush_shape(pack_fold(es, max, policy), es, max);
}

/// The chunks `chunk` returns under the `Default` and `Technical` profiles
/// without section grouping are well shaped, as `law_pack_chunk_shape`
/// says of the greedy packer.
pub proof fn law_chunker_chunk_shape(cfg: DocxRagChunker, es: Seq<ElementView>)
    requires
        cfg.profile == ExtractionProfile::Default || cfg.profile == ExtractionProfile::Technical,
        !cfg.group_sections,
        es.len() <= usize::MAX,
    ensures
        chunks_shaped(chunk_spec(cfg, es), es, cfg.max_tokens as nat),
{
    law_pack_chunk_shape(es, cfg.max_tokens as nat, cfg.merge_policy);
}

// ---------------------------------------------------------------------
// Coverage with split elements
// ---------------------------------------------------------------------

/// The text holds a character that is not whitespace.
spec fn has_word(s: Seq<char>) -> bool {
    exists|j: int| 0 <= j < s.len() && !is_space(#[trigger] s[j])
}

proof fn lemma_words_have_word(s: Seq<char>)
    ensures
        word_count(s) > 0 ==> has_word(s),
    decreases s.len(),
{
    if s.len() > 0 {
        let pre = s.drop_last();
        lemma_words_have_word(pre);
        if word_count(pre) > 0 {
            let j = choose|j: int| 0 <= j < pre.len() && !is_space(#[trigger] pre[j]);
            assert(s[j] == pre[j]);
        } else if word_count(s) > 0 {
            assert(!is_space(s[s.len() - 1]));
        }
    }
}

proof fn lemma_trim_keeps_word(s: Seq<char>)
    requires
        has_word(s),
    ensures
        has_word(trim_start(s)),
        has_word(trim_end(s)),
        trim(s).len() > 0,
    decreases s.len(),
{
    let j = choose|j: int| 0 <= j < s.len() && !is_space(#[trigger] s[j]);
    if is_space(s[0]) {
        let t = s.drop_first();
        assert(t[j - 1] == s[j]);
        lemma_trim_keeps_word(t);
    }
    if is_space(s.last()) {
        let t = s.drop_last();
        assert(t[j] == s[j]);
        lemma_trim_keeps_word(t);
    }
    if has_word(trim_start(s)) {
        lemma_trim_end_word(trim_start(s));
    }
}

proof fn lemma_trim_end_word(s: Seq<char>)
    requires
        has_word(s),
    ensures
        trim_end(s).len() > 0,
    decreases s.len(),
{
    let j = choose|j: int| 0 <= j < s.len() && !is_space(#[trigger] s[j]);
    if is_space(s.last()) {
        let t = s.drop_last();
        assert(t[j] == s[j]);
        lemma_trim_end_word(t);
    }
}

proof fn lemma_split_nonempty(cs: Seq<char>, i: int, cur: Seq<char>, acc: Seq<Seq<char>>)
    requires
        0 <= i,
        forall|k: int| 0 <= k < acc.len() ==> (#[trigger] acc[k]).len() > 0,
        acc.len() > 0 || has_word(cur) || exists|j: int| i <= j < cs.len() && !is_space(#[trigger] cs[j]),
    ensures
        split_from(cs, i, cur, acc).len() > 0,
        forall|k: int| 0 <= k < split_from(cs, i, cur, acc).len() ==> (#[trigger] split_from(cs, i, cur, acc)[k]).len() > 0,
    decreases cs.len() - i,
{
    if i >= cs.len() {
        if has_word(cur) {
            lemma_trim_keeps_word(cur);
        }
        let last = trim(cur);
        if last.len() > 0 {
            assert forall|k: int| 0 <= k < acc.push(last).len() implies (#[trigger] acc.push(last)[k]).len() > 0 by {
                if k < acc.len() {
                    assert(acc.push(last)[k] == acc[k]);
                }
            }
        }
    } else {
        let cur2 = cur.push(cs[i]);
        if has_word(cur) {
            let j = choose|j: int| 0 <= j < cur.len() && !is_space(#[trigger] cur[j]);
            assert(cur2[j] == cur[j]);
        } else if exists|j: int| i <= j < cs.len() && !is_space(#[trigger] cs[j]) {
            let j = choose|j: int| i <= j < cs.len() && !is_space(#[trigger] cs[j]);
            if j == i {
                assert(cur2[cur.len() as int] == cs[i]);
            } else {
                assert(exists|j2: int| i + 1 <= j2 < cs.len() && !is_space(#[trigger] cs[j2]));
            }
        }
        if is_sentence_end(cs[i]) && i + 1 < cs.len() && cs[i + 1] == ' ' {
            assert(cur2[cur.len() as int] == cs[i]);
            assert(!is_space(cs[i]));
            lemma_trim_keeps_word(cur2);
            let a2 = acc.push(trim(cur2));
            assert forall|k: int| 0 <= k < a2.len() implies (#[trigger] a2[k]).len() > 0 by {
                if k < acc.len() {
                    assert(a2[k] == acc[k]);
                }
            }
            lemma_split_nonempty(cs, i + 2, Seq::empty(), a2);
        } else {
            lemma_split_nonempty(cs, i + 1, cur2, acc);
        }
    }
}

proof fn lemma_pack_from_nonempty(ss: Seq<Seq<char>>, k: int, buf: Seq<char>, bt: nat, packed: Seq<Seq<char>>, max: nat)
    requires
        0 <= k,
        packed.len() > 0 || buf.len() > 0 || exists|j: int| k <= j < ss.len() && (#[trigger] ss[j]).len() > 0,
    ensures
        pack_from(ss, k, buf, bt, packed, max).len() > 0,
    decreases ss.len() - k,
{
    if k < ss.len() {
        let s = ss[k];
        let t = token_estimate(s);
        let flush = buf.len() > 0 && bt + t > max;
        let packed2 = if flush { packed.push(buf) } else { packed };
        let buf2 = if flush { Seq::empty() } else { buf };
        let bt2 = if flush { 0 } else { bt };
        let buf3 = if buf2.len() > 0 { buf2.push(' ') } else { buf2 };
        if packed2.len() == 0 && buf.len() == 0 && s.len() == 0 {
            let j = choose|j: int| k <= j < ss.len() && (#[trigger] ss[j]).len() > 0;
            assert(j != k);
        }
        assert((buf3 + s).len() == buf3.len() + s.len());
        lemma_pack_from_nonempty(ss, k + 1, buf3 + s, bt2 + t, packed2, max);
    }
}

/// An element above the budget is split into at least one fragment.
proof fn lemma_fragments_nonempty(text: Seq<char>, max: nat)
    requires
        token_estimate(text) > max,
    ensures
        packed_sentences(sentences_of(text), max).len() > 0,
{
    lemma_words_have_word(text);
    assert(word_count(text) > 0);
    let j = choose|j: int| 0 <= j < text.len() && !is_space(#[trigger] text[j]);
    assert(exists|j2: int| 0 <= j2 < text.len() && !is_space(#[trigger] text[j2]));
    lemma_split_nonempty(text, 0, Seq::empty(), Seq::empty());
    let ss = sentences_of(text);
    assert(ss[0].len() > 0);
    lemma_pack_from_nonempty(ss, 0, Seq::empty(), 0, Seq::empty(), max);
}

/// How many chunk pieces carry an element's index: none for a page header
/// or footer, one for an element that goes whole, one per fragment for an
/// inline element above the budget.
pub open spec fn pieces(e: ElementView, max: nat) -> nat {
    match e {
        ElementView::Heading { .. } => 1,
        ElementView::Table { .. } => 1,
        _ => match text_and_type_of(e) {
            None => 0,
            Some((t, _)) => if token_estimate(t) <= max { 1 } else { packed_sentences(sentences_of(t), max).len() },
        },
    }
}

/// Each element's index, once per piece that carries it, in order.
pub open spec fn expected_indices(es: Seq<ElementView>, max: nat) -> Seq<usize>
    decreases es.len(),
{
    if es.len() == 0 {
        Seq::empty()
    } else {
        expected_indices(es.drop_last(), max) + Seq::new(pieces(es.last(), max), |k: int| (es.len() - 1) as usize)
    }
}

proof fn lemma_flat_single_index(cs: Seq<ChunkView>, i: usize)
    requires
        forall|k: int| 0 <= k < cs.len() ==> (#[trigger] cs[k]).paragraph_indices == seq![i],
    ensures
        flat_indices(cs) == Seq::new(cs.len(), |k: int| i),
    decreases cs.len(),
{
    if cs.len() > 0 {
        let pre = cs.drop_last();
        assert forall|k: int| 0 <= k < pre.len() implies (#[trigger] pre[k]).paragraph_indices == seq![i] by {
            assert(pre[k] == cs[k]);
        }
        lemma_flat_single_index(pre, i);
        assert(cs.last() == cs[cs.len() - 1]);
        assert(flat_indices(cs) =~= Seq::new(cs.len(), |k: int| i));
    }
}

proof fn lemma_flush_flat(st: PackState)
    ensures
        flat_indices(flush(st).out) + flush(st).acc.indices == flat_indices(st.out) + st.acc.indices,
        flush(st).acc.indices.len() == 0,
        flush(st).stack == st.stack,
{
    let f = flush(st);
    if st.acc.indices.len() > 0 {
        assert(f.out.drop_last() == st.out);
        assert(f.out.last().paragraph_indices == st.acc.indices);
        assert(flat_indices(f.out) + f.acc.indices =~= flat_indices(st.out) + st.acc.indices);
    } else {
        assert(flat_indices(f.out) + f.acc.indices =~= flat_indices(st.out) + st.acc.indices);
    }
}

proof fn lemma_pack_fold_expected(es: Seq<ElementView>, max: nat, policy: MergePolicy)
    requires
        es.len() <= usize::MAX,
    ensures
        flat_indices(pack_fold(es, max, policy).out) + pack_fold(es, max, policy).acc.indices
            == expected_indices(es, max),
    decreases es.len(),
{
    if es.len() == 0 {
        assert(flat_indices(Seq::<ChunkView>::empty()) + Seq::<usize>::empty() =~= Seq::<usize>::empty());
    } else {
        let pre = es.drop_last();
        let n = pre.len();
        lemma_pack_fold_expected(pre, max, policy);
        let st = pack_fold(pre, max, policy);
        let i = n as usize;
        let e = es.last();
        lemma_flush_flat(st);
        let f = flush(st);
        let nst = pack_step(st, i, e, max, policy);
        assert(pack_fold(es, max, policy) == nst);
        let before = expected_indices(pre, max);
        let add = Seq::new(pieces(e, max), |k: int| (es.len() - 1) as usize);
        assert(expected_indices(es, max) == before + add);
        match e {
            ElementView::Heading { level, text } => {
                assert(add =~= seq![i]);
                assert(flat_indices(nst.out) + nst.acc.indices =~= before + add);
            },
            ElementView::Table { .. } => {
                let text = crate::pipeline::export::plain_render(e);
                let t = token_estimate(text);
                let c = if t > max {
                    crate::pipeline::rag::fragment_view(text, i, "table"@, f.stack, t)
                } else {
                    finalize_view(acc_push(empty_acc(), i, text, "table"@), f.stack)
                };
                assert(c.paragraph_indices =~= seq![i]);
                assert(nst == PackState { out: f.out.push(c), ..f });
                assert(nst.out.drop_last() == f.out);
                assert(add =~= seq![i]);
                assert(f.acc.indices =~= Seq::<usize>::empty());
                assert(flat_indices(nst.out) + nst.acc.indices =~= before + add);
            },
            _ => {
                match text_and_type_of(e) {
                    None => {
                        assert(add =~= Seq::<usize>::empty());
                        assert(before + add =~= before);
                    },
                    Some((text, etype)) => {
                        let t = token_estimate(text);
                        if t > max {
                            let fr = fragments(text, i, etype, f.stack, max);
                            assert(nst.out == f.out + fr);
                            assert(nst.acc == f.acc);
                            assert forall|k: int| 0 <= k < fr.len() implies (#[trigger] fr[k]).paragraph_indices == seq![i] by {}
                            lemma_flat_single_index(fr, i);
                            lemma_flat_concat(f.out, fr);
                            assert(fr.len() == pieces(e, max));
                            assert(flat_indices(fr) =~= add);
                            assert(f.acc.indices =~= Seq::<usize>::empty());
                            assert(flat_indices(nst.out) + nst.acc.indices =~= before + add);
                        } else {
                            let blocks = policy == MergePolicy::SameTypeOnly && st.acc.types.len() > 0
                                && st.acc.types.last() != etype;
                            let g = if st.acc.indices.len() > 0 && (st.tokens + t > max || blocks) { f } else { st };
                            assert(flat_indices(g.out) + g.acc.indices == before);
                            let na = acc_push(g.acc, i, text, etype);
                            assert(nst.acc == na);
                            assert(nst.out == g.out);
                            assert(add =~= seq![i]);
                            assert(flat_indices(nst.out) + nst.acc.indices =~= before + add);
                        }
                    },
                }
            },
        }
    }
}

/// The greedy packer covers its input, split elements included: the
/// chunks' indices, one chunk after another, are each element's index in
/// order, once per piece that carries it; and every element but a page
/// header or footer is carried by at least one piece.
pub proof fn law_pack_covers_every_element(es: Seq<ElementView>, max: nat, policy: MergePolicy)
    requires
        es.len() <= usize::MAX,
    ensures
        flat_indices(pack_spec(es, max, policy)) == expected_indices(es, max),
        forall|i: int| 0 <= i < es.len() && !(es[i] is Header || es[i] is Footer)
            ==> #[trigger] pieces(es[i], max) >= 1,
{
    lemma_pack_fold_expected(es, max, policy);
    let st = pack_fold(es, max, policy);
    lemma_flush_flat(st);
    let f = flush(st);
    assert(flat_indices(f.out) + f.acc.indices =~= flat_indices(f.out));
    assert forall|i: int| 0 <= i < es.len() && !(es[i] is Header || es[i] is Footer)
        implies #[trigger] pieces(es[i], max) >= 1 by {
        match text_and_type_of(es[i]) {
            Some((t, _)) => {
                if token_estimate(t) > max {
                    lemma_fragments_nonempty(t, max);
                }
            },
            None => {},
        }
    }
}

proof fn lemma_single_fold_expected(s: Seq<ElementView>, max: nat)
    requires
        s.len() <= usize::MAX,
        section_tokens(s) <= max,
    ensures
        single_fold(s).0.indices == expected_indices(s, max),
        flat_indices(single_chunk_spec(s)) == expected_indices(s, max),
    decreases s.len(),
{
    if s.len() > 0 {
        let pre = s.drop_last();
        lemma_single_fold_expected(pre, max);
        let e = s.last();
        let i = (s.len() - 1) as usize;
        let add = Seq::new(pieces(e, max), |k: int| (s.len() - 1) as usize);
        match e {
            ElementView::Heading { .. } => {
                assert(add =~= seq![i]);
            },
            ElementView::Table { .. } => {
                assert(add =~= seq![i]);
            },
            _ => match text_and_type_of(e) {
                Some((t, _)) => {
                    assert(token_estimate(t) <= max);
                    assert(add =~= seq![i]);
                },
                None => {
                    assert(add =~= Seq::<usize>::empty());
                },
            },
        }
        assert(single_fold(s).0.indices =~= expected_indices(s, max));
    }
    let (a, h) = single_fold(s);
    if a.indices.len() == 0 {
        assert(flat_indices(Seq::<ChunkView>::empty()) =~= a.indices);
    } else {
        let cs = seq![finalize_view(a, h)];
        assert(single_chunk_spec(s) == cs);
        assert(cs.drop_last() =~= Seq::<ChunkView>::empty());
        assert(flat_indices(Seq::<ChunkView>::empty()) == Seq::<usize>::empty());
        assert(flat_indices(cs) == flat_indices(cs.drop_last()) + cs.last().paragraph_indices);
        assert(flat_indices(cs) =~= a.indices);
    }
}

proof fn lemma_expected_split(es: Seq<ElementView>, i: int, j: int, max: nat)
    requires
        0 <= i <= j <= es.len(),
        es.len() <= usize::MAX,
    ensures
        expected_indices(es.subrange(0, j), max)
            == expected_indices(es.subrange(0, i), max) + shifted(expected_indices(es.subrange(i, j), max), i),
    decreases j - i,
{
    if j == i {
        assert(es.subrange(i, j) =~= Seq::<ElementView>::empty());
        assert(expected_indices(es.subrange(0, i), max) + shifted(Seq::<usize>::empty(), i)
            =~= expected_indices(es.subrange(0, i), max));
    } else {
        lemma_expected_split(es, i, j - 1, max);
        let a = es.subrange(0, j);
        let b = es.subrange(i, j);
        assert(a.drop_last() =~= es.subrange(0, j - 1));
        assert(b.drop_last() =~= es.subrange(i, j - 1));
        assert(a.last() == es[j - 1]);
        assert(b.last() == es[j - 1]);
        let n = pieces(es[j - 1], max);
        let ea = expected_indices(es.subrange(0, j - 1), max);
        let eb = expected_indices(es.subrange(i, j - 1), max);
        assert(expected_indices(a, max) == ea + Seq::new(n, |k: int| (j - 1) as usize));
        assert(expected_indices(b, max) == eb + Seq::new(n, |k: int| (j - 1 - i) as usize));
        assert(shifted(eb + Seq::new(n, |k: int| (j - 1 - i) as usize), i)
            =~= shifted(eb, i) + Seq::new(n, |k: int| (j - 1) as usize));
        assert(expected_indices(a, max)
            =~= expected_indices(es.subrange(0, i), max) + shifted(expected_indices(b, max), i));
    }
}

proof fn lemma_group_step_expected(es: Seq<ElementView>, i: int, max: nat, policy: MergePolicy) -> (r: (int, Seq<ChunkView>))
    requires
        es.len() <= usize::MAX,
        0 <= i < es.len(),
    ensures
        i < r.0 <= es.len(),
        grouped_from(es, i, max, policy) == rebase(r.1, i) + grouped_from(es, r.0, max, policy),
        flat_indices(r.1) == expected_indices(es.subrange(i, r.0), max),
{
    match es[i] {
        ElementView::Heading { level, .. } => {
            lemma_section_end(es, i + 1, level);
            let j = section_end(es, i + 1, level);
            let sec = es.subrange(i, j);
            if section_tokens(sec) <= max {
                lemma_single_fold_expected(sec, max);
                (j, single_chunk_spec(sec))
            } else {
                law_pack_covers_every_element(sec, max, policy);
                (j, pack_spec(sec, max, policy))
            }
        },
        _ => {
            lemma_next_heading(es, i);
            let j = next_heading(es, i);
            law_pack_covers_every_element(es.subrange(i, j), max, policy);
            (j, pack_spec(es.subrange(i, j), max, policy))
        },
    }
}

proof fn lemma_expected_below(s: Seq<ElementView>, max: nat)
    ensures
        forall|k: int| 0 <= k < expected_indices(s, max).len() ==> #[trigger] expected_indices(s, max)[k] < s.len(),
    decreases s.len(),
{
    if s.len() > 0 {
        lemma_expected_below(s.drop_last(), max);
        let pre = expected_indices(s.drop_last(), max);
        let add = Seq::new(pieces(s.last(), max), |k: int| (s.len() - 1) as usize);
        assert forall|k: int| 0 <= k < expected_indices(s, max).len() implies #[trigger] expected_indices(s, max)[k] < s.len() by {
            if k < pre.len() {
                assert(expected_indices(s, max)[k] == pre[k]);
            } else {
                assert(expected_indices(s, max)[k] == add[k - pre.len()]);
            }
        }
    }
}

proof fn lemma_expected_sorted(s: Seq<ElementView>, max: nat)
    requires
        s.len() <= usize::MAX,
    ensures
        forall|a: int, b: int| 0 <= a < b < expected_indices(s, max).len() ==>
            #[trigger] expected_indices(s, max)[a] <= #[trigger] expected_indices(s, max)[b],
    decreases s.len(),
{
    if s.len() > 0 {
        lemma_expected_sorted(s.drop_last(), max);
        lemma_expected_below(s.drop_last(), max);
        let pre = expected_indices(s.drop_last(), max);
        let e = expected_indices(s, max);
        let add = Seq::new(pieces(s.last(), max), |k: int| (s.len() - 1) as usize);
        assert forall|a: int, b: int| 0 <= a < b < e.len() implies #[trigger] e[a] <= #[trigger] e[b] by {
            if b < pre.len() {
                assert(e[a] == pre[a]);
                assert(e[b] == pre[b]);
            } else if a < pre.len() {
                assert(e[a] == pre[a]);
                assert(e[b] == add[b - pre.len()]);
            } else {
                assert(e[a] == add[a - pre.len()]);
                assert(e[b] == add[b - pre.len()]);
            }
        }
    }
}

proof fn lemma_shifted_join(es: Seq<ElementView>, i: int, j: int, max: nat)
    requires
        0 <= i <= j <= es.len(),
        es.len() <= usize::MAX,
    ensures
        shifted(expected_indices(es.subrange(i, j), max), i) + shifted(expected_indices(es.subrange(j, es.len() as int), max), j)
            == shifted(expected_indices(es.subrange(i, es.len() as int), max), i),
{
    let n = es.len() as int;
    let t = es.subrange(i, n);
    lemma_expected_split(t, j - i, n - i, max);
    lemma_expected_below(es.subrange(j, n), max);
    lemma_expected_below(es.subrange(i, j), max);
    assert(t.subrange(0, j - i) =~= es.subrange(i, j));
    assert(t.subrange(j - i, n - i) =~= es.subrange(j, n));
    assert(t.subrange(0, n - i) =~= t);
    assert(t.subrange(0, 0) =~= Seq::<ElementView>::empty());
    let x = expected_indices(es.subrange(i, j), max);
    let y = expected_indices(es.subrange(j, n), max);
    assert(expected_indices(t.subrange(0, 0), max) =~= Seq::<usize>::empty());
    assert(expected_indices(t, max) =~= x + shifted(y, j - i));
    assert(shifted(x + shifted(y, j - i), i) =~= shifted(x, i) + shifted(y, j));
}

proof fn lemma_grouped_expected(es: Seq<ElementView>, i: int, max: nat, policy: MergePolicy)
    requires
        es.len() <= usize::MAX,
        0 <= i <= es.len(),
    ensures
        flat_indices(grouped_from(es, i, max, policy)) == shifted(expected_indices(es.subrange(i, es.len() as int), max), i),
    decreases es.len() - i,
{
    let n = es.len() as int;
    if i >= n {
        assert(es.subrange(i, n) =~= Seq::<ElementView>::empty());
        assert(flat_indices(Seq::<ChunkView>::empty()) =~= shifted(Seq::<usize>::empty(), i));
    } else {
        let (j, cs) = lemma_group_step_expected(es, i, max, policy);
        let rest = grouped_from(es, j, max, policy);
        lemma_grouped_expected(es, j, max, policy);
        lemma_flat_concat(rebase(cs, i), rest);
        lemma_flat_rebase(cs, i);
        lemma_shifted_join(es, i, j, max);
    }
}

/// Section grouping covers every element too: the indices of the grouped
/// chunks, one chunk after another, are each element's index in order,
/// once per piece that carries it.
pub proof fn law_grouped_covers_every_element(es: Seq<ElementView>, max: nat, policy: MergePolicy)
    requires
        es.len() <= usize::MAX,
    ensures
        flat_indices(pack_grouped_spec(es, max, policy)) == expected_indices(es, max),
{
    lemma_grouped_expected(es, 0, max, policy);
    assert(es.subrange(0, es.len() as int) =~= es);
    assert(shifted(expected_indices(es, max), 0) =~= expected_indices(es, max));
}

/// The chunker covers every element under the `Default` and `Technical`
/// profiles, with or without section grouping: the indices of the chunks
/// `chunk` returns, one chunk after another, are each element's index in
/// order, once per piece that carries it, and only page headers and footers
/// go uncarried.
pub proof fn law_chunker_covers_every_element(cfg: DocxRagChunker, es: Seq<ElementView>)
    requires
        cfg.profile == ExtractionProfile::Default || cfg.profile == ExtractionProfile::Technical,
        es.len() <= usize::MAX,
    ensures
        flat_indices(chunk_spec(cfg, es)) == expected_indices(es, cfg.max_tokens as nat),
        forall|i: int| 0 <= i < es.len() && !(es[i] is Header || es[i] is Footer)
            ==> #[trigger] pieces(es[i], cfg.max_tokens as nat) >= 1,
{
    law_pack_covers_every_element(es, cfg.max_tokens as nat, cfg.merge_policy);
    if cfg.group_sections {
        law_grouped_covers_every_element(es, cfg.max_tokens as nat, cfg.merge_policy);
    }
}

proof fn lemma_flat_remap(cs: Seq<ChunkView>, ix: Seq<usize>)
    ensures
        flat_indices(remap(cs, ix)) == flat_indices(cs).map_values(|x: usize| ix[x as int]),
    decreases cs.len(),
{
    if cs.len() == 0 {
        assert(flat_indices(remap(cs, ix)) =~= flat_indices(cs).map_values(|x: usize| ix[x as int]));
    } else {
        let pre = cs.drop_last();
        lemma_flat_remap(pre, ix);
        assert(remap(cs, ix).drop_last() =~= remap(pre, ix));
        let last = remap(cs, ix).last();
        assert(last.paragraph_indices =~= cs.last().paragraph_indices.map_values(|x: usize| ix[x as int]));
        assert((flat_indices(pre) + cs.last().paragraph_indices).map_values(|x: usize| ix[x as int])
            =~= flat_indices(pre).map_values(|x: usize| ix[x as int]) + cs.last().paragraph_indices.map_values(|x: usize| ix[x as int]));
    }
}

proof fn lemma_kept_names_kept(es: Seq<ElementView>, profile: ExtractionProfile)
    requires
        es.len() <= usize::MAX,
    ensures
        kept_indices(es, profile).len() <= es.len(),
        forall|k: int| 0 <= k < kept_indices(es, profile).len() ==>
            (#[trigger] kept_indices(es, profile)[k]) < es.len() && !dropped_by(profile, es[kept_indices(es, profile)[k] as int]),
        forall|a: int, b: int| 0 <= a < b < kept_indices(es, profile).len() ==>
            #[trigger] kept_indices(es, profile)[a] < #[trigger] kept_indices(es, profile)[b],
    decreases es.len(),
{
    if es.len() > 0 {
        let pre = es.drop_last();
        lemma_kept_names_kept(pre, profile);
        let kp = kept_indices(pre, profile);
        let ke = kept_indices(es, profile);
        let n = (es.len() - 1) as usize;
        if dropped_by(profile, es.last()) {
            assert(ke == kp);
            assert forall|k: int| 0 <= k < ke.len() implies
                (#[trigger] ke[k]) < es.len() && !dropped_by(profile, es[ke[k] as int]) by {
                assert(es[kp[k] as int] == pre[kp[k] as int]);
            }
        } else {
            assert(ke == kp.push(n));
            assert forall|k: int| 0 <= k < ke.len() implies
                (#[trigger] ke[k]) < es.len() && !dropped_by(profile, es[ke[k] as int]) by {
                if k < kp.len() {
                    assert(ke[k] == kp[k]);
                    assert(es[kp[k] as int] == pre[kp[k] as int]);
                } else {
                    assert(ke[k] == n);
                }
            }
            assert forall|a: int, b: int| 0 <= a < b < ke.len() implies #[trigger] ke[a] < #[trigger] ke[b] by {
                assert(ke[a] == kp[a]);
                if b < kp.len() {
                    assert(ke[b] == kp[b]);
                } else {
                    assert(ke[b] == n);
                }
            }
        }
    }
}

/// Under the `Minimal` and `Academic` profiles the chunks index the
/// caller's elements: their indices, one chunk after another, are the
/// positions of the kept elements, each once per piece that carries it
/// (the element as the profile leaves it); they never decrease along the
/// chunks, and none names an element the profile leaves out.
pub proof fn law_profiled_chunks_index_input(cfg: DocxRagChunker, es: Seq<ElementView>)
    requires
        cfg.profile == ExtractionProfile::Minimal || cfg.profile == ExtractionProfile::Academic,
        es.len() <= usize::MAX,
    ensures
        flat_indices(chunk_spec(cfg, es)) == expected_indices(profiled(es, cfg.profile), cfg.max_tokens as nat)
            .map_values(|x: usize| kept_indices(es, cfg.profile)[x as int]),
        forall|k: int| 0 <= k < flat_indices(chunk_spec(cfg, es)).len() ==> {
            let i = #[trigger] flat_indices(chunk_spec(cfg, es))[k];
            i < es.len() && !dropped_by(cfg.profile, es[i as int])
        },
        forall|a: int, b: int| 0 <= a < b < flat_indices(chunk_spec(cfg, es)).len() ==>
            #[trigger] flat_indices(chunk_spec(cfg, es))[a] <= #[trigger] flat_indices(chunk_spec(cfg, es))[b],
{
    let max = cfg.max_tokens as nat;
    let ps = profiled(es, cfg.profile);
    let ix = kept_indices(es, cfg.profile);
    lemma_kept_len(es, cfg.profile);
    lemma_kept_names_kept(es, cfg.profile);
    law_pack_covers_every_element(ps, max, cfg.merge_policy);
    if cfg.group_sections {
        law_grouped_covers_every_element(ps, max, cfg.merge_policy);
    }
    let cs = chunk_view_spec(cfg, ps);
    assert(flat_indices(cs) == expected_indices(ps, max));
    lemma_flat_remap(cs, ix);
    lemma_expected_below(ps, max);
    let fl = flat_indices(chunk_spec(cfg, es));
    assert forall|k: int| 0 <= k < fl.len() implies {
        let i = #[trigger] fl[k];
        i < es.len() && !dropped_by(cfg.profile, es[i as int])
    } by {
        let x = expected_indices(ps, max)[k];
        assert(x < ps.len());
        assert(fl[k] == ix[x as int]);
    }
    lemma_expected_sorted(ps, max);
    assert forall|a: int, b: int| 0 <= a < b < fl.len() implies #[trigger] fl[a] <= #[trigger] fl[b] by {
        let xa = expected_indices(ps, max)[a];
        let xb = expected_indices(ps, max)[b];
        assert(xa <= xb);
        assert(xb < ps.len());
        assert(fl[a] == ix[xa as int]);
        assert(fl[b] == ix[xb as int]);
        if xa < xb {
            assert(ix[xa as int] < ix[xb as int]);
        }
    }
}


// ---------------------------------------------------------------------
// What the profiles do to the text of the elements
// ---------------------------------------------------------------------

/// The text of a paragraph, list item or heading.
pub open spec fn block_text(e: ElementView) -> Option<Seq<char>> {
    match e {
        ElementView::Paragraph { text, .. } => Some(text),
        ElementView::ListItem { text, .. } => Some(text),
        ElementView::Heading { text, .. } => Some(text),
        _ => None,
    }
}

/// The `Academic` profile folds each footnote and endnote into the element
/// before it: when that element is a paragraph, list item or heading, a
/// footnote appends ` (Note N: text)` and an endnote ` (Endnote N: text)`
/// to its text, and nothing else changes; any other element passes
/// through unchanged at the end of the sequence.
pub proof fn law_academic_folds_notes(es: Seq<ElementView>, e: ElementView)
    ensures
        (e is Footnote || e is Endnote) && academic_view(es).len() > 0
            && block_text(academic_view(es).last()) is Some ==> {
            let before = academic_view(es);
            let after = academic_view(es.push(e));
            let add = match e {
                ElementView::Footnote { id, text } => " (Note "@ + decimal(id as nat) + ": "@ + text + ")"@,
                ElementView::Endnote { id, text } => " (Endnote "@ + decimal(id as nat) + ": "@ + text + ")"@,
                _ => Seq::empty(),
            };
            &&& after.len() == before.len()
            &&& after.drop_last() == before.drop_last()
            &&& block_text(after.last()) == Some(block_text(before.last()).unwrap() + add)
            &&& ends_with(block_text(after.last()).unwrap(), own_text(e).unwrap() + ")"@)
        },
        !(e is Footnote || e is Endnote) ==> academic_view(es.push(e)) == academic_view(es).push(e),
        academic_view(es).len() == 0 && (e is Footnote || e is Endnote) ==> academic_view(es.push(e)).len() == 0,
{
    let p = es.push(e);
    assert(p.drop_last() =~= es);
    assert(p.last() == e);
    let before = academic_view(es);
    if (e is Footnote || e is Endnote) && before.len() > 0 && block_text(before.last()) is Some {
        let after = academic_view(p);
        assert(after.drop_last() =~= before.drop_last());
        let add = match e {
            ElementView::Footnote { id, text } => " (Note "@ + decimal(id as nat) + ": "@ + text + ")"@,
            ElementView::Endnote { id, text } => " (Endnote "@ + decimal(id as nat) + ": "@ + text + ")"@,
            _ => Seq::empty(),
        };
        let b = block_text(before.last()).unwrap();
        let t = own_text(e).unwrap();
        let pre = match e {
            ElementView::Footnote { id, .. } => " (Note "@ + decimal(id as nat) + ": "@,
            ElementView::Endnote { id, .. } => " (Endnote "@ + decimal(id as nat) + ": "@,
            _ => Seq::empty(),
        };
        assert(add =~= pre + (t + ")"@));
        let whole = b + add;
        assert(whole =~= (b + pre) + (t + ")"@));
        assert(whole.subrange(whole.len() - (t + ")"@).len(), whole.len() as int) =~= t + ")"@);
    }
}

/// The `Minimal` profile keeps every element but notes and comments, in
/// order, unchanged.
pub proof fn law_minimal_keeps_the_rest(es: Seq<ElementView>, e: ElementView)
    ensures
        (e is Footnote || e is Endnote || e is Comment) ==> minimal_filter(es.push(e)) == minimal_filter(es),
        !(e is Footnote || e is Endnote || e is Comment) ==> minimal_filter(es.push(e)) == minimal_filter(es).push(e),
{
    let p = es.push(e);
    assert(p.drop_last() =~= es);
    assert(p.last() == e);
}

/// What an element brings to a chunk ends with its own text: a paragraph,
/// list item, footnote, endnote or comment is never cut short.
pub proof fn law_chunk_text_keeps_own_text(e: ElementView)
    ensures
        text_and_type_of(e) is Some && own_text(e) is Some ==> ends_with(text_and_type_of(e).unwrap().0, own_text(e).unwrap()),
{
    match e {
        ElementView::Footnote { id, text } => {
            let pre = "["@ + decimal(id as nat) + "] "@;
            assert((pre + text).subrange((pre + text).len() - text.len(), (pre + text).len() as int) =~= text);
        },
        ElementView::Endnote { id, text } => {
            let pre = "[endnote "@ + decimal(id as nat) + "] "@;
            assert((pre + text).subrange((pre + text).len() - text.len(), (pre + text).len() as int) =~= text);
        },
        ElementView::Comment { id, author, text } => {
            let pre = "[comment "@ + decimal(id as nat) + " by "@ + author + "] "@;
            assert((pre + text).subrange((pre + text).len() - text.len(), (pre + text).len() as int) =~= text);
        },
        ElementView::Paragraph { text, .. } => {
            assert(text.subrange(0, text.len() as int) =~= text);
        },
        ElementView::ListItem { text, .. } => {
            assert(text.subrange(0, text.len() as int) =~= text);
        },
        _ => {},
    }
}


// ---------------------------------------------------------------------
// What the chunks' texts hold
// ---------------------------------------------------------------------

/// The text an element brings to a chunk when it goes in whole: a
/// heading's text, else the text it contributes (none for page headers
/// and footers).
pub open spec fn piece_of(e: ElementView) -> Seq<char> {
    match e {
        ElementView::Heading { text, .. } => text,
        _ => match text_and_type_of(e) {
            Some((t, _)) => t,
            None => Seq::empty(),
        },
    }
}

/// A chunk that is not a piece of an oversized element holds, in its
/// text, the text of every element it names.
pub open spec fn chunk_keeps_texts(c: ChunkView, es: Seq<ElementView>) -> bool {
    !c.is_oversized ==> forall|k: int| 0 <= k < c.paragraph_indices.len() ==>
        (#[trigger] c.paragraph_indices[k]) < es.len() && occurs_in(piece_of(es[c.paragraph_indices[k] as int]), c.text)
}

spec fn acc_texts_ok(a: AccView, es: Seq<ElementView>) -> bool {
    &&& a.parts.len() == a.indices.len()
    &&& forall|k: int| 0 <= k < a.indices.len() ==>
        (#[trigger] a.indices[k]) < es.len() && a.parts[k] == piece_of(es[a.indices[k] as int])
}

spec fn texts_ok(st: PackState, es: Seq<ElementView>) -> bool {
    &&& acc_texts_ok(st.acc, es)
    &&& forall|c: int| 0 <= c < st.out.len() ==> chunk_keeps_texts(#[trigger] st.out[c], es)
}

proof fn lemma_texts_extend(st: PackState, es: Seq<ElementView>, e: ElementView)
    requires
        texts_ok(st, es),
    ensures
        texts_ok(st, es.push(e)),
{
    let es2 = es.push(e);
    assert forall|k: int| 0 <= k < st.acc.indices.len() implies
        (#[trigger] st.acc.indices[k]) < es2.len() && st.acc.parts[k] == piece_of(es2[st.acc.indices[k] as int]) by {
        assert(es2[st.acc.indices[k] as int] == es[st.acc.indices[k] as int]);
    }
    assert forall|c: int| 0 <= c < st.out.len() implies chunk_keeps_texts(#[trigger] st.out[c], es2) by {
        let ch = st.out[c];
        assert(chunk_keeps_texts(ch, es));
        if !ch.is_oversized {
            assert forall|k: int| 0 <= k < ch.paragraph_indices.len() implies
                (#[trigger] ch.paragraph_indices[k]) < es2.len()
                && occurs_in(piece_of(es2[ch.paragraph_indices[k] as int]), ch.text) by {
                assert(es2[ch.paragraph_indices[k] as int] == es[ch.paragraph_indices[k] as int]);
            }
        }
    }
}

proof fn lemma_finalize_keeps_texts(a: AccView, ctx: Seq<(u8, Seq<char>)>, es: Seq<ElementView>)
    requires
        acc_texts_ok(a, es),
    ensures
        chunk_keeps_texts(finalize_view(a, ctx), es),
{
    let c = finalize_view(a, ctx);
    assert forall|k: int| 0 <= k < c.paragraph_indices.len() implies
        (#[trigger] c.paragraph_indices[k]) < es.len() && occurs_in(piece_of(es[c.paragraph_indices[k] as int]), c.text) by {
        lemma_join_contains(a.parts, "\n\n"@, k);
    }
}

proof fn lemma_flush_texts(st: PackState, es: Seq<ElementView>)
    requires
        texts_ok(st, es),
    ensures
        texts_ok(flush(st), es),
{
    if st.acc.indices.len() > 0 {
        lemma_finalize_keeps_texts(st.acc, st.stack, es);
        let f = flush(st);
        assert forall|c: int| 0 <= c < f.out.len() implies chunk_keeps_texts(#[trigger] f.out[c], es) by {
            if c < st.out.len() {
                assert(f.out[c] == st.out[c]);
            }
        }
        assert(acc_texts_ok(empty_acc(), es));
    }
}

proof fn lemma_push_chunks_texts(f: PackState, extra: Seq<ChunkView>, es: Seq<ElementView>)
    requires
        texts_ok(f, es),
        forall|c: int| 0 <= c < extra.len() ==> chunk_keeps_texts(#[trigger] extra[c], es),
    ensures
        texts_ok(PackState { out: f.out + extra, ..f }, es),
{
    let g = PackState { out: f.out + extra, ..f };
    assert forall|c: int| 0 <= c < g.out.len() implies chunk_keeps_texts(#[trigger] g.out[c], es) by {
        if c < f.out.len() {
            assert(g.out[c] == f.out[c]);
        } else {
            assert(g.out[c] == extra[c - f.out.len()]);
        }
    }
}

proof fn lemma_pack_fold_texts(es: Seq<ElementView>, max: nat, policy: MergePolicy)
    requires
        es.len() <= usize::MAX,
    ensures
        texts_ok(pack_fold(es, max, policy), es),
    decreases es.len(),
{
    if es.len() == 0 {
        assert(acc_texts_ok(empty_acc(), es));
    } else {
        let pre = es.drop_last();
        lemma_pack_fold_texts(pre, max, policy);
        let st = pack_fold(pre, max, policy);
        let e = es.last();
        assert(pre.push(e) =~= es);
        lemma_texts_extend(st, pre, e);
        let i = (es.len() - 1) as usize;
        assert(es[i as int] == e);
        lemma_flush_texts(st, es);
        let f = flush(st);
        let nst = pack_step(st, i, e, max, policy);
        assert(pack_fold(es, max, policy) == nst);
        match e {
            ElementView::Heading { level, text } => {
                let a = acc_push(empty_acc(), i, text, "heading"@);
                assert(a.indices[0] == i);
                assert(acc_texts_ok(a, es));
            },
            ElementView::Table { .. } => {
                let text = plain_render(e);
                let t = token_estimate(text);
                let c = if t > max {
                    crate::pipeline::rag::fragment_view(text, i, "table"@, f.stack, t)
                } else {
                    finalize_view(acc_push(empty_acc(), i, text, "table"@), f.stack)
                };
                if t <= max {
                    let a = acc_push(empty_acc(), i, text, "table"@);
                    assert(a.indices[0] == i);
                    assert(acc_texts_ok(a, es));
                    lemma_finalize_keeps_texts(a, f.stack, es);
                }
                assert(chunk_keeps_texts(c, es));
                lemma_push_chunks_texts(f, seq![c], es);
                assert(f.out + seq![c] =~= f.out.push(c));
            },
            _ => {
                match text_and_type_of(e) {
                    None => {},
                    Some((text, etype)) => {
                        let t = token_estimate(text);
                        if t > max {
                            let fr = fragments(text, i, etype, f.stack, max);
                            assert forall|c: int| 0 <= c < fr.len() implies chunk_keeps_texts(#[trigger] fr[c], es) by {}
                            lemma_push_chunks_texts(f, fr, es);
                        } else {
                            let blocks = policy == MergePolicy::SameTypeOnly && st.acc.types.len() > 0
                                && st.acc.types.last() != etype;
                            let g = if st.acc.indices.len() > 0 && (st.tokens + t > max || blocks) { f } else { st };
                            assert(texts_ok(g, es));
                            let na = acc_push(g.acc, i, text, etype);
                            assert forall|k: int| 0 <= k < na.indices.len() implies
                                (#[trigger] na.indices[k]) < es.len() && na.parts[k] == piece_of(es[na.indices[k] as int]) by {
                                if k < g.acc.indices.len() {
                                    assert(na.indices[k] == g.acc.indices[k]);
                                    assert(na.parts[k] == g.acc.parts[k]);
                                }
                            }
                            assert(nst.acc == na);
                            assert(nst.out == g.out);
                        }
                    },
                }
            },
        }
    }
}

/// The greedy packer loses no text: every chunk other than the pieces of
/// an element above the budget holds, in its text, the whole text of
/// every element it names.
pub proof fn law_pack_chunks_keep_texts(es: Seq<ElementView>, max: nat, policy: MergePolicy)
    requires
        es.len() <= usize::MAX,
    ensures
        forall|c: int| 0 <= c < pack_spec(es, max, policy).len() ==> chunk_keeps_texts(#[trigger] pack_spec(es, max, policy)[c], es),
{
    lemma_pack_fold_texts(es, max, policy);
    lemma_flush_texts(pack_fold(es, max, policy), es);
}


proof fn lemma_single_fold_texts(s: Seq<ElementView>)
    requires
        s.len() <= usize::MAX,
    ensures
        acc_texts_ok(single_fold(s).0, s),
    decreases s.len(),
{
    if s.len() > 0 {
        let pre = s.drop_last();
        lemma_single_fold_texts(pre);
        let (a, h) = single_fold(pre);
        let rel = (s.len() - 1) as usize;
        let na = single_fold(s).0;
        assert forall|k: int| 0 <= k < na.indices.len() implies
            (#[trigger] na.indices[k]) < s.len() && na.parts[k] == piece_of(s[na.indices[k] as int]) by {
            if k < a.indices.len() {
                assert(na.indices[k] == a.indices[k]);
                assert(na.parts[k] == a.parts[k]);
                assert(s[a.indices[k] as int] == pre[a.indices[k] as int]);
            } else {
                assert(na.indices[k] == rel);
                assert(s[rel as int] == s.last());
            }
        }
    }
}

proof fn lemma_rebase_keeps_texts(es: Seq<ElementView>, i: int, j: int, cs: Seq<ChunkView>)
    requires
        0 <= i <= j <= es.len(),
        es.len() <= usize::MAX,
        forall|c: int| 0 <= c < cs.len() ==> chunk_keeps_texts(#[trigger] cs[c], es.subrange(i, j)),
    ensures
        forall|c: int| 0 <= c < rebase(cs, i).len() ==> chunk_keeps_texts(#[trigger] rebase(cs, i)[c], es),
{
    let sub = es.subrange(i, j);
    assert forall|c: int| 0 <= c < rebase(cs, i).len() implies chunk_keeps_texts(#[trigger] rebase(cs, i)[c], es) by {
        let x = cs[c];
        let y = rebase(cs, i)[c];
        assert(chunk_keeps_texts(x, sub));
        if !y.is_oversized {
            assert forall|k: int| 0 <= k < y.paragraph_indices.len() implies
                (#[trigger] y.paragraph_indices[k]) < es.len() && occurs_in(piece_of(es[y.paragraph_indices[k] as int]), y.text) by {
                assert(x.paragraph_indices[k] < sub.len());
                assert(y.paragraph_indices[k] == x.paragraph_indices[k] + i);
                assert(sub[x.paragraph_indices[k] as int] == es[y.paragraph_indices[k] as int]);
            }
        }
    }
}

proof fn lemma_group_step_texts(es: Seq<ElementView>, i: int, max: nat, policy: MergePolicy) -> (r: (int, Seq<ChunkView>))
    requires
        es.len() <= usize::MAX,
        0 <= i < es.len(),
    ensures
        i < r.0 <= es.len(),
        grouped_from(es, i, max, policy) == rebase(r.1, i) + grouped_from(es, r.0, max, policy),
        forall|c: int| 0 <= c < r.1.len() ==> chunk_keeps_texts(#[trigger] r.1[c], es.subrange(i, r.0)),
{
    match es[i] {
        ElementView::Heading { level, .. } => {
            lemma_section_end(es, i + 1, level);
            let j = section_end(es, i + 1, level);
            let sec = es.subrange(i, j);
            if section_tokens(sec) <= max {
                lemma_single_fold_texts(sec);
                let (a, h) = single_fold(sec);
                if a.indices.len() > 0 {
                    lemma_finalize_keeps_texts(a, h, sec);
                }
                (j, single_chunk_spec(sec))
            } else {
                law_pack_chunks_keep_texts(sec, max, policy);
                (j, pack_spec(sec, max, policy))
            }
        },
        _ => {
            lemma_next_heading(es, i);
            let j = next_heading(es, i);
            law_pack_chunks_keep_texts(es.subrange(i, j), max, policy);
            (j, pack_spec(es.subrange(i, j), max, policy))
        },
    }
}

proof fn lemma_grouped_texts(es: Seq<ElementView>, i: int, max: nat, policy: MergePolicy)
    requires
        es.len() <= usize::MAX,
        0 <= i <= es.len(),
    ensures
        forall|c: int| 0 <= c < grouped_from(es, i, max, policy).len() ==> chunk_keeps_texts(#[trigger] grouped_from(es, i, max, policy)[c], es),
    decreases es.len() - i,
{
    if i < es.len() {
        let (j, cs) = lemma_group_step_texts(es, i, max, policy);
        lemma_rebase_keeps_texts(es, i, j, cs);
        lemma_grouped_texts(es, j, max, policy);
        let a = rebase(cs, i);
        let b = grouped_from(es, j, max, policy);
        assert forall|c: int| 0 <= c < (a + b).len() implies chunk_keeps_texts(#[trigger] (a + b)[c], es) by {
            if c < a.len() {
                assert((a + b)[c] == a[c]);
            } else {
                assert((a + b)[c] == b[c - a.len()]);
            }
        }
    }
}

/// The chunker loses no text: with or without section grouping, each
/// chunk of a sequence, other than the pieces of an element above the
/// budget, holds in its text the whole text of every element it names.
/// `chunk` chunks the sequence its profile yields (`chunk_spec`), so under
/// `Academic` the notes folded into an element travel with it.
pub proof fn law_chunks_keep_texts(cfg: DocxRagChunker, es: Seq<ElementView>)
    requires
        es.len() <= usize::MAX,
    ensures
        forall|c: int| 0 <= c < chunk_view_spec(cfg, es).len() ==> chunk_keeps_texts(#[trigger] chunk_view_spec(cfg, es)[c], es),
{
    if cfg.group_sections {
        lemma_grouped_texts(es, 0, cfg.max_tokens as nat, cfg.merge_policy);
    } else {
        law_pack_chunks_keep_texts(es, cfg.max_tokens as nat, cfg.merge_policy);
    }
}

} // verus!
