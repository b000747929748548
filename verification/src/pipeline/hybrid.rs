//! The packing algorithm of the RAG chunker: heading-aware, element-type
//! aware and size-aware greedy packing over an element sequence.
use vstd::prelude::*;
use crate::pipeline::chunk_metadata::headings_view;
use crate::pipeline::element::{
    DocxElement, ElementView, HeadingContext, elements_view, lemma_elements_view_index,
    lemma_elements_view_len, lemma_elements_view_subrange,
};
use crate::pipeline::rag::{
    AccView, ChunkAccumulator, ChunkView, RagChunk, acc_push, chunks_view, copy_headings, empty_acc,
    finalize_view, fragment_view,
};
use crate::text::str_eq;
use crate::pipeline::export::{plain_render, push_table_text, table_text};
use crate::text::{char_is_space, chars_of, is_space, push_decimal, string_from_chars};

verus! {

/// Number of maximal runs of non-whitespace characters (what
/// `split_whitespace().count()` counts).
pub open spec fn word_count(s: Seq<char>) -> nat
    decreases s.len(),
{
    if s.len() == 0 {
        0
    } else {
        let starts_word = !is_space(s.last()) && (s.len() == 1 || is_space(s[s.len() - 2]));
        word_count(s.drop_last()) + if starts_word { 1nat } else { 0nat }
    }
}

/// `ceil(words * 1.5)`, i.e. `(3 * words + 1) / 2`, capped at `usize::MAX`.
/// For every word count below 2^52 this is exactly the value of the
/// floating-point expression `((words as f64) * 1.5).ceil() as usize`.
pub open spec fn tokens_for_words(w: nat) -> nat {
    let t = (3 * w + 1) / 2;
    if t > usize::MAX { usize::MAX as nat } else { t }
}

/// The token estimate of a text: `word_count * 1.5`, rounded up.
pub open spec fn token_estimate(s: Seq<char>) -> nat {
    tokens_for_words(word_count(s))
}

proof fn lemma_word_count_bound(s: Seq<char>)
    ensures
        word_count(s) <= s.len(),
    decreases s.len(),
{
    if s.len() > 0 {
        lemma_word_count_bound(s.drop_last());
    }
}

fn count_words(cs: &Vec<char>) -> (n: usize)
    ensures
        n == word_count(cs@),
{
    let mut n: usize = 0;
    let mut i: usize = 0;
    while i < cs.len()
        invariant
            i <= cs@.len(),
            n == word_count(cs@.take(i as int)),
            n <= i,
        decreases cs.len() - i,
    {
        let ghost t = cs@.take(i + 1 as int);
        assert(t.drop_last() == cs@.take(i as int));
        assert(t.last() == cs@[i as int]);
        assert(i > 0 ==> t[t.len() - 2] == cs@[i - 1]);
        if !char_is_space(cs[i]) && (i == 0 || char_is_space(cs[i - 1])) {
            n = n + 1;
        }
        i = i + 1;
    }
    assert(cs@.take(cs.len() as int) == cs@);
    n
}

fn tokens_from_words(w: usize) -> (t: usize)
    ensures
        t == tokens_for_words(w as nat),
{
    let wide: u128 = (3 * (w as u128) + 1) / 2;
    if wide > usize::MAX as u128 {
        usize::MAX
    } else {
        wide as usize
    }
}

/// `word_count * 1.5`, rounded up: a crude, tokenizer-free approximation.
pub fn estimate_tokens(text: &str) -> (t: usize)
    ensures
        t == token_estimate(text@),
{
    let cs = chars_of(text);
    let w = count_words(&cs);
    tokens_from_words(w)
}

pub open spec fn is_sentence_end(c: char) -> bool {
    c == '.' || c == '!' || c == '?'
}

/// `s` without leading whitespace.
pub open spec fn trim_start(s: Seq<char>) -> Seq<char>
    decreases s.len(),
{
    if s.len() > 0 && is_space(s[0]) { trim_start(s.drop_first()) } else { s }
}

/// `s` without trailing whitespace.
pub open spec fn trim_end(s: Seq<char>) -> Seq<char>
    decreases s.len(),
{
    if s.len() > 0 && is_space(s.last()) { trim_end(s.drop_last()) } else { s }
}

/// `s` without leading or trailing whitespace (`str::trim`).
pub open spec fn trim(s: Seq<char>) -> Seq<char> {
    trim_end(trim_start(s))
}

/// Splitting from position `i` on, with `cur` the sentence being built and
/// `acc` the sentences already closed: a `.`, `!` or `?` followed by a space
/// closes the sentence (trimmed) and the space is skipped; at the end the
/// trimmed remainder is kept when it is not empty.
pub open spec fn split_from(cs: Seq<char>, i: int, cur: Seq<char>, acc: Seq<Seq<char>>) -> Seq<Seq<char>>
    decreases cs.len() - i,
{
    if i < 0 || i >= cs.len() {
        let last = trim(cur);
        if last.len() > 0 { acc.push(last) } else { acc }
    } else {
        let cur2 = cur.push(cs[i]);
        if is_sentence_end(cs[i]) && i + 1 < cs.len() && cs[i + 1] == ' ' {
            split_from(cs, i + 2, Seq::empty(), acc.push(trim(cur2)))
        } else {
            split_from(cs, i + 1, cur2, acc)
        }
    }
}

/// The sentences of a text.
pub open spec fn sentences_of(text: Seq<char>) -> Seq<Seq<char>> {
    split_from(text, 0, Seq::empty(), Seq::empty())
}

/// The characters of `v[lo..hi]` with whitespace trimmed from both ends, as
/// `[lo', hi')` bounds.
fn trim_bounds(v: &Vec<char>) -> (r: (usize, usize))
    ensures
        r.0 <= r.1 <= v@.len(),
        v@.subrange(r.0 as int, r.1 as int) == trim(v@),
{
    let mut lo: usize = 0;
    assert(v@.subrange(0, v@.len() as int) == v@);
    while lo < v.len() && char_is_space(v[lo])
        invariant
            lo <= v@.len(),
            trim_start(v@) == trim_start(v@.subrange(lo as int, v@.len() as int)),
        decreases v.len() - lo,
    {
        assert(v@.subrange(lo as int, v@.len() as int).drop_first() == v@.subrange(lo + 1, v@.len() as int));
        lo = lo + 1;
    }
    assert(v@.subrange(0, v@.len() as int) == v@);
    let ghost ts = v@.subrange(lo as int, v@.len() as int);
    assert(trim_start(v@) == ts);
    let mut hi: usize = v.len();
    while hi > lo && char_is_space(v[hi - 1])
        invariant
            lo <= hi <= v@.len(),
            trim_end(ts) == trim_end(v@.subrange(lo as int, hi as int)),
        decreases hi,
    {
        assert(v@.subrange(lo as int, hi as int).drop_last() == v@.subrange(lo as int, hi - 1));
        hi = hi - 1;
    }
    (lo, hi)
}

fn trimmed_string(v: &Vec<char>) -> (s: String)
    ensures
        s@ == trim(v@),
{
    let (lo, hi) = trim_bounds(v);
    let mut out = String::new();
    let mut k: usize = lo;
    while k < hi
        invariant
            lo <= k <= hi <= v@.len(),
            out@ == v@.subrange(lo as int, k as int),
        decreases hi - k,
    {
        out.push(v[k]);
        assert(v@.subrange(lo as int, k + 1 as int) == v@.subrange(lo as int, k as int).push(v@[k as int]));
        k = k + 1;
    }
    out
}

/// Splits a text into sentences at `.`, `!` or `?` followed by a space.
pub fn split_sentences(text: &str) -> (r: Vec<String>)
    ensures
        r@.len() == sentences_of(text@).len(),
        forall|i: int| 0 <= i < r@.len() ==> #[trigger] r@[i]@ == sentences_of(text@)[i],
{
    let chars = chars_of(text);
    let mut sentences: Vec<String> = Vec::new();
    let mut current: Vec<char> = Vec::new();
    let ghost mut acc: Seq<Seq<char>> = Seq::empty();
    let mut i: usize = 0;
    while i < chars.len()
        invariant
            chars@ == text@,
            i <= chars@.len() + 1,
            sentences@.len() == acc.len(),
            forall|k: int| 0 <= k < acc.len() ==> #[trigger] sentences@[k]@ == acc[k],
            split_from(chars@, i as int, current@, acc) == sentences_of(text@),
        decreases chars.len() - i,
    {
        current.push(chars[i]);
        if (chars[i] == '.' || chars[i] == '!' || chars[i] == '?') && i + 1 < chars.len() && chars[i + 1] == ' ' {
            let s = trimmed_string(&current);
            proof {
                acc = acc.push(s@);
            }
            sentences.push(s);
            current = Vec::new();
            i = i + 1;
        }
        i = i + 1;
    }
    let last = trimmed_string(&current);
    if !last.as_str().is_empty() {
        proof {
            acc = acc.push(last@);
        }
        sentences.push(last);
    }
    sentences
}

/// Greedy packing of sentences from position `k` on into fragments of at
/// most `max` tokens: a sentence that would overflow a non-empty buffer
/// closes it; sentences in a buffer are joined with a space.
pub open spec fn pack_from(ss: Seq<Seq<char>>, k: int, buf: Seq<char>, bt: nat, packed: Seq<Seq<char>>, max: nat) -> Seq<Seq<char>>
    decreases ss.len() - k,
{
    if k < 0 || k >= ss.len() {
        if buf.len() > 0 { packed.push(buf) } else { packed }
    } else {
        let s = ss[k];
        let t = token_estimate(s);
        let flush = buf.len() > 0 && bt + t > max;
        let packed2 = if flush { packed.push(buf) } else { packed };
        let buf2 = if flush { Seq::empty() } else { buf };
        let bt2 = if flush { 0 } else { bt };
        let buf3 = if buf2.len() > 0 { buf2.push(' ') } else { buf2 };
        pack_from(ss, k + 1, buf3 + s, bt2 + t, packed2, max)
    }
}

pub open spec fn packed_sentences(ss: Seq<Seq<char>>, max: nat) -> Seq<Seq<char>> {
    pack_from(ss, 0, Seq::empty(), 0, Seq::empty(), max)
}

/// Packs sentences greedily into fragments of at most `max_tokens` tokens
/// (a single longer sentence forms a fragment of its own).
pub fn pack_sentences(sentences: Vec<String>, max_tokens: usize) -> (r: Vec<String>)
    ensures
        r@.len() == packed_sentences(Seq::new(sentences@.len(), |i: int| sentences@[i]@), max_tokens as nat).len(),
        forall|i: int| 0 <= i < r@.len() ==> #[trigger] r@[i]@
            == packed_sentences(Seq::new(sentences@.len(), |i: int| sentences@[i]@), max_tokens as nat)[i],
{
    let ghost ss = Seq::new(sentences@.len(), |i: int| sentences@[i]@);
    let mut packed: Vec<String> = Vec::new();
    let ghost mut pk: Seq<Seq<char>> = Seq::empty();
    let mut buf = String::new();
    let mut buf_tokens: usize = 0;
    let mut k: usize = 0;
    while k < sentences.len()
        invariant
            k <= sentences@.len(),
            ss == Seq::new(sentences@.len(), |i: int| sentences@[i]@),
            packed@.len() == pk.len(),
            forall|j: int| 0 <= j < pk.len() ==> #[trigger] packed@[j]@ == pk[j],
            buf@.len() == 0 ==> buf_tokens == 0,
            buf_tokens <= max_tokens || buf@.len() > 0,
            pack_from(ss, k as int, buf@, buf_tokens as nat, pk, max_tokens as nat)
                == packed_sentences(ss, max_tokens as nat),
        decreases sentences.len() - k,
    {
        let s_tokens = estimate_tokens(sentences[k].as_str());
        let nonempty = !buf.as_str().is_empty();
        if nonempty && (buf_tokens > max_tokens || s_tokens > max_tokens - buf_tokens) {
            proof {
                pk = pk.push(buf@);
            }
            packed.push(buf);
            buf = String::new();
            buf_tokens = 0;
        }
        if !buf.as_str().is_empty() {
            buf.push(' ');
        }
        buf.append(sentences[k].as_str());
        assert(buf_tokens == 0 || buf_tokens + s_tokens <= max_tokens);
        buf_tokens = buf_tokens + s_tokens;
        k = k + 1;
    }
    if !buf.as_str().is_empty() {
        proof {
            pk = pk.push(buf@);
        }
        packed.push(buf);
    }
    packed
}

/// The text a non-heading element contributes to a chunk and its type tag;
/// `None` for headings (handled by the packer itself) and for page headers
/// and footers (dropped).
pub open spec fn text_and_type_of(e: ElementView) -> Option<(Seq<char>, Seq<char>)> {
    match e {
        ElementView::Paragraph { text, .. } => Some((text, "paragraph"@)),
        ElementView::ListItem { text, .. } => Some((text, "list_item"@)),
        ElementView::Table { .. } => Some((plain_render(e), "table"@)),
        ElementView::Footnote { .. } => Some((plain_render(e), "footnote"@)),
        ElementView::Endnote { .. } => Some((plain_render(e), "endnote"@)),
        ElementView::Comment { .. } => Some((plain_render(e), "comment"@)),
        ElementView::Hyperlink { text, .. } => Some((text, "hyperlink"@)),
        ElementView::Header { .. } => None,
        ElementView::Footer { .. } => None,
        ElementView::Heading { .. } => None,
    }
}

/// Extracts the display text and element-type tag for a non-heading element.
pub fn text_and_type(elem: &DocxElement) -> (r: Option<(String, &'static str)>)
    ensures
        match text_and_type_of(elem@) {
            Some((t, k)) => r matches Some((t2, k2)) && t2@ == t && k2@ == k,
            None => r is None,
        },
{
    match elem {
        DocxElement::Paragraph { text, .. } => Some((text.clone(), "paragraph")),
        DocxElement::ListItem { text, .. } => Some((text.clone(), "list_item")),
        DocxElement::Table { rows } => {
            let mut s = String::new();
            push_table_text(&mut s, rows);
            Some((s, "table"))
        },
        DocxElement::Footnote { id, text } => {
            let mut s = String::new();
            s.append("[");
            push_decimal(&mut s, *id as u64);
            s.append("] ");
            s.append(text.as_str());
            Some((s, "footnote"))
        },
        DocxElement::Endnote { id, text } => {
            let mut s = String::new();
            s.append("[endnote ");
            push_decimal(&mut s, *id as u64);
            s.append("] ");
            s.append(text.as_str());
            Some((s, "endnote"))
        },
        DocxElement::Comment { id, author, text } => {
            let mut s = String::new();
            s.append("[comment ");
            push_decimal(&mut s, *id as u64);
            s.append(" by ");
            s.append(author.as_str());
            s.append("] ");
            s.append(text.as_str());
            Some((s, "comment"))
        },
        DocxElement::Hyperlink { text, .. } => Some((text.clone(), "hyperlink")),
        DocxElement::Header { .. } => None,
        DocxElement::Footer { .. } => None,
        DocxElement::Heading { .. } => None,
    }
}

/// Whether adjacent inline elements of different types may share a chunk.
#[derive(Debug, Clone, Copy, PartialEq, Eq)]
pub enum MergePolicy {
    /// Any two inline elements may merge (subject to the size cap).
    AnyInlineContent,
    /// Only elements with the same element type may merge.
    SameTypeOnly,
}

impl Default for MergePolicy {
    fn default() -> (r: Self)
        ensures
            r == MergePolicy::AnyInlineContent,
    {
        MergePolicy::AnyInlineContent
    }
}

/// The packer's state after a prefix of the elements: chunks emitted, the
/// heading stack (root first), the open chunk and its running token count.
pub struct PackState {
    pub out: Seq<ChunkView>,
    pub stack: Seq<(u8, Seq<char>)>,
    pub acc: AccView,
    pub tokens: nat,
}

pub open spec fn pack_init() -> PackState {
    PackState { out: Seq::empty(), stack: Seq::empty(), acc: empty_acc(), tokens: 0 }
}

/// Closes the open chunk, if it holds anything.
pub open spec fn flush(st: PackState) -> PackState {
    if st.acc.indices.len() > 0 {
        PackState { out: st.out.push(finalize_view(st.acc, st.stack)), stack: st.stack, acc: empty_acc(), tokens: 0 }
    } else {
        st
    }
}

/// The headings of `s` strictly shallower than `level`, in order.
pub open spec fn keep_shallower(s: Seq<(u8, Seq<char>)>, level: u8) -> Seq<(u8, Seq<char>)>
    decreases s.len(),
{
    if s.len() == 0 {
        s
    } else {
        let r = keep_shallower(s.drop_last(), level);
        if s.last().0 < level { r.push(s.last()) } else { r }
    }
}

/// The chunks that the oversized element `text` at `idx` becomes: its
/// sentences packed to the budget, each fragment flagged oversized.
pub open spec fn fragments(text: Seq<char>, idx: usize, etype: Seq<char>, ctx: Seq<(u8, Seq<char>)>, max: nat) -> Seq<ChunkView> {
    let fs = packed_sentences(sentences_of(text), max);
    Seq::new(fs.len(), |k: int| fragment_view(fs[k], idx, etype, ctx, token_estimate(fs[k])))
}

/// One step of the greedy packer on the element at index `i`:
/// - a heading closes the open chunk, trims the stack to shallower headings,
///   pushes itself and opens a new chunk holding it;
/// - a table closes the open chunk and forms a chunk of its own (flagged
///   oversized when above the budget);
/// - an inline element above the budget closes the open chunk and is split
///   into sentence-packed oversized fragments;
/// - any other inline element joins the open chunk unless that would exceed
///   the budget or the merge policy forbids it, in which case the open chunk
///   is closed first;
/// - page headers and footers are dropped.
pub open spec fn pack_step(st: PackState, i: usize, e: ElementView, max: nat, policy: MergePolicy) -> PackState {
    match e {
        ElementView::Heading { level, text } => {
            let f = flush(st);
            PackState {
                out: f.out,
                stack: keep_shallower(f.stack, level).push((level, text)),
                acc: acc_push(empty_acc(), i, text, "heading"@),
                tokens: token_estimate(text),
            }
        },
        ElementView::Table { rows } => {
            let f = flush(st);
            let text = plain_render(e);
            let t = token_estimate(text);
            let c = if t > max {
                fragment_view(text, i, "table"@, f.stack, t)
            } else {
                finalize_view(acc_push(empty_acc(), i, text, "table"@), f.stack)
            };
            PackState { out: f.out.push(c), ..f }
        },
        _ => match text_and_type_of(e) {
            None => st,
            Some((text, etype)) => {
                let t = token_estimate(text);
                if t > max {
                    let f = flush(st);
                    PackState { out: f.out + fragments(text, i, etype, f.stack, max), ..f }
                } else {
                    let blocks = policy == MergePolicy::SameTypeOnly && st.acc.types.len() > 0
                        && st.acc.types.last() != etype;
                    let f = if st.acc.indices.len() > 0 && (st.tokens + t > max || blocks) {
                        flush(st)
                    } else {
                        st
                    };
                    PackState { acc: acc_push(f.acc, i, text, etype), tokens: f.tokens + t, ..f }
                }
            },
        },
    }
}

pub open spec fn pack_fold(es: Seq<ElementView>, max: nat, policy: MergePolicy) -> PackState
    decreases es.len(),
{
    if es.len() == 0 {
        pack_init()
    } else {
        pack_step(pack_fold(es.drop_last(), max, policy), (es.len() - 1) as usize, es.last(), max, policy)
    }
}

/// The chunks of a whole sequence: the fold, then the open chunk closed.
pub open spec fn pack_spec(es: Seq<ElementView>, max: nat, policy: MergePolicy) -> Seq<ChunkView> {
    flush(pack_fold(es, max, policy)).out
}

/// The invariant the packer keeps between elements: the running token count
/// is zero whenever no chunk is open.
pub open spec fn pack_state_ok(st: PackState) -> bool {
    st.acc.indices.len() == 0 ==> st.tokens == 0
}

proof fn lemma_keep_shallower_step(s: Seq<(u8, Seq<char>)>, n: int, level: u8)
    requires
        0 <= n < s.len(),
    ensures
        keep_shallower(s.take(n + 1), level) == (if s[n].0 < level {
            keep_shallower(s.take(n), level).push(s[n])
        } else {
            keep_shallower(s.take(n), level)
        }),
{
    assert(s.take(n + 1).drop_last() == s.take(n));
}

/// The heading stack trimmed to the headings shallower than `level`.
fn retain_shallower(stack: &Vec<HeadingContext>, level: u8) -> (r: Vec<HeadingContext>)
    ensures
        headings_view(r@) == keep_shallower(headings_view(stack@), level),
{
    let ghost hv = headings_view(stack@);
    let mut out: Vec<HeadingContext> = Vec::new();
    let mut i: usize = 0;
    while i < stack.len()
        invariant
            i <= stack@.len(),
            hv == headings_view(stack@),
            headings_view(out@) == keep_shallower(hv.take(i as int), level),
        decreases stack.len() - i,
    {
        proof {
            lemma_keep_shallower_step(hv, i as int, level);
        }
        let ghost prev = out@;
        if stack[i].level < level {
            out.push(stack[i].clone());
            assert(headings_view(out@) =~= headings_view(prev).push(hv[i as int]));
        }
        i = i + 1;
    }
    assert(hv.take(stack.len() as int) == hv);
    out
}

/// Closes the open chunk into `out` when it holds anything.
fn flush_into(out: &mut Vec<RagChunk>, current: &mut ChunkAccumulator, stack: &Vec<HeadingContext>, tokens: &mut usize)
    ensures
        ({
            let st = PackState { out: chunks_view(old(out)@), stack: headings_view(stack@), acc: old(current)@, tokens: *old(tokens) as nat };
            let f = flush(st);
            &&& chunks_view(final(out)@) == f.out
            &&& final(current)@ == f.acc
            &&& *final(tokens) as nat == f.tokens
        }),
{
    if !current.is_empty() {
        let mut acc = ChunkAccumulator::new();
        std::mem::swap(current, &mut acc);
        let c = acc.finalize(copy_headings(stack));
        let ghost prev = out@;
        out.push(c);
        assert(chunks_view(out@) =~= chunks_view(prev).push(c@));
        *tokens = 0;
    }
}

/// The packer's running state.
pub struct Packer {
    out: Vec<RagChunk>,
    stack: Vec<HeadingContext>,
    current: ChunkAccumulator,
    tokens: usize,
}

impl View for Packer {
    type V = PackState;

    closed spec fn view(&self) -> PackState {
        PackState {
            out: chunks_view(self.out@),
            stack: headings_view(self.stack@),
            acc: self.current@,
            tokens: self.tokens as nat,
        }
    }
}

impl Packer {
    fn new() -> (p: Self)
        ensures
            p@ == pack_init(),
    {
        let p = Packer { out: Vec::new(), stack: Vec::new(), current: ChunkAccumulator::new(), tokens: 0 };
        assert(p@.out =~= pack_init().out);
        assert(p@.stack =~= pack_init().stack);
        p
    }

    fn flush(&mut self)
        ensures
            final(self)@ == flush(old(self)@),
    {
        flush_into(&mut self.out, &mut self.current, &self.stack, &mut self.tokens);
    }

    fn push_chunk(&mut self, c: RagChunk)
        ensures
            final(self)@ == (PackState { out: old(self)@.out.push(c@), ..old(self)@ }),
    {
        let ghost prev = self.out@;
        self.out.push(c);
        assert(chunks_view(self.out@) =~= chunks_view(prev).push(c@));
    }

    fn step_heading(&mut self, i: usize, level: u8, text: &String)
        ensures
            final(self)@ == pack_step(old(self)@, i, ElementView::Heading { level, text: text@ }, 0, MergePolicy::AnyInlineContent),
    {
        self.flush();
        let mut stack2 = retain_shallower(&self.stack, level);
        let ghost sv = headings_view(stack2@);
        stack2.push(HeadingContext { level, text: text.clone() });
        assert(headings_view(stack2@) =~= sv.push((level, text@)));
        self.stack = stack2;
        self.current = ChunkAccumulator::new();
        self.current.push(i, text.clone(), "heading");
        self.tokens = estimate_tokens(text.as_str());
    }

    fn step_table(&mut self, i: usize, elem: &DocxElement, max_tokens: usize)
        requires
            elem@ is Table,
        ensures
            final(self)@ == pack_step(old(self)@, i, elem@, max_tokens as nat, MergePolicy::AnyInlineContent),
    {
        self.flush();
        let rows = match elem {
            DocxElement::Table { rows } => rows,
            _ => { proof { assert(false); } return; },
        };
        let mut text = String::new();
        push_table_text(&mut text, rows);
        let elem_tokens = estimate_tokens(text.as_str());
        let c = if elem_tokens > max_tokens {
            RagChunk::oversized_fragment(text, i, "table", copy_headings(&self.stack), elem_tokens)
        } else {
            let mut acc = ChunkAccumulator::new();
            acc.push(i, text, "table");
            acc.finalize(copy_headings(&self.stack))
        };
        self.push_chunk(c);
    }

    fn push_fragments(&mut self, i: usize, text: &String, etype: &str, max_tokens: usize)
        ensures
            final(self)@ == (PackState {
                out: old(self)@.out + fragments(text@, i, etype@, old(self)@.stack, max_tokens as nat),
                ..old(self)@
            }),
    {
        let sents = split_sentences(text.as_str());
        let ghost ss = sentences_of(text@);
        assert(Seq::new(sents@.len(), |j: int| sents@[j]@) =~= ss);
        let frags = pack_sentences(sents, max_tokens);
        let ghost base = self@.out;
        let ghost fs = packed_sentences(ss, max_tokens as nat);
        let ghost hs = self@.stack;
        let ghost all = fragments(text@, i, etype@, hs, max_tokens as nat);
        let mut k: usize = 0;
        while k < frags.len()
            invariant
                k <= frags@.len(),
                frags@.len() == fs.len(),
                fs == packed_sentences(sentences_of(text@), max_tokens as nat),
                all == fragments(text@, i, etype@, hs, max_tokens as nat),
                all.len() == fs.len(),
                forall|j: int| 0 <= j < frags@.len() ==> #[trigger] frags@[j]@ == fs[j],
                self@ == (PackState { out: base + all.take(k as int), ..old(self)@ }),
                hs == old(self)@.stack,
            decreases frags.len() - k,
        {
            let fragment = frags[k].clone();
            let token_estimate = estimate_tokens(fragment.as_str());
            let c = RagChunk::oversized_fragment(fragment, i, etype, copy_headings(&self.stack), token_estimate);
            assert(c@ == all[k as int]);
            self.push_chunk(c);
            assert(all.take(k + 1 as int) =~= all.take(k as int).push(all[k as int]));
            k = k + 1;
        }
        assert(all.take(frags@.len() as int) =~= all);
    }

    fn step_inline(&mut self, i: usize, elem: &DocxElement, max_tokens: usize, policy: MergePolicy)
        requires
            !(elem@ is Table),
            !(elem@ is Heading),
            pack_state_ok(old(self)@),
        ensures
            final(self)@ == pack_step(old(self)@, i, elem@, max_tokens as nat, policy),
            pack_state_ok(final(self)@),
    {
        match text_and_type(elem) {
            None => {},
            Some((text, etype)) => {
                let elem_tokens = estimate_tokens(text.as_str());
                if elem_tokens > max_tokens {
                    self.flush();
                    self.push_fragments(i, &text, etype, max_tokens);
                } else {
                    let type_blocks_merge = match (policy, self.current.last_type()) {
                        (MergePolicy::SameTypeOnly, Some(t)) => !str_eq(t, etype),
                        _ => false,
                    };
                    if !self.current.is_empty() && (self.tokens > max_tokens || elem_tokens > max_tokens - self.tokens || type_blocks_merge) {
                        self.flush();
                    }
                    self.current.push(i, text, etype);
                    self.tokens = self.tokens + elem_tokens;
                }
            },
        }
    }

    fn finish(self) -> (r: Vec<RagChunk>)
        ensures
            chunks_view(r@) == flush(self@).out,
    {
        let mut p = self;
        p.flush();
        p.out
    }
}

/// Core greedy packer over the elements, in document order.
pub fn pack(elements: &[DocxElement], max_tokens: usize, policy: MergePolicy) -> (r: Vec<RagChunk>)
    ensures
        chunks_view(r@) == pack_spec(elements_view(elements@), max_tokens as nat, policy),
{
    let ghost ev = elements_view(elements@);
    let ghost max = max_tokens as nat;
    proof {
        lemma_elements_view_len(elements@);
    }
    let mut p = Packer::new();
    let mut i: usize = 0;
    while i < elements.len()
        invariant
            i <= elements@.len(),
            ev == elements_view(elements@),
            ev.len() == elements@.len(),
            max == max_tokens as nat,
            p@ == pack_fold(ev.take(i as int), max, policy),
            pack_state_ok(p@),
        decreases elements.len() - i,
    {
        proof {
            lemma_elements_view_index(elements@, i as int);
            assert(ev.take(i + 1 as int).drop_last() == ev.take(i as int));
            assert(ev.take(i + 1 as int).last() == ev[i as int]);
        }
        let elem = &elements[i];
        match elem {
            DocxElement::Heading { level, text } => {
                p.step_heading(i, *level, text);
            },
            DocxElement::Table { .. } => {
                p.step_table(i, elem, max_tokens);
            },
            _ => {
                p.step_inline(i, elem, max_tokens, policy);
            },
        }
        i = i + 1;
    }
    assert(ev.take(elements.len() as int) == ev);
    p.finish()
}

/// Every index is below `n`.
pub open spec fn indices_below(s: Seq<usize>, n: int) -> bool {
    forall|k: int| 0 <= k < s.len() ==> #[trigger] s[k] < n
}

pub open spec fn chunks_below(cs: Seq<ChunkView>, n: int) -> bool {
    forall|c: int| 0 <= c < cs.len() ==> indices_below(#[trigger] cs[c].paragraph_indices, n)
}

proof fn lemma_pack_fold_bound(es: Seq<ElementView>, max: nat, policy: MergePolicy)
    ensures
        chunks_below(pack_fold(es, max, policy).out, es.len() as int),
        indices_below(pack_fold(es, max, policy).acc.indices, es.len() as int),
    decreases es.len(),
{
    if es.len() > 0 {
        let n = es.len() as int;
        lemma_pack_fold_bound(es.drop_last(), max, policy);
        let st = pack_fold(es.drop_last(), max, policy);
        let f = flush(st);
        assert(chunks_below(f.out, n));
        assert(indices_below(f.acc.indices, n));
        let i = (es.len() - 1) as usize;
        assert(indices_below(seq![i], n));
        match es.last() {
            ElementView::Heading { level, text } => {
                assert(indices_below(acc_push(empty_acc(), i, text, "heading"@).indices, n));
            },
            ElementView::Table { .. } => {
                let text = plain_render(es.last());
                assert(indices_below(acc_push(empty_acc(), i, text, "table"@).indices, n));
            },
            _ => {
                match text_and_type_of(es.last()) {
                    None => {},
                    Some((text, etype)) => {
                        let t = token_estimate(text);
                        if t > max {
                            let fr = fragments(text, i, etype, f.stack, max);
                            assert(chunks_below(f.out + fr, n)) by {
                                assert forall|c: int| 0 <= c < (f.out + fr).len() implies
                                    indices_below(#[trigger] (f.out + fr)[c].paragraph_indices, n) by {
                                    if c >= f.out.len() {
                                        assert((f.out + fr)[c] == fr[c - f.out.len()]);
                                    }
                                }
                            }
                        } else {
                            let blocks = policy == MergePolicy::SameTypeOnly && st.acc.types.len() > 0
                                && st.acc.types.last() != etype;
                            let g = if st.acc.indices.len() > 0 && (st.tokens + t > max || blocks) { f } else { st };
                            assert(indices_below(acc_push(g.acc, i, text, etype).indices, n));
                        }
                    },
                }
            },
        }
    }
}

pub proof fn lemma_pack_spec_bound(es: Seq<ElementView>, max: nat, policy: MergePolicy)
    ensures
        chunks_below(pack_spec(es, max, policy), es.len() as int),
{
    lemma_pack_fold_bound(es, max, policy);
}

/// Position of the first heading at or after `j` (the length when none).
pub open spec fn next_heading(es: Seq<ElementView>, j: int) -> int
    decreases es.len() - j,
{
    if j < 0 || j >= es.len() {
        es.len() as int
    } else if es[j] is Heading {
        j
    } else {
        next_heading(es, j + 1)
    }
}

/// Position of the first heading at or after `j` whose level is at most
/// `level` (the length when none).
pub open spec fn section_end(es: Seq<ElementView>, j: int, level: u8) -> int
    decreases es.len() - j,
{
    if j < 0 || j >= es.len() {
        es.len() as int
    } else if es[j] matches ElementView::Heading { level: l, .. } && l <= level {
        j
    } else {
        section_end(es, j + 1, level)
    }
}

pub proof fn lemma_next_heading(es: Seq<ElementView>, j: int)
    requires
        0 <= j <= es.len(),
    ensures
        j <= next_heading(es, j) <= es.len(),
        forall|k: int| j <= k < next_heading(es, j) ==> !(#[trigger] es[k] is Heading),
        next_heading(es, j) < es.len() ==> es[next_heading(es, j)] is Heading,
    decreases es.len() - j,
{
    if j < es.len() && !(es[j] is Heading) {
        lemma_next_heading(es, j + 1);
    }
}

pub proof fn lemma_section_end(es: Seq<ElementView>, j: int, level: u8)
    requires
        0 <= j <= es.len(),
    ensures
        j <= section_end(es, j, level) <= es.len(),
        forall|k: int| j <= k < section_end(es, j, level) ==>
            !(#[trigger] es[k] matches ElementView::Heading { level: l, .. } && l <= level),
        section_end(es, j, level) < es.len() ==> (es[section_end(es, j, level)] matches ElementView::Heading { level: l, .. } && l <= level),
    decreases es.len() - j,
{
    if j < es.len() && !(es[j] matches ElementView::Heading { level: l, .. } && l <= level) {
        lemma_section_end(es, j + 1, level);
    }
}

/// The token estimate an element contributes to a section.
pub open spec fn element_tokens(e: ElementView) -> nat {
    match e {
        ElementView::Heading { text, .. } => token_estimate(text),
        _ => match text_and_type_of(e) {
            Some((t, _)) => token_estimate(t),
            None => 0,
        },
    }
}

pub open spec fn section_tokens(s: Seq<ElementView>) -> nat
    decreases s.len(),
{
    if s.len() == 0 { 0 } else { section_tokens(s.drop_last()) + element_tokens(s.last()) }
}

/// The open chunk and heading stack after packing a whole section into one
/// chunk (indices relative to the section).
pub open spec fn single_fold(s: Seq<ElementView>) -> (AccView, Seq<(u8, Seq<char>)>)
    decreases s.len(),
{
    if s.len() == 0 {
        (empty_acc(), Seq::empty())
    } else {
        let (a, h) = single_fold(s.drop_last());
        let rel = (s.len() - 1) as usize;
        match s.last() {
            ElementView::Heading { level, text } => (acc_push(a, rel, text, "heading"@), keep_shallower(h, level).push((level, text))),
            e => match text_and_type_of(e) {
                Some((t, k)) => (acc_push(a, rel, t, k), h),
                None => (a, h),
            },
        }
    }
}

/// A whole section as a single chunk (none when it contributes nothing).
pub open spec fn single_chunk_spec(s: Seq<ElementView>) -> Seq<ChunkView> {
    let (a, h) = single_fold(s);
    if a.indices.len() == 0 { Seq::empty() } else { seq![finalize_view(a, h)] }
}

/// The chunks with every paragraph index shifted by `off`.
pub open spec fn rebase(cs: Seq<ChunkView>, off: int) -> Seq<ChunkView> {
    Seq::new(cs.len(), |c: int| ChunkView {
        paragraph_indices: Seq::new(cs[c].paragraph_indices.len(), |k: int| (cs[c].paragraph_indices[k] + off) as usize),
        ..cs[c]
    })
}

/// Section-aware packing from position `i` on: a run of elements before a
/// heading is packed greedily; a heading opens a section that runs up to
/// the next heading of equal or shallower level, which becomes one chunk
/// when its tokens fit the budget and is packed greedily otherwise.
/// Indices are rebased to positions in `es`.
pub open spec fn grouped_from(es: Seq<ElementView>, i: int, max: nat, policy: MergePolicy) -> Seq<ChunkView>
    decreases es.len() - i,
{
    if i < 0 || i >= es.len() {
        Seq::empty()
    } else {
        match es[i] {
            ElementView::Heading { level, .. } => {
                proof { lemma_section_end(es, i + 1, level); }
                let j = section_end(es, i + 1, level);
                let sec = es.subrange(i, j);
                let cs = if section_tokens(sec) <= max { single_chunk_spec(sec) } else { pack_spec(sec, max, policy) };
                rebase(cs, i) + grouped_from(es, j, max, policy)
            },
            _ => {
                proof { lemma_next_heading(es, i); }
                let j = next_heading(es, i);
                rebase(pack_spec(es.subrange(i, j), max, policy), i) + grouped_from(es, j, max, policy)
            },
        }
    }
}

pub open spec fn pack_grouped_spec(es: Seq<ElementView>, max: nat, policy: MergePolicy) -> Seq<ChunkView> {
    grouped_from(es, 0, max, policy)
}

fn find_next_heading(elements: &[DocxElement], from: usize) -> (j: usize)
    requires
        from <= elements@.len(),
    ensures
        j == next_heading(elements_view(elements@), from as int),
{
    let ghost ev = elements_view(elements@);
    proof {
        lemma_elements_view_len(elements@);
    }
    let mut j = from;
    while j < elements.len()
        invariant
            from <= j <= elements@.len(),
            ev == elements_view(elements@),
            ev.len() == elements@.len(),
            next_heading(ev, from as int) == next_heading(ev, j as int),
        decreases elements.len() - j,
    {
        proof {
            lemma_elements_view_index(elements@, j as int);
        }
        if let DocxElement::Heading { .. } = &elements[j] {
            return j;
        }
        j = j + 1;
    }
    j
}

fn find_section_end(elements: &[DocxElement], from: usize, level: u8) -> (j: usize)
    requires
        from <= elements@.len(),
    ensures
        j == section_end(elements_view(elements@), from as int, level),
{
    let ghost ev = elements_view(elements@);
    proof {
        lemma_elements_view_len(elements@);
    }
    let mut j = from;
    while j < elements.len()
        invariant
            from <= j <= elements@.len(),
            ev == elements_view(elements@),
            ev.len() == elements@.len(),
            section_end(ev, from as int, level) == section_end(ev, j as int, level),
        decreases elements.len() - j,
    {
        proof {
            lemma_elements_view_index(elements@, j as int);
        }
        if let DocxElement::Heading { level: l, .. } = &elements[j] {
            if *l <= level {
                return j;
            }
        }
        j = j + 1;
    }
    j
}

fn element_token_count(e: &DocxElement) -> (t: usize)
    ensures
        t == element_tokens(e@),
{
    match e {
        DocxElement::Heading { text, .. } => estimate_tokens(text.as_str()),
        _ => match text_and_type(e) {
            Some((t, _)) => estimate_tokens(t.as_str()),
            None => 0,
        },
    }
}

proof fn lemma_section_tokens_prefix(s: Seq<ElementView>, k: int)
    requires
        0 <= k <= s.len(),
    ensures
        section_tokens(s.take(k)) <= section_tokens(s),
    decreases s.len(),
{
    if k < s.len() {
        assert(s.drop_last().take(k) == s.take(k));
        lemma_section_tokens_prefix(s.drop_last(), k);
    } else {
        assert(s.take(k) == s);
    }
}

/// Whether the whole section fits the budget.
fn section_fits(section: &[DocxElement], max_tokens: usize) -> (b: bool)
    ensures
        b == (section_tokens(elements_view(section@)) <= max_tokens),
{
    let ghost ev = elements_view(section@);
    proof {
        lemma_elements_view_len(section@);
    }
    let mut sum: usize = 0;
    let mut k: usize = 0;
    while k < section.len()
        invariant
            k <= section@.len(),
            ev == elements_view(section@),
            ev.len() == section@.len(),
            sum == section_tokens(ev.take(k as int)),
            sum <= max_tokens,
        decreases section.len() - k,
    {
        proof {
            lemma_elements_view_index(section@, k as int);
            assert(ev.take(k + 1 as int).drop_last() == ev.take(k as int));
        }
        let t = element_token_count(&section[k]);
        if t > max_tokens - sum {
            proof {
                lemma_section_tokens_prefix(ev, k + 1);
            }
            return false;
        }
        sum = sum + t;
        k = k + 1;
    }
    assert(ev.take(section.len() as int) == ev);
    true
}

proof fn lemma_single_fold_bound(s: Seq<ElementView>)
    ensures
        indices_below(single_fold(s).0.indices, s.len() as int),
    decreases s.len(),
{
    if s.len() > 0 {
        lemma_single_fold_bound(s.drop_last());
    }
}

/// Packs an entire section into exactly one chunk (indices relative to it).
fn single_chunk(section: &[DocxElement]) -> (r: Vec<RagChunk>)
    ensures
        chunks_view(r@) == single_chunk_spec(elements_view(section@)),
{
    let ghost ev = elements_view(section@);
    proof {
        lemma_elements_view_len(section@);
    }
    let mut acc = ChunkAccumulator::new();
    let mut ctx: Vec<HeadingContext> = Vec::new();
    assert(headings_view(ctx@) =~= Seq::<(u8, Seq<char>)>::empty());
    let mut rel: usize = 0;
    while rel < section.len()
        invariant
            rel <= section@.len(),
            ev == elements_view(section@),
            ev.len() == section@.len(),
            (acc@, headings_view(ctx@)) == single_fold(ev.take(rel as int)),
        decreases section.len() - rel,
    {
        proof {
            lemma_elements_view_index(section@, rel as int);
            assert(ev.take(rel + 1 as int).drop_last() == ev.take(rel as int));
            assert(ev.take(rel + 1 as int).last() == ev[rel as int]);
        }
        match &section[rel] {
            DocxElement::Heading { level, text } => {
                let mut c2 = retain_shallower(&ctx, *level);
                let ghost cv = headings_view(c2@);
                c2.push(HeadingContext { level: *level, text: text.clone() });
                assert(headings_view(c2@) =~= cv.push((*level, text@)));
                ctx = c2;
                acc.push(rel, text.clone(), "heading");
            },
            e => {
                if let Some((text, etype)) = text_and_type(e) {
                    acc.push(rel, text, etype);
                }
            },
        }
        rel = rel + 1;
    }
    assert(ev.take(section.len() as int) == ev);
    let mut out: Vec<RagChunk> = Vec::new();
    if acc.is_empty() {
        assert(chunks_view(out@) =~= single_chunk_spec(ev));
        return out;
    }
    let c = acc.finalize(ctx);
    out.push(c);
    assert(chunks_view(out@) =~= single_chunk_spec(ev));
    out
}

/// Shifts every chunk's indices by `offset`.
fn reindex(chunks: Vec<RagChunk>, offset: usize, bound: usize) -> (r: Vec<RagChunk>)
    requires
        chunks_below(chunks_view(chunks@), bound as int),
        offset + bound <= usize::MAX,
    ensures
        chunks_view(r@) == rebase(chunks_view(chunks@), offset as int),
{
    let ghost cv = chunks_view(chunks@);
    let mut out: Vec<RagChunk> = Vec::new();
    let mut chunks = chunks;
    let mut rest: Vec<RagChunk> = Vec::new();
    // Reverse into `rest` so that chunks can be taken in order with `pop`.
    while chunks.len() > 0
        invariant
            chunks@.len() + rest@.len() == cv.len(),
            forall|k: int| 0 <= k < chunks@.len() ==> #[trigger] chunks@[k]@ == cv[k],
            forall|k: int| 0 <= k < rest@.len() ==> #[trigger] rest@[k]@ == cv[cv.len() - 1 - k],
        decreases chunks.len(),
    {
        let c = chunks.pop().unwrap();
        rest.push(c);
    }
    let ghost rb = rebase(cv, offset as int);
    while rest.len() > 0
        invariant
            out@.len() + rest@.len() == cv.len(),
            forall|k: int| 0 <= k < rest@.len() ==> #[trigger] rest@[k]@ == cv[cv.len() - 1 - k],
            forall|k: int| 0 <= k < out@.len() ==> #[trigger] out@[k]@ == rb[k],
            rb == rebase(cv, offset as int),
            chunks_below(cv, bound as int),
            offset + bound <= usize::MAX,
        decreases rest.len(),
    {
        let mut c = rest.pop().unwrap();
        let ghost k0 = out@.len() as int;
        assert(c@ == cv[k0]);
        assert(indices_below(cv[k0].paragraph_indices, bound as int));
        let mut idx: Vec<usize> = Vec::new();
        let mut k: usize = 0;
        while k < c.paragraph_indices.len()
            invariant
                k <= c.paragraph_indices@.len(),
                idx@.len() == k,
                indices_below(c.paragraph_indices@, bound as int),
                offset + bound <= usize::MAX,
                forall|m: int| 0 <= m < k ==> #[trigger] idx@[m] == (c.paragraph_indices@[m] + offset) as usize,
            decreases c.paragraph_indices.len() - k,
        {
            assert(c.paragraph_indices@[k as int] < bound);
            idx.push(c.paragraph_indices[k] + offset);
            k = k + 1;
        }
        c.paragraph_indices = idx;
        assert(c@.paragraph_indices =~= rb[k0].paragraph_indices);
        assert(c@ == rb[k0]);
        out.push(c);
    }
    assert(chunks_view(out@) =~= rb);
    out
}

proof fn lemma_single_chunk_bound(s: Seq<ElementView>)
    ensures
        chunks_below(single_chunk_spec(s), s.len() as int),
{
    lemma_single_fold_bound(s);
}

/// Section-aware packing (see `grouped_from`).
pub fn pack_grouped(elements: &[DocxElement], max_tokens: usize, policy: MergePolicy) -> (r: Vec<RagChunk>)
    ensures
        chunks_view(r@) == pack_grouped_spec(elements_view(elements@), max_tokens as nat, policy),
{
    let ghost ev = elements_view(elements@);
    proof {
        lemma_elements_view_len(elements@);
    }
    let mut out: Vec<RagChunk> = Vec::new();
    let mut i: usize = 0;
    while i < elements.len()
        invariant
            i <= elements@.len(),
            ev == elements_view(elements@),
            ev.len() == elements@.len(),
            chunks_view(out@) + grouped_from(ev, i as int, max_tokens as nat, policy)
                == grouped_from(ev, 0, max_tokens as nat, policy),
        decreases elements.len() - i,
    {
        proof {
            lemma_elements_view_index(elements@, i as int);
        }
        let start = i;
        let (j, packed) = match &elements[i] {
            DocxElement::Heading { level, .. } => {
                let j = find_section_end(elements, i + 1, *level);
                proof {
                    lemma_section_end(ev, i + 1, *level);
                }
                let section = vstd::slice::slice_subrange(elements, start, j);
                proof {
                    lemma_elements_view_subrange(elements@, start as int, j as int);
                }
                let cs = if section_fits(section, max_tokens) {
                    proof {
                        lemma_single_chunk_bound(elements_view(section@));
                    }
                    single_chunk(section)
                } else {
                    proof {
                        lemma_pack_spec_bound(elements_view(section@), max_tokens as nat, policy);
                    }
                    pack(section, max_tokens, policy)
                };
                (j, reindex(cs, start, j - start))
            },
            _ => {
                let j = find_next_heading(elements, i);
                proof {
                    lemma_next_heading(ev, i as int);
                }
                let section = vstd::slice::slice_subrange(elements, start, j);
                proof {
                    lemma_elements_view_subrange(elements@, start as int, j as int);
                    lemma_pack_spec_bound(elements_view(section@), max_tokens as nat, policy);
                }
                let cs = pack(section, max_tokens, policy);
                (j, reindex(cs, start, j - start))
            },
        };
        let ghost prev = chunks_view(out@);
        let mut packed = packed;
        let ghost pv = chunks_view(packed@);
        out.append(&mut packed);
        assert(chunks_view(out@) =~= prev + pv);
        i = j;
    }
    out
}

} // verus!