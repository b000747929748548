//! Grouping of consecutive list items into nested lists.
use vstd::prelude::*;
use crate::numbering::resolver::ListType;
use crate::pipeline::element::{DocxElement, ElementView, elements_view, lemma_elements_view_index, lemma_elements_view_len};

verus! {

/// A contiguous run of list items, nested by level.
#[derive(Debug, PartialEq, Eq)]
pub struct NestedList {
    pub items: Vec<NestedListItem>,
}

#[derive(Debug, PartialEq, Eq)]
pub struct NestedListItem {
    pub text: String,
    pub list_type: ListType,
    pub display_index: Option<u32>,
    pub children: Vec<NestedListItem>,
}

/// The mathematical value of a nested list item.
pub struct NestedItemView {
    pub text: Seq<char>,
    pub list_type: ListType,
    pub display_index: Option<u32>,
    pub children: Seq<NestedItemView>,
}

pub open spec fn nested_view(n: NestedListItem) -> NestedItemView
    decreases n,
{
    NestedItemView {
        text: n.text@,
        list_type: n.list_type,
        display_index: n.display_index,
        children: nested_seq_view(n.children@),
    }
}

pub open spec fn nested_seq_view(s: Seq<NestedListItem>) -> Seq<NestedItemView>
    decreases s,
{
    if s.len() == 0 { Seq::empty() } else { nested_seq_view(s.drop_last()).push(nested_view(s.last())) }
}

/// One list item of a run: its level and the data of the node it becomes.
pub struct RunItem {
    pub level: u8,
    pub text: Seq<char>,
    pub list_type: ListType,
    pub display_index: Option<u32>,
}

/// Position of the first item after position 0 whose level is at most the
/// level of item 0 (the length when none): item 0's descendants end there.
pub open spec fn subtree_end(s: Seq<RunItem>, k: int) -> int
    decreases s.len() - k,
{
    if k < 1 || k >= s.len() {
        s.len() as int
    } else if s[k].level <= s[0].level {
        k
    } else {
        subtree_end(s, k + 1)
    }
}

pub proof fn lemma_subtree_end(s: Seq<RunItem>, k: int)
    requires
        1 <= k <= s.len(),
    ensures
        k <= subtree_end(s, k) <= s.len(),
    decreases s.len() - k,
{
    if k < s.len() && s[k].level > s[0].level {
        lemma_subtree_end(s, k + 1);
    }
}

/// The forest a run of items forms: each item's children are the items that
/// follow it with a deeper level, up to the next item at its level or
/// shallower; consecutive items at the same level are siblings.
pub open spec fn forest(s: Seq<RunItem>) -> Seq<NestedItemView>
    decreases s.len(),
{
    if s.len() == 0 {
        Seq::empty()
    } else {
        proof { lemma_subtree_end(s, 1); }
        let k = subtree_end(s, 1);
        let node = NestedItemView {
            text: s[0].text,
            list_type: s[0].list_type,
            display_index: s[0].display_index,
            children: forest(s.subrange(1, k)),
        };
        seq![node] + forest(s.subrange(k, s.len() as int))
    }
}

pub open spec fn run_item_of(e: ElementView) -> RunItem {
    match e {
        ElementView::ListItem { text, level, list_type, display_index } => RunItem { level, text, list_type, display_index },
        _ => arbitrary(),
    }
}

/// The runs of consecutive list items so far and the run still open.
pub open spec fn runs_fold(es: Seq<ElementView>) -> (Seq<Seq<RunItem>>, Seq<RunItem>)
    decreases es.len(),
{
    if es.len() == 0 {
        (Seq::empty(), Seq::empty())
    } else {
        let (out, cur) = runs_fold(es.drop_last());
        if es.last() is ListItem {
            (out, cur.push(run_item_of(es.last())))
        } else if cur.len() > 0 {
            (out.push(cur), Seq::empty())
        } else {
            (out, cur)
        }
    }
}

/// The maximal runs of consecutive list items.
pub open spec fn list_runs(es: Seq<ElementView>) -> Seq<Seq<RunItem>> {
    let (out, cur) = runs_fold(es);
    if cur.len() > 0 { out.push(cur) } else { out }
}

pub open spec fn run_view(items: Seq<(u8, NestedListItem)>) -> Seq<RunItem> {
    Seq::new(items.len(), |i: int| RunItem {
        level: items[i].0,
        text: items[i].1.text@,
        list_type: items[i].1.list_type,
        display_index: items[i].1.display_index,
    })
}

fn subtree_end_exec(items: &Vec<(u8, NestedListItem)>, lo: usize, hi: usize) -> (k: usize)
    requires
        lo < hi <= items@.len(),
    ensures
        k == lo + subtree_end(run_view(items@).subrange(lo as int, hi as int), 1),
        lo + 1 <= k <= hi,
{
    let ghost s = run_view(items@).subrange(lo as int, hi as int);
    let level = items[lo].0;
    let mut k = lo + 1;
    proof {
        lemma_subtree_end(s, 1);
    }
    while k < hi
        invariant
            lo + 1 <= k <= hi <= items@.len(),
            s == run_view(items@).subrange(lo as int, hi as int),
            level == s[0].level,
            subtree_end(s, 1) == subtree_end(s, k - lo),
        decreases hi - k,
    {
        if items[k].0 <= level {
            return k;
        }
        k = k + 1;
    }
    k
}

fn leaf_copy(n: &NestedListItem) -> (r: NestedListItem)
    ensures
        r.text@ == n.text@,
        r.list_type == n.list_type,
        r.display_index == n.display_index,
        r.children@.len() == 0,
{
    NestedListItem {
        text: n.text.clone(),
        list_type: n.list_type.clone(),
        display_index: n.display_index,
        children: Vec::new(),
    }
}

/// The forest of `items[lo..hi]`.
fn build_forest(items: &Vec<(u8, NestedListItem)>, lo: usize, hi: usize) -> (r: Vec<NestedListItem>)
    requires
        lo <= hi <= items@.len(),
    ensures
        nested_seq_view(r@) == forest(run_view(items@).subrange(lo as int, hi as int)),
    decreases hi - lo,
{
    let ghost full = run_view(items@);
    let mut out: Vec<NestedListItem> = Vec::new();
    let mut i = lo;
    while i < hi
        invariant
            lo <= i <= hi <= items@.len(),
            full == run_view(items@),
            nested_seq_view(out@) + forest(full.subrange(i as int, hi as int)) == forest(full.subrange(lo as int, hi as int)),
        decreases hi - i,
    {
        let k = subtree_end_exec(items, i, hi);
        let ghost s = full.subrange(i as int, hi as int);
        proof {
            lemma_subtree_end(s, 1);
            assert(s.subrange(1, k - i) == full.subrange(i + 1, k as int));
            assert(s.subrange(k - i, s.len() as int) == full.subrange(k as int, hi as int));
        }
        let children = build_forest(items, i + 1, k);
        let mut node = leaf_copy(&items[i].1);
        node.children = children;
        let ghost prev = out@;
        out.push(node);
        assert(out@.drop_last() == prev);
        proof {
            assert(nested_seq_view(out@) == nested_seq_view(prev).push(nested_view(node)));
            assert(forest(s) == seq![nested_view(node)] + forest(full.subrange(k as int, hi as int)));
            assert(nested_seq_view(out@) + forest(full.subrange(k as int, hi as int))
                =~= nested_seq_view(prev) + forest(s));
        }
        i = k;
    }
    assert(full.subrange(hi as int, hi as int) =~= Seq::<RunItem>::empty());
    out
}

pub open spec fn nested_list_view(l: NestedList) -> Seq<NestedItemView> {
    nested_seq_view(l.items@)
}

/// Groups consecutive `ListItem` elements into one `NestedList` each and
/// nests items by level; any other element ends a run.
pub fn nest_list_items(elements: &[DocxElement]) -> (r: Vec<NestedList>)
    ensures
        r@.len() == list_runs(elements_view(elements@)).len(),
        forall|k: int| 0 <= k < r@.len() ==> #[trigger] nested_list_view(r@[k]) == forest(list_runs(elements_view(elements@))[k]),
{
    let ghost ev = elements_view(elements@);
    proof {
        lemma_elements_view_len(elements@);
    }
    let mut out: Vec<NestedList> = Vec::new();
    let ghost mut runs: Seq<Seq<RunItem>> = Seq::empty();
    let mut current_run: Vec<(u8, NestedListItem)> = Vec::new();
    let mut i: usize = 0;
    while i < elements.len()
        invariant
            i <= elements@.len(),
            ev == elements_view(elements@),
            ev.len() == elements@.len(),
            runs_fold(ev.take(i as int)) == (runs, run_view(current_run@)),
            out@.len() == runs.len(),
            forall|k: int| 0 <= k < out@.len() ==> #[trigger] nested_list_view(out@[k]) == forest(runs[k]),
        decreases elements.len() - i,
    {
        proof {
            lemma_elements_view_index(elements@, i as int);
            assert(ev.take(i + 1 as int).drop_last() == ev.take(i as int));
            assert(ev.take(i + 1 as int).last() == ev[i as int]);
        }
        match &elements[i] {
            DocxElement::ListItem { text, level, list_type, display_index } => {
                let ghost prev = current_run@;
                current_run.push((*level, NestedListItem {
                    text: text.clone(),
                    list_type: list_type.clone(),
                    display_index: *display_index,
                    children: Vec::new(),
                }));
                assert(run_view(current_run@) =~= run_view(prev).push(run_item_of(ev[i as int])));
            },
            _ => {
                if current_run.len() > 0 {
                    let items = build_forest(&current_run, 0, current_run.len());
                    assert(run_view(current_run@).subrange(0, current_run@.len() as int) == run_view(current_run@));
                    proof {
                        runs = runs.push(run_view(current_run@));
                    }
                    out.push(NestedList { items });
                    current_run = Vec::new();
                    assert(run_view(current_run@) =~= Seq::<RunItem>::empty());
                }
            },
        }
        i = i + 1;
    }
    assert(ev.take(elements.len() as int) == ev);
    if current_run.len() > 0 {
        let items = build_forest(&current_run, 0, current_run.len());
        assert(run_view(current_run@).subrange(0, current_run@.len() as int) == run_view(current_run@));
        proof {
            runs = runs.push(run_view(current_run@));
        }
        out.push(NestedList { items });
    }
    out
}

} // verus!
