use vstd::prelude::*;
use crate::raw::paragraphs::RawParagraphProperties;
use crate::raw::runs::RawRunProperties;
use crate::text::str_eq;

verus! {

#[derive(Debug, Clone, PartialEq, Eq, Structural)]
pub enum StyleType {
    Paragraph,
    Character,
    Table,
    Numbering,
}

/// One `<w:style>` definition.
#[derive(Debug, Clone)]
pub struct StyleEntry {
    pub style_id: String,
    pub name: String,
    pub style_type: StyleType,
    pub based_on: Option<String>,
    pub next_style: Option<String>,
    pub is_default: bool,
    pub paragraph_properties: Option<RawParagraphProperties>,
    pub run_properties: Option<RawRunProperties>,
}

/// The styles of a document by id, with the document defaults. Inserting
/// a style whose id is already present replaces the earlier definition.
#[derive(Debug, Clone)]
pub struct StyleTable {
    styles: Vec<StyleEntry>,
    pub doc_defaults_run: Option<RawRunProperties>,
    pub doc_defaults_paragraph: Option<RawParagraphProperties>,
}

/// The map from style id to definition that a list of distinct entries forms.
pub open spec fn entries_map(s: Seq<StyleEntry>) -> Map<Seq<char>, StyleEntry>
    decreases s.len(),
{
    if s.len() == 0 {
        Map::empty()
    } else {
        entries_map(s.drop_last()).insert(s.last().style_id@, s.last())
    }
}

pub open spec fn ids_distinct(s: Seq<StyleEntry>) -> bool {
    forall|i: int, j: int| 0 <= i < j < s.len() ==> (#[trigger] s[i]).style_id@ != (#[trigger] s[j]).style_id@
}

proof fn lemma_entries_map_dom(s: Seq<StyleEntry>)
    ensures
        entries_map(s).dom().finite(),
        forall|k: Seq<char>| #[trigger] entries_map(s).contains_key(k) <==> exists|i: int| 0 <= i < s.len() && s[i].style_id@ == k,
    decreases s.len(),
{
    if s.len() > 0 {
        lemma_entries_map_dom(s.drop_last());
        assert forall|k: Seq<char>| #[trigger] entries_map(s).contains_key(k) implies exists|i: int| 0 <= i < s.len() && s[i].style_id@ == k by {
            if k == s.last().style_id@ {
                assert(s[s.len() - 1].style_id@ == k);
            } else {
                let i = choose|i: int| 0 <= i < s.drop_last().len() && s.drop_last()[i].style_id@ == k;
                assert(s[i].style_id@ == k);
            }
        }
        assert forall|k: Seq<char>| (exists|i: int| 0 <= i < s.len() && s[i].style_id@ == k) implies #[trigger] entries_map(s).contains_key(k) by {
            let i = choose|i: int| 0 <= i < s.len() && s[i].style_id@ == k;
            if i < s.len() - 1 {
                assert(s.drop_last()[i].style_id@ == k);
            }
        }
    }
}

proof fn lemma_entries_map_len(s: Seq<StyleEntry>)
    requires
        ids_distinct(s),
    ensures
        entries_map(s).dom().len() == s.len(),
    decreases s.len(),
{
    if s.len() > 0 {
        let p = s.drop_last();
        assert(ids_distinct(p));
        lemma_entries_map_len(p);
        lemma_entries_map_dom(p);
        if entries_map(p).contains_key(s.last().style_id@) {
            let i = choose|i: int| 0 <= i < p.len() && p[i].style_id@ == s.last().style_id@;
            assert(s[i].style_id@ == s[s.len() - 1].style_id@);
        }
    }
}

proof fn lemma_entries_map_at(s: Seq<StyleEntry>, i: int)
    requires
        ids_distinct(s),
        0 <= i < s.len(),
    ensures
        entries_map(s).contains_key(s[i].style_id@),
        entries_map(s)[s[i].style_id@] == s[i],
    decreases s.len(),
{
    lemma_entries_map_dom(s);
    assert(s[i].style_id@ == s[i].style_id@);
    if i < s.len() - 1 {
        let p = s.drop_last();
        assert(ids_distinct(p));
        lemma_entries_map_at(p, i);
        assert(s[i].style_id@ != s[s.len() - 1].style_id@);
    }
}

proof fn lemma_entries_map_update(s: Seq<StyleEntry>, i: int, e: StyleEntry)
    requires
        ids_distinct(s),
        0 <= i < s.len(),
        s[i].style_id@ == e.style_id@,
    ensures
        entries_map(s.update(i, e)) =~= entries_map(s).insert(e.style_id@, e),
        ids_distinct(s.update(i, e)),
    decreases s.len(),
{
    let u = s.update(i, e);
    assert forall|a: int, b: int| 0 <= a < b < u.len() implies (#[trigger] u[a]).style_id@ != (#[trigger] u[b]).style_id@ by {
        assert(s[a].style_id@ != s[b].style_id@);
    }
    if i == s.len() - 1 {
        assert(u.drop_last() =~= s.drop_last());
    } else {
        let p = s.drop_last();
        assert(ids_distinct(p));
        lemma_entries_map_update(p, i, e);
        assert(u.drop_last() =~= p.update(i, e));
        assert(u.last() == s.last());
        assert(s[i].style_id@ != s[s.len() - 1].style_id@);
    }
}

impl StyleTable {
    /// The styles by id.
    pub closed spec fn styles_map(self) -> Map<Seq<char>, StyleEntry> {
        entries_map(self.styles@)
    }

    pub closed spec fn defaults_run(self) -> Option<RawRunProperties> {
        self.doc_defaults_run
    }

    pub closed spec fn defaults_paragraph(self) -> Option<RawParagraphProperties> {
        self.doc_defaults_paragraph
    }

    pub closed spec fn wf(self) -> bool {
        ids_distinct(self.styles@)
    }

    pub fn new() -> (t: Self)
        ensures
            t.wf(),
            t.styles_map() == Map::<Seq<char>, StyleEntry>::empty(),
            t.defaults_run() is None,
            t.defaults_paragraph() is None,
    {
        StyleTable { styles: Vec::new(), doc_defaults_run: None, doc_defaults_paragraph: None }
    }

    /// Adds a style, replacing any earlier style with the same id.
    pub fn insert(&mut self, entry: StyleEntry)
        requires
            old(self).wf(),
        ensures
            final(self).wf(),
            final(self).styles_map() == old(self).styles_map().insert(entry.style_id@, entry),
            final(self).defaults_run() == old(self).defaults_run(),
            final(self).defaults_paragraph() == old(self).defaults_paragraph(),
    {
        let mut i: usize = 0;
        while i < self.styles.len()
            invariant
                i <= self.styles@.len(),
                self.styles@ == old(self).styles@,
                ids_distinct(self.styles@),
                self.doc_defaults_run == old(self).doc_defaults_run,
                self.doc_defaults_paragraph == old(self).doc_defaults_paragraph,
                forall|j: int| 0 <= j < i ==> (#[trigger] self.styles@[j]).style_id@ != entry.style_id@,
            decreases self.styles.len() - i,
        {
            if str_eq(self.styles[i].style_id.as_str(), entry.style_id.as_str()) {
                proof {
                    lemma_entries_map_update(self.styles@, i as int, entry);
                }
                self.styles.set(i, entry);
                return;
            }
            i = i + 1;
        }
        let ghost before = self.styles@;
        self.styles.push(entry);
        proof {
            assert(self.styles@.drop_last() == before);
            assert forall|a: int, b: int| 0 <= a < b < self.styles@.len() implies (#[trigger] self.styles@[a]).style_id@ != (#[trigger] self.styles@[b]).style_id@ by {
                if b == self.styles@.len() - 1 {
                    assert(before[a].style_id@ != entry.style_id@);
                }
            }
        }
    }

    /// The style with the given id.
    pub fn get(&self, id: &str) -> (r: Option<&StyleEntry>)
        requires
            self.wf(),
        ensures
            match r {
                Some(e) => self.styles_map().contains_key(id@) && *e == self.styles_map()[id@],
                None => !self.styles_map().contains_key(id@),
            },
    {
        let mut i: usize = 0;
        while i < self.styles.len()
            invariant
                i <= self.styles@.len(),
                ids_distinct(self.styles@),
                forall|j: int| 0 <= j < i ==> (#[trigger] self.styles@[j]).style_id@ != id@,
            decreases self.styles.len() - i,
        {
            if str_eq(self.styles[i].style_id.as_str(), id) {
                proof {
                    lemma_entries_map_at(self.styles@, i as int);
                }
                return Some(&self.styles[i]);
            }
            i = i + 1;
        }
        proof {
            lemma_entries_map_dom(self.styles@);
        }
        None
    }

    pub fn doc_defaults_run_properties(&self) -> (r: Option<&RawRunProperties>)
        ensures
            match r {
                Some(p) => self.defaults_run() == Some(*p),
                None => self.defaults_run() is None,
            },
    {
        self.doc_defaults_run.as_ref()
    }

    pub fn doc_defaults_paragraph_properties(&self) -> (r: Option<&RawParagraphProperties>)
        ensures
            match r {
                Some(p) => self.defaults_paragraph() == Some(*p),
                None => self.defaults_paragraph() is None,
            },
    {
        self.doc_defaults_paragraph.as_ref()
    }

    pub fn set_doc_defaults_run(&mut self, p: Option<RawRunProperties>)
        ensures
            final(self).defaults_run() == p,
            final(self).defaults_paragraph() == old(self).defaults_paragraph(),
            final(self).styles_map() == old(self).styles_map(),
            final(self).wf() == old(self).wf(),
    {
        self.doc_defaults_run = p;
    }

    pub fn set_doc_defaults_paragraph(&mut self, p: Option<RawParagraphProperties>)
        ensures
            final(self).defaults_paragraph() == p,
            final(self).defaults_run() == old(self).defaults_run(),
            final(self).styles_map() == old(self).styles_map(),
            final(self).wf() == old(self).wf(),
    {
        self.doc_defaults_paragraph = p;
    }

    /// The number of distinct style ids.
    pub fn len(&self) -> (n: usize)
        requires
            self.wf(),
        ensures
            n == self.styles_map().dom().len(),
    {
        proof {
            lemma_entries_map_len(self.styles@);
        }
        self.styles.len()
    }
}

} // verus!
