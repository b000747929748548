//! `.rels` relationship parts.
use vstd::prelude::*;
use crate::error::DocxError;
use crate::text::{chars_of, str_eq};
use crate::xml::entity_guard::{doctype_reason, has_doctype};
use crate::xml::reader::{TokView, XmlTok, part_toks, read_part, sattrs_view, toks_view};

verus! {

/// One `<Relationship>` entry.
#[derive(Debug, Clone)]
pub struct Relationship {
    pub id: String,
    pub rel_type: String,
    pub target: String,
    pub is_external: bool,
}

/// The relationships of a part by id; a later entry with an id already
/// present replaces the earlier one.
pub struct RelationshipMap {
    rels: Vec<Relationship>,
}

/// The map from id to relationship that a list of distinct entries forms.
pub open spec fn rels_map(s: Seq<Relationship>) -> Map<Seq<char>, Relationship>
    decreases s.len(),
{
    if s.len() == 0 {
        Map::empty()
    } else {
        rels_map(s.drop_last()).insert(s.last().id@, s.last())
    }
}

pub open spec fn rel_ids_distinct(s: Seq<Relationship>) -> bool {
    forall|i: int, j: int| 0 <= i < j < s.len() ==> (#[trigger] s[i]).id@ != (#[trigger] s[j]).id@
}

proof fn lemma_rels_map_dom(s: Seq<Relationship>)
    ensures
        rels_map(s).dom().finite(),
        forall|k: Seq<char>| #[trigger] rels_map(s).contains_key(k) <==> exists|i: int| 0 <= i < s.len() && s[i].id@ == k,
    decreases s.len(),
{
    if s.len() > 0 {
        lemma_rels_map_dom(s.drop_last());
        assert forall|k: Seq<char>| #[trigger] rels_map(s).contains_key(k) implies exists|i: int| 0 <= i < s.len() && s[i].id@ == k by {
            if k == s.last().id@ {
                assert(s[s.len() - 1].id@ == k);
            } else {
                let i = choose|i: int| 0 <= i < s.drop_last().len() && s.drop_last()[i].id@ == k;
                assert(s[i].id@ == k);
            }
        }
        assert forall|k: Seq<char>| (exists|i: int| 0 <= i < s.len() && s[i].id@ == k) implies #[trigger] rels_map(s).contains_key(k) by {
            let i = choose|i: int| 0 <= i < s.len() && s[i].id@ == k;
            if i < s.len() - 1 {
                assert(s.drop_last()[i].id@ == k);
            }
        }
    }
}

proof fn lemma_rels_map_len(s: Seq<Relationship>)
    requires
        rel_ids_distinct(s),
    ensures
        rels_map(s).dom().len() == s.len(),
    decreases s.len(),
{
    if s.len() > 0 {
        let p = s.drop_last();
        assert(rel_ids_distinct(p));
        lemma_rels_map_len(p);
        lemma_rels_map_dom(p);
        if rels_map(p).contains_key(s.last().id@) {
            let i = choose|i: int| 0 <= i < p.len() && p[i].id@ == s.last().id@;
            assert(s[i].id@ == s[s.len() - 1].id@);
        }
    }
}

proof fn lemma_rels_map_at(s: Seq<Relationship>, i: int)
    requires
        rel_ids_distinct(s),
        0 <= i < s.len(),
    ensures
        rels_map(s).contains_key(s[i].id@),
        rels_map(s)[s[i].id@] == s[i],
    decreases s.len(),
{
    lemma_rels_map_dom(s);
    assert(s[i].id@ == s[i].id@);
    if i < s.len() - 1 {
        let p = s.drop_last();
        assert(rel_ids_distinct(p));
        lemma_rels_map_at(p, i);
        assert(s[i].id@ != s[s.len() - 1].id@);
    }
}

proof fn lemma_rels_map_update(s: Seq<Relationship>, i: int, e: Relationship)
    requires
        rel_ids_distinct(s),
        0 <= i < s.len(),
        s[i].id@ == e.id@,
    ensures
        rels_map(s.update(i, e)) =~= rels_map(s).insert(e.id@, e),
        rel_ids_distinct(s.update(i, e)),
    decreases s.len(),
{
    let u = s.update(i, e);
    assert forall|a: int, b: int| 0 <= a < b < u.len() implies (#[trigger] u[a]).id@ != (#[trigger] u[b]).id@ by {
        assert(s[a].id@ != s[b].id@);
    }
    if i == s.len() - 1 {
        assert(u.drop_last() =~= s.drop_last());
    } else {
        let p = s.drop_last();
        assert(rel_ids_distinct(p));
        lemma_rels_map_update(p, i, e);
        assert(u.drop_last() =~= p.update(i, e));
        assert(u.last() == s.last());
        assert(s[i].id@ != s[s.len() - 1].id@);
    }
}

/// The entries of `s` whose type contains `suffix`, in order.
pub open spec fn filter_type(s: Seq<Relationship>, suffix: Seq<char>) -> Seq<Relationship>
    decreases s.len(),
{
    if s.len() == 0 {
        Seq::empty()
    } else if contains_seq(s.last().rel_type@, suffix) {
        filter_type(s.drop_last(), suffix).push(s.last())
    } else {
        filter_type(s.drop_last(), suffix)
    }
}

/// What the filter keeps: the relationships of `s` whose type contains
/// `suffix`, each taken from `s`, in order and without repeated ids when
/// `s` has none.
proof fn lemma_filter_type(s: Seq<Relationship>, suffix: Seq<char>)
    ensures
        forall|k: int| 0 <= k < filter_type(s, suffix).len() ==> {
            &&& contains_seq((#[trigger] filter_type(s, suffix)[k]).rel_type@, suffix)
            &&& exists|i: int| 0 <= i < s.len() && s[i] == filter_type(s, suffix)[k]
        },
        forall|i: int| 0 <= i < s.len() && contains_seq((#[trigger] s[i]).rel_type@, suffix) ==>
            exists|k: int| 0 <= k < filter_type(s, suffix).len() && filter_type(s, suffix)[k] == s[i],
        rel_ids_distinct(s) ==> rel_ids_distinct(filter_type(s, suffix)),
    decreases s.len(),
{
    if s.len() > 0 {
        let p = s.drop_last();
        lemma_filter_type(p, suffix);
        let fp = filter_type(p, suffix);
        let f = filter_type(s, suffix);
        assert forall|k: int| 0 <= k < f.len() implies {
            &&& contains_seq((#[trigger] f[k]).rel_type@, suffix)
            &&& exists|i: int| 0 <= i < s.len() && s[i] == f[k]
        } by {
            if k < fp.len() {
                assert(f[k] == fp[k]);
                let i = choose|i: int| 0 <= i < p.len() && p[i] == fp[k];
                assert(s[i] == p[i]);
            } else {
                assert(f[k] == s[s.len() - 1]);
            }
        }
        assert forall|i: int| 0 <= i < s.len() && contains_seq((#[trigger] s[i]).rel_type@, suffix) implies
            exists|k: int| 0 <= k < f.len() && f[k] == s[i] by {
            if i < p.len() {
                assert(s[i] == p[i]);
                let k = choose|k: int| 0 <= k < fp.len() && fp[k] == p[i];
                assert(f[k] == fp[k]);
            } else {
                assert(f[f.len() - 1] == s[i]);
            }
        }
        if rel_ids_distinct(s) {
            assert(rel_ids_distinct(p));
            assert forall|a: int, b: int| 0 <= a < b < f.len() implies (#[trigger] f[a]).id@ != (#[trigger] f[b]).id@ by {
                if b < fp.len() {
                    assert(f[a] == fp[a]);
                    assert(f[b] == fp[b]);
                } else {
                    assert(f[a] == fp[a]);
                    let i = choose|i: int| 0 <= i < p.len() && p[i] == fp[a];
                    assert(f[b] == s[s.len() - 1]);
                    assert(s[i] == p[i]);
                }
            }
        }
    }
}

/// `needle` occurs in `hay` as a contiguous subsequence.
pub open spec fn contains_seq(hay: Seq<char>, needle: Seq<char>) -> bool {
    exists|i: int| 0 <= i <= hay.len() - needle.len() && #[trigger] hay.subrange(i, i + needle.len()) == needle
}

/// `needle` occurs in `hay`.
pub fn str_contains(hay: &str, needle: &str) -> (b: bool)
    ensures
        b == contains_seq(hay@, needle@),
{
    let h = crate::text::chars_of(hay);
    let n = crate::text::chars_of(needle);
    if n.len() > h.len() {
        proof {
            assert forall|i: int| !(0 <= i <= hay@.len() - needle@.len() && #[trigger] hay@.subrange(i, i + needle@.len()) == needle@) by {}
        }
        return false;
    }
    let hl = h.len();
    let last = hl - n.len();
    let mut i: usize = 0;
    while i <= last
        invariant
            hl == h@.len(),
            last == h@.len() - n@.len(),
            h@ == hay@,
            n@ == needle@,
            n@.len() <= h@.len(),
            i <= last + 1,
            forall|k: int| 0 <= k < i ==> #[trigger] hay@.subrange(k, k + needle@.len()) != needle@,
        decreases last + 1 - i,
    {
        let mut j: usize = 0;
        let mut same = true;
        while j < n.len()
            invariant
                h@ == hay@,
                n@ == needle@,
                i + n@.len() <= h@.len(),
                hl == h@.len(),
                j <= n@.len(),
                same == (forall|t: int| 0 <= t < j ==> h@[i + t] == n@[t]),
            decreases n.len() - j,
        {
            if h[i + j] != n[j] {
                same = false;
            }
            j = j + 1;
        }
        if same {
            assert(hay@.subrange(i as int, i + needle@.len()) =~= needle@);
            return true;
        }
        proof {
            if hay@.subrange(i as int, i + needle@.len()) == needle@ {
                assert forall|t: int| 0 <= t < n@.len() implies h@[i + t] == n@[t] by {
                    assert(hay@.subrange(i as int, i + needle@.len())[t] == hay@[i + t]);
                }
            }
        }
        i = i + 1;
    }
    false
}

impl RelationshipMap {
    /// The relationships by id.
    pub closed spec fn rels(self) -> Map<Seq<char>, Relationship> {
        rels_map(self.rels@)
    }

    /// The relationships in the order they were first added.
    pub closed spec fn entries(self) -> Seq<Relationship> {
        self.rels@
    }

    pub closed spec fn wf(self) -> bool {
        rel_ids_distinct(self.rels@)
    }

    /// The map is its entries keyed by id, and no id occurs twice among them.
    pub proof fn lemma_entries_keyed(self)
        requires
            self.wf(),
        ensures
            self.rels() == rels_map(self.entries()),
            rel_ids_distinct(self.entries()),
            self.rels().dom().len() == self.entries().len(),
    {
        lemma_rels_map_len(self.rels@);
    }

    pub fn new() -> (m: Self)
        ensures
            m.wf(),
            m.rels() == Map::<Seq<char>, Relationship>::empty(),
            m.entries().len() == 0,
    {
        RelationshipMap { rels: Vec::new() }
    }

    /// Adds a relationship, replacing any earlier one with the same id.
    pub fn insert(&mut self, rel: Relationship)
        requires
            old(self).wf(),
        ensures
            final(self).wf(),
            final(self).rels() == old(self).rels().insert(rel.id@, rel),
    {
        let mut i: usize = 0;
        while i < self.rels.len()
            invariant
                i <= self.rels@.len(),
                self.rels@ == old(self).rels@,
                rel_ids_distinct(self.rels@),
                forall|j: int| 0 <= j < i ==> (#[trigger] self.rels@[j]).id@ != rel.id@,
            decreases self.rels.len() - i,
        {
            if str_eq(self.rels[i].id.as_str(), rel.id.as_str()) {
                proof {
                    lemma_rels_map_update(self.rels@, i as int, rel);
                }
                self.rels.set(i, rel);
                return;
            }
            i = i + 1;
        }
        let ghost before = self.rels@;
        self.rels.push(rel);
        proof {
            assert(self.rels@.drop_last() == before);
            assert forall|a: int, b: int| 0 <= a < b < self.rels@.len() implies (#[trigger] self.rels@[a]).id@ != (#[trigger] self.rels@[b]).id@ by {
                if b == self.rels@.len() - 1 {
                    assert(before[a].id@ != rel.id@);
                }
            }
        }
    }

    /// The relationship with the given id (e.g. `"rId1"`).
    pub fn get_by_id(&self, id: &str) -> (r: Option<&Relationship>)
        requires
            self.wf(),
        ensures
            match r {
                Some(e) => self.rels().contains_key(id@) && *e == self.rels()[id@],
                None => !self.rels().contains_key(id@),
            },
    {
        let mut i: usize = 0;
        while i < self.rels.len()
            invariant
                i <= self.rels@.len(),
                rel_ids_distinct(self.rels@),
                forall|j: int| 0 <= j < i ==> (#[trigger] self.rels@[j]).id@ != id@,
            decreases self.rels.len() - i,
        {
            if str_eq(self.rels[i].id.as_str(), id) {
                proof {
                    lemma_rels_map_at(self.rels@, i as int);
                }
                return Some(&self.rels[i]);
            }
            i = i + 1;
        }
        proof {
            lemma_rels_map_dom(self.rels@);
        }
        None
    }

    /// The relationships whose type contains `type_suffix`: each one of
    /// the map whose type contains it, once, in the order they were added.
    pub fn find_by_type(&self, type_suffix: &str) -> (r: Vec<&Relationship>)
        requires
            self.wf(),
        ensures
            forall|k: int| 0 <= k < r@.len() ==> {
                &&& self.rels().contains_key((#[trigger] r@[k]).id@)
                &&& self.rels()[r@[k].id@] == *r@[k]
                &&& contains_seq(r@[k].rel_type@, type_suffix@)
            },
            forall|id: Seq<char>| #[trigger] self.rels().contains_key(id) && contains_seq(self.rels()[id].rel_type@, type_suffix@)
                ==> exists|k: int| 0 <= k < r@.len() && *r@[k] == self.rels()[id],
            forall|a: int, b: int| 0 <= a < b < r@.len() ==> (#[trigger] r@[a]).id@ != (#[trigger] r@[b]).id@,
            r@.len() == filter_type(self.entries(), type_suffix@).len(),
            forall|k: int| 0 <= k < r@.len() ==> *(#[trigger] r@[k]) == filter_type(self.entries(), type_suffix@)[k],
    {
        let mut out: Vec<&Relationship> = Vec::new();
        let mut i: usize = 0;
        while i < self.rels.len()
            invariant
                i <= self.rels@.len(),
                out@.len() == filter_type(self.rels@.take(i as int), type_suffix@).len(),
                forall|k: int| 0 <= k < out@.len() ==> *(#[trigger] out@[k]) == filter_type(self.rels@.take(i as int), type_suffix@)[k],
            decreases self.rels.len() - i,
        {
            assert(self.rels@.take(i + 1).drop_last() =~= self.rels@.take(i as int));
            if str_contains(self.rels[i].rel_type.as_str(), type_suffix) {
                out.push(&self.rels[i]);
            }
            i = i + 1;
        }
        assert(self.rels@.take(self.rels@.len() as int) =~= self.rels@);
        proof {
            let es = self.rels@;
            let f = filter_type(es, type_suffix@);
            lemma_filter_type(es, type_suffix@);
            lemma_rels_map_dom(es);
            assert forall|k: int| 0 <= k < out@.len() implies {
                &&& self.rels().contains_key((#[trigger] out@[k]).id@)
                &&& self.rels()[out@[k].id@] == *out@[k]
                &&& contains_seq(out@[k].rel_type@, type_suffix@)
            } by {
                assert(*out@[k] == f[k]);
                let i = choose|i: int| 0 <= i < es.len() && es[i] == f[k];
                lemma_rels_map_at(es, i);
            }
            assert forall|id: Seq<char>| #[trigger] self.rels().contains_key(id) && contains_seq(self.rels()[id].rel_type@, type_suffix@)
                implies exists|k: int| 0 <= k < out@.len() && *out@[k] == self.rels()[id] by {
                let i = choose|i: int| 0 <= i < es.len() && es[i].id@ == id;
                lemma_rels_map_at(es, i);
                assert(contains_seq(es[i].rel_type@, type_suffix@));
                let k = choose|k: int| 0 <= k < f.len() && f[k] == es[i];
                assert(*out@[k] == f[k]);
            }
            assert forall|a: int, b: int| 0 <= a < b < out@.len() implies (#[trigger] out@[a]).id@ != (#[trigger] out@[b]).id@ by {
                assert(*out@[a] == f[a]);
                assert(*out@[b] == f[b]);
            }
        }
        out
    }

    /// The number of distinct ids.
    pub fn len(&self) -> (n: usize)
        requires
            self.wf(),
        ensures
            n == self.rels().dom().len(),
    {
        proof {
            lemma_rels_map_len(self.rels@);
        }
        self.rels.len()
    }
}


/// A relationship as a mathematical value.
pub struct RelView {
    pub id: Seq<char>,
    pub rel_type: Seq<char>,
    pub target: Seq<char>,
    pub is_external: bool,
}

pub open spec fn rel_view(r: Relationship) -> RelView {
    RelView { id: r.id@, rel_type: r.rel_type@, target: r.target@, is_external: r.is_external }
}

pub open spec fn rels_view(m: Map<Seq<char>, Relationship>) -> Map<Seq<char>, RelView> {
    m.map_values(|r: Relationship| rel_view(r))
}

/// "External", ASCII case ignored.
pub open spec fn is_external_mode(v: Seq<char>) -> bool {
    v.len() == 8 && forall|k: int| 0 <= k < 8 ==> v[k] == "external"@[k] || v[k] == "EXTERNAL"@[k]
}

/// The attributes of a `<Relationship>`, read in order.
pub open spec fn rel_attrs(
    acc: (Option<Seq<char>>, Option<Seq<char>>, Option<Seq<char>>, bool),
    attrs: Seq<Option<(Seq<char>, Seq<char>)>>,
) -> (Option<Seq<char>>, Option<Seq<char>>, Option<Seq<char>>, bool)
    decreases attrs.len(),
{
    if attrs.len() == 0 {
        acc
    } else {
        let (id, ty, target, ext) = rel_attrs(acc, attrs.drop_last());
        match attrs.last() {
            Some((k, v)) => if k == "Id"@ {
                (Some(v), ty, target, ext)
            } else if k == "Type"@ {
                (id, Some(v), target, ext)
            } else if k == "Target"@ {
                (id, ty, Some(v), ext)
            } else if k == "TargetMode"@ {
                (id, ty, target, is_external_mode(v))
            } else {
                (id, ty, target, ext)
            },
            None => (id, ty, target, ext),
        }
    }
}

/// A `<Relationship>` tag: added when it has an id, a type and a target.
pub open spec fn rel_tag(m: Map<Seq<char>, RelView>, attrs: Seq<Option<(Seq<char>, Seq<char>)>>) -> Map<Seq<char>, RelView> {
    match rel_attrs((None, None, None, false), attrs) {
        (Some(id), Some(ty), Some(target), ext) => m.insert(id, RelView { id, rel_type: ty, target, is_external: ext }),
        _ => m,
    }
}

pub open spec fn rels_loop(t: Seq<TokView>, i: int, m: Map<Seq<char>, RelView>) -> Result<Map<Seq<char>, RelView>, Seq<char>>
    decreases t.len() - i,
{
    if i < 0 || i >= t.len() {
        Ok(m)
    } else {
        match t[i] {
            TokView::Start { name, attrs } => rels_loop(t, i + 1, if name == "Relationship"@ { rel_tag(m, attrs) } else { m }),
            TokView::Empty { name, attrs } => rels_loop(t, i + 1, if name == "Relationship"@ { rel_tag(m, attrs) } else { m }),
            TokView::Error { message } => Err(message),
            _ => rels_loop(t, i + 1, m),
        }
    }
}

/// What a `.rels` part reads as: its relationships by id, or the reader's
/// error message.
pub open spec fn rels_of(bytes: Seq<u8>) -> Result<Map<Seq<char>, RelView>, Seq<char>> {
    rels_of_toks(part_toks(bytes, false))
}

/// What a token stream of a relationships part reads as.
pub open spec fn rels_of_toks(t: Seq<TokView>) -> Result<Map<Seq<char>, RelView>, Seq<char>> {
    rels_loop(t, 0, Map::empty())
}

fn eq_ignore_case_external(v: &str) -> (b: bool)
    ensures
        b == is_external_mode(v@),
{
    let c = chars_of(v);
    if c.len() != 8 {
        return false;
    }
    let lower = ['e', 'x', 't', 'e', 'r', 'n', 'a', 'l'];
    let upper = ['E', 'X', 'T', 'E', 'R', 'N', 'A', 'L'];
    proof {
        reveal_strlit("external");
        reveal_strlit("EXTERNAL");
        assert(lower@ == "external"@);
        assert(upper@ == "EXTERNAL"@);
    }
    let mut k: usize = 0;
    while k < 8
        invariant
            k <= 8,
            c@ == v@,
            c@.len() == 8,
            lower@ == "external"@,
            upper@ == "EXTERNAL"@,
            forall|j: int| 0 <= j < k ==> c@[j] == "external"@[j] || c@[j] == "EXTERNAL"@[j],
        decreases 8 - k,
    {
        if c[k] != lower[k] && c[k] != upper[k] {
            return false;
        }
        k = k + 1;
    }
    true
}

fn read_rel_attrs(attrs: &Vec<Option<(String, String)>>) -> (r: (Option<String>, Option<String>, Option<String>, bool))
    ensures
        (opt_str(r.0), opt_str(r.1), opt_str(r.2), r.3) == rel_attrs((None, None, None, false), sattrs_view(attrs@)),
{
    let ghost a = sattrs_view(attrs@);
    let mut id: Option<String> = None;
    let mut ty: Option<String> = None;
    let mut target: Option<String> = None;
    let mut ext = false;
    let mut i: usize = 0;
    while i < attrs.len()
        invariant
            i <= attrs@.len(),
            a == sattrs_view(attrs@),
            (opt_str(id), opt_str(ty), opt_str(target), ext) == rel_attrs((None, None, None, false), a.take(i as int)),
        decreases attrs.len() - i,
    {
        assert(a.take(i + 1).drop_last() =~= a.take(i as int));
        assert(a.take(i + 1).last() == a[i as int]);
        if let Some((k, v)) = &attrs[i] {
            if str_eq(k.as_str(), "Id") {
                id = Some(v.clone());
            } else if str_eq(k.as_str(), "Type") {
                ty = Some(v.clone());
            } else if str_eq(k.as_str(), "Target") {
                target = Some(v.clone());
            } else if str_eq(k.as_str(), "TargetMode") {
                ext = eq_ignore_case_external(v.as_str());
            }
        }
        i = i + 1;
    }
    assert(a.take(attrs@.len() as int) =~= a);
    (id, ty, target, ext)
}

pub open spec fn opt_str(o: Option<String>) -> Option<Seq<char>> {
    match o {
        Some(s) => Some(s@),
        None => None,
    }
}

impl RelationshipMap {
    fn add_tag(&mut self, attrs: &Vec<Option<(String, String)>>)
        requires
            old(self).wf(),
        ensures
            final(self).wf(),
            rels_view(final(self).rels()) == rel_tag(rels_view(old(self).rels()), sattrs_view(attrs@)),
    {
        let (id, ty, target, ext) = read_rel_attrs(attrs);
        if let (Some(id), Some(rel_type), Some(target)) = (id, ty, target) {
            let rel = Relationship { id: id.clone(), rel_type, target, is_external: ext };
            let ghost before = self.rels();
            self.insert(rel);
            assert(rels_view(self.rels()) =~= rels_view(before).insert(rel.id@, rel_view(rel)));
        }
    }

    /// Parses a `.rels` part; `source_path` names it in errors (e.g.
    /// `"_rels/.rels"`). Each `<Relationship>` with an `Id`, a `Type` and a
    /// `Target` is kept, a later one replacing an earlier one with the same
    /// id.
    pub fn parse(xml_bytes: &[u8], source_path: &str) -> (r: Result<Self, DocxError>)
        ensures
            has_doctype(xml_bytes@) ==> (r matches Err(e) && e matches DocxError::XmlParse { part, reason }
                && part@ == source_path@ && reason@ == doctype_reason()),
            !has_doctype(xml_bytes@) ==> match rels_of(xml_bytes@) {
                Ok(m) => r matches Ok(map) && map.wf() && rels_view(map.rels()) == m,
                Err(msg) => r matches Err(e) && e matches DocxError::InvalidRelationships { path, reason }
                    && path@ == source_path@ && reason@ == msg,
            },
    {
        let toks = match read_part(xml_bytes, source_path, false) {
            Ok(t) => t,
            Err(e) => return Err(e),
        };
        Self::from_tokens(&toks, source_path)
    }

    /// Reads the relationships from the tokens of the part at `source_path`.
    pub fn from_tokens(toks: &Vec<XmlTok>, source_path: &str) -> (r: Result<Self, DocxError>)
        ensures
            match rels_of_toks(toks_view(toks@)) {
                Ok(m) => r matches Ok(map) && map.wf() && rels_view(map.rels()) == m,
                Err(msg) => r matches Err(e) && e matches DocxError::InvalidRelationships { path, reason }
                    && path@ == source_path@ && reason@ == msg,
            },
    {
        let ghost t = toks_view(toks@);
        let mut map = RelationshipMap::new();
        assert(rels_view(map.rels()) =~= Map::<Seq<char>, RelView>::empty());
        let mut i: usize = 0;
        while i < toks.len()
            invariant
                t == toks_view(toks@),
                t.len() == toks@.len(),
                i <= toks@.len(),
                map.wf(),
                rels_loop(t, i as int, rels_view(map.rels())) == rels_of_toks(t),
            decreases toks.len() - i,
        {
            assert(t[i as int] == toks@[i as int]@);
            match &toks[i] {
                XmlTok::Start { name, attrs } => {
                    if str_eq(name.as_str(), "Relationship") {
                        map.add_tag(attrs);
                    }
                },
                XmlTok::Empty { name, attrs } => {
                    if str_eq(name.as_str(), "Relationship") {
                        map.add_tag(attrs);
                    }
                },
                XmlTok::Error { message } => {
                    return Err(DocxError::InvalidRelationships { path: source_path.to_owned(), reason: message.clone() });
                },
                _ => {},
            }
            i = i + 1;
        }
        Ok(map)
    }
}

} // verus!
