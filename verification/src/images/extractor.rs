//! Which archive entries are images, and the order they are reported in.
use vstd::prelude::*;
use crate::text::chars_of;

verus! {

broadcast use vstd::seq_lib::group_to_multiset_ensures;

/// `a` comes no later than `b` in the order of `str`'s `Ord`: byte-wise
/// lexicographic order, which for UTF-8 is the order of code points.
pub open spec fn lex_le(a: Seq<char>, b: Seq<char>) -> bool
    decreases a.len(),
{
    if a.len() == 0 {
        true
    } else if b.len() == 0 {
        false
    } else if a[0] < b[0] {
        true
    } else if b[0] < a[0] {
        false
    } else {
        lex_le(a.drop_first(), b.drop_first())
    }
}

pub proof fn lemma_lex_total(a: Seq<char>, b: Seq<char>)
    ensures
        lex_le(a, b) || lex_le(b, a),
    decreases a.len(),
{
    if a.len() > 0 && b.len() > 0 && a[0] == b[0] {
        lemma_lex_total(a.drop_first(), b.drop_first());
    }
}

pub proof fn lemma_lex_trans(a: Seq<char>, b: Seq<char>, c: Seq<char>)
    requires
        lex_le(a, b),
        lex_le(b, c),
    ensures
        lex_le(a, c),
    decreases a.len(),
{
    if a.len() > 0 && b.len() > 0 && c.len() > 0 && a[0] == b[0] && b[0] == c[0] {
        lemma_lex_trans(a.drop_first(), b.drop_first(), c.drop_first());
    }
}

/// The entry lies under `word/media/`.
pub open spec fn is_media_path(s: Seq<char>) -> bool {
    s.len() >= 11 && s.take(11) == "word/media/"@
}

/// The strings of `v` as character sequences.
pub open spec fn names_view(v: Seq<String>) -> Seq<Seq<char>> {
    Seq::new(v.len(), |i: int| v[i]@)
}

/// The media entries among `names`, in their order.
pub open spec fn media_of(names: Seq<Seq<char>>) -> Seq<Seq<char>>
    decreases names.len(),
{
    if names.len() == 0 {
        Seq::empty()
    } else if is_media_path(names.last()) {
        media_of(names.drop_last()).push(names.last())
    } else {
        media_of(names.drop_last())
    }
}

pub open spec fn sorted(s: Seq<Seq<char>>) -> bool {
    forall|i: int, j: int| 0 <= i < j < s.len() ==> lex_le(#[trigger] s[i], #[trigger] s[j])
}

fn lex_le_exec(a: &Vec<char>, b: &Vec<char>) -> (r: bool)
    ensures
        r == lex_le(a@, b@),
{
    let mut i: usize = 0;
    assert(a@.skip(0) =~= a@ && b@.skip(0) =~= b@);
    while i < a.len() && i < b.len()
        invariant
            i <= a@.len(),
            i <= b@.len(),
            lex_le(a@, b@) == lex_le(a@.skip(i as int), b@.skip(i as int)),
        decreases a.len() - i,
    {
        let ghost sa = a@.skip(i as int);
        let ghost sb = b@.skip(i as int);
        assert(sa[0] == a@[i as int] && sb[0] == b@[i as int]);
        if a[i] < b[i] {
            return true;
        }
        if b[i] < a[i] {
            return false;
        }
        assert(sa.drop_first() =~= a@.skip(i + 1));
        assert(sb.drop_first() =~= b@.skip(i + 1));
        i = i + 1;
    }
    i == a.len()
}

fn is_media_name(name: &String) -> (b: bool)
    ensures
        b == is_media_path(name@),
{
    let c = chars_of(name.as_str());
    let p = chars_of("word/media/");
    proof {
        reveal_strlit("word/media/");
    }
    if c.len() < p.len() {
        return false;
    }
    let mut k: usize = 0;
    while k < p.len()
        invariant
            p@ == "word/media/"@,
            p@.len() == 11,
            c@ == name@,
            11 <= c@.len(),
            k <= 11,
            forall|j: int| 0 <= j < k ==> c@[j] == p@[j],
        decreases p.len() - k,
    {
        if c[k] != p[k] {
            assert(c@.take(11)[k as int] != p@[k as int]);
            return false;
        }
        k = k + 1;
    }
    assert(c@.take(11) =~= p@);
    true
}

/// The `word/media/` entries among the archive's entry names, sorted the
/// way `str` sorts, so that images are reported in a fixed order.
pub fn media_paths(names: &Vec<String>) -> (r: Vec<String>)
    ensures
        sorted(names_view(r@)),
        names_view(r@).to_multiset() == media_of(names_view(names@)).to_multiset(),
{
    let ghost nv = names_view(names@);
    let mut out: Vec<String> = Vec::new();
    let mut i: usize = 0;
    while i < names.len()
        invariant
            i <= names@.len(),
            nv == names_view(names@),
            sorted(names_view(out@)),
            names_view(out@).to_multiset() == media_of(nv.take(i as int)).to_multiset(),
        decreases names.len() - i,
    {
        assert(nv.take(i + 1).drop_last() =~= nv.take(i as int));
        assert(nv.take(i + 1).last() == names@[i as int]@);
        if is_media_name(&names[i]) {
            let x = chars_of(names[i].as_str());
            let mut p: usize = 0;
            while p < out.len()
                invariant
                    p <= out@.len(),
                    i < names@.len(),
                    x@ == names@[i as int]@,
                    sorted(names_view(out@)),
                    forall|k: int| 0 <= k < p ==> lex_le(#[trigger] names_view(out@)[k], x@),
                ensures
                    p <= out@.len(),
                    forall|k: int| 0 <= k < p ==> lex_le(#[trigger] names_view(out@)[k], x@),
                    p < out@.len() ==> !lex_le(names_view(out@)[p as int], x@),
                decreases out.len() - p,
            {
                let y = chars_of(out[p].as_str());
                if !lex_le_exec(&y, &x) {
                    break;
                }
                p = p + 1;
            }
            let ghost before = names_view(out@);
            proof {
                if p < before.len() {
                    lemma_lex_total(before[p as int], x@);
                }
            }
            out.insert(p, names[i].clone());
            proof {
                let after = names_view(out@);
                assert(after =~= before.insert(p as int, x@));
                assert forall|a: int, b: int| 0 <= a < b < after.len() implies lex_le(#[trigger] after[a], #[trigger] after[b]) by {
                    if a < p && b == p {
                    } else if a == p && b > p {
                        assert(after[b] == before[b - 1]);
                        assert(lex_le(x@, before[p as int]));
                        if b - 1 > p {
                            assert(lex_le(before[p as int], before[b - 1]));
                            lemma_lex_trans(x@, before[p as int], before[b - 1]);
                        }
                    } else if a < p && b > p {
                        assert(after[b] == before[b - 1]);
                    } else if a > p {
                        assert(after[a] == before[a - 1]);
                        assert(after[b] == before[b - 1]);
                    }
                }
            }
        }
        i = i + 1;
    }
    assert(nv.take(names.len() as int) =~= nv);
    out
}

} // verus!
