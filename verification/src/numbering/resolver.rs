use vstd::prelude::*;
use crate::error::DocxError;
use crate::numbering::defs::NumberingDefs;
use crate::text::str_eq;

verus! {

/// The marker style of a list level, from `<w:numFmt>`. `NoMarker` is the
/// `none` format.
#[derive(Debug, PartialEq, Eq)]
pub enum ListType {
    Bullet,
    Decimal,
    LowerRoman,
    UpperRoman,
    LowerLetter,
    UpperLetter,
    NoMarker,
    Other(String),
}

impl Clone for ListType {
    fn clone(&self) -> (r: Self)
        ensures
            r == *self,
    {
        match self {
            ListType::Bullet => ListType::Bullet,
            ListType::Decimal => ListType::Decimal,
            ListType::LowerRoman => ListType::LowerRoman,
            ListType::UpperRoman => ListType::UpperRoman,
            ListType::LowerLetter => ListType::LowerLetter,
            ListType::UpperLetter => ListType::UpperLetter,
            ListType::NoMarker => ListType::NoMarker,
            ListType::Other(s) => ListType::Other(s.clone()),
        }
    }
}

/// The list type a `<w:numFmt>` value names.
pub open spec fn list_type_of(num_fmt: Seq<char>) -> ListType {
    if num_fmt == "decimal"@ {
        ListType::Decimal
    } else if num_fmt == "bullet"@ {
        ListType::Bullet
    } else if num_fmt == "lowerRoman"@ {
        ListType::LowerRoman
    } else if num_fmt == "none"@ {
        ListType::NoMarker
    } else {
        ListType::Other(arbitrary())
    }
}

/// `t` is the list type for `num_fmt` (an `Other` carries the format text).
pub open spec fn is_list_type_of(t: ListType, num_fmt: Seq<char>) -> bool {
    match list_type_of(num_fmt) {
        ListType::Other(_) => t matches ListType::Other(s) && s@ == num_fmt,
        k => t == k,
    }
}

impl ListType {
    pub fn from_num_fmt(num_fmt: &str) -> (t: ListType)
        ensures
            is_list_type_of(t, num_fmt@),
    {
        if str_eq(num_fmt, "decimal") {
            ListType::Decimal
        } else if str_eq(num_fmt, "bullet") {
            ListType::Bullet
        } else if str_eq(num_fmt, "lowerRoman") {
            ListType::LowerRoman
        } else if str_eq(num_fmt, "none") {
            ListType::NoMarker
        } else {
            ListType::Other(num_fmt.to_string())
        }
    }
}

/// What `NumberingResolver::advance` reports for one list paragraph.
#[derive(Debug, Clone, PartialEq, Eq)]
pub struct ListItemInfo {
    pub num_id: u32,
    pub ilvl: u8,
    pub list_type: ListType,
    pub display_index: Option<u32>,
    pub level_text: String,
}

/// A running counter for one `(num_id, ilvl)` pair.
#[derive(Debug, Clone, Copy, PartialEq, Eq)]
pub struct ListCounter {
    pub num_id: u32,
    pub ilvl: u8,
    pub value: u32,
}

/// The value of the counter for `(num_id, ilvl)` among `cs`, if any.
pub open spec fn counter_in(cs: Seq<ListCounter>, num_id: u32, ilvl: u8) -> Option<u32>
    decreases cs.len(),
{
    if cs.len() == 0 {
        None
    } else if cs.last().num_id == num_id && cs.last().ilvl == ilvl {
        Some(cs.last().value)
    } else {
        counter_in(cs.drop_last(), num_id, ilvl)
    }
}

/// Numbers list paragraphs in document order: every `(num_id, ilvl)` keeps
/// its own counter, and advancing a level clears the deeper levels of the
/// same `num_id`.
pub struct NumberingResolver<'a> {
    defs: &'a NumberingDefs,
    counters: Vec<ListCounter>,
}

/// The index that the next item at a level receives: one past the current
/// counter (wrapping at `u32::MAX`), or the level's `start` when the level
/// has no counter yet.
pub open spec fn next_index(current: Option<u32>, start: u32) -> int {
    match current {
        Some(c) => if c == u32::MAX { 0 } else { c + 1 },
        None => start as int,
    }
}

/// The counters after one `advance(num_id, ilvl)` from counters `c`: a
/// reference that does not resolve changes nothing; otherwise the level
/// takes its next index and the deeper levels of the same list are cleared.
pub open spec fn advance_counters(
    defs: NumberingDefs,
    c: spec_fn(u32, u8) -> Option<u32>,
    num_id: u32,
    ilvl: u8,
) -> spec_fn(u32, u8) -> Option<u32> {
    match defs.resolves_to(num_id, ilvl) {
        Err(_) => c,
        Ok(level) => |n: u32, l: u8|
            if n == num_id && l == ilvl {
                Some(next_index(c(num_id, ilvl), level.start) as u32)
            } else if n == num_id && l > ilvl {
                None
            } else {
                c(n, l)
            },
    }
}

/// The counters of a fresh resolver after `calls`, advanced in order.
pub open spec fn counters_after(defs: NumberingDefs, calls: Seq<(u32, u8)>) -> spec_fn(u32, u8) -> Option<u32>
    decreases calls.len(),
{
    if calls.len() == 0 {
        |n: u32, l: u8| None::<u32>
    } else {
        advance_counters(defs, counters_after(defs, calls.drop_last()), calls.last().0, calls.last().1)
    }
}

/// How many items `calls` numbered at `(n, l)` since the last item at a
/// shallower level of list `n` (or since the start); calls that do not
/// resolve count for nothing.
pub open spec fn items_since_reset(defs: NumberingDefs, calls: Seq<(u32, u8)>, n: u32, l: u8) -> nat
    decreases calls.len(),
{
    if calls.len() == 0 {
        0
    } else {
        let (cn, cl) = calls.last();
        let prev = items_since_reset(defs, calls.drop_last(), n, l);
        if defs.resolves_to(cn, cl) is Err {
            prev
        } else if cn == n && cl == l {
            prev + 1
        } else if cn == n && cl < l {
            0
        } else {
            prev
        }
    }
}

/// The counter of `(n, l)` after a sequence of advances is unset when no
/// item was numbered there since the last item at a shallower level of
/// the same list, and otherwise the level's start plus the number of
/// items since then, less one (wrapping at `u32::MAX`). Advances of other
/// lists never matter.
pub proof fn law_counter_history(defs: NumberingDefs, calls: Seq<(u32, u8)>, n: u32, l: u8)
    ensures
        counters_after(defs, calls)(n, l) == (if items_since_reset(defs, calls, n, l) == 0 {
            None::<u32>
        } else {
            match defs.resolves_to(n, l) {
                Ok(level) => Some(((level.start + items_since_reset(defs, calls, n, l) - 1) % 0x1_0000_0000) as u32),
                Err(_) => None::<u32>,
            }
        }),
    decreases calls.len(),
{
    if calls.len() > 0 {
        let prev = calls.drop_last();
        law_counter_history(defs, prev, n, l);
        let (cn, cl) = calls.last();
        if defs.resolves_to(cn, cl) is Ok && cn == n && cl == l {
            let level = defs.resolves_to(n, l)->Ok_0;
            let k = items_since_reset(defs, prev, n, l);
            if k > 0 {
                let x: int = level.start + k - 1;
                assert(x >= 0);
                assert(x % 0x1_0000_0000 == 0xffff_ffff ==> (x + 1) % 0x1_0000_0000 == 0) by (nonlinear_arith)
                    requires x >= 0;
                assert(x % 0x1_0000_0000 != 0xffff_ffff ==> (x + 1) % 0x1_0000_0000 == x % 0x1_0000_0000 + 1) by (nonlinear_arith)
                    requires x >= 0;
            } else {
                assert((level.start + 0) % 0x1_0000_0000 == level.start as int);
            }
        }
    }
}

impl<'a> NumberingResolver<'a> {
    pub closed spec fn counter(self, num_id: u32, ilvl: u8) -> Option<u32> {
        counter_in(self.counters@, num_id, ilvl)
    }

    pub closed spec fn definitions(self) -> NumberingDefs {
        *self.defs
    }

    pub fn new(defs: &'a NumberingDefs) -> (r: Self)
        ensures
            r.definitions() == *defs,
            forall|n: u32, l: u8| r.counter(n, l) is None,
    {
        NumberingResolver { defs, counters: Vec::new() }
    }

    /// Advances the counter of `(num_id, ilvl)` and reports the item's list
    /// type, index (none for bullets and `none` lists) and level text.
    pub fn advance(&mut self, num_id: u32, ilvl: u8) -> (r: Result<ListItemInfo, DocxError>)
        ensures
            final(self).definitions() == old(self).definitions(),
            forall|n: u32, l: u8| #![trigger final(self).counter(n, l)]
                final(self).counter(n, l) == advance_counters(
                    old(self).definitions(), |n: u32, l: u8| old(self).counter(n, l), num_id, ilvl)(n, l),
            match old(self).definitions().resolves_to(num_id, ilvl) {
                Err(e) => r == Err::<ListItemInfo, DocxError>(e) && final(self).counter(num_id, ilvl) == old(self).counter(num_id, ilvl)
                    && forall|n: u32, l: u8| final(self).counter(n, l) == old(self).counter(n, l),
                Ok(level) => {
                    let next = next_index(old(self).counter(num_id, ilvl), level.start);
                    &&& r matches Ok(info) && {
                        &&& info.num_id == num_id
                        &&& info.ilvl == ilvl
                        &&& is_list_type_of(info.list_type, level.num_fmt@)
                        &&& info.level_text@ == level.level_text@
                        &&& info.display_index == (if info.list_type is Bullet || info.list_type is NoMarker {
                            None::<u32>
                        } else {
                            Some(next as u32)
                        })
                    }
                    &&& final(self).counter(num_id, ilvl) == Some(next as u32)
                    &&& forall|n: u32, l: u8| #![trigger final(self).counter(n, l)]
                        !(n == num_id && l == ilvl) ==> final(self).counter(n, l) == (
                            if n == num_id && l > ilvl { None::<u32> } else { old(self).counter(n, l) })
                },
            },
    {
        let level = match self.defs.resolve(num_id, ilvl) {
            Ok(l) => l,
            Err(e) => return Err(e),
        };
        let list_type = ListType::from_num_fmt(level.num_fmt.as_str());
        let level_text = level.level_text.clone();
        let start = level.start;

        // Drop the deeper levels of this list.
        let ghost old_cs = self.counters@;
        let mut kept: Vec<ListCounter> = Vec::new();
        let mut i: usize = 0;
        while i < self.counters.len()
            invariant
                i <= self.counters@.len(),
                self.counters@ == old_cs,
                forall|n: u32, l: u8| #![trigger counter_in(kept@, n, l)]
                    counter_in(kept@, n, l) == (if n == num_id && l > ilvl { None::<u32> } else {
                        counter_in(old_cs.take(i as int), n, l) }),
            decreases self.counters.len() - i,
        {
            let c = self.counters[i];
            let ghost prev = kept@;
            let ghost ti = old_cs.take(i as int);
            let ghost ti1 = old_cs.take(i + 1 as int);
            assert(ti1.drop_last() == ti);
            assert(ti1.last() == c);
            if !(c.num_id == num_id && c.ilvl > ilvl) {
                kept.push(c);
                assert(kept@.drop_last() == prev);
                assert(kept@.last() == c);
            }
            assert forall|n: u32, l: u8| #![trigger counter_in(kept@, n, l)]
                counter_in(kept@, n, l) == (if n == num_id && l > ilvl { None::<u32> } else {
                    counter_in(ti1, n, l) }) by {
                assert(counter_in(prev, n, l) == (if n == num_id && l > ilvl { None::<u32> } else {
                    counter_in(ti, n, l) }));
            }
            i = i + 1;
        }
        assert(old_cs.take(old_cs.len() as int) == old_cs);
        // Find the current value.
        let ghost kept0 = kept@;
        assert(counter_in(kept@, num_id, ilvl) == old(self).counter(num_id, ilvl));
        let mut current: Option<u32> = None;
        let mut j = kept.len();
        assert(kept@.take(j as int) == kept@);
        while j > 0
            invariant_except_break
                current is None,
            invariant
                j <= kept@.len(),
                counter_in(kept@, num_id, ilvl) == counter_in(kept@.take(j as int), num_id, ilvl),
            ensures
                current == counter_in(kept@, num_id, ilvl),
            decreases j,
        {
            assert(kept@.take(j as int).drop_last() == kept@.take(j - 1));
            if kept[j - 1].num_id == num_id && kept[j - 1].ilvl == ilvl {
                assert(kept@.take(j as int).last() == kept@[j - 1]);
                current = Some(kept[j - 1].value);
                break;
            }
            j = j - 1;
        }
        assert(current == counter_in(kept@, num_id, ilvl));
        let next: u32 = match current {
            Some(c) => c.wrapping_add(1),
            None => start,
        };
        let ghost before = kept@;
        kept.push(ListCounter { num_id, ilvl, value: next });
        assert(kept@.drop_last() == before);
        assert forall|n: u32, l: u8| #![trigger counter_in(kept@, n, l)]
            counter_in(kept@, n, l) == (if n == num_id && l == ilvl { Some(next) } else {
                counter_in(before, n, l) }) by {
        }
        self.counters = kept;
        let display_index = match list_type {
            ListType::Bullet | ListType::NoMarker => None,
            _ => Some(next),
        };
        Ok(ListItemInfo { num_id, ilvl, list_type, display_index, level_text })
    }
}

} // verus!
