use vstd::prelude::*;
use std::collections::HashMap;
use crate::error::DocxError;
use crate::raw::paragraphs::RawParagraphProperties;
use crate::raw::runs::RawRunProperties;

verus! {

broadcast use vstd::std_specs::hash::group_hash_axioms;

/// One `<w:lvl>` of an abstract numbering definition.
#[derive(Debug, Clone, PartialEq, Eq)]
pub struct NumberingLevel {
    pub ilvl: u8,
    pub start: u32,
    pub num_fmt: String,
    pub level_text: String,
    pub indent_left: Option<u32>,
    pub indent_hanging: Option<u32>,
    /// `<w:lvl>/<w:rPr>`: the list-level layer of run formatting.
    pub run_properties: Option<RawRunProperties>,
    /// `<w:lvl>/<w:pPr>`.
    pub paragraph_properties: Option<RawParagraphProperties>,
}

impl Default for NumberingLevel {
    fn default() -> (r: Self)
        ensures
            r.ilvl == 0,
            r.start == 0,
            r.num_fmt@.len() == 0,
            r.level_text@.len() == 0,
            r.indent_left is None,
            r.indent_hanging is None,
            r.run_properties is None,
            r.paragraph_properties is None,
    {
        NumberingLevel {
            ilvl: 0,
            start: 0,
            num_fmt: String::new(),
            level_text: String::new(),
            indent_left: None,
            indent_hanging: None,
            run_properties: None,
            paragraph_properties: None,
        }
    }
}

#[derive(Debug, Clone, PartialEq, Eq)]
pub struct AbstractNum {
    pub abstract_num_id: u32,
    pub levels: Vec<NumberingLevel>,
}

#[derive(Debug, Clone, PartialEq, Eq)]
pub struct NumberingLevelOverride {
    pub ilvl: u8,
    pub start_override: Option<u32>,
}

#[derive(Debug, Clone, PartialEq, Eq)]
pub struct ConcreteNum {
    pub num_id: u32,
    pub abstract_num_id: u32,
    pub level_overrides: Vec<NumberingLevelOverride>,
}

/// The abstract and concrete numbering definitions of a document, by id.
/// A later insertion under an id replaces an earlier one.
#[derive(Debug, Clone)]
pub struct NumberingDefs {
    abstract_nums: HashMap<u32, AbstractNum>,
    concrete_nums: HashMap<u32, ConcreteNum>,
}

/// Position of the first level of `levels` declaring `ilvl`.
pub open spec fn first_level_index(levels: Seq<NumberingLevel>, ilvl: u8) -> Option<int>
    decreases levels.len(),
{
    if levels.len() == 0 {
        None
    } else if levels[0].ilvl == ilvl {
        Some(0)
    } else {
        match first_level_index(levels.drop_first(), ilvl) {
            Some(i) => Some(i + 1),
            None => None,
        }
    }
}

proof fn lemma_first_level_index(levels: Seq<NumberingLevel>, ilvl: u8)
    ensures
        first_level_index(levels, ilvl) matches Some(i) ==> 0 <= i < levels.len()
            && levels[i].ilvl == ilvl && forall|j: int| 0 <= j < i ==> levels[j].ilvl != ilvl,
        first_level_index(levels, ilvl) is None ==> forall|j: int| 0 <= j < levels.len() ==> levels[j].ilvl != ilvl,
    decreases levels.len(),
{
    if levels.len() > 0 {
        lemma_first_level_index(levels.drop_first(), ilvl);
        assert forall|j: int| 1 <= j < levels.len() implies levels[j] == levels.drop_first()[j - 1] by {}
    }
}

impl NumberingDefs {
    /// The abstract numberings by `w:abstractNumId`.
    pub closed spec fn abstract_map(self) -> Map<u32, AbstractNum> {
        self.abstract_nums@
    }

    /// The concrete numberings by `w:numId`.
    pub closed spec fn concrete_map(self) -> Map<u32, ConcreteNum> {
        self.concrete_nums@
    }

    pub open spec fn get_abstract(self, id: u32) -> Option<AbstractNum> {
        if self.abstract_map().contains_key(id) { Some(self.abstract_map()[id]) } else { None }
    }

    pub open spec fn get_concrete(self, id: u32) -> Option<ConcreteNum> {
        if self.concrete_map().contains_key(id) { Some(self.concrete_map()[id]) } else { None }
    }

    pub open spec fn resolves_to(self, num_id: u32, ilvl: u8) -> Result<NumberingLevel, DocxError> {
        match self.get_concrete(num_id) {
            None => Err(DocxError::NumberingDefNotFound { num_id }),
            Some(c) => match self.get_abstract(c.abstract_num_id) {
                None => Err(DocxError::AbstractNumNotFound { abstract_num_id: c.abstract_num_id }),
                Some(a) => match first_level_index(a.levels@, ilvl) {
                    None => Err(DocxError::NumberingDefNotFound { num_id }),
                    Some(i) => Ok(a.levels@[i]),
                },
            },
        }
    }

    pub fn new() -> (d: Self)
        ensures
            forall|id: u32| d.get_abstract(id) is None,
            forall|id: u32| d.get_concrete(id) is None,
    {
        NumberingDefs { abstract_nums: HashMap::new(), concrete_nums: HashMap::new() }
    }

    pub fn insert_abstract(&mut self, an: AbstractNum)
        ensures
            final(self).get_abstract(an.abstract_num_id) == Some(an),
            forall|id: u32| id != an.abstract_num_id ==> final(self).get_abstract(id) == old(self).get_abstract(id),
            forall|id: u32| final(self).get_concrete(id) == old(self).get_concrete(id),
    {
        let id = an.abstract_num_id;
        self.abstract_nums.insert(id, an);
    }

    pub fn insert_concrete(&mut self, cn: ConcreteNum)
        ensures
            final(self).get_concrete(cn.num_id) == Some(cn),
            forall|id: u32| id != cn.num_id ==> final(self).get_concrete(id) == old(self).get_concrete(id),
            forall|id: u32| final(self).get_abstract(id) == old(self).get_abstract(id),
    {
        let id = cn.num_id;
        self.concrete_nums.insert(id, cn);
    }

    fn find_concrete(&self, num_id: u32) -> (r: Option<&ConcreteNum>)
        ensures
            r matches Some(c) ==> self.get_concrete(num_id) == Some(*c),
            r is None ==> self.get_concrete(num_id) is None,
    {
        self.concrete_nums.get(&num_id)
    }

    fn find_abstract(&self, id: u32) -> (r: Option<&AbstractNum>)
        ensures
            r matches Some(a) ==> self.get_abstract(id) == Some(*a),
            r is None ==> self.get_abstract(id) is None,
    {
        self.abstract_nums.get(&id)
    }

    /// Whether a concrete numbering with `num_id` is defined.
    pub fn has_num(&self, num_id: u32) -> (b: bool)
        ensures
            b == self.get_concrete(num_id) is Some,
    {
        self.find_concrete(num_id).is_some()
    }

    /// Resolves a numbering reference (numId + ilvl) to its level definition.
    pub fn resolve(&self, num_id: u32, ilvl: u8) -> (r: Result<&NumberingLevel, DocxError>)
        ensures
            match r {
                Ok(l) => self.resolves_to(num_id, ilvl) == Ok::<NumberingLevel, DocxError>(*l),
                Err(e) => self.resolves_to(num_id, ilvl) == Err::<NumberingLevel, DocxError>(e),
            },
    {
        let concrete = match self.find_concrete(num_id) {
            Some(c) => c,
            None => return Err(DocxError::NumberingDefNotFound { num_id }),
        };
        let abstract_num = match self.find_abstract(concrete.abstract_num_id) {
            Some(a) => a,
            None => return Err(DocxError::AbstractNumNotFound { abstract_num_id: concrete.abstract_num_id }),
        };
        proof {
            lemma_first_level_index(abstract_num.levels@, ilvl);
        }
        let ghost a = *abstract_num;
        assert(self.get_abstract(concrete.abstract_num_id) == Some(a));
        let mut k: usize = 0;
        while k < abstract_num.levels.len()
            invariant
                k <= abstract_num.levels@.len(),
                forall|j: int| 0 <= j < k ==> abstract_num.levels@[j].ilvl != ilvl,
                self.get_concrete(num_id) == Some(*concrete),
                self.get_abstract(concrete.abstract_num_id) == Some(*abstract_num),
            decreases abstract_num.levels.len() - k,
        {
            if abstract_num.levels[k].ilvl == ilvl {
                proof {
                    lemma_first_level_index(abstract_num.levels@, ilvl);
                }
                return Ok(&abstract_num.levels[k]);
            }
            k = k + 1;
        }
        Err(DocxError::NumberingDefNotFound { num_id })
    }
}

} // verus!
