//! `word/numbering.xml`.
use vstd::prelude::*;
use crate::error::DocxError;
use crate::numbering::defs::{AbstractNum, ConcreteNum, NumberingDefs, NumberingLevel, NumberingLevelOverride};
use crate::raw::paragraphs::{ParaPropsView, RawParagraphProperties};
use crate::raw::runs::{RawRunProperties, RunPropsView};
use crate::text::{parse_u32, parse_u8, str_eq};
use crate::word::styles_xml::{
    empty_para_props, empty_run_props, lemma_ppr_loop_next, lemma_rpr_loop_next, paragraph_properties_at,
    parse_paragraph_properties, parse_run_properties, run_properties_at, u32_of, u8_of, val_of, xml_error,
};
use crate::xml::entity_guard::{doctype_reason, has_doctype};
use crate::xml::reader::{TokView, XmlTok, first_attr_value, part_toks, read_part, sattrs_view, slast_attr, toks_view};

verus! {

/// A numbering level as a mathematical value.
pub struct LevelView {
    pub ilvl: u8,
    pub start: u32,
    pub num_fmt: Seq<char>,
    pub level_text: Seq<char>,
    pub indent_left: Option<u32>,
    pub indent_hanging: Option<u32>,
    pub run_properties: Option<RunPropsView>,
    pub paragraph_properties: Option<ParaPropsView>,
}

pub open spec fn level_view(l: NumberingLevel) -> LevelView {
    LevelView {
        ilvl: l.ilvl,
        start: l.start,
        num_fmt: l.num_fmt@,
        level_text: l.level_text@,
        indent_left: l.indent_left,
        indent_hanging: l.indent_hanging,
        run_properties: match l.run_properties { Some(p) => Some(p@), None => None },
        paragraph_properties: match l.paragraph_properties { Some(p) => Some(p@), None => None },
    }
}

pub open spec fn levels_view(s: Seq<NumberingLevel>) -> Seq<LevelView> {
    s.map_values(|l: NumberingLevel| level_view(l))
}

/// The state of reading `word/numbering.xml`.
pub struct NumSt {
    pub abstracts: Map<u32, Seq<LevelView>>,
    pub concretes: Map<u32, (u32, Seq<NumberingLevelOverride>)>,
    pub in_abstract: bool,
    pub abstract_id: Option<u32>,
    pub levels: Seq<LevelView>,
    pub in_lvl: bool,
    pub ilvl: Option<u8>,
    pub start: u32,
    pub num_fmt: Seq<char>,
    pub level_text: Seq<char>,
    pub lvl_rpr: Option<RunPropsView>,
    pub lvl_ppr: Option<ParaPropsView>,
    pub in_num: bool,
    pub num_id: Option<u32>,
    pub concrete_abstract_id: Option<u32>,
    pub overrides: Seq<NumberingLevelOverride>,
    pub in_override: bool,
    pub override_ilvl: Option<u8>,
    pub override_start: Option<u32>,
}

pub open spec fn num_start() -> NumSt {
    NumSt {
        abstracts: Map::empty(),
        concretes: Map::empty(),
        in_abstract: false,
        abstract_id: None,
        levels: Seq::empty(),
        in_lvl: false,
        ilvl: None,
        start: 1,
        num_fmt: Seq::empty(),
        level_text: Seq::empty(),
        lvl_rpr: None,
        lvl_ppr: None,
        in_num: false,
        num_id: None,
        concrete_abstract_id: None,
        overrides: Seq::empty(),
        in_override: false,
        override_ilvl: None,
        override_start: None,
    }
}

/// An id attribute read in order: every occurrence of `key` sets it (to
/// none when it does not parse), others leave it.
pub open spec fn id_attr_u32(cur: Option<u32>, key: Seq<char>, attrs: Seq<Option<(Seq<char>, Seq<char>)>>) -> Option<u32> {
    match slast_attr(attrs, key) {
        Some(v) => u32_of(v),
        None => cur,
    }
}

pub open spec fn id_attr_u8(cur: Option<u8>, key: Seq<char>, attrs: Seq<Option<(Seq<char>, Seq<char>)>>) -> Option<u8> {
    match slast_attr(attrs, key) {
        Some(v) => u8_of(v),
        None => cur,
    }
}

pub open spec fn num_start_tag(t: Seq<TokView>, i: int, st: NumSt, name: Seq<char>, attrs: Seq<Option<(Seq<char>, Seq<char>)>>) -> Result<(NumSt, int), (Seq<char>, Seq<char>)> {
    if name == "w:abstractNum"@ {
        Ok((NumSt {
            in_abstract: true,
            levels: Seq::empty(),
            abstract_id: id_attr_u32(st.abstract_id, "w:abstractNumId"@, attrs),
            ..st
        }, i + 1))
    } else if name == "w:lvl"@ && st.in_abstract {
        Ok((NumSt {
            in_lvl: true,
            start: 1,
            num_fmt: Seq::empty(),
            level_text: Seq::empty(),
            lvl_rpr: None,
            lvl_ppr: None,
            ilvl: id_attr_u8(st.ilvl, "w:ilvl"@, attrs),
            ..st
        }, i + 1))
    } else if name == "w:rPr"@ && st.in_lvl {
        match run_properties_at(t, i + 1) {
            Err(m) => Err(("rPr"@, m)),
            Ok((p, j)) => Ok((NumSt { lvl_rpr: Some(p), ..st }, j)),
        }
    } else if name == "w:pPr"@ && st.in_lvl {
        match paragraph_properties_at(t, i + 1) {
            Err(m) => Err(("pPr"@, m)),
            Ok((p, j)) => Ok((NumSt { lvl_ppr: Some(p), ..st }, j)),
        }
    } else if name == "w:num"@ {
        Ok((NumSt {
            in_num: true,
            concrete_abstract_id: None,
            overrides: Seq::empty(),
            num_id: id_attr_u32(st.num_id, "w:numId"@, attrs),
            ..st
        }, i + 1))
    } else if name == "w:lvlOverride"@ && st.in_num {
        Ok((NumSt {
            in_override: true,
            override_start: None,
            override_ilvl: id_attr_u8(st.override_ilvl, "w:ilvl"@, attrs),
            ..st
        }, i + 1))
    } else {
        Ok((st, i + 1))
    }
}

pub open spec fn num_empty_tag(st: NumSt, name: Seq<char>, attrs: Seq<Option<(Seq<char>, Seq<char>)>>) -> NumSt {
    match val_of(attrs) {
        None => st,
        Some(v) => if name == "w:start"@ && st.in_lvl {
            NumSt { start: match u32_of(v) { Some(x) => x, None => 1 }, ..st }
        } else if name == "w:numFmt"@ && st.in_lvl {
            NumSt { num_fmt: v, ..st }
        } else if name == "w:lvlText"@ && st.in_lvl {
            NumSt { level_text: v, ..st }
        } else if name == "w:abstractNumId"@ && st.in_num {
            NumSt { concrete_abstract_id: u32_of(v), ..st }
        } else if name == "w:startOverride"@ && st.in_override {
            NumSt { override_start: u32_of(v), ..st }
        } else {
            st
        },
    }
}

pub open spec fn num_end_tag(st: NumSt, name: Seq<char>) -> NumSt {
    if name == "w:lvl"@ && st.in_lvl {
        match st.ilvl {
            Some(ilvl) => NumSt {
                levels: st.levels.push(LevelView {
                    ilvl,
                    start: st.start,
                    num_fmt: st.num_fmt,
                    level_text: st.level_text,
                    indent_left: None,
                    indent_hanging: None,
                    run_properties: st.lvl_rpr,
                    paragraph_properties: st.lvl_ppr,
                }),
                ilvl: None,
                num_fmt: Seq::empty(),
                level_text: Seq::empty(),
                lvl_rpr: None,
                lvl_ppr: None,
                in_lvl: false,
                ..st
            },
            None => NumSt { in_lvl: false, ..st },
        }
    } else if name == "w:abstractNum"@ && st.in_abstract {
        match st.abstract_id {
            Some(id) => NumSt {
                abstracts: st.abstracts.insert(id, st.levels),
                abstract_id: None,
                levels: Seq::empty(),
                in_abstract: false,
                ..st
            },
            None => NumSt { in_abstract: false, ..st },
        }
    } else if name == "w:lvlOverride"@ && st.in_override {
        match st.override_ilvl {
            Some(ilvl) => NumSt {
                overrides: st.overrides.push(NumberingLevelOverride { ilvl, start_override: st.override_start }),
                override_ilvl: None,
                override_start: None,
                in_override: false,
                ..st
            },
            None => NumSt { in_override: false, ..st },
        }
    } else if name == "w:num"@ && st.in_num {
        match (st.num_id, st.concrete_abstract_id) {
            (Some(num_id), Some(aid)) => NumSt {
                concretes: st.concretes.insert(num_id, (aid, st.overrides)),
                num_id: None,
                concrete_abstract_id: None,
                overrides: Seq::empty(),
                in_num: false,
                ..st
            },
            _ => NumSt { num_id: None, concrete_abstract_id: None, in_num: false, ..st },
        }
    } else {
        st
    }
}

pub open spec fn num_step(t: Seq<TokView>, i: int, st: NumSt) -> Result<(NumSt, int), (Seq<char>, Seq<char>)>
    recommends
        0 <= i < t.len(),
{
    match t[i] {
        TokView::Start { name, attrs } => num_start_tag(t, i, st, name, attrs),
        TokView::Empty { name, attrs } => Ok((num_empty_tag(st, name, attrs), i + 1)),
        TokView::End { name } => Ok((num_end_tag(st, name), i + 1)),
        TokView::Error { message } => Err(("word/numbering.xml"@, message)),
        _ => Ok((st, i + 1)),
    }
}

pub proof fn lemma_num_step_next(t: Seq<TokView>, i: int, st: NumSt)
    requires
        0 <= i < t.len(),
    ensures
        num_step(t, i, st) matches Ok((_, j)) ==> i < j <= t.len(),
{
    lemma_rpr_loop_next(t, i + 1, 1, empty_run_props());
    lemma_ppr_loop_next(t, i + 1, 1, empty_para_props(), None);
}

pub open spec fn num_loop(t: Seq<TokView>, i: int, st: NumSt) -> Result<NumSt, (Seq<char>, Seq<char>)>
    decreases t.len() - i,
{
    if i < 0 || i >= t.len() {
        Ok(st)
    } else {
        match num_step(t, i, st) {
            Err(e) => Err(e),
            Ok((st2, j)) => {
                proof { lemma_num_step_next(t, i, st); }
                if i < j { num_loop(t, j, st2) } else { Ok(st2) }
            },
        }
    }
}

/// What `word/numbering.xml` reads as: the levels of each abstract
/// numbering and the (abstract id, level overrides) of each concrete one.
pub open spec fn numbering_of(bytes: Seq<u8>) -> Result<NumSt, (Seq<char>, Seq<char>)> {
    numbering_of_toks(part_toks(bytes, false))
}

/// What a token stream of `word/numbering.xml` reads as.
pub open spec fn numbering_of_toks(t: Seq<TokView>) -> Result<NumSt, (Seq<char>, Seq<char>)> {
    num_loop(t, 0, num_start())
}

/// `defs` holds exactly the definitions of `st`.
pub open spec fn defs_match(defs: NumberingDefs, abstracts: Map<u32, Seq<LevelView>>, concretes: Map<u32, (u32, Seq<NumberingLevelOverride>)>) -> bool {
    &&& forall|id: u32| #![trigger defs.get_abstract(id)] match defs.get_abstract(id) {
        Some(a) => abstracts.contains_key(id) && a.abstract_num_id == id && levels_view(a.levels@) == abstracts[id],
        None => !abstracts.contains_key(id),
    }
    &&& forall|id: u32| #![trigger defs.get_concrete(id)] match defs.get_concrete(id) {
        Some(c) => concretes.contains_key(id) && c.num_id == id && (c.abstract_num_id, c.level_overrides@) == concretes[id],
        None => !concretes.contains_key(id),
    }
}

struct NumReader {
    defs: NumberingDefs,
    in_abstract: bool,
    abstract_id: Option<u32>,
    levels: Vec<NumberingLevel>,
    in_lvl: bool,
    ilvl: Option<u8>,
    start: u32,
    num_fmt: String,
    level_text: String,
    lvl_rpr: Option<RawRunProperties>,
    lvl_ppr: Option<RawParagraphProperties>,
    in_num: bool,
    num_id: Option<u32>,
    concrete_abstract_id: Option<u32>,
    overrides: Vec<NumberingLevelOverride>,
    in_override: bool,
    override_ilvl: Option<u8>,
    override_start: Option<u32>,
}

impl NumReader {
    /// The state, definitions aside.
    closed spec fn matches(self, st: NumSt) -> bool {
        &&& defs_match(self.defs, st.abstracts, st.concretes)
        &&& self.in_abstract == st.in_abstract
        &&& self.abstract_id == st.abstract_id
        &&& levels_view(self.levels@) == st.levels
        &&& self.in_lvl == st.in_lvl
        &&& self.ilvl == st.ilvl
        &&& self.start == st.start
        &&& self.num_fmt@ == st.num_fmt
        &&& self.level_text@ == st.level_text
        &&& (match self.lvl_rpr { Some(p) => Some(p@), None => None }) == st.lvl_rpr
        &&& (match self.lvl_ppr { Some(p) => Some(p@), None => None }) == st.lvl_ppr
        &&& self.in_num == st.in_num
        &&& self.num_id == st.num_id
        &&& self.concrete_abstract_id == st.concrete_abstract_id
        &&& self.overrides@ == st.overrides
        &&& self.in_override == st.in_override
        &&& self.override_ilvl == st.override_ilvl
        &&& self.override_start == st.override_start
    }

    fn start_tag(&mut self, toks: &Vec<XmlTok>, i: usize, name: &str, attrs: &Vec<Option<(String, String)>>, Ghost(st): Ghost<NumSt>) -> (r: Result<(usize, Ghost<NumSt>), DocxError>)
        requires
            i < toks@.len(),
            old(self).matches(st),
        ensures
            match num_start_tag(toks_view(toks@), i as int, st, name@, sattrs_view(attrs@)) {
                Ok((st2, j)) => r matches Ok((k, g)) && k == j && g@ == st2 && final(self).matches(st2),
                Err((p, m)) => r matches Err(e) && xml_error(e, p, m),
            },
    {
        let _len = toks.len();
        if str_eq(name, "w:abstractNum") {
            self.in_abstract = true;
            self.levels = Vec::new();
            if let Some(v) = crate::xml::reader::last_attr_value(attrs, "w:abstractNumId") {
                self.abstract_id = parse_u32(v.as_str());
            }
            let ghost st2 = num_start_tag(toks_view(toks@), i as int, st, name@, sattrs_view(attrs@))->Ok_0.0;
            assert(levels_view(self.levels@) =~= Seq::<LevelView>::empty());
            Ok((i + 1, Ghost(st2)))
        } else if str_eq(name, "w:lvl") && self.in_abstract {
            self.in_lvl = true;
            self.start = 1;
            self.num_fmt = String::new();
            self.level_text = String::new();
            self.lvl_rpr = None;
            self.lvl_ppr = None;
            if let Some(v) = crate::xml::reader::last_attr_value(attrs, "w:ilvl") {
                self.ilvl = parse_u8(v.as_str());
            }
            let ghost st2 = num_start_tag(toks_view(toks@), i as int, st, name@, sattrs_view(attrs@))->Ok_0.0;
            Ok((i + 1, Ghost(st2)))
        } else if str_eq(name, "w:rPr") && self.in_lvl {
            match parse_run_properties(toks, i + 1) {
                Err(e) => Err(e),
                Ok((p, j)) => {
                    self.lvl_rpr = Some(p);
                    let ghost st2 = num_start_tag(toks_view(toks@), i as int, st, name@, sattrs_view(attrs@))->Ok_0.0;
                    Ok((j, Ghost(st2)))
                },
            }
        } else if str_eq(name, "w:pPr") && self.in_lvl {
            match parse_paragraph_properties(toks, i + 1) {
                Err(e) => Err(e),
                Ok((p, j)) => {
                    self.lvl_ppr = Some(p);
                    let ghost st2 = num_start_tag(toks_view(toks@), i as int, st, name@, sattrs_view(attrs@))->Ok_0.0;
                    Ok((j, Ghost(st2)))
                },
            }
        } else if str_eq(name, "w:num") {
            self.in_num = true;
            self.concrete_abstract_id = None;
            self.overrides = Vec::new();
            if let Some(v) = crate::xml::reader::last_attr_value(attrs, "w:numId") {
                self.num_id = parse_u32(v.as_str());
            }
            let ghost st2 = num_start_tag(toks_view(toks@), i as int, st, name@, sattrs_view(attrs@))->Ok_0.0;
            assert(self.overrides@ =~= Seq::<NumberingLevelOverride>::empty());
            Ok((i + 1, Ghost(st2)))
        } else if str_eq(name, "w:lvlOverride") && self.in_num {
            self.in_override = true;
            self.override_start = None;
            if let Some(v) = crate::xml::reader::last_attr_value(attrs, "w:ilvl") {
                self.override_ilvl = parse_u8(v.as_str());
            }
            let ghost st2 = num_start_tag(toks_view(toks@), i as int, st, name@, sattrs_view(attrs@))->Ok_0.0;
            Ok((i + 1, Ghost(st2)))
        } else {
            Ok((i + 1, Ghost(st)))
        }
    }

    fn empty_tag(&mut self, name: &str, attrs: &Vec<Option<(String, String)>>, Ghost(st): Ghost<NumSt>)
        requires
            old(self).matches(st),
        ensures
            final(self).matches(num_empty_tag(st, name@, sattrs_view(attrs@))),
    {
        if let Some(v) = first_attr_value(attrs, "w:val") {
            if str_eq(name, "w:start") && self.in_lvl {
                self.start = match parse_u32(v.as_str()) {
                    Some(x) => x,
                    None => 1,
                };
            } else if str_eq(name, "w:numFmt") && self.in_lvl {
                self.num_fmt = v;
            } else if str_eq(name, "w:lvlText") && self.in_lvl {
                self.level_text = v;
            } else if str_eq(name, "w:abstractNumId") && self.in_num {
                self.concrete_abstract_id = parse_u32(v.as_str());
            } else if str_eq(name, "w:startOverride") && self.in_override {
                self.override_start = parse_u32(v.as_str());
            }
        }
    }

    fn end_tag(&mut self, name: &str, Ghost(st): Ghost<NumSt>)
        requires
            old(self).matches(st),
        ensures
            final(self).matches(num_end_tag(st, name@)),
    {
        if str_eq(name, "w:lvl") && self.in_lvl {
            if let Some(ilvl) = self.ilvl.take() {
                let mut num_fmt = String::new();
                std::mem::swap(&mut num_fmt, &mut self.num_fmt);
                let mut level_text = String::new();
                std::mem::swap(&mut level_text, &mut self.level_text);
                let level = NumberingLevel {
                    ilvl,
                    start: self.start,
                    num_fmt,
                    level_text,
                    indent_left: None,
                    indent_hanging: None,
                    run_properties: self.lvl_rpr.take(),
                    paragraph_properties: self.lvl_ppr.take(),
                };
                let ghost before = self.levels@;
                self.levels.push(level);
                assert(levels_view(self.levels@) =~= levels_view(before).push(level_view(level)));
            }
            self.in_lvl = false;
        } else if str_eq(name, "w:abstractNum") && self.in_abstract {
            if let Some(id) = self.abstract_id.take() {
                let mut levels: Vec<NumberingLevel> = Vec::new();
                std::mem::swap(&mut levels, &mut self.levels);
                let an = AbstractNum { abstract_num_id: id, levels };
                self.defs.insert_abstract(an);
                assert(levels_view(self.levels@) =~= Seq::<LevelView>::empty());
            }
            self.in_abstract = false;
        } else if str_eq(name, "w:lvlOverride") && self.in_override {
            if let Some(ilvl) = self.override_ilvl.take() {
                let o = NumberingLevelOverride { ilvl, start_override: self.override_start.take() };
                self.overrides.push(o);
            }
            self.in_override = false;
        } else if str_eq(name, "w:num") && self.in_num {
            let num_id = self.num_id.take();
            let aid = self.concrete_abstract_id.take();
            if let (Some(num_id), Some(abstract_num_id)) = (num_id, aid) {
                let mut level_overrides: Vec<NumberingLevelOverride> = Vec::new();
                std::mem::swap(&mut level_overrides, &mut self.overrides);
                let cn = ConcreteNum { num_id, abstract_num_id, level_overrides };
                self.defs.insert_concrete(cn);
                assert(self.overrides@ =~= Seq::<NumberingLevelOverride>::empty());
            }
            self.in_num = false;
        }
    }
}

/// Parses `word/numbering.xml` into numbering definitions: each
/// `<w:abstractNum>` with an id and its `<w:lvl>` levels, and each
/// `<w:num>` with an id and an abstract id, with its level overrides.
pub fn parse_numbering_xml(xml_bytes: &[u8]) -> (r: Result<NumberingDefs, DocxError>)
    ensures
        has_doctype(xml_bytes@) ==> (r matches Err(e) && xml_error(e, "word/numbering.xml"@, doctype_reason())),
        !has_doctype(xml_bytes@) ==> match numbering_of(xml_bytes@) {
            Ok(st) => r matches Ok(d) && defs_match(d, st.abstracts, st.concretes),
            Err((p, m)) => r matches Err(e) && xml_error(e, p, m),
        },
{
    let toks = match read_part(xml_bytes, "word/numbering.xml", false) {
        Ok(t) => t,
        Err(e) => return Err(e),
    };
    numbering_from_tokens(&toks)
}

/// Reads numbering definitions from the tokens of `word/numbering.xml`.
pub fn numbering_from_tokens(toks: &Vec<XmlTok>) -> (r: Result<NumberingDefs, DocxError>)
    ensures
        match numbering_of_toks(toks_view(toks@)) {
            Ok(st) => r matches Ok(d) && defs_match(d, st.abstracts, st.concretes),
            Err((p, m)) => r matches Err(e) && xml_error(e, p, m),
        },
{
    let ghost t = toks_view(toks@);
    let mut rd = NumReader {
        defs: NumberingDefs::new(),
        in_abstract: false,
        abstract_id: None,
        levels: Vec::new(),
        in_lvl: false,
        ilvl: None,
        start: 1,
        num_fmt: String::new(),
        level_text: String::new(),
        lvl_rpr: None,
        lvl_ppr: None,
        in_num: false,
        num_id: None,
        concrete_abstract_id: None,
        overrides: Vec::new(),
        in_override: false,
        override_ilvl: None,
        override_start: None,
    };
    assert(levels_view(rd.levels@) =~= Seq::<LevelView>::empty());
    assert(rd.overrides@ =~= Seq::<NumberingLevelOverride>::empty());
    let ghost mut st = num_start();
    let mut i: usize = 0;
    while i < toks.len()
        invariant
            t == toks_view(toks@),
            t.len() == toks@.len(),
            i <= toks@.len(),
            rd.matches(st),
            num_loop(t, i as int, st) == numbering_of_toks(t),
        decreases toks.len() - i,
    {
        proof {
            lemma_num_step_next(t, i as int, st);
        }
        assert(t[i as int] == toks@[i as int]@);
        match &toks[i] {
            XmlTok::Start { name, attrs } => {
                match rd.start_tag(toks, i, name.as_str(), attrs, Ghost(st)) {
                    Ok((j, g)) => {
                        proof { st = g@; }
                        i = j;
                    },
                    Err(e) => return Err(e),
                }
            },
            XmlTok::Empty { name, attrs } => {
                rd.empty_tag(name.as_str(), attrs, Ghost(st));
                proof { st = num_empty_tag(st, name@, sattrs_view(attrs@)); }
                i = i + 1;
            },
            XmlTok::End { name } => {
                rd.end_tag(name.as_str(), Ghost(st));
                proof { st = num_end_tag(st, name@); }
                i = i + 1;
            },
            XmlTok::Error { message } => {
                return Err(DocxError::XmlParse { part: "word/numbering.xml".to_owned(), reason: message.clone() });
            },
            _ => {
                i = i + 1;
            },
        }
    }
    Ok(rd.defs)
}

} // verus!
