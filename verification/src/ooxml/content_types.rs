//! `[Content_Types].xml`.
use vstd::prelude::*;
use crate::error::DocxError;
use crate::text::str_eq;
use crate::xml::entity_guard::{doctype_reason, has_doctype};
use crate::xml::reader::{TokView, XmlTok, part_toks, read_part, sattrs_view, toks_view};

verus! {

pub const MAIN_DOCUMENT_CONTENT_TYPE: &'static str = "application/vnd.openxmlformats-officedocument.wordprocessingml.document.main+xml";

/// A map from text keys to text values; adding a key already present
/// replaces its value.
pub struct TextMap {
    entries: Vec<(String, String)>,
}

pub open spec fn text_map(s: Seq<(String, String)>) -> Map<Seq<char>, Seq<char>>
    decreases s.len(),
{
    if s.len() == 0 {
        Map::empty()
    } else {
        text_map(s.drop_last()).insert(s.last().0@, s.last().1@)
    }
}

pub open spec fn keys_distinct(s: Seq<(String, String)>) -> bool {
    forall|i: int, j: int| 0 <= i < j < s.len() ==> (#[trigger] s[i]).0@ != (#[trigger] s[j]).0@
}

proof fn lemma_text_map_dom(s: Seq<(String, String)>)
    ensures
        forall|k: Seq<char>| #[trigger] text_map(s).contains_key(k) <==> exists|i: int| 0 <= i < s.len() && s[i].0@ == k,
    decreases s.len(),
{
    if s.len() > 0 {
        lemma_text_map_dom(s.drop_last());
        assert forall|k: Seq<char>| #[trigger] text_map(s).contains_key(k) implies exists|i: int| 0 <= i < s.len() && s[i].0@ == k by {
            if k == s.last().0@ {
                assert(s[s.len() - 1].0@ == k);
            } else {
                assert(text_map(s) == text_map(s.drop_last()).insert(s.last().0@, s.last().1@));
                assert(text_map(s.drop_last()).contains_key(k));
                let i = choose|i: int| 0 <= i < s.drop_last().len() && s.drop_last()[i].0@ == k;
                assert(s[i].0@ == k);
            }
        }
        assert forall|k: Seq<char>| (exists|i: int| 0 <= i < s.len() && s[i].0@ == k) implies #[trigger] text_map(s).contains_key(k) by {
            let i = choose|i: int| 0 <= i < s.len() && s[i].0@ == k;
            assert(text_map(s) == text_map(s.drop_last()).insert(s.last().0@, s.last().1@));
            if i < s.len() - 1 {
                assert(s.drop_last()[i].0@ == k);
                assert(text_map(s.drop_last()).contains_key(k));
            }
        }
    }
}

proof fn lemma_text_map_at(s: Seq<(String, String)>, i: int)
    requires
        keys_distinct(s),
        0 <= i < s.len(),
    ensures
        text_map(s).contains_key(s[i].0@),
        text_map(s)[s[i].0@] == s[i].1@,
    decreases s.len(),
{
    lemma_text_map_dom(s);
    assert(s[i].0@ == s[i].0@);
    if i < s.len() - 1 {
        let p = s.drop_last();
        assert(keys_distinct(p));
        lemma_text_map_at(p, i);
        assert(s[i].0@ != s[s.len() - 1].0@);
    }
}

proof fn lemma_text_map_update(s: Seq<(String, String)>, i: int, e: (String, String))
    requires
        keys_distinct(s),
        0 <= i < s.len(),
        s[i].0@ == e.0@,
    ensures
        text_map(s.update(i, e)) =~= text_map(s).insert(e.0@, e.1@),
        keys_distinct(s.update(i, e)),
    decreases s.len(),
{
    let u = s.update(i, e);
    assert forall|a: int, b: int| 0 <= a < b < u.len() implies (#[trigger] u[a]).0@ != (#[trigger] u[b]).0@ by {
        assert(s[a].0@ != s[b].0@);
    }
    if i == s.len() - 1 {
        assert(u.drop_last() =~= s.drop_last());
    } else {
        let p = s.drop_last();
        assert(keys_distinct(p));
        lemma_text_map_update(p, i, e);
        assert(u.drop_last() =~= p.update(i, e));
        assert(u.last() == s.last());
        assert(s[i].0@ != s[s.len() - 1].0@);
    }
}

impl TextMap {
    pub closed spec fn map(self) -> Map<Seq<char>, Seq<char>> {
        text_map(self.entries@)
    }

    pub closed spec fn wf(self) -> bool {
        keys_distinct(self.entries@)
    }

    pub fn new() -> (m: Self)
        ensures
            m.wf(),
            m.map() == Map::<Seq<char>, Seq<char>>::empty(),
    {
        TextMap { entries: Vec::new() }
    }

    pub fn insert(&mut self, key: String, value: String)
        requires
            old(self).wf(),
        ensures
            final(self).wf(),
            final(self).map() == old(self).map().insert(key@, value@),
    {
        let mut i: usize = 0;
        while i < self.entries.len()
            invariant
                i <= self.entries@.len(),
                self.entries@ == old(self).entries@,
                keys_distinct(self.entries@),
                forall|j: int| 0 <= j < i ==> (#[trigger] self.entries@[j]).0@ != key@,
            decreases self.entries.len() - i,
        {
            if str_eq(self.entries[i].0.as_str(), key.as_str()) {
                proof {
                    lemma_text_map_update(self.entries@, i as int, (key, value));
                }
                self.entries.set(i, (key, value));
                return;
            }
            i = i + 1;
        }
        let ghost before = self.entries@;
        self.entries.push((key, value));
        proof {
            assert(self.entries@.drop_last() == before);
            assert forall|a: int, b: int| 0 <= a < b < self.entries@.len() implies (#[trigger] self.entries@[a]).0@ != (#[trigger] self.entries@[b]).0@ by {
                if b == self.entries@.len() - 1 {
                    assert(before[a].0@ != key@);
                }
            }
        }
    }

    pub fn get(&self, key: &str) -> (r: Option<&String>)
        requires
            self.wf(),
        ensures
            match r {
                Some(v) => self.map().contains_key(key@) && v@ == self.map()[key@],
                None => !self.map().contains_key(key@),
            },
    {
        let mut i: usize = 0;
        while i < self.entries.len()
            invariant
                i <= self.entries@.len(),
                keys_distinct(self.entries@),
                forall|j: int| 0 <= j < i ==> (#[trigger] self.entries@[j]).0@ != key@,
            decreases self.entries.len() - i,
        {
            if str_eq(self.entries[i].0.as_str(), key) {
                proof {
                    lemma_text_map_at(self.entries@, i as int);
                }
                return Some(&self.entries[i].1);
            }
            i = i + 1;
        }
        proof {
            lemma_text_map_dom(self.entries@);
        }
        None
    }

    /// A key whose value is `value`, if any.
    pub fn key_of(&self, value: &str) -> (r: Option<String>)
        requires
            self.wf(),
        ensures
            match r {
                Some(k) => self.map().contains_key(k@) && self.map()[k@] == value@,
                None => forall|k: Seq<char>| #[trigger] self.map().contains_key(k) ==> self.map()[k] != value@,
            },
    {
        let mut i: usize = 0;
        while i < self.entries.len()
            invariant
                i <= self.entries@.len(),
                keys_distinct(self.entries@),
                forall|j: int| 0 <= j < i ==> (#[trigger] self.entries@[j]).1@ != value@,
            decreases self.entries.len() - i,
        {
            if str_eq(self.entries[i].1.as_str(), value) {
                proof {
                    lemma_text_map_at(self.entries@, i as int);
                }
                return Some(self.entries[i].0.clone());
            }
            i = i + 1;
        }
        proof {
            lemma_text_map_dom(self.entries@);
            assert forall|k: Seq<char>| #[trigger] self.map().contains_key(k) implies self.map()[k] != value@ by {
                let j = choose|j: int| 0 <= j < self.entries@.len() && self.entries@[j].0@ == k;
                lemma_text_map_at(self.entries@, j);
            }
        }
        None
    }
}

/// `s` without its leading slashes.
pub open spec fn trim_slashes(s: Seq<char>) -> Seq<char>
    decreases s.len(),
{
    if s.len() > 0 && s[0] == '/' { trim_slashes(s.drop_first()) } else { s }
}

/// `str::trim_start_matches('/')`.
pub fn trim_leading_slashes(s: &str) -> (r: String)
    ensures
        r@ == trim_slashes(s@),
{
    let c = crate::text::chars_of(s);
    let mut i: usize = 0;
    assert(c@.skip(0) =~= c@);
    while i < c.len() && c[i] == '/'
        invariant
            i <= c@.len(),
            c@ == s@,
            trim_slashes(s@) == trim_slashes(c@.skip(i as int)),
        decreases c.len() - i,
    {
        assert(c@.skip(i as int).drop_first() =~= c@.skip(i + 1));
        i = i + 1;
    }
    let mut out: Vec<char> = Vec::new();
    let mut j: usize = i;
    while j < c.len()
        invariant
            i <= j <= c@.len(),
            out@ == c@.subrange(i as int, j as int),
        decreases c.len() - j,
    {
        out.push(c[j]);
        j = j + 1;
        assert(out@ =~= c@.subrange(i as int, j as int));
    }
    assert(c@.skip(i as int) =~= c@.subrange(i as int, c@.len() as int));
    crate::text::string_from_chars(out.as_slice())
}

/// The state of reading `[Content_Types].xml`: overrides by part name and
/// defaults by extension.
pub struct TypesSt {
    pub overrides: Map<Seq<char>, Seq<char>>,
    pub defaults: Map<Seq<char>, Seq<char>>,
}

/// The (key, content type) attributes of an `<Override>` or `<Default>`,
/// read in order; `key_attr` names the key attribute.
pub open spec fn type_attrs(acc: (Option<Seq<char>>, Option<Seq<char>>), key_attr: Seq<char>, strip: bool, attrs: Seq<Option<(Seq<char>, Seq<char>)>>) -> (Option<Seq<char>>, Option<Seq<char>>)
    decreases attrs.len(),
{
    if attrs.len() == 0 {
        acc
    } else {
        let (k0, ct) = type_attrs(acc, key_attr, strip, attrs.drop_last());
        match attrs.last() {
            Some((k, v)) => if k == key_attr {
                (Some(if strip { trim_slashes(v) } else { v }), ct)
            } else if k == "ContentType"@ {
                (k0, Some(v))
            } else {
                (k0, ct)
            },
            None => (k0, ct),
        }
    }
}

pub open spec fn types_step(st: TypesSt, tok: TokView) -> TypesSt {
    match tok {
        TokView::Empty { name, attrs } => if name == "Override"@ {
            match type_attrs((None, None), "PartName"@, true, attrs) {
                (Some(pn), Some(ct)) => TypesSt { overrides: st.overrides.insert(pn, ct), ..st },
                _ => st,
            }
        } else if name == "Default"@ {
            match type_attrs((None, None), "Extension"@, false, attrs) {
                (Some(ext), Some(ct)) => TypesSt { defaults: st.defaults.insert(ext, ct), ..st },
                _ => st,
            }
        } else {
            st
        },
        _ => st,
    }
}

pub open spec fn types_loop(t: Seq<TokView>, i: int, st: TypesSt) -> Result<TypesSt, Seq<char>>
    decreases t.len() - i,
{
    if i < 0 || i >= t.len() {
        Ok(st)
    } else {
        match t[i] {
            TokView::Error { message } => Err(message),
            tok => types_loop(t, i + 1, types_step(st, tok)),
        }
    }
}

/// What `[Content_Types].xml` reads as, or the reader's error message.
pub open spec fn content_types_of(bytes: Seq<u8>) -> Result<TypesSt, Seq<char>> {
    content_types_of_toks(part_toks(bytes, false))
}

/// What a token stream of `[Content_Types].xml` reads as.
pub open spec fn content_types_of_toks(t: Seq<TokView>) -> Result<TypesSt, Seq<char>> {
    types_loop(t, 0, TypesSt { overrides: Map::empty(), defaults: Map::empty() })
}

fn read_type_attrs(attrs: &Vec<Option<(String, String)>>, key_attr: &str, strip: bool) -> (r: (Option<String>, Option<String>))
    ensures
        (crate::ooxml::relationships::opt_str(r.0), crate::ooxml::relationships::opt_str(r.1))
            == type_attrs((None, None), key_attr@, strip, sattrs_view(attrs@)),
{
    let ghost a = sattrs_view(attrs@);
    let mut key: Option<String> = None;
    let mut ct: Option<String> = None;
    let mut i: usize = 0;
    while i < attrs.len()
        invariant
            i <= attrs@.len(),
            a == sattrs_view(attrs@),
            (crate::ooxml::relationships::opt_str(key), crate::ooxml::relationships::opt_str(ct))
                == type_attrs((None, None), key_attr@, strip, a.take(i as int)),
        decreases attrs.len() - i,
    {
        assert(a.take(i + 1).drop_last() =~= a.take(i as int));
        assert(a.take(i + 1).last() == a[i as int]);
        if let Some((k, v)) = &attrs[i] {
            if str_eq(k.as_str(), key_attr) {
                key = Some(if strip { trim_leading_slashes(v.as_str()) } else { v.clone() });
            } else if str_eq(k.as_str(), "ContentType") {
                ct = Some(v.clone());
            }
        }
        i = i + 1;
    }
    assert(a.take(attrs@.len() as int) =~= a);
    (key, ct)
}

/// `[Content_Types].xml`: content types of specific parts and default
/// content types by file extension.
pub struct ContentTypeMap {
    overrides: TextMap,
    defaults: TextMap,
}

impl ContentTypeMap {
    /// Content types by part name (without a leading `/`).
    pub closed spec fn overrides(self) -> Map<Seq<char>, Seq<char>> {
        self.overrides.map()
    }

    /// Content types by extension.
    pub closed spec fn defaults(self) -> Map<Seq<char>, Seq<char>> {
        self.defaults.map()
    }

    pub closed spec fn wf(self) -> bool {
        self.overrides.wf() && self.defaults.wf()
    }

    /// Parses `[Content_Types].xml`: each `<Override>` with a `PartName`
    /// and a `ContentType` (part name stripped of leading slashes) and each
    /// `<Default>` with an `Extension` and a `ContentType`.
    pub fn parse(xml_bytes: &[u8]) -> (r: Result<Self, DocxError>)
        ensures
            has_doctype(xml_bytes@) ==> (r matches Err(e) && e matches DocxError::XmlParse { part, reason }
                && part@ == "[Content_Types].xml"@ && reason@ == doctype_reason()),
            !has_doctype(xml_bytes@) ==> match content_types_of(xml_bytes@) {
                Ok(st) => r matches Ok(m) && m.wf() && m.overrides() == st.overrides && m.defaults() == st.defaults,
                Err(msg) => r matches Err(e) && e matches DocxError::InvalidContentTypes(reason) && reason@ == msg,
            },
    {
        let toks = match read_part(xml_bytes, "[Content_Types].xml", false) {
            Ok(t) => t,
            Err(e) => return Err(e),
        };
        Self::from_tokens(&toks)
    }

    /// Reads the manifest from the tokens of `[Content_Types].xml`.
    pub fn from_tokens(toks: &Vec<XmlTok>) -> (r: Result<Self, DocxError>)
        ensures
            match content_types_of_toks(toks_view(toks@)) {
                Ok(st) => r matches Ok(m) && m.wf() && m.overrides() == st.overrides && m.defaults() == st.defaults,
                Err(msg) => r matches Err(e) && e matches DocxError::InvalidContentTypes(reason) && reason@ == msg,
            },
    {
        let ghost t = toks_view(toks@);
        let mut overrides = TextMap::new();
        let mut defaults = TextMap::new();
        let mut i: usize = 0;
        while i < toks.len()
            invariant
                t == toks_view(toks@),
                t.len() == toks@.len(),
                i <= toks@.len(),
                overrides.wf(),
                defaults.wf(),
                types_loop(t, i as int, TypesSt { overrides: overrides.map(), defaults: defaults.map() })
                    == content_types_of_toks(t),
            decreases toks.len() - i,
        {
            assert(t[i as int] == toks@[i as int]@);
            match &toks[i] {
                XmlTok::Empty { name, attrs } => {
                    if str_eq(name.as_str(), "Override") {
                        let (pn, ct) = read_type_attrs(attrs, "PartName", true);
                        if let (Some(pn), Some(ct)) = (pn, ct) {
                            overrides.insert(pn, ct);
                        }
                    } else if str_eq(name.as_str(), "Default") {
                        let (ext, ct) = read_type_attrs(attrs, "Extension", false);
                        if let (Some(ext), Some(ct)) = (ext, ct) {
                            defaults.insert(ext, ct);
                        }
                    }
                },
                XmlTok::Error { message } => {
                    return Err(DocxError::InvalidContentTypes(message.clone()));
                },
                _ => {},
            }
            i = i + 1;
        }
        Ok(ContentTypeMap { overrides, defaults })
    }

    /// Whether the manifest overrides the content type of `part_name`
    /// (leading slashes ignored).
    pub fn has_part(&self, part_name: &str) -> (b: bool)
        requires
            self.wf(),
        ensures
            b == self.overrides().contains_key(trim_slashes(part_name@)),
    {
        let normalized = trim_leading_slashes(part_name);
        self.overrides.get(normalized.as_str()).is_some()
    }

    /// A part whose content type is `ct`.
    pub fn find_part_by_content_type(&self, ct: &str) -> (r: Option<String>)
        requires
            self.wf(),
        ensures
            match r {
                Some(k) => self.overrides().contains_key(k@) && self.overrides()[k@] == ct@,
                None => forall|k: Seq<char>| #[trigger] self.overrides().contains_key(k) ==> self.overrides()[k] != ct@,
            },
    {
        self.overrides.key_of(ct)
    }

    /// The main document part (`word/document.xml` as a rule).
    pub fn main_document_part(&self) -> (r: Option<String>)
        requires
            self.wf(),
        ensures
            match r {
                Some(k) => self.overrides().contains_key(k@) && self.overrides()[k@] == MAIN_DOCUMENT_CONTENT_TYPE@,
                None => forall|k: Seq<char>| #[trigger] self.overrides().contains_key(k) ==> self.overrides()[k] != MAIN_DOCUMENT_CONTENT_TYPE@,
            },
    {
        self.find_part_by_content_type(MAIN_DOCUMENT_CONTENT_TYPE)
    }

    /// The default content type of an extension.
    pub fn default_for_extension(&self, ext: &str) -> (r: Option<&str>)
        requires
            self.wf(),
        ensures
            match r {
                Some(v) => self.defaults().contains_key(ext@) && v@ == self.defaults()[ext@],
                None => !self.defaults().contains_key(ext@),
            },
    {
        match self.defaults.get(ext) {
            Some(v) => Some(v.as_str()),
            None => None,
        }
    }
}

} // verus!
