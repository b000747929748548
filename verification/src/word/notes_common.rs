//! The grammar shared by `word/footnotes.xml` and `word/endnotes.xml`.
use std::collections::HashMap;
use vstd::prelude::*;
use crate::error::DocxError;
use crate::text::{parse_i64_as_u32, parse_i64_u32, str_eq};
use crate::word::styles_xml::xml_error;
use crate::xml::entity_guard::{doctype_reason, has_doctype};
use crate::xml::reader::{TokView, XmlTok, part_toks, read_part, sattrs_view, toks_view};

verus! {

broadcast use vstd::std_specs::hash::group_hash_axioms;

/// The state of reading a notes part.
pub struct NotesSt {
    pub notes: Map<u32, Seq<char>>,
    pub in_note: bool,
    pub in_text: bool,
    pub id: Option<u32>,
    pub skip: bool,
    pub text: Seq<char>,
}

/// The id and separator flag of a note tag's attributes, read in order:
/// `w:id` as an integer that fits a `u32`, and any `w:type` marks the
/// note as a separator to skip.
pub open spec fn note_attrs(id: Option<u32>, skip: bool, attrs: Seq<Option<(Seq<char>, Seq<char>)>>) -> (Option<u32>, bool)
    decreases attrs.len(),
{
    if attrs.len() == 0 {
        (id, skip)
    } else {
        let (i, k) = note_attrs(id, skip, attrs.drop_last());
        match attrs.last() {
            Some((key, v)) => if key == "w:id"@ {
                (parse_i64_as_u32(v), k)
            } else if key == "w:type"@ {
                (i, true)
            } else {
                (i, k)
            },
            None => (i, k),
        }
    }
}

pub open spec fn notes_step(st: NotesSt, tag: Seq<char>, tok: TokView) -> NotesSt {
    match tok {
        TokView::Start { name, attrs } => if name == tag {
            let (id, skip) = note_attrs(None, false, attrs);
            NotesSt { in_note: true, id, skip, text: Seq::empty(), ..st }
        } else if name == "w:t"@ && st.in_note && !st.skip {
            NotesSt { in_text: true, ..st }
        } else {
            st
        },
        TokView::Empty { name, attrs } => if name == tag {
            match note_attrs(None, false, attrs) {
                (Some(id), false) => NotesSt { notes: st.notes.insert(id, Seq::empty()), ..st },
                _ => st,
            }
        } else {
            st
        },
        TokView::Text { text } => if st.in_text { NotesSt { text: st.text + text, ..st } } else { st },
        TokView::End { name } => if name == "w:t"@ {
            NotesSt { in_text: false, ..st }
        } else if name == tag && st.in_note {
            let notes = match (st.id, st.skip) {
                (Some(id), false) => st.notes.insert(id, st.text),
                _ => st.notes,
            };
            NotesSt { notes, in_note: false, id: None, skip: false, text: Seq::empty(), ..st }
        } else {
            st
        },
        _ => st,
    }
}

pub open spec fn notes_loop(t: Seq<TokView>, i: int, tag: Seq<char>, part: Seq<char>, st: NotesSt) -> Result<Map<u32, Seq<char>>, (Seq<char>, Seq<char>)>
    decreases t.len() - i,
{
    if i < 0 || i >= t.len() {
        Ok(st.notes)
    } else {
        match t[i] {
            TokView::Error { message } => Err((part, message)),
            tok => notes_loop(t, i + 1, tag, part, notes_step(st, tag, tok)),
        }
    }
}

pub open spec fn notes_start() -> NotesSt {
    NotesSt { notes: Map::empty(), in_note: false, in_text: false, id: None, skip: false, text: Seq::empty() }
}

/// What a notes part reads as: the user-authored notes by id.
pub open spec fn notes_of(bytes: Seq<u8>, part: Seq<char>, tag: Seq<char>) -> Result<Map<u32, Seq<char>>, (Seq<char>, Seq<char>)> {
    notes_of_toks(part_toks(bytes, true), part, tag)
}

/// What a token stream of a notes part reads as.
pub open spec fn notes_of_toks(t: Seq<TokView>, part: Seq<char>, tag: Seq<char>) -> Result<Map<u32, Seq<char>>, (Seq<char>, Seq<char>)> {
    notes_loop(t, 0, tag, part, notes_start())
}

pub open spec fn texts_view(m: Map<u32, String>) -> Map<u32, Seq<char>> {
    m.map_values(|s: String| s@)
}

fn read_note_attrs(attrs: &Vec<Option<(String, String)>>) -> (r: (Option<u32>, bool))
    ensures
        r == note_attrs(None, false, sattrs_view(attrs@)),
{
    let ghost a = sattrs_view(attrs@);
    let mut id: Option<u32> = None;
    let mut skip = false;
    let mut i: usize = 0;
    while i < attrs.len()
        invariant
            i <= attrs@.len(),
            a == sattrs_view(attrs@),
            (id, skip) == note_attrs(None, false, a.take(i as int)),
        decreases attrs.len() - i,
    {
        assert(a.take(i + 1).drop_last() =~= a.take(i as int));
        assert(a.take(i + 1).last() == a[i as int]);
        if let Some((k, v)) = &attrs[i] {
            if str_eq(k.as_str(), "w:id") {
                id = parse_i64_u32(v.as_str());
            } else if str_eq(k.as_str(), "w:type") {
                skip = true;
            }
        }
        i = i + 1;
    }
    assert(a.take(attrs@.len() as int) =~= a);
    (id, skip)
}

/// Parses a notes collection (footnotes or endnotes): the text of each
/// `note_tag` element by its `w:id`, concatenated from its `<w:t>` text.
/// Separator notes (those with a `w:type`) are skipped.
pub fn parse_note_collection(xml_bytes: &[u8], part_name: &str, note_tag: &str) -> (r: Result<HashMap<u32, String>, DocxError>)
    ensures
        has_doctype(xml_bytes@) ==> (r matches Err(e) && xml_error(e, part_name@, doctype_reason())),
        !has_doctype(xml_bytes@) ==> match notes_of(xml_bytes@, part_name@, note_tag@) {
            Ok(m) => r matches Ok(h) && texts_view(h@) == m,
            Err((p, msg)) => r matches Err(e) && xml_error(e, p, msg),
        },
{
    let toks = match read_part(xml_bytes, part_name, true) {
        Ok(t) => t,
        Err(e) => return Err(e),
    };
    notes_from_tokens(&toks, part_name, note_tag)
}

/// Reads the notes from the tokens of a notes part named `part_name`.
pub fn notes_from_tokens(toks: &Vec<XmlTok>, part_name: &str, note_tag: &str) -> (r: Result<HashMap<u32, String>, DocxError>)
    ensures
        match notes_of_toks(toks_view(toks@), part_name@, note_tag@) {
            Ok(m) => r matches Ok(h) && texts_view(h@) == m,
            Err((p, msg)) => r matches Err(e) && xml_error(e, p, msg),
        },
{
    let ghost t = toks_view(toks@);
    let mut map: HashMap<u32, String> = HashMap::new();
    let mut in_note = false;
    let mut in_text = false;
    let mut current_id: Option<u32> = None;
    let mut current_skip = false;
    let mut current_text = String::new();
    assert(texts_view(map@) =~= Map::<u32, Seq<char>>::empty());
    let mut i: usize = 0;
    while i < toks.len()
        invariant
            t == toks_view(toks@),
            t.len() == toks@.len(),
            i <= toks@.len(),
            notes_loop(t, i as int, note_tag@, part_name@, NotesSt {
                notes: texts_view(map@),
                in_note,
                in_text,
                id: current_id,
                skip: current_skip,
                text: current_text@,
            }) == notes_of_toks(t, part_name@, note_tag@),
        decreases toks.len() - i,
    {
        assert(t[i as int] == toks@[i as int]@);
        match &toks[i] {
            XmlTok::Start { name, attrs } => {
                if str_eq(name.as_str(), note_tag) {
                    in_note = true;
                    let (id, skip) = read_note_attrs(attrs);
                    current_id = id;
                    current_skip = skip;
                    current_text = String::new();
                } else if str_eq(name.as_str(), "w:t") && in_note && !current_skip {
                    in_text = true;
                }
            },
            XmlTok::Empty { name, attrs } => {
                if str_eq(name.as_str(), note_tag) {
                    let (id, skip) = read_note_attrs(attrs);
                    if let (Some(id), false) = (id, skip) {
                        let ghost before = map@;
                        map.insert(id, String::new());
                        assert(texts_view(map@) =~= texts_view(before).insert(id, Seq::<char>::empty()));
                    }
                }
            },
            XmlTok::Text { text } => {
                if in_text {
                    current_text.append(text.as_str());
                }
            },
            XmlTok::End { name } => {
                if str_eq(name.as_str(), "w:t") {
                    in_text = false;
                } else if str_eq(name.as_str(), note_tag) && in_note {
                    if let (Some(id), false) = (current_id, current_skip) {
                        let ghost before = map@;
                        let ghost txt = current_text@;
                        map.insert(id, current_text.clone());
                        assert(texts_view(map@) =~= texts_view(before).insert(id, txt));
                    }
                    in_note = false;
                    current_id = None;
                    current_skip = false;
                    current_text = String::new();
                }
            },
            XmlTok::Error { message } => {
                return Err(DocxError::XmlParse { part: part_name.to_owned(), reason: message.clone() });
            },
            XmlTok::Other => {},
        }
        i = i + 1;
    }
    Ok(map)
}

} // verus!
