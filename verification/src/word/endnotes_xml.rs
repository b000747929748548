//! `word/endnotes.xml`.
use std::collections::HashMap;
use vstd::prelude::*;
use crate::error::DocxError;
use crate::word::notes_common::{notes_of, parse_note_collection, texts_view};
use crate::word::styles_xml::xml_error;
use crate::xml::entity_guard::{doctype_reason, has_doctype};

verus! {

broadcast use vstd::std_specs::hash::group_hash_axioms;

/// User-authored endnotes by `w:id`: the concatenated text of each.
#[derive(Debug, Clone, Default)]
pub struct EndnoteMap {
    notes: HashMap<u32, String>,
}

impl EndnoteMap {
    /// The notes by id.
    pub closed spec fn notes_map(self) -> Map<u32, String> {
        self.notes@
    }

    pub fn new() -> (m: Self)
        ensures
            m.notes_map() == Map::<u32, String>::empty(),
    {
        EndnoteMap { notes: HashMap::new() }
    }

    /// Sets the text of a note, replacing any earlier text for `id`.
    pub fn insert(&mut self, id: u32, text: String)
        ensures
            final(self).notes_map() == old(self).notes_map().insert(id, text),
    {
        self.notes.insert(id, text);
    }

    pub fn get(&self, id: u32) -> (r: Option<&str>)
        ensures
            match r {
                Some(t) => self.notes_map().contains_key(id) && t@ == self.notes_map()[id]@,
                None => !self.notes_map().contains_key(id),
            },
    {
        match self.notes.get(&id) {
            Some(s) => Some(s.as_str()),
            None => None,
        }
    }

    pub fn len(&self) -> (n: usize)
        ensures
            n == self.notes_map().len(),
    {
        self.notes.len()
    }

    pub fn is_empty(&self) -> (b: bool)
        ensures
            b == (self.notes_map().len() == 0),
    {
        self.notes.is_empty()
    }
}


/// Parses `word/endnotes.xml`: the text of each `<w:endnote>` by its `w:id`;
/// separator entries (with a `w:type`) are left out.
pub fn parse_endnotes_xml(xml_bytes: &[u8]) -> (r: Result<EndnoteMap, DocxError>)
    ensures
        has_doctype(xml_bytes@) ==> (r matches Err(e) && xml_error(e, "word/endnotes.xml"@, doctype_reason())),
        !has_doctype(xml_bytes@) ==> match notes_of(xml_bytes@, "word/endnotes.xml"@, "w:endnote"@) {
            Ok(m) => r matches Ok(f) && texts_view(f.notes_map()) == m,
            Err((p, msg)) => r matches Err(e) && xml_error(e, p, msg),
        },
{
    match parse_note_collection(xml_bytes, "word/endnotes.xml", "w:endnote") {
        Ok(notes) => Ok(EndnoteMap { notes }),
        Err(e) => Err(e),
    }
}

} // verus!
