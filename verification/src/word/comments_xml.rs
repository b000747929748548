//! `word/comments.xml`.
use std::collections::HashMap;
use vstd::prelude::*;
use crate::error::DocxError;
use crate::text::{parse_i64_as_u32, parse_i64_u32, str_eq};
use crate::word::styles_xml::xml_error;
use crate::xml::entity_guard::{doctype_reason, has_doctype};
use crate::xml::reader::{TokView, XmlTok, part_toks, read_part, sattrs_view, toks_view};

verus! {

broadcast use vstd::std_specs::hash::group_hash_axioms;

/// The author and body text of one `<w:comment>`.
#[derive(Debug, PartialEq, Eq)]
pub struct CommentInfo {
    pub author: String,
    pub text: String,
}

impl Clone for CommentInfo {
    fn clone(&self) -> (r: Self)
        ensures
            r == *self,
    {
        CommentInfo { author: self.author.clone(), text: self.text.clone() }
    }
}

impl Default for CommentInfo {
    fn default() -> (r: Self)
        ensures
            r.author@.len() == 0,
            r.text@.len() == 0,
    {
        CommentInfo { author: String::new(), text: String::new() }
    }
}

/// Comments by `w:id`.
#[derive(Debug, Clone, Default)]
pub struct CommentMap {
    comments: HashMap<u32, CommentInfo>,
}

impl CommentMap {
    /// The comments by id.
    pub closed spec fn comments_map(self) -> Map<u32, CommentInfo> {
        self.comments@
    }

    pub fn new() -> (m: Self)
        ensures
            m.comments_map() == Map::<u32, CommentInfo>::empty(),
    {
        CommentMap { comments: HashMap::new() }
    }

    /// Sets the comment for `id`, replacing any earlier one.
    pub fn insert(&mut self, id: u32, info: CommentInfo)
        ensures
            final(self).comments_map() == old(self).comments_map().insert(id, info),
    {
        self.comments.insert(id, info);
    }

    pub fn get(&self, id: u32) -> (r: Option<&CommentInfo>)
        ensures
            match r {
                Some(c) => self.comments_map().contains_key(id) && *c == self.comments_map()[id],
                None => !self.comments_map().contains_key(id),
            },
    {
        self.comments.get(&id)
    }

    pub fn len(&self) -> (n: usize)
        ensures
            n == self.comments_map().len(),
    {
        self.comments.len()
    }

    pub fn is_empty(&self) -> (b: bool)
        ensures
            b == (self.comments_map().len() == 0),
    {
        self.comments.is_empty()
    }
}


/// The state of reading `word/comments.xml`.
pub struct CommentsSt {
    pub comments: Map<u32, (Seq<char>, Seq<char>)>,
    pub in_comment: bool,
    pub in_text: bool,
    pub id: Option<u32>,
    pub author: Seq<char>,
    pub text: Seq<char>,
}

/// The id and author of a `<w:comment>` tag's attributes, read in order.
pub open spec fn comment_attrs(id: Option<u32>, author: Seq<char>, attrs: Seq<Option<(Seq<char>, Seq<char>)>>) -> (Option<u32>, Seq<char>)
    decreases attrs.len(),
{
    if attrs.len() == 0 {
        (id, author)
    } else {
        let (i, a) = comment_attrs(id, author, attrs.drop_last());
        match attrs.last() {
            Some((k, v)) => if k == "w:id"@ {
                (parse_i64_as_u32(v), a)
            } else if k == "w:author"@ {
                (i, v)
            } else {
                (i, a)
            },
            None => (i, a),
        }
    }
}

pub open spec fn comments_step(st: CommentsSt, tok: TokView) -> CommentsSt {
    match tok {
        TokView::Start { name, attrs } => if name == "w:comment"@ {
            let (id, author) = comment_attrs(None, Seq::empty(), attrs);
            CommentsSt { in_comment: true, id, author, text: Seq::empty(), ..st }
        } else if name == "w:t"@ && st.in_comment {
            CommentsSt { in_text: true, ..st }
        } else {
            st
        },
        TokView::Text { text } => if st.in_text { CommentsSt { text: st.text + text, ..st } } else { st },
        TokView::End { name } => if name == "w:t"@ {
            CommentsSt { in_text: false, ..st }
        } else if name == "w:comment"@ && st.in_comment {
            let comments = match st.id {
                Some(id) => st.comments.insert(id, (st.author, st.text)),
                None => st.comments,
            };
            CommentsSt { comments, in_comment: false, id: None, author: Seq::empty(), text: Seq::empty(), ..st }
        } else {
            st
        },
        _ => st,
    }
}

pub open spec fn comments_loop(t: Seq<TokView>, i: int, st: CommentsSt) -> Result<Map<u32, (Seq<char>, Seq<char>)>, (Seq<char>, Seq<char>)>
    decreases t.len() - i,
{
    if i < 0 || i >= t.len() {
        Ok(st.comments)
    } else {
        match t[i] {
            TokView::Error { message } => Err(("word/comments.xml"@, message)),
            tok => comments_loop(t, i + 1, comments_step(st, tok)),
        }
    }
}

/// What `word/comments.xml` reads as: (author, text) by comment id.
pub open spec fn comments_of(bytes: Seq<u8>) -> Result<Map<u32, (Seq<char>, Seq<char>)>, (Seq<char>, Seq<char>)> {
    comments_of_toks(part_toks(bytes, true))
}

/// What a token stream of `word/comments.xml` reads as.
pub open spec fn comments_of_toks(t: Seq<TokView>) -> Result<Map<u32, (Seq<char>, Seq<char>)>, (Seq<char>, Seq<char>)> {
    comments_loop(t, 0, CommentsSt {
        comments: Map::empty(),
        in_comment: false,
        in_text: false,
        id: None,
        author: Seq::empty(),
        text: Seq::empty(),
    })
}

pub open spec fn comments_view(m: Map<u32, CommentInfo>) -> Map<u32, (Seq<char>, Seq<char>)> {
    m.map_values(|c: CommentInfo| (c.author@, c.text@))
}

fn read_comment_attrs(attrs: &Vec<Option<(String, String)>>) -> (r: (Option<u32>, String))
    ensures
        (r.0, r.1@) == comment_attrs(None, Seq::empty(), sattrs_view(attrs@)),
{
    let ghost a = sattrs_view(attrs@);
    let mut id: Option<u32> = None;
    let mut author = String::new();
    let mut i: usize = 0;
    while i < attrs.len()
        invariant
            i <= attrs@.len(),
            a == sattrs_view(attrs@),
            (id, author@) == comment_attrs(None, Seq::empty(), a.take(i as int)),
        decreases attrs.len() - i,
    {
        assert(a.take(i + 1).drop_last() =~= a.take(i as int));
        assert(a.take(i + 1).last() == a[i as int]);
        if let Some((k, v)) = &attrs[i] {
            if str_eq(k.as_str(), "w:id") {
                id = parse_i64_u32(v.as_str());
            } else if str_eq(k.as_str(), "w:author") {
                author = v.clone();
            }
        }
        i = i + 1;
    }
    assert(a.take(attrs@.len() as int) =~= a);
    (id, author)
}

/// Parses `word/comments.xml`: each `<w:comment>` with an id gives its
/// author and its `<w:t>` text, concatenated.
pub fn parse_comments_xml(xml_bytes: &[u8]) -> (r: Result<CommentMap, DocxError>)
    ensures
        has_doctype(xml_bytes@) ==> (r matches Err(e) && xml_error(e, "word/comments.xml"@, doctype_reason())),
        !has_doctype(xml_bytes@) ==> match comments_of(xml_bytes@) {
            Ok(m) => r matches Ok(c) && comments_view(c.comments_map()) == m,
            Err((p, msg)) => r matches Err(e) && xml_error(e, p, msg),
        },
{
    let toks = match read_part(xml_bytes, "word/comments.xml", true) {
        Ok(t) => t,
        Err(e) => return Err(e),
    };
    comments_from_tokens(&toks)
}

/// Reads the comments from the tokens of `word/comments.xml`.
pub fn comments_from_tokens(toks: &Vec<XmlTok>) -> (r: Result<CommentMap, DocxError>)
    ensures
        match comments_of_toks(toks_view(toks@)) {
            Ok(m) => r matches Ok(c) && comments_view(c.comments_map()) == m,
            Err((p, msg)) => r matches Err(e) && xml_error(e, p, msg),
        },
{
    let ghost t = toks_view(toks@);
    let mut map = CommentMap::new();
    let mut in_comment = false;
    let mut in_text = false;
    let mut current_id: Option<u32> = None;
    let mut current_author = String::new();
    let mut current_text = String::new();
    assert(comments_view(map.comments_map()) =~= Map::<u32, (Seq<char>, Seq<char>)>::empty());
    let mut i: usize = 0;
    while i < toks.len()
        invariant
            t == toks_view(toks@),
            t.len() == toks@.len(),
            i <= toks@.len(),
            comments_loop(t, i as int, CommentsSt {
                comments: comments_view(map.comments_map()),
                in_comment,
                in_text,
                id: current_id,
                author: current_author@,
                text: current_text@,
            }) == comments_of_toks(t),
        decreases toks.len() - i,
    {
        assert(t[i as int] == toks@[i as int]@);
        match &toks[i] {
            XmlTok::Start { name, attrs } => {
                if str_eq(name.as_str(), "w:comment") {
                    in_comment = true;
                    let (id, author) = read_comment_attrs(attrs);
                    current_id = id;
                    current_author = author;
                    current_text = String::new();
                } else if str_eq(name.as_str(), "w:t") && in_comment {
                    in_text = true;
                }
            },
            XmlTok::Text { text } => {
                if in_text {
                    current_text.append(text.as_str());
                }
            },
            XmlTok::End { name } => {
                if str_eq(name.as_str(), "w:t") {
                    in_text = false;
                } else if str_eq(name.as_str(), "w:comment") && in_comment {
                    if let Some(id) = current_id {
                        let ghost before = map.comments_map();
                        let info = CommentInfo { author: current_author.clone(), text: current_text.clone() };
                        map.insert(id, info);
                        assert(comments_view(map.comments_map()) =~= comments_view(before).insert(id, (current_author@, current_text@)));
                    }
                    in_comment = false;
                    current_id = None;
                    current_author = String::new();
                    current_text = String::new();
                }
            },
            XmlTok::Error { message } => {
                return Err(DocxError::XmlParse { part: "word/comments.xml".to_owned(), reason: message.clone() });
            },
            _ => {},
        }
        i = i + 1;
    }
    Ok(map)
}

} // verus!
