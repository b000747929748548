//! The XML events of a part, as read by quick-xml, and the helpers the
//! parsers use on them.
use vstd::prelude::*;
use quick_xml::events::Event::{Empty, End, Eof, Start, Text};
use crate::error::DocxError;
use crate::text::str_eq;
use crate::xml::entity_guard::{doctype_reason, has_doctype, reject_if_doctype};

verus! {

#[verifier::external_type_specification]
#[verifier::external_body]
#[verifier::reject_recursive_types(R)]
pub struct ExXmlReader<R>(quick_xml::Reader<R>);

/// One read of the XML reader: a start or empty tag, an end tag, text, the
/// end of input, an error, or anything else (declarations, comments, CDATA,
/// processing instructions). A tag keeps its raw content (name, then
/// attributes), the name's length and the attributes quick-xml reads from
/// it (`None` for one it reports as malformed or duplicated); text is kept
/// raw, entities unresolved.
/// A tag is `Tag(content, name_len, attrs, empty)`.
pub enum XmlToken {
    Tag(Vec<u8>, usize, Vec<Option<(Vec<u8>, Vec<u8>)>>, bool),
    End(Vec<u8>),
    Text(Vec<u8>),
    Error(String),
    Eof,
    Other,
}

pub enum TokenView {
    Tag { content: Seq<u8>, name_len: nat, attrs: Seq<Option<(Seq<u8>, Seq<u8>)>>, empty: bool },
    End { name: Seq<u8> },
    Text { raw: Seq<u8> },
    Error { message: Seq<char> },
    Eof,
    Other,
}

pub open spec fn attrs_view(s: Seq<Option<(Vec<u8>, Vec<u8>)>>) -> Seq<Option<(Seq<u8>, Seq<u8>)>> {
    s.map_values(|a: Option<(Vec<u8>, Vec<u8>)>| match a {
        Some((k, v)) => Some((k@, v@)),
        None => None,
    })
}

impl View for XmlToken {
    type V = TokenView;

    open spec fn view(&self) -> TokenView {
        match self {
            XmlToken::Tag(content, name_len, attrs, empty) => TokenView::Tag {
                content: content@,
                name_len: *name_len as nat,
                attrs: attrs_view(attrs@),
                empty: *empty,
            },
            XmlToken::End(name) => TokenView::End { name: name@ },
            XmlToken::Text(raw) => TokenView::Text { raw: raw@ },
            XmlToken::Error(message) => TokenView::Error { message: message@ },
            XmlToken::Eof => TokenView::Eof,
            XmlToken::Other => TokenView::Other,
        }
    }
}

pub open spec fn tokens_view(s: Seq<XmlToken>) -> Seq<TokenView> {
    s.map_values(|t: XmlToken| t@)
}

/// The reads `quick_xml::Reader::read_event` makes of `bytes`, with text
/// trimmed of surrounding whitespace when `trim` is set, up to and
/// including the end of input or the first error.
pub uninterp spec fn quick_xml_reads(bytes: Seq<u8>, trim: bool) -> Seq<TokenView>;

/// The reads a reader over a byte slice has still to make, up to and
/// including the end of input or the first error.
pub uninterp spec fn pending_reads(reader: quick_xml::Reader<&[u8]>) -> Seq<TokenView>;

/// The characters of `bytes` decoded as UTF-8, each malformed sequence
/// replaced by U+FFFD.
pub uninterp spec fn utf8_lossy(bytes: Seq<u8>) -> Seq<char>;

/// The end of input or an error: the last read.
pub open spec fn is_final_read(t: TokenView) -> bool {
    t is Eof || t is Error
}

/// A sequence of reads that ends with its only final read.
pub open spec fn reads_shape(s: Seq<TokenView>) -> bool {
    &&& s.len() > 0
    &&& is_final_read(s.last())
    &&& forall|i: int| 0 <= i < s.len() - 1 ==> !is_final_read(#[trigger] s[i])
}

/// A tag's name is a prefix of its content.
pub open spec fn tag_well_formed(t: TokenView) -> bool {
    match t {
        TokenView::Tag { content, name_len, .. } => name_len <= content.len(),
        _ => true,
    }
}

pub open spec fn tags_well_formed(s: Seq<TokenView>) -> bool {
    forall|i: int| 0 <= i < s.len() ==> tag_well_formed(#[trigger] s[i])
}

/// The reads of `bytes` that the parsers see: every read up to the end of
/// input (not included) or the first error (included).
pub open spec fn quick_xml_events(bytes: Seq<u8>, trim: bool) -> Seq<TokenView> {
    let r = quick_xml_reads(bytes, trim);
    if r.len() > 0 && r.last() is Eof { r.drop_last() } else { r }
}

/// `quick_xml::Reader::from_reader` over `bytes`, with `trim_text(trim)`
/// set. The contract names the reads the reader will make and claims they
/// end with the end of input or an error, as reading a finite slice does.
#[verifier::external_body]
fn open_reader(bytes: &[u8], trim: bool) -> (r: quick_xml::Reader<&[u8]>)
    ensures
        pending_reads(r) == quick_xml_reads(bytes@, trim),
        reads_shape(pending_reads(r)),
{
    let mut reader = quick_xml::Reader::from_reader(bytes);
    reader.config_mut().trim_text(trim);
    reader
}

/// One `quick_xml::Reader::read_event`, with the event's bytes copied and
/// a tag's attributes (`BytesStart::attributes`, an error becoming `None`)
/// mapped to plain pairs. The contract claims the read is the next pending
/// one, and that a tag's name is a prefix of its content, as `BytesStart`
/// keeps it.
#[verifier::external_body]
fn next_read(reader: &mut quick_xml::Reader<&[u8]>) -> (t: XmlToken)
    requires
        pending_reads(*old(reader)).len() > 0,
    ensures
        t@ == pending_reads(*old(reader))[0],
        pending_reads(*final(reader)) == pending_reads(*old(reader)).drop_first(),
        tag_well_formed(t@),
{
    let (e, empty) = match reader.read_event() {
        Ok(Start(e)) => (e, false),
        Ok(Empty(e)) => (e, true),
        Ok(End(e)) => return XmlToken::End(e.to_vec()),
        Ok(Text(e)) => return XmlToken::Text(e.to_vec()),
        Ok(Eof) => return XmlToken::Eof,
        Ok(_) => return XmlToken::Other,
        Err(e) => return XmlToken::Error(e.to_string()),
    };
    let attrs = e.attributes().map(|a| a.ok().map(|a| (a.key.0.to_vec(), a.value.to_vec()))).collect();
    XmlToken::Tag(e.to_vec(), e.name().0.len(), attrs, empty)
}

/// `String::from_utf8_lossy`, owned. The contract claims the result is
/// the lossy decoding of the bytes.
#[verifier::external_body]
fn lossy_string(bytes: &[u8]) -> (s: String)
    ensures
        s@ == utf8_lossy(bytes@),
{
    String::from_utf8_lossy(bytes).into_owned()
}

/// The events of a part after the DOCTYPE guard; `preserve_text` keeps
/// whitespace around text.
pub fn read_tokens(bytes: &[u8], part_name: &str, preserve_text: bool) -> (r: Result<Vec<XmlToken>, DocxError>)
    ensures
        r is Err <==> has_doctype(bytes@),
        r matches Err(e) ==> (e matches DocxError::XmlParse { part, reason } && part@ == part_name@
            && reason@ == doctype_reason()),
        r matches Ok(t) ==> tokens_view(t@) == quick_xml_events(bytes@, !preserve_text)
            && tags_well_formed(tokens_view(t@)),
{
    if let Err(e) = reject_if_doctype(bytes, part_name) {
        return Err(e);
    }
    let ghost reads = quick_xml_reads(bytes@, !preserve_text);
    let mut reader = open_reader(bytes, !preserve_text);
    let mut out: Vec<XmlToken> = Vec::new();
    loop
        invariant_except_break
            out@.len() < reads.len(),
            pending_reads(reader) == reads.subrange(out@.len() as int, reads.len() as int),
            tokens_view(out@) == reads.take(out@.len() as int),
        invariant
            reads_shape(reads),
            reads == quick_xml_reads(bytes@, !preserve_text),
            tags_well_formed(tokens_view(out@)),
        ensures
            tokens_view(out@) == quick_xml_events(bytes@, !preserve_text),
            tags_well_formed(tokens_view(out@)),
        decreases pending_reads(reader).len(),
    {
        let ghost k = out@.len() as int;
        let t = next_read(&mut reader);
        assert(t@ == reads[k]);
        let is_eof = match t {
            XmlToken::Eof => true,
            _ => false,
        };
        let is_error = match t {
            XmlToken::Error(_) => true,
            _ => false,
        };
        if is_eof {
            assert(k == reads.len() - 1);
            assert(reads.last() is Eof);
            assert(reads.drop_last() =~= reads.take(k));
            break;
        }
        let ghost prev = out@;
        out.push(t);
        proof {
            assert(tokens_view(out@) =~= tokens_view(prev).push(t@));
            assert(reads.take(k + 1) =~= reads.take(k).push(reads[k]));
            assert(reads.subrange(k + 1, reads.len() as int) =~= reads.subrange(k, reads.len() as int).drop_first());
        }
        if is_error {
            assert(k == reads.len() - 1);
            assert(!(reads.last() is Eof));
            assert(reads.take(k + 1) =~= reads);
            break;
        }
    }
    Ok(out)
}

// ---------------------------------------------------------------------
// Decoded tokens
// ---------------------------------------------------------------------

/// A read with its names, attributes and text decoded as UTF-8 (lossily),
/// which is how the parts' parsers read them.
pub enum XmlTok {
    Start { name: String, attrs: Vec<Option<(String, String)>> },
    Empty { name: String, attrs: Vec<Option<(String, String)>> },
    End { name: String },
    Text { text: String },
    Error { message: String },
    Other,
}

pub enum TokView {
    Start { name: Seq<char>, attrs: Seq<Option<(Seq<char>, Seq<char>)>> },
    Empty { name: Seq<char>, attrs: Seq<Option<(Seq<char>, Seq<char>)>> },
    End { name: Seq<char> },
    Text { text: Seq<char> },
    Error { message: Seq<char> },
    Other,
}

pub open spec fn sattrs_view(s: Seq<Option<(String, String)>>) -> Seq<Option<(Seq<char>, Seq<char>)>> {
    s.map_values(|a: Option<(String, String)>| match a {
        Some((k, v)) => Some((k@, v@)),
        None => None,
    })
}

impl View for XmlTok {
    type V = TokView;

    open spec fn view(&self) -> TokView {
        match self {
            XmlTok::Start { name, attrs } => TokView::Start { name: name@, attrs: sattrs_view(attrs@) },
            XmlTok::Empty { name, attrs } => TokView::Empty { name: name@, attrs: sattrs_view(attrs@) },
            XmlTok::End { name } => TokView::End { name: name@ },
            XmlTok::Text { text } => TokView::Text { text: text@ },
            XmlTok::Error { message } => TokView::Error { message: message@ },
            XmlTok::Other => TokView::Other,
        }
    }
}

pub open spec fn toks_view(s: Seq<XmlTok>) -> Seq<TokView> {
    s.map_values(|t: XmlTok| t@)
}

pub open spec fn decode_attrs(a: Seq<Option<(Seq<u8>, Seq<u8>)>>) -> Seq<Option<(Seq<char>, Seq<char>)>> {
    a.map_values(|x: Option<(Seq<u8>, Seq<u8>)>| match x {
        Some((k, v)) => Some((utf8_lossy(k), utf8_lossy(v))),
        None => None,
    })
}

pub open spec fn decode_token(t: TokenView) -> TokView {
    match t {
        TokenView::Tag { content, name_len, attrs, empty } => if empty {
            TokView::Empty { name: utf8_lossy(content.take(name_len as int)), attrs: decode_attrs(attrs) }
        } else {
            TokView::Start { name: utf8_lossy(content.take(name_len as int)), attrs: decode_attrs(attrs) }
        },
        TokenView::End { name } => TokView::End { name: utf8_lossy(name) },
        TokenView::Text { raw } => TokView::Text { text: utf8_lossy(raw) },
        TokenView::Error { message } => TokView::Error { message },
        TokenView::Eof | TokenView::Other => TokView::Other,
    }
}

/// The decoded reads of a part.
pub open spec fn part_toks(bytes: Seq<u8>, preserve_text: bool) -> Seq<TokView> {
    quick_xml_events(bytes, !preserve_text).map_values(|t: TokenView| decode_token(t))
}

fn prefix_of(v: &Vec<u8>, n: usize) -> (r: Vec<u8>)
    requires
        n <= v@.len(),
    ensures
        r@ == v@.take(n as int),
{
    let mut r: Vec<u8> = Vec::new();
    let mut i: usize = 0;
    while i < n
        invariant
            n <= v@.len(),
            i <= n,
            r@ == v@.take(i as int),
        decreases n - i,
    {
        r.push(v[i]);
        i = i + 1;
        assert(r@ =~= v@.take(i as int));
    }
    r
}

fn decode_attr_list(a: &Vec<Option<(Vec<u8>, Vec<u8>)>>) -> (r: Vec<Option<(String, String)>>)
    ensures
        sattrs_view(r@) == decode_attrs(attrs_view(a@)),
{
    let mut r: Vec<Option<(String, String)>> = Vec::new();
    let mut i: usize = 0;
    while i < a.len()
        invariant
            i <= a@.len(),
            r@.len() == i,
            sattrs_view(r@) == decode_attrs(attrs_view(a@)).take(i as int),
        decreases a.len() - i,
    {
        let x = match &a[i] {
            Some((k, v)) => Some((lossy_string(k.as_slice()), lossy_string(v.as_slice()))),
            None => None,
        };
        let ghost prev = r@;
        r.push(x);
        i = i + 1;
        proof {
            let av = attrs_view(a@);
            assert(av[i - 1] == match a@[i - 1] { Some((k, v)) => Some((k@, v@)), None => None::<(Seq<u8>, Seq<u8>)> });
            assert(sattrs_view(r@)[i - 1] == match r@[i - 1] { Some((k, v)) => Some((k@, v@)), None => None::<(Seq<char>, Seq<char>)> });
            assert forall|k: int| 0 <= k < i implies #[trigger] sattrs_view(r@)[k] == decode_attrs(av).take(i as int)[k] by {
                if k < i - 1 {
                    assert(r@[k] == prev[k]);
                    assert(sattrs_view(prev)[k] == decode_attrs(av).take(i - 1)[k]);
                }
            }
            assert(sattrs_view(r@) =~= decode_attrs(attrs_view(a@)).take(i as int));
        }
    }
    assert(decode_attrs(attrs_view(a@)).take(a@.len() as int) =~= decode_attrs(attrs_view(a@)));
    r
}

fn decode_one(t: &XmlToken) -> (r: XmlTok)
    requires
        tag_well_formed(t@),
    ensures
        r@ == decode_token(t@),
{
    match t {
        XmlToken::Tag(content, name_len, attrs, empty) => {
            let n = prefix_of(content, *name_len);
            let name = lossy_string(n.as_slice());
            let decoded = decode_attr_list(attrs);
            if *empty {
                XmlTok::Empty { name, attrs: decoded }
            } else {
                XmlTok::Start { name, attrs: decoded }
            }
        },
        XmlToken::End(name) => XmlTok::End { name: lossy_string(name.as_slice()) },
        XmlToken::Text(raw) => XmlTok::Text { text: lossy_string(raw.as_slice()) },
        XmlToken::Error(message) => XmlTok::Error { message: message.clone() },
        XmlToken::Eof | XmlToken::Other => XmlTok::Other,
    }
}

/// The decoded reads of a part after the DOCTYPE guard.
pub fn read_part(bytes: &[u8], part_name: &str, preserve_text: bool) -> (r: Result<Vec<XmlTok>, DocxError>)
    ensures
        r is Err <==> has_doctype(bytes@),
        r matches Err(e) ==> (e matches DocxError::XmlParse { part, reason } && part@ == part_name@
            && reason@ == doctype_reason()),
        r matches Ok(t) ==> toks_view(t@) == part_toks(bytes@, preserve_text),
{
    let raw = match read_tokens(bytes, part_name, preserve_text) {
        Ok(t) => t,
        Err(e) => return Err(e),
    };
    let ghost ev = quick_xml_events(bytes@, !preserve_text);
    let mut out: Vec<XmlTok> = Vec::new();
    let mut i: usize = 0;
    while i < raw.len()
        invariant
            i <= raw@.len(),
            tokens_view(raw@) == ev,
            tags_well_formed(ev),
            out@.len() == i,
            raw@.len() == ev.len(),
            toks_view(out@) == part_toks(bytes@, preserve_text).take(i as int),
            ev == quick_xml_events(bytes@, !preserve_text),
        decreases raw.len() - i,
    {
        assert(ev[i as int] == raw@[i as int]@);
        let t = decode_one(&raw[i]);
        let ghost prev = out@;
        out.push(t);
        i = i + 1;
        proof {
            let pt = part_toks(bytes@, preserve_text);
            assert(pt[i - 1] == decode_token(ev[i - 1]));
            assert forall|k: int| 0 <= k < i implies #[trigger] toks_view(out@)[k] == pt.take(i as int)[k] by {
                if k < i - 1 {
                    assert(out@[k] == prev[k]);
                    assert(toks_view(prev)[k] == pt.take(i - 1)[k]);
                }
            }
            assert(toks_view(out@) =~= pt.take(i as int));
        }
    }
    assert(part_toks(bytes@, preserve_text).take(raw@.len() as int) =~= part_toks(bytes@, preserve_text));
    Ok(out)
}

/// The value of the first well-formed attribute named `key`.
pub open spec fn sfirst_attr(attrs: Seq<Option<(Seq<char>, Seq<char>)>>, key: Seq<char>) -> Option<Seq<char>>
    decreases attrs.len(),
{
    if attrs.len() == 0 {
        None
    } else {
        match attrs[0] {
            Some((k, v)) => if k == key { Some(v) } else { sfirst_attr(attrs.drop_first(), key) },
            None => sfirst_attr(attrs.drop_first(), key),
        }
    }
}

/// The value of the last well-formed attribute named `key`.
pub open spec fn slast_attr(attrs: Seq<Option<(Seq<char>, Seq<char>)>>, key: Seq<char>) -> Option<Seq<char>>
    decreases attrs.len(),
{
    if attrs.len() == 0 {
        None
    } else {
        match attrs.last() {
            Some((k, v)) => if k == key { Some(v) } else { slast_attr(attrs.drop_last(), key) },
            None => slast_attr(attrs.drop_last(), key),
        }
    }
}

/// The first attribute named `key`.
pub fn first_attr_value(attrs: &Vec<Option<(String, String)>>, key: &str) -> (r: Option<String>)
    ensures
        match r {
            Some(s) => sfirst_attr(sattrs_view(attrs@), key@) == Some(s@),
            None => sfirst_attr(sattrs_view(attrs@), key@) is None,
        },
{
    let ghost a = sattrs_view(attrs@);
    let mut i: usize = 0;
    assert(a.skip(0) =~= a);
    while i < attrs.len()
        invariant
            i <= attrs@.len(),
            a == sattrs_view(attrs@),
            sfirst_attr(a, key@) == sfirst_attr(a.skip(i as int), key@),
        decreases attrs.len() - i,
    {
        assert(a.skip(i as int).drop_first() =~= a.skip(i + 1));
        assert(a.skip(i as int)[0] == a[i as int]);
        if let Some((k, v)) = &attrs[i] {
            if str_eq(k.as_str(), key) {
                return Some(v.clone());
            }
        }
        i = i + 1;
    }
    None
}

/// The last attribute named `key`.
pub fn last_attr_value(attrs: &Vec<Option<(String, String)>>, key: &str) -> (r: Option<String>)
    ensures
        match r {
            Some(s) => slast_attr(sattrs_view(attrs@), key@) == Some(s@),
            None => slast_attr(sattrs_view(attrs@), key@) is None,
        },
{
    let ghost a = sattrs_view(attrs@);
    let mut i: usize = attrs.len();
    assert(a.take(i as int) =~= a);
    while i > 0
        invariant
            i <= attrs@.len(),
            a == sattrs_view(attrs@),
            slast_attr(a, key@) == slast_attr(a.take(i as int), key@),
        decreases i,
    {
        assert(a.take(i as int).drop_last() =~= a.take(i - 1));
        assert(a.take(i as int).last() == a[i - 1]);
        if let Some((k, v)) = &attrs[i - 1] {
            if str_eq(k.as_str(), key) {
                return Some(v.clone());
            }
        }
        i = i - 1;
    }
    None
}

} // verus!
