//! Rejection of XML parts that declare a DOCTYPE (entity-expansion attacks).
use vstd::prelude::*;
use crate::error::DocxError;

verus! {

pub const MAX_ENTITY_EXPANSIONS: usize = 100;

pub const MAX_XML_DEPTH: usize = 256;

/// How many leading bytes are scanned for a DOCTYPE declaration.
pub const DOCTYPE_SCAN_LIMIT: usize = 4096;

/// `b` with ASCII capitals turned into lower case.
pub open spec fn ascii_lower(b: u8) -> u8 {
    if 65 <= b && b <= 90 { (b + 32) as u8 } else { b }
}

/// The bytes of `<!doctype` in lower case.
pub open spec fn doctype_pattern() -> Seq<u8> {
    seq![60u8, 33u8, 100u8, 111u8, 99u8, 116u8, 121u8, 112u8, 101u8]
}

/// `<!DOCTYPE`, compared ignoring ASCII case, starts at offset `i`.
pub open spec fn doctype_at(bytes: Seq<u8>, i: int) -> bool {
    &&& 0 <= i && i + 9 <= bytes.len()
    &&& forall|k: int| 0 <= k < 9 ==> #[trigger] ascii_lower(bytes[i + k]) == doctype_pattern()[k]
}

/// The part of the input that is scanned: its first 4096 bytes.
pub open spec fn scan_window(bytes: Seq<u8>) -> Seq<u8> {
    if bytes.len() <= DOCTYPE_SCAN_LIMIT { bytes } else { bytes.take(DOCTYPE_SCAN_LIMIT as int) }
}

pub open spec fn has_doctype(bytes: Seq<u8>) -> bool {
    exists|i: int| #[trigger] doctype_at(scan_window(bytes), i)
}

fn lower(b: u8) -> (r: u8)
    ensures
        r == ascii_lower(b),
{
    if 65 <= b && b <= 90 { b + 32 } else { b }
}

fn doctype_byte(k: usize) -> (b: u8)
    requires
        k < 9,
    ensures
        b == doctype_pattern()[k as int],
{
    if k == 0 { 60 } else if k == 1 { 33 } else if k == 2 { 100 } else if k == 3 { 111 }
    else if k == 4 { 99 } else if k == 5 { 116 } else if k == 6 { 121 } else if k == 7 { 112 }
    else { 101 }
}

fn matches_at(scan: &[u8], limit: usize, i: usize) -> (b: bool)
    requires
        limit <= scan@.len(),
        i + 9 <= limit,
    ensures
        b == doctype_at(scan@.take(limit as int), i as int),
{
    let mut k: usize = 0;
    while k < 9
        invariant
            k <= 9,
            i + 9 <= limit <= scan@.len(),
            forall|j: int| 0 <= j < k ==> #[trigger] ascii_lower(scan@.take(limit as int)[i + j]) == doctype_pattern()[j],
        decreases 9 - k,
    {
        if lower(scan[i + k]) != doctype_byte(k) {
            assert(scan@.take(limit as int)[i + k] == scan@[i + k]);
            return false;
        }
        assert(scan@.take(limit as int)[i + k] == scan@[i + k]);
        k = k + 1;
    }
    true
}

/// Scans the first 4096 bytes of XML content for a DOCTYPE declaration,
/// ignoring ASCII case.
pub fn contains_doctype(xml_bytes: &[u8]) -> (found: bool)
    ensures
        found == has_doctype(xml_bytes@),
{
    let limit = if xml_bytes.len() < DOCTYPE_SCAN_LIMIT { xml_bytes.len() } else { DOCTYPE_SCAN_LIMIT };
    let ghost window = xml_bytes@.take(limit as int);
    assert(window == scan_window(xml_bytes@));
    if limit < 9 {
        assert forall|i: int| !doctype_at(window, i) by {}
        return false;
    }
    let mut i: usize = 0;
    while i <= limit - 9
        invariant
            limit <= xml_bytes@.len(),
            9 <= limit,
            window == xml_bytes@.take(limit as int),
            window == scan_window(xml_bytes@),
            i <= limit - 8,
            forall|j: int| 0 <= j < i ==> !doctype_at(window, j),
        decreases limit - i,
    {
        if matches_at(xml_bytes, limit, i) {
            assert(doctype_at(window, i as int));
            return true;
        }
        i = i + 1;
    }
    assert forall|j: int| !doctype_at(window, j) by {
        if 0 <= j < i {
        }
    }
    false
}

/// The reason given when a part declares a DOCTYPE.
pub open spec fn doctype_reason() -> Seq<char> {
    "DOCTYPE declaration detected — rejected for security"@
}

/// Returns an error if the XML bytes contain a DOCTYPE declaration.
pub fn reject_if_doctype(xml_bytes: &[u8], part_name: &str) -> (r: Result<(), DocxError>)
    ensures
        r is Err <==> has_doctype(xml_bytes@),
        r matches Err(e) ==> (e matches DocxError::XmlParse { part, reason } && part@ == part_name@
            && reason@ == doctype_reason()),
{
    if contains_doctype(xml_bytes) {
        return Err(DocxError::XmlParse {
            part: part_name.to_string(),
            reason: "DOCTYPE declaration detected — rejected for security".to_string(),
        });
    }
    Ok(())
}

} // verus!
