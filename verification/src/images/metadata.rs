//! Image payloads found in `word/media/` and magic-byte sniffing of their type.
use vstd::prelude::*;

verus! {

/// Raw image bytes extracted from a DOCX's `word/media/` folder, with the
/// content type sniffed from their leading bytes.
#[derive(Debug, Clone, PartialEq, Eq)]
pub struct ImageMetadata {
    pub path: String,
    pub bytes: Vec<u8>,
    pub content_type: String,
}

/// `bytes` begins with `prefix`.
pub open spec fn has_prefix(bytes: Seq<u8>, prefix: Seq<u8>) -> bool {
    prefix.len() <= bytes.len() && bytes.take(prefix.len() as int) == prefix
}

pub open spec fn png_magic() -> Seq<u8> {
    seq![0x89u8, 0x50u8, 0x4Eu8, 0x47u8, 0x0Du8, 0x0Au8, 0x1Au8, 0x0Au8]
}

pub open spec fn jpeg_magic() -> Seq<u8> {
    seq![0xFFu8, 0xD8u8, 0xFFu8]
}

pub open spec fn gif87a_magic() -> Seq<u8> {
    seq![0x47u8, 0x49u8, 0x46u8, 0x38u8, 0x37u8, 0x61u8]
}

pub open spec fn gif89a_magic() -> Seq<u8> {
    seq![0x47u8, 0x49u8, 0x46u8, 0x38u8, 0x39u8, 0x61u8]
}

pub open spec fn bmp_magic() -> Seq<u8> {
    seq![0x42u8, 0x4Du8]
}

pub open spec fn riff_magic() -> Seq<u8> {
    seq![0x52u8, 0x49u8, 0x46u8, 0x46u8]
}

pub open spec fn webp_magic() -> Seq<u8> {
    seq![0x57u8, 0x45u8, 0x42u8, 0x50u8]
}

/// The MIME type that the leading bytes announce, checked in this order:
/// PNG, JPEG, GIF (87a or 89a), BMP, WebP (RIFF container with `WEBP` at
/// offset 8); anything else is `application/octet-stream`.
pub open spec fn sniffed_content_type(b: Seq<u8>) -> Seq<char> {
    if has_prefix(b, png_magic()) {
        "image/png"@
    } else if has_prefix(b, jpeg_magic()) {
        "image/jpeg"@
    } else if has_prefix(b, gif87a_magic()) || has_prefix(b, gif89a_magic()) {
        "image/gif"@
    } else if has_prefix(b, bmp_magic()) {
        "image/bmp"@
    } else if b.len() >= 12 && b.subrange(0, 4) == riff_magic() && b.subrange(8, 12) == webp_magic() {
        "image/webp"@
    } else {
        "application/octet-stream"@
    }
}

/// `bytes[at..]` begins with `pat`.
fn bytes_match_at(bytes: &[u8], at: usize, pat: &[u8]) -> (r: bool)
    ensures
        r == (at + pat@.len() <= bytes@.len() && bytes@.subrange(at as int, at + pat@.len()) == pat@),
{
    if at > bytes.len() || pat.len() > bytes.len() - at {
        return false;
    }
    let blen = bytes.len();
    let mut k: usize = 0;
    while k < pat.len()
        invariant
            blen == bytes@.len(),
            at + pat@.len() <= bytes@.len(),
            k <= pat@.len(),
            forall|j: int| 0 <= j < k ==> bytes@[at + j] == pat@[j],
        decreases pat.len() - k,
    {
        if bytes[at + k] != pat[k] {
            assert(bytes@.subrange(at as int, at + pat@.len())[k as int] != pat@[k as int]);
            return false;
        }
        k = k + 1;
    }
    assert(bytes@.subrange(at as int, at + pat@.len()) =~= pat@);
    true
}

/// Sniffs the leading bytes of an image and returns a MIME content type,
/// falling back to `application/octet-stream`.
pub fn detect_content_type(bytes: &[u8]) -> (r: String)
    ensures
        r@ == sniffed_content_type(bytes@),
{
    let png: [u8; 8] = [0x89, 0x50, 0x4E, 0x47, 0x0D, 0x0A, 0x1A, 0x0A];
    let jpeg: [u8; 3] = [0xFF, 0xD8, 0xFF];
    let gif87: [u8; 6] = [0x47, 0x49, 0x46, 0x38, 0x37, 0x61];
    let gif89: [u8; 6] = [0x47, 0x49, 0x46, 0x38, 0x39, 0x61];
    let bmp: [u8; 2] = [0x42, 0x4D];
    let riff: [u8; 4] = [0x52, 0x49, 0x46, 0x46];
    let webp: [u8; 4] = [0x57, 0x45, 0x42, 0x50];
    assert(png@ == png_magic());
    assert(jpeg@ == jpeg_magic());
    assert(gif87@ == gif87a_magic());
    assert(gif89@ == gif89a_magic());
    assert(bmp@ == bmp_magic());
    assert(riff@ == riff_magic());
    assert(webp@ == webp_magic());
    assert(bytes@.take(8) == bytes@.subrange(0, 8));
    assert(bytes@.take(3) == bytes@.subrange(0, 3));
    assert(bytes@.take(6) == bytes@.subrange(0, 6));
    assert(bytes@.take(2) == bytes@.subrange(0, 2));
    if bytes_match_at(bytes, 0, &png) {
        return "image/png".to_string();
    }
    if bytes_match_at(bytes, 0, &jpeg) {
        return "image/jpeg".to_string();
    }
    if bytes_match_at(bytes, 0, &gif87) || bytes_match_at(bytes, 0, &gif89) {
        return "image/gif".to_string();
    }
    if bytes_match_at(bytes, 0, &bmp) {
        return "image/bmp".to_string();
    }
    if bytes.len() >= 12 && bytes_match_at(bytes, 0, &riff) && bytes_match_at(bytes, 8, &webp) {
        return "image/webp".to_string();
    }
    "application/octet-stream".to_string()
}

} // verus!
