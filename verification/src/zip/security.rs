//! Archive-level safety limits: entry count, entry size, compression ratio
//! and path traversal.
use vstd::prelude::*;
use crate::error::DocxError;
use crate::text::chars_of;

verus! {

pub const MAX_ZIP_ENTRY_COUNT: usize = 10_000;

pub const MAX_UNCOMPRESSED_ENTRY_SIZE: u64 = 100 * 1024 * 1024;

pub const MAX_TOTAL_UNCOMPRESSED_SIZE: u64 = 500 * 1024 * 1024;

/// The smallest accepted compressed/uncompressed ratio is
/// `MIN_COMPRESSION_RATIO_NUMERATOR / MIN_COMPRESSION_RATIO_DENOMINATOR`
/// (one in a thousand): a 1000:1 or denser entry is taken for a ZIP bomb.
pub const MIN_COMPRESSION_RATIO_NUMERATOR: u64 = 1;

pub const MIN_COMPRESSION_RATIO_DENOMINATOR: u64 = 1000;

/// True when the entry compresses by more than 1000:1, i.e.
/// `compressed / uncompressed < 1/1000`, compared exactly in integers.
pub open spec fn ratio_too_small(uncompressed: u64, compressed: u64) -> bool {
    compressed > 0 && uncompressed > 0 && compressed * 1000 < uncompressed
}

/// When `validate_entry_size` refuses an entry.
pub open spec fn entry_size_rejected(uncompressed: u64, compressed: u64) -> bool {
    uncompressed > MAX_UNCOMPRESSED_ENTRY_SIZE || ratio_too_small(uncompressed, compressed)
}

pub open spec fn is_zip_bomb_error(e: DocxError, name: Seq<char>, uncompressed: u64) -> bool {
    e matches DocxError::ZipBomb { entry, claimed_size, limit }
        && entry@ == name && claimed_size == uncompressed && limit == MAX_UNCOMPRESSED_ENTRY_SIZE
}

proof fn lemma_ratio_threshold(u: u64, c: u64)
    by (nonlinear_arith)
    requires
        u > 0,
    ensures
        (c * 1000 < u) <==> (c <= (u - 1) / 1000),
{
}

/// Validates a single ZIP entry's size and compression ratio.
pub fn validate_entry_size(name: &str, uncompressed_size: u64, compressed_size: u64) -> (r: Result<(), DocxError>)
    ensures
        r is Ok <==> !entry_size_rejected(uncompressed_size, compressed_size),
        r matches Err(e) ==> is_zip_bomb_error(e, name@, uncompressed_size),
{
    if uncompressed_size > MAX_UNCOMPRESSED_ENTRY_SIZE {
        return Err(DocxError::ZipBomb {
            entry: name.to_string(),
            claimed_size: uncompressed_size,
            limit: MAX_UNCOMPRESSED_ENTRY_SIZE,
        });
    }
    if compressed_size > 0 && uncompressed_size > 0 {
        proof {
            lemma_ratio_threshold(uncompressed_size, compressed_size);
        }
        if compressed_size <= (uncompressed_size - 1) / 1000 {
            return Err(DocxError::ZipBomb {
                entry: name.to_string(),
                claimed_size: uncompressed_size,
                limit: MAX_UNCOMPRESSED_ENTRY_SIZE,
            });
        }
    }
    Ok(())
}

/// Validates the total number of entries in a ZIP archive.
pub fn validate_entry_count(count: usize) -> (r: Result<(), DocxError>)
    ensures
        r is Ok <==> count <= MAX_ZIP_ENTRY_COUNT,
        r matches Err(e) ==> e == (DocxError::ZipEntryLimitExceeded { count, limit: MAX_ZIP_ENTRY_COUNT }),
{
    if count > MAX_ZIP_ENTRY_COUNT {
        return Err(DocxError::ZipEntryLimitExceeded { count, limit: MAX_ZIP_ENTRY_COUNT });
    }
    Ok(())
}

pub open spec fn is_path_separator(c: char) -> bool {
    c == '/' || c == '\\'
}

/// A `..` component starts at `i`: two dots bounded on each side by a
/// separator or an end of the path.
pub open spec fn dotdot_component_at(s: Seq<char>, i: int) -> bool {
    &&& 0 <= i && i + 2 <= s.len()
    &&& s[i] == '.' && s[i + 1] == '.'
    &&& (i == 0 || is_path_separator(s[i - 1]))
    &&& (i + 2 == s.len() || is_path_separator(s[i + 2]))
}

/// When `validate_zip_path` refuses a path: it is absolute (starts with a
/// separator) or one of its `/`- or `\`-separated components is `..`.
pub open spec fn zip_path_rejected(s: Seq<char>) -> bool {
    (s.len() > 0 && is_path_separator(s[0])) || exists|i: int| #[trigger] dotdot_component_at(s, i)
}

/// Validates a ZIP entry path against path traversal attacks.
pub fn validate_zip_path(path: &str) -> (r: Result<(), DocxError>)
    ensures
        r is Ok <==> !zip_path_rejected(path@),
        r matches Err(e) ==> (e matches DocxError::ZipPathTraversal { path: p } && p@ == path@),
{
    let cs = chars_of(path);
    let n = cs.len();
    if n > 0 && (cs[0] == '/' || cs[0] == '\\') {
        return Err(DocxError::ZipPathTraversal { path: path.to_string() });
    }
    let mut i: usize = 0;
    while n >= 2 && i <= n - 2
        invariant
            n == cs@.len(),
            cs@ == path@,
            i <= n,
            forall|j: int| 0 <= j < i ==> !dotdot_component_at(cs@, j),
        decreases n - i,
    {
        if cs[i] == '.' && cs[i + 1] == '.' && (i == 0 || cs[i - 1] == '/' || cs[i - 1] == '\\')
            && (i + 2 == n || cs[i + 2] == '/' || cs[i + 2] == '\\') {
            assert(dotdot_component_at(cs@, i as int));
            return Err(DocxError::ZipPathTraversal { path: path.to_string() });
        }
        i = i + 1;
    }
    assert forall|j: int| !dotdot_component_at(cs@, j) by {
        if 0 <= j < i {
        }
    }
    Ok(())
}

/// The checks made before an entry is read: its path, then its size and
/// compression ratio, then the total-size cap.
pub fn validate_entry(name: &str, uncompressed_size: u64, compressed_size: u64) -> (r: Result<(), DocxError>)
    ensures
        r is Ok <==> !zip_path_rejected(name@) && !entry_size_rejected(uncompressed_size, compressed_size)
            && uncompressed_size <= MAX_TOTAL_UNCOMPRESSED_SIZE,
        zip_path_rejected(name@) ==> (r matches Err(e) && e matches DocxError::ZipPathTraversal { path: p } && p@ == name@),
        !zip_path_rejected(name@) && entry_size_rejected(uncompressed_size, compressed_size)
            ==> (r matches Err(e) && is_zip_bomb_error(e, name@, uncompressed_size)),
        !zip_path_rejected(name@) && !entry_size_rejected(uncompressed_size, compressed_size)
            && uncompressed_size > MAX_TOTAL_UNCOMPRESSED_SIZE ==> (r matches Err(e) && e matches DocxError::ZipBomb {
            entry, claimed_size, limit } && entry@ == name@ && claimed_size == uncompressed_size
            && limit == MAX_TOTAL_UNCOMPRESSED_SIZE),
{
    if let Err(e) = validate_zip_path(name) {
        return Err(e);
    }
    if let Err(e) = validate_entry_size(name, uncompressed_size, compressed_size) {
        return Err(e);
    }
    if uncompressed_size > MAX_TOTAL_UNCOMPRESSED_SIZE {
        return Err(DocxError::ZipBomb {
            entry: name.to_string(),
            claimed_size: uncompressed_size,
            limit: MAX_TOTAL_UNCOMPRESSED_SIZE,
        });
    }
    Ok(())
}

} // verus!
