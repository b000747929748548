use vstd::prelude::*;
use crate::text::{decimal, push_decimal};

verus! {

#[verifier::external_type_specification]
#[verifier::external_body]
pub struct ExIoError(std::io::Error);

#[verifier::external_type_specification]
#[verifier::external_body]
pub struct ExZipError(zip::result::ZipError);

/// Every failure the library reports.
#[derive(Debug)]
#[allow(inconsistent_fields)]
pub enum DocxError {
    Io(std::io::Error),
    Zip(zip::result::ZipError),
    ZipBomb { entry: String, claimed_size: u64, limit: u64 },
    ZipEntryLimitExceeded { count: usize, limit: usize },
    ZipPathTraversal { path: String },
    MissingPart(String),
    InvalidContentTypes(String),
    InvalidRelationships { path: String, reason: String },
    XmlParse { part: String, reason: String },
    XmlEntityExpansionLimit { part: String, limit: usize },
    UnexpectedElement { element: String, context: String },
    CircularStyleReference(String),
    StyleChainTooDeep { style: String, limit: usize },
    NumberingDefNotFound { num_id: u32 },
    AbstractNumNotFound { abstract_num_id: u32 },
    ImageRelNotFound { rel_id: String },
    ImagePartNotFound { path: String },
    Pipeline(String),
    Encoding { part: String, reason: String },
}

pub type Result<T> = core::result::Result<T, DocxError>;

impl From<std::io::Error> for DocxError {
    fn from(e: std::io::Error) -> (r: DocxError) {
        DocxError::Io(e)
    }
}

impl vstd::std_specs::convert::FromSpecImpl<std::io::Error> for DocxError {
    open spec fn obeys_from_spec() -> bool {
        true
    }

    open spec fn from_spec(v: std::io::Error) -> DocxError {
        DocxError::Io(v)
    }
}

impl From<zip::result::ZipError> for DocxError {
    fn from(e: zip::result::ZipError) -> (r: DocxError) {
        DocxError::Zip(e)
    }
}

impl vstd::std_specs::convert::FromSpecImpl<zip::result::ZipError> for DocxError {
    open spec fn obeys_from_spec() -> bool {
        true
    }

    open spec fn from_spec(v: zip::result::ZipError) -> DocxError {
        DocxError::Zip(v)
    }
}

/// The `Display` text of an I/O error (`std::io::Error`'s own text, which
/// depends on the operating system); nothing is claimed of it.
#[verifier::external_body]
fn io_error_text(e: &std::io::Error) -> String {
    e.to_string()
}

/// The `Display` text of a ZIP error (`zip::result::ZipError`'s own
/// text); nothing is claimed of it.
#[verifier::external_body]
fn zip_error_text(e: &zip::result::ZipError) -> String {
    e.to_string()
}

pub open spec fn q(s: Seq<char>) -> Seq<char> {
    "'"@ + s + "'"@
}

pub open spec fn num(n: nat) -> Seq<char> {
    decimal(n)
}

/// The message of an error other than an I/O or ZIP error.
pub open spec fn message_of(e: DocxError) -> Seq<char> {
    match e {
        DocxError::ZipBomb { entry, claimed_size, limit } => "ZIP bomb detected: entry "@ + q(entry@) + " claims "@
            + num(claimed_size as nat) + " bytes (limit "@ + num(limit as nat) + " bytes)"@,
        DocxError::ZipEntryLimitExceeded { count, limit } => "ZIP entry count exceeds safety limit: "@ + num(count as nat)
            + " entries (limit "@ + num(limit as nat) + ")"@,
        DocxError::ZipPathTraversal { path } => "ZIP path traversal detected: "@ + q(path@),
        DocxError::MissingPart(p) => "Missing required OOXML part: "@ + q(p@),
        DocxError::InvalidContentTypes(r) => "Invalid content types manifest: "@ + r@,
        DocxError::InvalidRelationships { path, reason } => "Invalid relationships file "@ + q(path@) + ": "@ + reason@,
        DocxError::XmlParse { part, reason } => "XML parse error in "@ + q(part@) + ": "@ + reason@,
        DocxError::XmlEntityExpansionLimit { part, limit } => "XML entity expansion limit exceeded in "@ + q(part@)
            + " (limit: "@ + num(limit as nat) + " expansions)"@,
        DocxError::UnexpectedElement { element, context } => "Unexpected XML element "@ + q(element@) + " in "@ + q(context@),
        DocxError::CircularStyleReference(s) => "Style "@ + q(s@) + " references itself in basedOn chain (circular reference)"@,
        DocxError::StyleChainTooDeep { style, limit } => "Style chain depth exceeded for style "@ + q(style@) + " (limit "@
            + num(limit as nat) + ")"@,
        DocxError::NumberingDefNotFound { num_id } => "Numbering definition "@ + q(num(num_id as nat)) + " not found"@,
        DocxError::AbstractNumNotFound { abstract_num_id } => "Abstract numbering "@ + q(num(abstract_num_id as nat)) + " not found"@,
        DocxError::ImageRelNotFound { rel_id } => "Image relationship "@ + q(rel_id@) + " not found in document relationships"@,
        DocxError::ImagePartNotFound { path } => "Image part "@ + q(path@) + " not found in ZIP archive"@,
        DocxError::Pipeline(s) => "Pipeline error: "@ + s@,
        DocxError::Encoding { part, reason } => "Text encoding error in part "@ + q(part@) + ": "@ + reason@,
        DocxError::Io(_) => "IO error: "@,
        DocxError::Zip(_) => "ZIP error: "@,
    }
}

fn push_quoted(out: &mut String, s: &str)
    ensures
        final(out)@ == old(out)@ + q(s@),
{
    out.append("'");
    out.append(s);
    out.append("'");
    assert(final(out)@ =~= old(out)@ + q(s@));
}

impl DocxError {
    /// The human-readable message of the error. For an I/O or ZIP error it
    /// is the prefix followed by that error's own text.
    pub fn message(&self) -> (r: String)
        ensures
            self is Io || self is Zip ==> r@.take(message_of(*self).len() as int) == message_of(*self),
            !(self is Io || self is Zip) ==> r@ == message_of(*self),
    {
        let mut out = String::new();
        match self {
            DocxError::Io(e) => {
                out.append("IO error: ");
                let t = io_error_text(e);
                let ghost pre = out@;
                out.append(t.as_str());
                assert(out@.take(pre.len() as int) =~= pre);
            },
            DocxError::Zip(e) => {
                out.append("ZIP error: ");
                let t = zip_error_text(e);
                let ghost pre = out@;
                out.append(t.as_str());
                assert(out@.take(pre.len() as int) =~= pre);
            },
            DocxError::ZipBomb { entry, claimed_size, limit } => {
                out.append("ZIP bomb detected: entry ");
                push_quoted(&mut out, entry.as_str());
                out.append(" claims ");
                push_decimal(&mut out, *claimed_size);
                out.append(" bytes (limit ");
                push_decimal(&mut out, *limit);
                out.append(" bytes)");
            },
            DocxError::ZipEntryLimitExceeded { count, limit } => {
                out.append("ZIP entry count exceeds safety limit: ");
                push_decimal(&mut out, *count as u64);
                out.append(" entries (limit ");
                push_decimal(&mut out, *limit as u64);
                out.append(")");
            },
            DocxError::ZipPathTraversal { path } => {
                out.append("ZIP path traversal detected: ");
                push_quoted(&mut out, path.as_str());
            },
            DocxError::MissingPart(p) => {
                out.append("Missing required OOXML part: ");
                push_quoted(&mut out, p.as_str());
            },
            DocxError::InvalidContentTypes(r) => {
                out.append("Invalid content types manifest: ");
                out.append(r.as_str());
            },
            DocxError::InvalidRelationships { path, reason } => {
                out.append("Invalid relationships file ");
                push_quoted(&mut out, path.as_str());
                out.append(": ");
                out.append(reason.as_str());
            },
            DocxError::XmlParse { part, reason } => {
                out.append("XML parse error in ");
                push_quoted(&mut out, part.as_str());
                out.append(": ");
                out.append(reason.as_str());
            },
            DocxError::XmlEntityExpansionLimit { part, limit } => {
                out.append("XML entity expansion limit exceeded in ");
                push_quoted(&mut out, part.as_str());
                out.append(" (limit: ");
                push_decimal(&mut out, *limit as u64);
                out.append(" expansions)");
            },
            DocxError::UnexpectedElement { element, context } => {
                out.append("Unexpected XML element ");
                push_quoted(&mut out, element.as_str());
                out.append(" in ");
                push_quoted(&mut out, context.as_str());
            },
            DocxError::CircularStyleReference(s) => {
                out.append("Style ");
                push_quoted(&mut out, s.as_str());
                out.append(" references itself in basedOn chain (circular reference)");
            },
            DocxError::StyleChainTooDeep { style, limit } => {
                out.append("Style chain depth exceeded for style ");
                push_quoted(&mut out, style.as_str());
                out.append(" (limit ");
                push_decimal(&mut out, *limit as u64);
                out.append(")");
            },
            DocxError::NumberingDefNotFound { num_id } => {
                out.append("Numbering definition ");
                out.append("'");
                push_decimal(&mut out, *num_id as u64);
                out.append("'");
                out.append(" not found");
            },
            DocxError::AbstractNumNotFound { abstract_num_id } => {
                out.append("Abstract numbering ");
                out.append("'");
                push_decimal(&mut out, *abstract_num_id as u64);
                out.append("'");
                out.append(" not found");
            },
            DocxError::ImageRelNotFound { rel_id } => {
                out.append("Image relationship ");
                push_quoted(&mut out, rel_id.as_str());
                out.append(" not found in document relationships");
            },
            DocxError::ImagePartNotFound { path } => {
                out.append("Image part ");
                push_quoted(&mut out, path.as_str());
                out.append(" not found in ZIP archive");
            },
            DocxError::Pipeline(s) => {
                out.append("Pipeline error: ");
                out.append(s.as_str());
            },
            DocxError::Encoding { part, reason } => {
                out.append("Text encoding error in part ");
                push_quoted(&mut out, part.as_str());
                out.append(": ");
                out.append(reason.as_str());
            },
        }
        out
    }
}

} // verus!
