//! The WordprocessingML parts: body, styles, numbering, notes, comments.
pub mod comments_xml;
pub mod document_xml;
pub mod endnotes_xml;
pub mod footnotes_xml;
pub mod notes_common;
pub mod numbering_xml;
pub mod styles_xml;

pub use comments_xml::{CommentInfo, CommentMap};
pub use endnotes_xml::EndnoteMap;
pub use footnotes_xml::FootnoteMap;
