//! Reading `.docx` (OOXML WordprocessingML) content into semantic elements,
//! plain text, Markdown and RAG chunks, with the parsing and transformation
//! logic verified against its specifications.

pub mod document;
pub mod error;
pub mod images;
pub mod numbering;
pub mod ooxml;
pub mod pipeline;
pub mod raw;
pub mod styles;
pub mod text;
pub mod word;
pub mod xml;
pub mod zip;

pub use error::{DocxError, Result};
