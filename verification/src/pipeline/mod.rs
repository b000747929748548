//! The semantic layer: elements, their classification from the raw layer,
//! exporters and the RAG chunker.
pub mod chunk_laws;
pub mod chunk_metadata;
pub mod classifier;
pub mod element;
pub mod export;
pub mod hybrid;
pub mod list_builder;
pub mod profile;
pub mod table_builder;
pub mod rag;

pub use crate::numbering::ListType;
pub use element::{DocxElement, HeadingContext};
