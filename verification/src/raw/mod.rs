//! The raw layer: a direct transcription of the WordprocessingML elements the
//! parsers recognise, before any style, numbering or table-span resolution.
pub mod body;
pub mod drawing;
pub mod fields;
pub mod paragraphs;
pub mod runs;
pub mod tables;

pub use body::{RawBody, RawBodyItem};
pub use drawing::RawDrawing;
pub use fields::RawFieldInst;
pub use paragraphs::{RawHyperlink, RawInline, RawNumPr, RawParagraph, RawParagraphProperties};
pub use runs::{RawRun, RawRunProperties};
pub use tables::{
    RawTable, RawTableCell, RawTableCellProperties, RawTableProperties, RawTableRow, RawVMerge,
};
