//! Style definitions (`word/styles.xml`) and their inheritance.
pub mod formatting;
pub mod resolver;
pub mod table;

pub use formatting::ResolvedFormatting;
pub use resolver::StyleResolver;
pub use table::{StyleEntry, StyleTable, StyleType};
