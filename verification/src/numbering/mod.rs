//! Numbering definitions (`word/numbering.xml`) and the stateful list counter.
pub mod defs;
pub mod resolver;

pub use defs::{AbstractNum, ConcreteNum, NumberingDefs, NumberingLevel, NumberingLevelOverride};
pub use resolver::{ListItemInfo, ListType, NumberingResolver};
