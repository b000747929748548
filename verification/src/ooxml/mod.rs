//! Open Packaging Conventions parts: `[Content_Types].xml` and `.rels`.
pub mod content_types;
pub mod relationships;

pub use relationships::{Relationship, RelationshipMap};
