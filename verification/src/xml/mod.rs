pub mod entity_guard;
pub mod namespace;
pub mod reader;
