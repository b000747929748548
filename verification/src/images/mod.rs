pub mod extractor;
pub mod metadata;

pub use metadata::ImageMetadata;
