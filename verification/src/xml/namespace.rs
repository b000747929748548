//! XML namespace URIs used by OOXML packages.
use vstd::prelude::*;

verus! {

/// WordprocessingML main namespace (w:)
pub const WORDPROCESSINGML: &'static str = "http://schemas.openxmlformats.org/wordprocessingml/2006/main";

/// Package relationships namespace
pub const RELATIONSHIPS: &'static str = "http://schemas.openxmlformats.org/package/2006/relationships";

/// Content types namespace
pub const CONTENT_TYPES: &'static str = "http://schemas.openxmlformats.org/package/2006/content-types";

/// DrawingML main namespace (a:)
pub const DRAWING_ML: &'static str = "http://schemas.openxmlformats.org/drawingml/2006/main";

/// Office document relationships namespace (used in relationship Type attributes)
pub const RELATIONSHIPS_DOCUMENT: &'static str =
    "http://schemas.openxmlformats.org/officeDocument/2006/relationships";

} // verus!
