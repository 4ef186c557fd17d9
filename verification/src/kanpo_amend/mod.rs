//! Amendment text (改め文) of the official gazette: cleaning, article
//! segmentation, format detection and the structured document model.
pub mod format;
pub mod model;
pub mod json;
pub mod normalize;
pub mod segment;
pub mod shinkyu;

pub use format::detect_format_of;
pub use model::{Block, Document, Run};
pub use normalize::normalize_text;
pub use segment::segment_articles;

use vstd::prelude::*;

verus! {

/// Extraction result of one page: the cleaned text and its format
/// (`"prose"`, `"shinkyu"` or `"unknown"`).
#[derive(Debug, Clone, PartialEq, Eq)]
pub struct Extracted {
    pub text: String,
    pub format: String,
}

} // verus!
