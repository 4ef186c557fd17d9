//! Page text of gazette item PDFs, as the gazette client sees it: the
//! cleaning, format detection and article segmentation of
//! [`crate::kanpo_amend`].
pub use crate::kanpo_amend::format::{detect_format, detect_format_of};
pub use crate::kanpo_amend::normalize::normalize_text;
pub use crate::kanpo_amend::segment::{is_article_boundary, segment_articles};
pub use crate::kanpo_amend::Extracted;
