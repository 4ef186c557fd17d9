//! Bill tracking from the House of Representatives' bill pages and the
//! House of Councillors' supplementary resolutions.
pub mod dates;
pub mod model;
pub mod keika;
pub mod resolution;
pub mod html;
pub mod lists;
