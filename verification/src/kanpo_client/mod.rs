//! Official gazette (官報) client: issues, items and their page PDFs.
pub mod http;
pub mod model;
pub mod pdf;
pub mod toc;

pub use http::page_pdf_url;
pub use model::{KanpoDate, KanpoIssue, KanpoItem, KanpoProvider, MockKanpoProvider};
