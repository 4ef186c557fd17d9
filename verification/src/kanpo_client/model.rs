//! Gazette issues and their items, the data-source interface, and the
//! built-in sample source.
use vstd::prelude::*;
use crate::error::ProviderError;
use crate::text::{append_chars, chars_of, opt_view, string_of};

verus! {

/// One issue of the gazette (本紙, 号外 or 特別号外) of a date.
#[derive(Debug, Clone)]
pub struct KanpoIssue {
    /// `regular`, `extra` or `special_extra`.
    pub issue_type: String,
    /// 「第101号」 and the like.
    pub issue_no: String,
    pub pdf_url: String,
    pub sha256: Option<String>,
    /// The presumed promulgation date (the issue date).
    pub promulgation_date: String,
    pub law_nums: Vec<String>,
    pub titles: Vec<String>,
    /// The items of the table of contents, each possibly one law.
    pub items: Vec<KanpoItem>,
    /// Number of pages of the issue.
    pub page_count: Option<u32>,
}

/// One item of an issue's table of contents.
#[derive(Debug, Clone)]
pub struct KanpoItem {
    /// The title as listed (e.g. 「○○の一部を改正する政令」).
    pub title: String,
    /// The page the item starts on.
    pub page: u32,
    /// The URL of the item's PDF.
    pub pdf_url: String,
    pub sha256: Option<String>,
    /// The issuing body's abbreviation from the title's brackets (e.g. 「総務七七」).
    pub agency_hint: Option<String>,
    /// The extracted amendment text.
    pub amend_text: Option<String>,
    /// `prose`, `shinkyu` or `unknown`.
    pub amend_format: Option<String>,
    /// The structured amendment document, as JSON text.
    pub amend_document: Option<String>,
}

/// The issues of one date.
#[derive(Debug, Clone)]
pub struct KanpoDate {
    pub date: String,
    pub issues: Vec<KanpoIssue>,
}

/// A source of gazette issues.
pub trait KanpoProvider {
    /// The issues of `date` (`YYYY-MM-DD`).
    fn fetch_date(&self, date: &str) -> Result<KanpoDate, ProviderError>;
}

/// The bundled source: one empty regular issue per date.
pub struct MockKanpoProvider;

impl KanpoProvider for MockKanpoProvider {
    /// One regular issue 「第1号」 at `mock://kanpo/{date}/regular-1.pdf`.
    fn fetch_date(&self, date: &str) -> (r: Result<KanpoDate, ProviderError>)
        ensures
            r matches Ok(d) && {
                &&& d.date@ == date@
                &&& d.issues.len() == 1
                &&& d.issues[0].issue_type@ == "regular"@
                &&& d.issues[0].issue_no@ == "第1号"@
                &&& d.issues[0].pdf_url@ == "mock://kanpo/"@ + date@ + "/regular-1.pdf"@
                &&& d.issues[0].sha256 is None
                &&& d.issues[0].promulgation_date@ == date@
                &&& d.issues[0].law_nums.len() == 0
                &&& d.issues[0].titles.len() == 0
                &&& d.issues[0].items.len() == 0
                &&& d.issues[0].page_count is None
            },
    {
        let mut url = chars_of("mock://kanpo/");
        let dc = chars_of(date);
        append_chars(&mut url, &dc);
        let tail = chars_of("/regular-1.pdf");
        append_chars(&mut url, &tail);
        let issue = KanpoIssue {
            issue_type: "regular".to_owned(),
            issue_no: "第1号".to_owned(),
            pdf_url: string_of(&url),
            sha256: None,
            promulgation_date: date.to_owned(),
            law_nums: Vec::new(),
            titles: Vec::new(),
            items: Vec::new(),
            page_count: None,
        };
        let mut issues: Vec<KanpoIssue> = Vec::new();
        issues.push(issue);
        Ok(KanpoDate { date: date.to_owned(), issues })
    }
}

} // verus!
