//! Stable JSON model of a statute (LawXML normalized): articles, paragraphs,
//! supplementary provisions, provenance.
use crate::text::{copy_opt, copy_string, opt_view};
use vstd::prelude::*;

pub use crate::law_xml::{parse_law_xml, sha256_hex};

verus! {

/// Schema version of [`LawDocument`].
pub const SCHEMA_VERSION: u32 = 1;

/// One entry of the statute index.
#[derive(Debug, Clone)]
pub struct LawSummary {
    pub law_id: String,
    pub law_num: Option<String>,
    pub title: String,
    pub current: String,
    pub timeline: String,
    pub versions: String,
}

/// Where a document came from.
#[derive(Debug, Clone)]
pub struct SourceMeta {
    pub provider: String,
    pub raw_xml_sha256: Option<String>,
    pub fetched_at: String,
}

/// One revision of a statute.
#[derive(Debug, Clone)]
pub struct LawDocument {
    pub schema_version: u32,
    pub law_id: String,
    pub law_num: Option<String>,
    pub title: String,
    pub revision_id: Option<String>,
    pub promulgation_date: Option<String>,
    pub effective_date: Option<String>,
    pub status: String,
    /// Articles of the main provision only; `article_id = art_{Num}`.
    pub articles: Vec<Article>,
    /// The supplementary provisions, each with its own article-id scope.
    pub suppl_provisions: Vec<SupplProvision>,
    pub source: SourceMeta,
}

/// One supplementary provision (附則).
#[derive(Debug, Clone)]
pub struct SupplProvision {
    /// 1-based running number of the provision within the statute.
    pub index: u32,
    /// The `AmendLawNum` attribute (number of the amending law).
    pub amend_law_num: Option<String>,
    /// The heading, e.g. 「附則」.
    pub label: Option<String>,
    /// Articles, with ids `suppl{index}_art_{Num}`.
    pub articles: Vec<Article>,
}

/// One article.
#[derive(Debug, Clone)]
pub struct Article {
    pub article_id: String,
    pub article_no: String,
    pub caption: Option<String>,
    pub paragraphs: Vec<Paragraph>,
}

/// One paragraph of an article.
#[derive(Debug, Clone)]
pub struct Paragraph {
    pub paragraph_no: Option<String>,
    pub text: String,
}

impl View for Paragraph {
    type V = (Option<Seq<char>>, Seq<char>);

    open spec fn view(&self) -> (Option<Seq<char>>, Seq<char>) {
        (opt_view(self.paragraph_no), self.text@)
    }
}

/// The view of a paragraph: its number and text.
pub type ParaView = (Option<Seq<char>>, Seq<char>);

/// The view of an article: id, number, caption, paragraphs.
pub type ArticleView = (Seq<char>, Seq<char>, Option<Seq<char>>, Seq<ParaView>);

/// The view of an article.
pub open spec fn article_view(a: Article) -> ArticleView {
    (a.article_id@, a.article_no@, opt_view(a.caption), paras_view(a.paragraphs@))
}

/// The views of an article list.
pub open spec fn articles_view(v: Seq<Article>) -> Seq<ArticleView> {
    Seq::new(v.len(), |i: int| article_view(v[i]))
}

/// The views of a paragraph list.
pub open spec fn paras_view(ps: Seq<Paragraph>) -> Seq<(Option<Seq<char>>, Seq<char>)> {
    Seq::new(ps.len(), |i: int| ps[i]@)
}

/// A copy of a paragraph.
pub fn copy_paragraph(p: &Paragraph) -> (q: Paragraph)
    ensures
        q@ == p@,
{
    Paragraph { paragraph_no: copy_opt(&p.paragraph_no), text: copy_string(&p.text) }
}

/// A copy of a paragraph list.
pub fn copy_paragraphs(ps: &Vec<Paragraph>) -> (qs: Vec<Paragraph>)
    ensures
        paras_view(qs@) == paras_view(ps@),
{
    let mut qs: Vec<Paragraph> = Vec::new();
    let mut i: usize = 0;
    while i < ps.len()
        invariant
            i <= ps.len(),
            paras_view(qs@) == paras_view(ps@).take(i as int),
        decreases ps.len() - i,
    {
        let q = copy_paragraph(&ps[i]);
        let ghost old_qs = qs@;
        qs.push(q);
        assert(paras_view(qs@) =~= paras_view(old_qs).push(ps@[i as int]@));
        assert(paras_view(ps@).take(i + 1) =~= paras_view(ps@).take(i as int).push(ps@[i as int]@));
        i = i + 1;
    }
    assert(paras_view(ps@).take(ps.len() as int) =~= paras_view(ps@));
    qs
}

/// The first year (year 1) of an era, in the Western calendar.
pub open spec fn era_start(era: Seq<char>) -> Option<int> {
    if era == "Meiji"@ {
        Some(1868)
    } else if era == "Taisho"@ {
        Some(1912)
    } else if era == "Showa"@ {
        Some(1926)
    } else if era == "Heisei"@ {
        Some(1989)
    } else if era == "Reiwa"@ {
        Some(2019)
    } else {
        None
    }
}

/// Western year of year 1 of the named era (`"Meiji"`, `"Taisho"`, ...).
pub fn era_start_year(era: &str) -> (r: Option<i32>)
    ensures
        match r {
            Some(y) => era_start(era@) == Some(y as int),
            None => era_start(era@) is None,
        },
{
    let e = era.to_owned();
    if e == "Meiji".to_owned() {
        Some(1868)
    } else if e == "Taisho".to_owned() {
        Some(1912)
    } else if e == "Showa".to_owned() {
        Some(1926)
    } else if e == "Heisei".to_owned() {
        Some(1989)
    } else if e == "Reiwa".to_owned() {
        Some(2019)
    } else {
        None
    }
}

} // verus!
