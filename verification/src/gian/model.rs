//! The bill and resolution records, the data-source interface, and the
//! built-in sample source.
use vstd::prelude::*;
use crate::error::ProviderError;
use vstd::string::StringSliceAdditionalSpecFns;
use crate::num::{dec, u64_to_chars};
use crate::text::{append_chars, chars_of, opt_view, string_of};

verus! {

/// The bill pages of the House of Representatives.
pub const BASE_URL: &'static str = "https://www.shugiin.go.jp/internet/itdb_gian.nsf/html/gian";

/// The supplementary-resolution pages of the House of Councillors.
pub const RESOLUTION_BASE_URL: &'static str = "https://www.sangiin.go.jp/japanese/gianjoho/ketsugi";

/// A bill as the session's bill list shows it.
#[derive(Debug, Clone)]
pub struct BillMeta {
    /// File stem of the progress page (e.g. `1DE153E`).
    pub bill_id: String,
    pub session: u32,
    pub title: String,
    /// State shown in the list (e.g. 「衆議院で審議中」, 「成立」).
    pub status: Option<String>,
    pub keika_url: String,
    /// The page listing the bill's texts, outline and amendments.
    pub honbun_url: Option<String>,
}

/// One row of a progress page: item name and content.
#[derive(Debug, Clone)]
pub struct KeyValue {
    pub key: String,
    pub value: String,
}

/// The structured progress of a bill.
#[derive(Debug, Clone)]
pub struct Bill {
    pub schema_version: u32,
    pub bill_id: String,
    pub session: u32,
    /// 衆法 / 参法 / 閣法.
    pub bill_type: Option<String>,
    pub number: Option<String>,
    pub title: String,
    pub submitter: Option<String>,
    pub parties: Option<String>,
    /// Committee referred to (House of Representatives first).
    pub committee: Option<String>,
    /// Outcome of deliberation (House of Representatives first).
    pub result: Option<String>,
    pub promulgation_date: Option<String>,
    pub law_num: Option<String>,
    /// ISO date of the latest step (receipt, referral, outcome, promulgation).
    pub latest_date: Option<String>,
    /// Label of that latest step (e.g. 「委員会付託(衆)」, 「公布」).
    pub latest_event: Option<String>,
    /// State from the bill list.
    pub status: Option<String>,
    /// Every row of the progress page.
    pub fields: Vec<KeyValue>,
    /// Bill text, outline and amendments.
    pub documents: Vec<BillDocument>,
    pub source: BillSource,
}

/// A bill text, outline or amendment with its provenance.
#[derive(Debug, Clone)]
pub struct BillDocument {
    /// `bill_text` / `outline` / `amendment`.
    pub kind: String,
    pub label: String,
    pub url: String,
    pub text: String,
    /// SHA-256 of the fetched page.
    pub sha256: String,
    pub fetched_at: String,
    /// Path of the stored original, once stored.
    pub raw_path: Option<String>,
    /// The fetched page, until the caller stores it.
    pub raw_html: Option<String>,
}

/// Where and when a bill was fetched.
#[derive(Debug, Clone)]
pub struct BillSource {
    pub provider: String,
    pub fetched_at: String,
    pub detail_url: String,
}

/// A supplementary resolution as the committee lists show it.
#[derive(Debug, Clone, PartialEq, Eq)]
pub struct ResolutionMeta {
    pub resolution_id: String,
    pub session: u32,
    pub chamber: String,
    pub committee: String,
    /// 「○○法律案に対する附帯決議」.
    pub title: String,
    /// The title without 「に対する附帯決議」.
    pub subject: String,
    pub resolution_date: Option<String>,
    pub source_url: String,
}

/// The original document of a resolution as fetched.
#[derive(Debug, Clone)]
pub struct FetchedResolution {
    pub bytes: Vec<u8>,
    pub media_type: Option<String>,
    pub fetched_at: String,
}

/// The stored record of a supplementary resolution.
#[derive(Debug, Clone)]
pub struct SupplementaryResolution {
    pub schema_version: u32,
    pub resolution_id: String,
    pub session: u32,
    pub chamber: String,
    pub committee: String,
    pub title: String,
    pub subject: String,
    pub resolution_date: Option<String>,
    pub source_url: String,
    pub media_type: Option<String>,
    pub sha256: String,
    pub bytes: u64,
    pub fetched_at: String,
    pub raw_path: String,
    pub extracted_text: Option<String>,
    pub extraction_method: Option<String>,
    pub extraction_error: Option<String>,
}

/// A link to a bill text, outline or amendment.
#[derive(Debug, Clone, PartialEq, Eq)]
pub struct BillDocumentLink {
    pub kind: String,
    pub label: String,
    pub url: String,
}

/// A source of bills and resolutions.
pub trait GianProvider {
    /// The bills of session `session`; 0 means the latest session.
    fn list_bills(&self, session: u32) -> Result<Vec<BillMeta>, ProviderError>;
    /// The progress of one listed bill.
    fn fetch_bill(&self, meta: &BillMeta) -> Result<Bill, ProviderError>;
    /// The supplementary resolutions of session `session`; 0 means the latest.
    fn list_resolutions(&self, session: u32) -> Result<Vec<ResolutionMeta>, ProviderError>;
    /// The original document of one listed resolution.
    fn fetch_resolution(&self, meta: &ResolutionMeta) -> Result<FetchedResolution, ProviderError>;
}

/// The list page of a session: `menu.htm` for the latest, else
/// `kaiji{session}.htm`.
pub open spec fn list_url_spec(base: Seq<char>, session: u32) -> Seq<char> {
    if session == 0 {
        base + "/menu.htm"@
    } else {
        base + "/kaiji"@ + dec(session as nat) + ".htm"@
    }
}

/// The URL of the bill list of `session` under `base`.
pub fn list_url(base: &str, session: u32) -> (u: String)
    ensures
        u@ == list_url_spec(base@, session),
{
    let mut v = chars_of(base);
    if session == 0 {
        let tail = chars_of("/menu.htm");
        append_chars(&mut v, &tail);
    } else {
        let a = chars_of("/kaiji");
        append_chars(&mut v, &a);
        let n = u64_to_chars(session as u64);
        append_chars(&mut v, &n);
        let b = chars_of(".htm");
        append_chars(&mut v, &b);
    }
    string_of(&v)
}

/// `a + b` as a `String`.
fn concat2(a: &str, b: &str) -> (s: String)
    ensures
        s@ == a@ + b@,
{
    let mut v = chars_of(a);
    let w = chars_of(b);
    append_chars(&mut v, &w);
    string_of(&v)
}

/// The session the sample source answers for `session` (0 = latest = 221).
pub open spec fn mock_session(session: u32) -> u32 {
    if session == 0 { 221 } else { session }
}

/// The bundled source: one sample bill and one sample resolution.
pub struct MockProvider;

impl GianProvider for MockProvider {
    /// One sample bill of the requested session (221 for the latest).
    fn list_bills(&self, session: u32) -> (r: Result<Vec<BillMeta>, ProviderError>)
        ensures
            r matches Ok(v) && {
                &&& v.len() == 1
                &&& v[0].bill_id@ == "1DE153E"@
                &&& v[0].session == mock_session(session)
                &&& v[0].title@ == "政治資金規正法の一部を改正する法律案"@
                &&& opt_view(v[0].status) == Some("衆議院で審議中"@)
                &&& v[0].keika_url@ == BASE_URL@ + "/keika/1DE153E.htm"@
                &&& opt_view(v[0].honbun_url) == Some(BASE_URL@ + "/honbun/g22105001.htm"@)
            },
    {
        let s = if session == 0 { 221 } else { session };
        let meta = BillMeta {
            bill_id: "1DE153E".to_owned(),
            session: s,
            title: "政治資金規正法の一部を改正する法律案".to_owned(),
            status: Some("衆議院で審議中".to_owned()),
            keika_url: concat2(BASE_URL, "/keika/1DE153E.htm"),
            honbun_url: Some(concat2(BASE_URL, "/honbun/g22105001.htm")),
        };
        let mut v: Vec<BillMeta> = Vec::new();
        v.push(meta);
        Ok(v)
    }

    /// A sample progress record for `meta`: its id, session, title, status
    /// and page are kept; the rest is the sample's.
    fn fetch_bill(&self, meta: &BillMeta) -> (r: Result<Bill, ProviderError>)
        ensures
            r matches Ok(b) && {
                &&& b.schema_version == 1
                &&& b.bill_id@ == meta.bill_id@
                &&& b.session == meta.session
                &&& opt_view(b.bill_type) == Some("衆法"@)
                &&& opt_view(b.number) == Some("1"@)
                &&& b.title@ == meta.title@
                &&& opt_view(b.submitter) == Some("落合 貴之君外四名"@)
                &&& opt_view(b.parties) == Some("国民民主党・無所属クラブ"@)
                &&& opt_view(b.committee) == Some("政治改革に関する特別"@)
                &&& b.result is None
                &&& b.promulgation_date is None
                &&& b.law_num is None
                &&& opt_view(b.latest_date) == Some("2026-06-12"@)
                &&& opt_view(b.latest_event) == Some("委員会付託(衆)"@)
                &&& opt_view(b.status) == opt_view(meta.status)
                &&& b.fields.len() == 2
                &&& b.fields[0].key@ == "議案件名"@
                &&& b.fields[0].value@ == meta.title@
                &&& b.fields[1].key@ == "衆議院付託年月日／衆議院付託委員会"@
                &&& b.fields[1].value@ == "令和 8年 6月12日 ／ 政治改革に関する特別"@
                &&& b.documents.len() == 1
                &&& b.documents[0].kind@ == "bill_text"@
                &&& b.documents[0].label@ == "提出時法律案"@
                &&& b.documents[0].url@ == BASE_URL@ + "/honbun/houan/g22105001.htm"@
                &&& b.documents[0].text@ == "政治資金規正法の一部を改正する法律案 理由"@
                &&& b.documents[0].sha256@ == "mock-sha256"@
                &&& b.documents[0].fetched_at@ == "2024-01-01T00:00:00Z"@
                &&& b.documents[0].raw_path is None
                &&& opt_view(b.documents[0].raw_html) == Some("<p>政治資金規正法の一部を改正する法律案 理由</p>"@)
                &&& b.source.provider@ == "shugiin"@
                &&& b.source.fetched_at@ == "2024-01-01T00:00:00Z"@
                &&& b.source.detail_url@ == meta.keika_url@
            },
    {
        let mut fields: Vec<KeyValue> = Vec::new();
        fields.push(KeyValue { key: "議案件名".to_owned(), value: meta.title.clone() });
        fields.push(
            KeyValue {
                key: "衆議院付託年月日／衆議院付託委員会".to_owned(),
                value: "令和 8年 6月12日 ／ 政治改革に関する特別".to_owned(),
            },
        );
        let mut documents: Vec<BillDocument> = Vec::new();
        documents.push(
            BillDocument {
                kind: "bill_text".to_owned(),
                label: "提出時法律案".to_owned(),
                url: concat2(BASE_URL, "/honbun/houan/g22105001.htm"),
                text: "政治資金規正法の一部を改正する法律案 理由".to_owned(),
                sha256: "mock-sha256".to_owned(),
                fetched_at: "2024-01-01T00:00:00Z".to_owned(),
                raw_path: None,
                raw_html: Some("<p>政治資金規正法の一部を改正する法律案 理由</p>".to_owned()),
            },
        );
        Ok(Bill {
            schema_version: 1,
            bill_id: meta.bill_id.clone(),
            session: meta.session,
            bill_type: Some("衆法".to_owned()),
            number: Some("1".to_owned()),
            title: meta.title.clone(),
            submitter: Some("落合 貴之君外四名".to_owned()),
            parties: Some("国民民主党・無所属クラブ".to_owned()),
            committee: Some("政治改革に関する特別".to_owned()),
            result: None,
            promulgation_date: None,
            law_num: None,
            latest_date: Some("2026-06-12".to_owned()),
            latest_event: Some("委員会付託(衆)".to_owned()),
            status: crate::text::copy_opt(&meta.status),
            fields,
            documents,
            source: BillSource {
                provider: "shugiin".to_owned(),
                fetched_at: "2024-01-01T00:00:00Z".to_owned(),
                detail_url: meta.keika_url.clone(),
            },
        })
    }

    /// One sample resolution of the requested session (221 for the latest).
    fn list_resolutions(&self, session: u32) -> (r: Result<Vec<ResolutionMeta>, ProviderError>)
        ensures
            r matches Ok(v) && {
                let s = mock_session(session);
                &&& v.len() == 1
                &&& v[0].resolution_id@ == "sangiin-"@ + dec(s as nat) + "-f065_061601"@
                &&& v[0].session == s
                &&& v[0].chamber@ == "参議院"@
                &&& v[0].committee@ == "法務委員会"@
                &&& v[0].title@ == "政治資金規正法の一部を改正する法律案に対する附帯決議"@
                &&& v[0].subject@ == "政治資金規正法の一部を改正する法律案"@
                &&& opt_view(v[0].resolution_date) == Some("2026-06-16"@)
                &&& v[0].source_url@ == RESOLUTION_BASE_URL@ + "/"@ + dec(s as nat) + "/f065_061601.pdf"@
            },
    {
        let s = if session == 0 { 221 } else { session };
        let n = u64_to_chars(s as u64);
        let mut id = chars_of("sangiin-");
        append_chars(&mut id, &n);
        let t = chars_of("-f065_061601");
        append_chars(&mut id, &t);
        let mut url = chars_of(RESOLUTION_BASE_URL);
        let sl = chars_of("/");
        append_chars(&mut url, &sl);
        append_chars(&mut url, &n);
        let f = chars_of("/f065_061601.pdf");
        append_chars(&mut url, &f);
        let meta = ResolutionMeta {
            resolution_id: string_of(&id),
            session: s,
            chamber: "参議院".to_owned(),
            committee: "法務委員会".to_owned(),
            title: "政治資金規正法の一部を改正する法律案に対する附帯決議".to_owned(),
            subject: "政治資金規正法の一部を改正する法律案".to_owned(),
            resolution_date: Some("2026-06-16".to_owned()),
            source_url: string_of(&url),
        };
        let mut v: Vec<ResolutionMeta> = Vec::new();
        v.push(meta);
        Ok(v)
    }

    /// A short plain-text sample document, whatever was asked for.
    fn fetch_resolution(&self, meta: &ResolutionMeta) -> (r: Result<FetchedResolution, ProviderError>)
        ensures
            r matches Ok(f) && {
                &&& f.bytes@ == "政府は、この法律の施行に当たり必要な措置を講ずること。".spec_bytes()
                &&& opt_view(f.media_type) == Some("text/plain; charset=utf-8"@)
                &&& f.fetched_at@ == "2026-06-16T00:00:00Z"@
            },
    {
        let text: &'static str = "政府は、この法律の施行に当たり必要な措置を講ずること。";
        Ok(FetchedResolution {
            bytes: vstd::slice::slice_to_vec(text.as_bytes()),
            media_type: Some("text/plain; charset=utf-8".to_owned()),
            fetched_at: "2026-06-16T00:00:00Z".to_owned(),
        })
    }
}

} // verus!
