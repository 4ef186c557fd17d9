//! Government procurement notices from the kkj.go.jp portal.
//!
//! The portal answers a search with XML; `items_from_events` reads the
//! event list of such an answer into notices, accepting both the current
//! element names (`SearchResult`, `ProjectName`, ...) and the older ones
//! (`item`, `title`, ...).
use vstd::prelude::*;
use crate::error::ProviderError;
use crate::text::{chars_eq, chars_of, copy_range, copy_string, opt_view, string_of, trim, trim_chars};
use crate::linking::{keys_view, sort_order, sorted_order, SortKey};
use crate::xml::{read_xml_events, xml_events, XmlEvent};
use crate::cli::calendar::{day_number_of, day_text, text_of_day, ymd_day_number};
use crate::text::append_chars;

verus! {

/// The search endpoint of the portal.
pub const BASE_URL: &'static str = "http://www.kkj.go.jp/api/";

/// One procurement notice.
#[derive(Debug, Clone)]
pub struct ProcurementItem {
    pub schema_version: u32,
    pub item_id: String,
    pub notice_type: String,
    pub title: String,
    pub organization: Option<String>,
    pub publish_date: Option<String>,
    pub deadline: Option<String>,
    pub contract_amount: Option<String>,
    pub contractor: Option<String>,
    pub contract_date: Option<String>,
    pub detail_url: Option<String>,
    pub source: ProcurementSource,
}

/// Where and when a notice was fetched.
#[derive(Debug, Clone)]
pub struct ProcurementSource {
    pub provider: String,
    pub fetched_at: String,
}

/// The notices published in a date range.
#[derive(Debug, Clone)]
pub struct FetchBatch {
    pub from: String,
    pub to: String,
    pub items: Vec<ProcurementItem>,
}

/// A source of procurement notices.
pub trait ProcurementProvider {
    /// The notices published from `from` to `to` (`YYYY-MM-DD`).
    fn fetch_range(&self, from: &str, to: &str) -> Result<FetchBatch, ProviderError>;
}

/// The bundled source: one sample notice dated by the range.
pub struct MockProvider;

impl ProcurementProvider for MockProvider {
    /// One sample notice published on `from` with deadline `to`.
    fn fetch_range(&self, from: &str, to: &str) -> (r: Result<FetchBatch, ProviderError>)
        ensures
            r matches Ok(b) && {
                &&& b.from@ == from@
                &&& b.to@ == to@
                &&& b.items.len() == 1
                &&& b.items[0].schema_version == 1
                &&& b.items[0].item_id@ == "mock-2024-00001"@
                &&& b.items[0].notice_type@ == "入札公告"@
                &&& b.items[0].title@ == "○○省庁舎清掃業務委託"@
                &&& opt_view(b.items[0].organization) == Some("○○省"@)
                &&& opt_view(b.items[0].publish_date) == Some(from@)
                &&& opt_view(b.items[0].deadline) == Some(to@)
                &&& opt_view(b.items[0].contract_amount) == Some("1,000,000"@)
                &&& opt_view(b.items[0].contractor) == Some("株式会社テスト"@)
                &&& b.items[0].contract_date is None
                &&& opt_view(b.items[0].detail_url) == Some("https://www.kkj.go.jp/s/"@)
                &&& b.items[0].source.provider@ == "kkj_go_jp"@
                &&& b.items[0].source.fetched_at@ == "2024-01-01T00:00:00Z"@
            },
    {
        let item = ProcurementItem {
            schema_version: 1,
            item_id: "mock-2024-00001".to_owned(),
            notice_type: "入札公告".to_owned(),
            title: "○○省庁舎清掃業務委託".to_owned(),
            organization: Some("○○省".to_owned()),
            publish_date: Some(from.to_owned()),
            deadline: Some(to.to_owned()),
            contract_amount: Some("1,000,000".to_owned()),
            contractor: Some("株式会社テスト".to_owned()),
            contract_date: None,
            detail_url: Some("https://www.kkj.go.jp/s/".to_owned()),
            source: ProcurementSource {
                provider: "kkj_go_jp".to_owned(),
                fetched_at: "2024-01-01T00:00:00Z".to_owned(),
            },
        };
        let mut items: Vec<ProcurementItem> = Vec::new();
        items.push(item);
        Ok(FetchBatch { from: from.to_owned(), to: to.to_owned(), items })
    }
}

// ---------------------------------------------------------------------------
// Identifiers and dates
// ---------------------------------------------------------------------------

/// `s` without its trailing `=` characters.
pub open spec fn trim_end_eq(s: Seq<char>) -> Seq<char>
    decreases s.len(),
{
    if s.len() > 0 && s.last() == '=' {
        trim_end_eq(s.drop_last())
    } else {
        s
    }
}

/// `/` becomes `_` and `+` becomes `-`.
pub open spec fn id_char(c: char) -> char {
    if c == '/' {
        '_'
    } else if c == '+' {
        '-'
    } else {
        c
    }
}

/// A base64 key made safe for a file name: trimmed, trailing `=` dropped,
/// `/` → `_`, `+` → `-`.
pub open spec fn safe_item_id_spec(v: Seq<char>) -> Seq<char> {
    trim_end_eq(trim(v)).map_values(|c: char| id_char(c))
}

/// The portal's base64 `Key` as a file-name-safe id.
pub fn safe_item_id_chars(value: &[char]) -> (out: Vec<char>)
    ensures
        out@ == safe_item_id_spec(value@),
{
    let t = trim_chars(value);
    let mut end = t.len();
    assert(t@.take(t.len() as int) =~= t@);
    while end > 0 && t[end - 1] == '='
        invariant
            end <= t.len(),
            trim_end_eq(t@) == trim_end_eq(t@.take(end as int)),
        decreases end,
    {
        assert(t@.take(end - 1) =~= t@.take(end as int).drop_last());
        end = end - 1;
    }
    assert(trim_end_eq(t@.take(end as int)) == t@.take(end as int));
    let mut out: Vec<char> = Vec::new();
    let mut i: usize = 0;
    while i < end
        invariant
            i <= end <= t.len(),
            trim_end_eq(t@) == t@.take(end as int),
            out@ == t@.take(end as int).take(i as int).map_values(|c: char| id_char(c)),
        decreases end - i,
    {
        let c = t[i];
        let d = if c == '/' { '_' } else if c == '+' { '-' } else { c };
        out.push(d);
        assert(t@.take(end as int).take(i + 1).map_values(|c: char| id_char(c)) =~= t@.take(
            end as int,
        ).take(i as int).map_values(|c: char| id_char(c)).push(id_char(c)));
        i = i + 1;
    }
    assert(t@.take(end as int).take(end as int) =~= t@.take(end as int));
    out
}

/// The first ten characters of a trimmed, non-empty date value.
pub open spec fn normalized_date_spec(v: Seq<char>) -> Option<Seq<char>> {
    let t = trim(v);
    if t.len() == 0 {
        None
    } else {
        Some(t.take(if t.len() < 10 { t.len() as int } else { 10 }))
    }
}

/// A date value cut to `YYYY-MM-DD` (its first ten characters).
pub fn normalized_date_chars(value: &[char]) -> (r: Option<String>)
    ensures
        opt_view(r) == normalized_date_spec(value@),
{
    let t = trim_chars(value);
    if t.len() == 0 {
        None
    } else {
        let n = if t.len() < 10 { t.len() } else { 10 };
        let head = copy_range(&t, 0, n);
        assert(head@ =~= t@.take(n as int));
        Some(string_of(&head))
    }
}

/// The portal's base64 `Key` as a file-name-safe id (see
/// `safe_item_id_chars`).
pub fn safe_item_id(value: &str) -> (out: String)
    ensures
        out@ == safe_item_id_spec(value@),
{
    let c = chars_of(value);
    let o = safe_item_id_chars(&c);
    string_of(&o)
}

/// A date value cut to its first ten characters (see
/// `normalized_date_chars`).
pub fn normalized_date(value: &str) -> (r: Option<String>)
    ensures
        opt_view(r) == normalized_date_spec(value@),
{
    let c = chars_of(value);
    normalized_date_chars(&c)
}

// ---------------------------------------------------------------------------
// Building a notice
// ---------------------------------------------------------------------------

/// The fields of a notice collected so far.
#[derive(Debug, Clone)]
pub struct ProcurementItemBuilder {
    pub item_id: Option<String>,
    pub notice_type: Option<String>,
    pub title: Option<String>,
    pub organization: Option<String>,
    pub publish_date: Option<String>,
    pub deadline: Option<String>,
    pub contract_amount: Option<String>,
    pub contractor: Option<String>,
    pub contract_date: Option<String>,
    pub detail_url: Option<String>,
}

/// Positions of the fields in a builder's view.
pub open spec fn f_item_id() -> int { 0 }
pub open spec fn f_notice_type() -> int { 1 }
pub open spec fn f_title() -> int { 2 }
pub open spec fn f_organization() -> int { 3 }
pub open spec fn f_publish_date() -> int { 4 }
pub open spec fn f_deadline() -> int { 5 }
pub open spec fn f_contract_amount() -> int { 6 }
pub open spec fn f_contractor() -> int { 7 }
pub open spec fn f_contract_date() -> int { 8 }
pub open spec fn f_detail_url() -> int { 9 }

impl View for ProcurementItemBuilder {
    type V = Seq<Option<Seq<char>>>;

    /// The ten fields, in declaration order.
    open spec fn view(&self) -> Seq<Option<Seq<char>>> {
        seq![
            opt_view(self.item_id),
            opt_view(self.notice_type),
            opt_view(self.title),
            opt_view(self.organization),
            opt_view(self.publish_date),
            opt_view(self.deadline),
            opt_view(self.contract_amount),
            opt_view(self.contractor),
            opt_view(self.contract_date),
            opt_view(self.detail_url),
        ]
    }
}

/// A builder with no field set.
pub open spec fn empty_builder() -> Seq<Option<Seq<char>>> {
    Seq::new(10, |i: int| None)
}

/// A field is set to a non-empty value.
pub open spec fn filled(o: Option<Seq<char>>) -> bool {
    o matches Some(v) && v.len() > 0
}

/// A builder yields a notice when its id and title are set and non-empty.
pub open spec fn builds(b: Seq<Option<Seq<char>>>) -> bool {
    filled(b[f_item_id()]) && filled(b[f_title()])
}

/// `it` is the notice built from `b` at `fetched_at`.
pub open spec fn built_from(it: ProcurementItem, b: Seq<Option<Seq<char>>>, fetched_at: Seq<char>) -> bool {
    &&& it.schema_version == 1
    &&& Some(it.item_id@) == b[f_item_id()]
    &&& it.notice_type@ == match b[f_notice_type()] {
        Some(v) => v,
        None => "不明"@,
    }
    &&& Some(it.title@) == b[f_title()]
    &&& opt_view(it.organization) == b[f_organization()]
    &&& opt_view(it.publish_date) == b[f_publish_date()]
    &&& opt_view(it.deadline) == b[f_deadline()]
    &&& opt_view(it.contract_amount) == b[f_contract_amount()]
    &&& opt_view(it.contractor) == b[f_contractor()]
    &&& opt_view(it.contract_date) == b[f_contract_date()]
    &&& opt_view(it.detail_url) == b[f_detail_url()]
    &&& it.source.provider@ == "kkj_go_jp"@
    &&& it.source.fetched_at@ == fetched_at
}

impl ProcurementItemBuilder {
    /// A builder with no field set.
    pub fn new() -> (b: Self)
        ensures
            b@ == empty_builder(),
    {
        let b = ProcurementItemBuilder {
            item_id: None,
            notice_type: None,
            title: None,
            organization: None,
            publish_date: None,
            deadline: None,
            contract_amount: None,
            contractor: None,
            contract_date: None,
            detail_url: None,
        };
        assert(b@ =~= empty_builder());
        b
    }

    /// The notice, when id and title are non-empty; the notice type
    /// defaults to 「不明」.
    pub fn build(self, fetched_at: &str) -> (r: Option<ProcurementItem>)
        ensures
            builds(self@) ==> (r matches Some(it) && built_from(it, self@, fetched_at@)),
            !builds(self@) ==> r is None,
    {
        let ghost v = self@;
        let item_id = match self.item_id {
            Some(s) => if s.as_str().is_empty() { return None } else { s },
            None => return None,
        };
        let title = match self.title {
            Some(s) => if s.as_str().is_empty() { return None } else { s },
            None => return None,
        };
        let notice_type = match self.notice_type {
            Some(s) => s,
            None => "不明".to_owned(),
        };
        Some(ProcurementItem {
            schema_version: 1,
            item_id,
            notice_type,
            title,
            organization: self.organization,
            publish_date: self.publish_date,
            deadline: self.deadline,
            contract_amount: self.contract_amount,
            contractor: self.contractor,
            contract_date: self.contract_date,
            detail_url: self.detail_url,
            source: ProcurementSource { provider: "kkj_go_jp".to_owned(), fetched_at: fetched_at.to_owned() },
        })
    }
}

// ---------------------------------------------------------------------------
// Reading an answer
// ---------------------------------------------------------------------------

/// The builder after the element `name` closed with trimmed text `val`.
pub open spec fn apply_field(b: Seq<Option<Seq<char>>>, name: Seq<char>, val: Seq<char>) -> Seq<Option<Seq<char>>> {
    if name == "id"@ || name == "noticeId"@ {
        b.update(f_item_id(), Some(val))
    } else if name == "ResultId"@ && b[f_item_id()] is None {
        b.update(f_item_id(), Some(val))
    } else if name == "Key"@ {
        b.update(f_item_id(), Some(safe_item_id_spec(val)))
    } else if name == "noticeType"@ || name == "type"@ {
        b.update(f_notice_type(), Some(val))
    } else if name == "Category"@ && b[f_notice_type()] is None {
        b.update(f_notice_type(), Some(val))
    } else if name == "ProcedureType"@ {
        b.update(f_notice_type(), Some(val))
    } else if name == "title"@ || name == "subject"@ || name == "ProjectName"@ {
        b.update(f_title(), Some(val))
    } else if name == "organization"@ || name == "org"@ || name == "institution"@ || name
        == "OrganizationName"@ {
        b.update(f_organization(), Some(val))
    } else if name == "publishDate"@ || name == "date"@ {
        b.update(f_publish_date(), Some(val))
    } else if name == "Date"@ && b[f_publish_date()] is None {
        b.update(f_publish_date(), normalized_date_spec(val))
    } else if name == "CftIssueDate"@ {
        b.update(f_publish_date(), normalized_date_spec(val))
    } else if name == "deadline"@ || name == "dueDate"@ || name == "PeriodEndTime"@ {
        b.update(f_deadline(), Some(val))
    } else if name == "contractAmount"@ || name == "amount"@ {
        b.update(f_contract_amount(), Some(val))
    } else if name == "contractor"@ || name == "awardee"@ {
        b.update(f_contractor(), Some(val))
    } else if name == "contractDate"@ {
        b.update(f_contract_date(), Some(val))
    } else if name == "url"@ || name == "detailUrl"@ || name == "ExternalDocumentURI"@ {
        b.update(f_detail_url(), Some(val))
    } else {
        b
    }
}

/// The elements that hold one notice.
pub open spec fn is_record(name: Seq<char>) -> bool {
    name == "SearchResult"@ || name == "item"@ || name == "notice"@ || name == "procurement"@
}

/// Reading state: the builders of the finished notices that build, the
/// open record, the text since the last tag, and whether a next page was
/// announced.
pub type ReadState = (Seq<Seq<Option<Seq<char>>>>, Option<Seq<Option<Seq<char>>>>, Seq<char>, bool);

/// The state after one event other than the end of the document or an error.
pub open spec fn read_step(st: ReadState, e: XmlEvent) -> ReadState {
    let (done, cur, text, next) = st;
    match e {
        XmlEvent::Start(name, _) => (done, if is_record(name@) { Some(empty_builder()) } else { cur }, Seq::empty(), next),
        XmlEvent::Text(t) => (done, cur, text + t@, next),
        XmlEvent::CData(t) => (done, cur, text + t@, next),
        XmlEvent::End(name) => {
            let val = trim(text);
            let cur1 = match cur {
                Some(b) => Some(apply_field(b, name@, val)),
                None => None,
            };
            let (done2, cur2) = if is_record(name@) {
                match cur1 {
                    Some(b) => (if builds(b) { done.push(b) } else { done }, None),
                    None => (done, None),
                }
            } else {
                (done, cur1)
            };
            (done2, cur2, Seq::empty(), next || (name@ == "hasNextPage"@ && val == "true"@))
        },
        _ => st,
    }
}

/// The state after the events before the first end or error, and the
/// message of that error if it is one.
pub open spec fn read_run(evs: Seq<XmlEvent>) -> (ReadState, Option<Option<Seq<char>>>)
    decreases evs.len(),
{
    if evs.len() == 0 {
        ((Seq::empty(), None, Seq::empty(), false), None)
    } else {
        let (st, stop) = read_run(evs.drop_last());
        if stop is Some {
            (st, stop)
        } else {
            match evs.last() {
                XmlEvent::Eof => (st, Some(None)),
                XmlEvent::Error(m) => (st, Some(Some(m@))),
                e => (read_step(st, e), None),
            }
        }
    }
}

fn name_is(name: &[char], lit: &str) -> (r: bool)
    ensures
        r == (name@ == lit@),
{
    let l = chars_of(lit);
    chars_eq(name, &l)
}

fn is_record_exec(name: &[char]) -> (r: bool)
    ensures
        r == is_record(name@),
{
    name_is(name, "SearchResult") || name_is(name, "item") || name_is(name, "notice") || name_is(
        name,
        "procurement",
    )
}

impl ProcurementItemBuilder {
    /// Records the text `val` of the element `name` that just closed.
    pub fn apply(&mut self, name: &[char], val: &[char])
        ensures
            final(self)@ == apply_field(old(self)@, name@, val@),
    {
        let v = string_of(val);
        if name_is(name, "id") || name_is(name, "noticeId") {
            self.item_id = Some(v);
        } else if name_is(name, "ResultId") && self.item_id.is_none() {
            self.item_id = Some(v);
        } else if name_is(name, "Key") {
            let s = safe_item_id_chars(val);
            self.item_id = Some(string_of(&s));
        } else if name_is(name, "noticeType") || name_is(name, "type") {
            self.notice_type = Some(v);
        } else if name_is(name, "Category") && self.notice_type.is_none() {
            self.notice_type = Some(v);
        } else if name_is(name, "ProcedureType") {
            self.notice_type = Some(v);
        } else if name_is(name, "title") || name_is(name, "subject") || name_is(name, "ProjectName") {
            self.title = Some(v);
        } else if name_is(name, "organization") || name_is(name, "org") || name_is(name, "institution")
            || name_is(name, "OrganizationName") {
            self.organization = Some(v);
        } else if name_is(name, "publishDate") || name_is(name, "date") {
            self.publish_date = Some(v);
        } else if name_is(name, "Date") && self.publish_date.is_none() {
            self.publish_date = normalized_date_chars(val);
        } else if name_is(name, "CftIssueDate") {
            self.publish_date = normalized_date_chars(val);
        } else if name_is(name, "deadline") || name_is(name, "dueDate") || name_is(name, "PeriodEndTime") {
            self.deadline = Some(v);
        } else if name_is(name, "contractAmount") || name_is(name, "amount") {
            self.contract_amount = Some(v);
        } else if name_is(name, "contractor") || name_is(name, "awardee") {
            self.contractor = Some(v);
        } else if name_is(name, "contractDate") {
            self.contract_date = Some(v);
        } else if name_is(name, "url") || name_is(name, "detailUrl") || name_is(name, "ExternalDocumentURI") {
            self.detail_url = Some(v);
        }
        assert(self@ =~= apply_field(old(self)@, name@, val@));
    }
}

/// The notices of a search answer given as its reader events, and whether
/// the answer announces a next page (`<hasNextPage>true</hasNextPage>`);
/// the reader's error if there is one before the end.
pub fn items_from_events(evs: &Vec<XmlEvent>, fetched_at: &str) -> (r: Result<(Vec<ProcurementItem>, bool), ProviderError>)
    ensures
        match read_run(evs@) {
            (_, Some(Some(m))) => r matches Err(ProviderError::Xml(em)) && em@ == m,
            (st, _) => r matches Ok((items, next)) && {
                &&& items.len() == st.0.len()
                &&& next == st.3
                &&& forall|i: int| 0 <= i < items.len() ==> built_from(#[trigger] items[i], st.0[i], fetched_at@)
            },
        },
{
    let mut items: Vec<ProcurementItem> = Vec::new();
    let mut current: Option<ProcurementItemBuilder> = None;
    let mut text: Vec<char> = Vec::new();
    let mut has_next = false;
    let mut i: usize = 0;
    while i < evs.len()
        invariant
            i <= evs.len(),
            read_run(evs@.take(i as int)).1 is None,
            ({
                let st = read_run(evs@.take(i as int)).0;
                &&& items.len() == st.0.len()
                &&& forall|k: int| 0 <= k < items.len() ==> built_from(#[trigger] items[k], st.0[k], fetched_at@)
                &&& match current {
                    Some(b) => st.1 == Some(b@),
                    None => st.1 is None,
                }
                &&& text@ == st.2
                &&& has_next == st.3
            }),
        decreases evs.len() - i,
    {
        assert(evs@.take(i + 1).drop_last() =~= evs@.take(i as int));
        assert(evs@.take(i + 1).last() == evs@[i as int]);
        match &evs[i] {
            XmlEvent::Eof => {
                proof {
                    assert(read_run(evs@.take(i + 1)).1 == Some(None::<Seq<char>>));
                    lemma_read_run_stops(evs@, i + 1);
                }
                return Ok((items, has_next));
            },
            XmlEvent::Error(m) => {
                proof {
                    lemma_read_run_stops(evs@, i + 1);
                }
                return Err(ProviderError::Xml(m.clone()));
            },
            XmlEvent::Start(name, _) => {
                let nc = chars_of(name.as_str());
                if is_record_exec(&nc) {
                    current = Some(ProcurementItemBuilder::new());
                }
                text = Vec::new();
            },
            XmlEvent::Text(t) | XmlEvent::CData(t) => {
                let tc = chars_of(t.as_str());
                crate::text::append_chars(&mut text, &tc);
            },
            XmlEvent::End(name) => {
                let nc = chars_of(name.as_str());
                let val = trim_chars(&text);
                text = Vec::new();
                match current {
                    Some(ref mut b) => b.apply(&nc, &val),
                    None => {},
                }
                if is_record_exec(&nc) {
                    let taken = current;
                    current = None;
                    match taken {
                        Some(b) => {
                            let ghost bv = b@;
                            match b.build(fetched_at) {
                                Some(it) => items.push(it),
                                None => {},
                            }
                        },
                        None => {},
                    }
                }
                let hn = chars_of("hasNextPage");
                let tr = chars_of("true");
                if chars_eq(&nc, &hn) && chars_eq(&val, &tr) {
                    has_next = true;
                }
            },
            XmlEvent::Other => {},
        }
        i = i + 1;
    }
    assert(evs@.take(evs.len() as int) =~= evs@);
    Ok((items, has_next))
}

/// Once the run has stopped, later events change nothing.
proof fn lemma_read_run_stops(evs: Seq<XmlEvent>, k: int)
    requires
        0 <= k <= evs.len(),
        read_run(evs.take(k)).1 is Some,
    ensures
        read_run(evs) == read_run(evs.take(k)),
    decreases evs.len() - k,
{
    if k < evs.len() {
        assert(evs.take(k + 1).drop_last() =~= evs.take(k));
        lemma_read_run_stops(evs, k + 1);
    } else {
        assert(evs.take(k) =~= evs);
    }
}

/// Every notice that a search answer yields has a non-empty id and title
/// and is tagged with the portal and `fetched_at`.
pub open spec fn sound_items(items: Seq<ProcurementItem>, fetched_at: Seq<char>) -> bool {
    forall|i: int| 0 <= i < items.len() ==> {
        &&& (#[trigger] items[i]).item_id@.len() > 0
        &&& items[i].title@.len() > 0
        &&& items[i].schema_version == 1
        &&& items[i].source.provider@ == "kkj_go_jp"@
        &&& items[i].source.fetched_at@ == fetched_at
    }
}

/// `r` is what `items_from_events` gives for the events `evs`.
pub open spec fn items_of_events(evs: Seq<XmlEvent>, fetched_at: Seq<char>, r: Result<(Vec<ProcurementItem>, bool), ProviderError>) -> bool {
    match read_run(evs) {
        (_, Some(Some(m))) => r matches Err(ProviderError::Xml(em)) && em@ == m,
        (st, _) => r matches Ok((items, next)) && {
            &&& items.len() == st.0.len()
            &&& next == st.3
            &&& forall|i: int| 0 <= i < items.len() ==> built_from(#[trigger] items[i], st.0[i], fetched_at)
        },
    }
}

/// The notices of the XML search answer `xml` and whether it announces a
/// next page; an error if the XML cannot be read.  The answer is read with
/// `read_xml_events`, and its events with `items_from_events`: the result
/// is what the reader events of the bytes, `xml_events(xml)`, give.
pub fn parse_xml(xml: &[u8], fetched_at: &str) -> (r: Result<(Vec<ProcurementItem>, bool), ProviderError>)
    ensures
        r matches Ok((items, _)) ==> sound_items(items@, fetched_at@),
        r matches Err(e) ==> e is Xml,
        items_of_events(xml_events(xml@), fetched_at@, r),
{
    let evs = read_xml_events(xml);
    let r = items_from_events(&evs, fetched_at);
    proof {
        lemma_read_state_builds(evs@);
        assert(items_of_events(evs@, fetched_at@, r));
    }
    r
}

/// Every finished builder of a run builds.
proof fn lemma_read_state_builds(evs: Seq<XmlEvent>)
    ensures
        forall|i: int| 0 <= i < read_run(evs).0.0.len() ==> builds(#[trigger] read_run(evs).0.0[i]),
    decreases evs.len(),
{
    if evs.len() > 0 {
        lemma_read_state_builds(evs.drop_last());
        let (st, stop) = read_run(evs.drop_last());
        if stop is None {
            match evs.last() {
                XmlEvent::Eof => {},
                XmlEvent::Error(_) => {},
                e => {
                    lemma_read_step_builds(st, e);
                },
            }
        }
    }
}

/// One step keeps every finished builder building.
proof fn lemma_read_step_builds(st: ReadState, e: XmlEvent)
    requires
        forall|i: int| 0 <= i < st.0.len() ==> builds(#[trigger] st.0[i]),
    ensures
        forall|i: int| 0 <= i < read_step(st, e).0.len() ==> builds(#[trigger] read_step(st, e).0[i]),
{
    let done = st.0;
    match e {
        XmlEvent::End(name) => {
            let val = trim(st.2);
            let cur1 = match st.1 {
                Some(b) => Some(apply_field(b, name@, val)),
                None => None,
            };
            if is_record(name@) {
                match cur1 {
                    Some(b) => {
                        if builds(b) {
                            assert forall|i: int| 0 <= i < done.push(b).len() implies builds(#[trigger] done.push(b)[i]) by {
                                if i < done.len() {
                                    assert(done.push(b)[i] == done[i]);
                                }
                            }
                        }
                    },
                    None => {},
                }
            }
        },
        _ => {},
    }
}

// ---------------------------------------------------------------------------
// Items of several days
// ---------------------------------------------------------------------------

/// The sort key of an item: by id.
pub open spec fn id_key(it: ProcurementItem) -> SortKey {
    (0u64, Seq::empty(), it.item_id@)
}

/// The keys of the items.
pub open spec fn id_keys(items: Seq<ProcurementItem>) -> Seq<SortKey> {
    Seq::new(items.len(), |i: int| id_key(items[i]))
}

/// Of the positions `order`, those that end a run of equal ids.
pub open spec fn run_ends(items: Seq<ProcurementItem>, order: Seq<usize>) -> Seq<usize>
    decreases order.len(),
{
    if order.len() == 0 {
        Seq::empty()
    } else {
        let rest = run_ends(items, order.drop_first());
        if order.len() == 1 || items[order[0] as int].item_id@ != items[order[1] as int].item_id@ {
            seq![order[0]] + rest
        } else {
            rest
        }
    }
}

/// `out` keeps one item per id, the last one listed, in order of ids.
pub open spec fn latest_by_id(items: Seq<ProcurementItem>, out: Seq<usize>) -> bool {
    exists|order: Seq<usize>| #[trigger] sorted_order(id_keys(items), order) && out == run_ends(items, order)
}

/// The items to keep of the items of several days, as positions: one per
/// id, the last one listed, in order of ids.
pub fn latest_items_by_id(items: &Vec<ProcurementItem>) -> (out: Vec<usize>)
    ensures
        latest_by_id(items@, out@),
{
    let mut keys: Vec<(u64, String, String)> = Vec::new();
    let mut i: usize = 0;
    while i < items.len()
        invariant
            i <= items.len(),
            keys_view(keys@) =~= Seq::new(i as nat, |q: int| id_key(items@[q])),
        decreases items.len() - i,
    {
        let ghost before = keys_view(keys@);
        keys.push((0u64, string_of(&Vec::new()), copy_string(&items[i].item_id)));
        assert(keys_view(keys@) =~= before.push(id_key(items@[i as int])));
        i = i + 1;
    }
    let order = sort_order(&keys);
    assert(id_keys(items@) =~= keys_view(keys@));
    let mut out: Vec<usize> = Vec::new();
    let mut j: usize = order.len();
    assert(order@.skip(j as int) =~= Seq::<usize>::empty());
    while j > 0
        invariant
            j <= order.len(),
            order.len() == items.len(),
            forall|q: int| 0 <= q < order.len() ==> (#[trigger] order@[q]) < items.len(),
            out@ == run_ends(items@, order@.skip(j as int)),
        decreases j,
    {
        let k = order[j - 1];
        assert(order@.skip(j - 1).drop_first() =~= order@.skip(j as int));
        assert(order@.skip(j - 1)[0] == k);
        let last = j == order.len() || items[k].item_id != items[order[j]].item_id;
        proof {
            if j < order.len() {
                assert(order@.skip(j - 1)[1] == order@[j as int]);
            }
        }
        if last {
            let mut v: Vec<usize> = Vec::new();
            v.push(k);
            let mut q: usize = 0;
            while q < out.len()
                invariant
                    q <= out.len(),
                    v@ =~= seq![k] + out@.take(q as int),
                decreases out.len() - q,
            {
                v.push(out[q]);
                q = q + 1;
            }
            assert(out@.take(out.len() as int) =~= out@);
            out = v;
        }
        j = j - 1;
    }
    assert(order@.skip(0) =~= order@);
    out
}

/// The `%Y-%m-%d` text of the day `k` days after day number 0.
pub open spec fn day_text_at(k: int) -> Option<Seq<char>> {
    day_text(k as i32)
}

/// Every day from `a` to `b` has a `%Y-%m-%d` text.
pub open spec fn days_in_range(a: int, b: int) -> bool {
    forall|k: int| a <= k <= b ==> (#[trigger] day_text_at(k)) is Some
}

/// An error of the source with the message `m` followed by `x`.
fn source_error(m: &str, x: &str) -> (e: ProviderError)
    ensures
        e matches ProviderError::Source(t) && t@ == m@ + x@,
{
    let mut v = chars_of(m);
    append_chars(&mut v, &chars_of(x));
    ProviderError::Source(string_of(&v))
}

/// The days a fetch from `from` to `to` (both `%Y-%m-%d`, as `chrono`
/// reads them) asks for, in order: an error when either is not a date or
/// `from` comes after `to`.
pub fn fetch_days(from: &str, to: &str) -> (r: Result<Vec<String>, ProviderError>)
    ensures
        match (ymd_day_number(from@), ymd_day_number(to@)) {
            (None, _) => r matches Err(ProviderError::Source(m)) && m@ == "invalid from date: "@ + from@,
            (Some(_), None) => r matches Err(ProviderError::Source(m)) && m@ == "invalid to date: "@ + to@,
            (Some(a), Some(b)) => if a > b {
                r matches Err(ProviderError::Source(m)) && m@ == "from date must be on or before to date"@
            } else if days_in_range(a as int, b as int) {
                r matches Ok(days) && days.len() == b - a + 1 && forall|i: int|
                    0 <= i < days.len() ==> day_text_at(a + i) == Some(#[trigger] days[i]@)
            } else {
                r matches Err(ProviderError::Source(m)) && m@ == "date range overflow"@
            },
        },
{
    let a = match day_number_of(from) {
        Some(n) => n,
        None => return Err(source_error("invalid from date: ", from)),
    };
    let b = match day_number_of(to) {
        Some(n) => n,
        None => return Err(source_error("invalid to date: ", to)),
    };
    if a > b {
        return Err(ProviderError::Source("from date must be on or before to date".to_owned()));
    }
    let mut days: Vec<String> = Vec::new();
    let mut d: i32 = a;
    loop
        invariant
            ymd_day_number(from@) == Some(a),
            ymd_day_number(to@) == Some(b),
            a <= d <= b,
            days.len() == d - a,
            forall|i: int| 0 <= i < days.len() ==> day_text_at(a + i) == Some(#[trigger] days[i]@),
            forall|k: int| a <= k < d ==> (#[trigger] day_text_at(k)) is Some,
        decreases b - d,
    {
        match text_of_day(d) {
            Some(t) => {
                days.push(t);
                assert(day_text_at(d as int) == day_text(d));
            },
            None => {
                assert(day_text_at(d as int) is None);
                return Err(ProviderError::Source("date range overflow".to_owned()));
            },
        }
        if d == b {
            assert(days_in_range(a as int, b as int));
            return Ok(days);
        }
        d = d + 1;
    }
}

} // verus!
