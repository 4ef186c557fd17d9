//! Diet proceedings from the National Diet Library's minutes API: the
//! meeting and speech records, the meeting-list source, and house names.
use vstd::prelude::*;
use crate::error::ProviderError;
use crate::num::{dec, u64_to_chars};
use crate::json::{json_array, json_at, json_get, json_str, str_at, str_field, str_field_or_empty, JsonValue};
use crate::num::{parse_u32, parse_u32_spec};
use crate::text::{append_chars, chars_eq, chars_of, opt_view, string_of};

verus! {

/// The API the proceedings come from.
pub const DEFAULT_BASE_URL: &'static str = "https://kokkai.ndl.go.jp/api";

/// One speech of a meeting.
#[derive(Debug, Clone)]
pub struct Speech {
    pub speech_id: String,
    pub order: u32,
    pub speaker: Option<String>,
    pub speaker_id: Option<String>,
    pub speaker_group: Option<String>,
    pub speaker_position: Option<String>,
    pub speech: String,
}

/// One meeting with its speeches.
#[derive(Debug, Clone)]
pub struct Meeting {
    pub schema_version: u32,
    pub meeting_id: String,
    pub session: u32,
    pub house: String,
    pub committee: Option<String>,
    pub date: String,
    pub issue: Option<String>,
    pub speeches: Vec<Speech>,
    pub source: MeetingSource,
}

/// Where and when a meeting was fetched.
#[derive(Debug, Clone)]
pub struct MeetingSource {
    pub provider: String,
    pub fetched_at: String,
}

/// A meeting as the meeting list shows it.
#[derive(Debug, Clone)]
pub struct MeetingMeta {
    pub meeting_id: String,
    pub session: u32,
    pub house: String,
    pub committee: Option<String>,
    pub date: String,
    pub issue: Option<String>,
    pub speech_count: u32,
}

/// The full record of a meeting as the API returns it.
#[derive(Debug)]
pub struct FetchedMeeting {
    pub meeting_id: String,
    pub raw_json: JsonValue,
    pub source_url: String,
}

/// The meetings of a session.
#[derive(Debug)]
pub struct SessionBatch {
    pub session: u32,
    pub meetings: Vec<FetchedMeeting>,
}

/// A source of Diet proceedings.
pub trait KokkaiProvider {
    /// The meetings of Diet session `session`.
    fn fetch_meeting_list(&self, session: u32) -> Result<Vec<MeetingMeta>, ProviderError>;

    /// The full record of meeting `meeting_id`.
    fn fetch_meeting(&self, meeting_id: &str) -> Result<FetchedMeeting, ProviderError>;

    /// Every meeting of a session: the list, then each meeting in list
    /// order; a meeting that cannot be fetched is skipped.
    fn fetch_session(&self, session: u32) -> (r: Result<SessionBatch, ProviderError>)
        ensures
            r matches Ok(b) ==> b.session == session,
    {
        let metas = match self.fetch_meeting_list(session) {
            Ok(m) => m,
            Err(e) => return Err(e),
        };
        let mut fetched: Vec<Result<FetchedMeeting, ProviderError>> = Vec::new();
        let mut i: usize = 0;
        while i < metas.len()
            invariant
                i <= metas.len(),
                fetched.len() == i,
            decreases metas.len() - i,
        {
            fetched.push(self.fetch_meeting(metas[i].meeting_id.as_str()));
            i = i + 1;
        }
        let meetings = successful_meetings(fetched);
        Ok(SessionBatch { session, meetings })
    }
}

/// The meetings that were fetched, in the order of the attempts; failed
/// attempts are dropped.
pub open spec fn successes(rs: Seq<Result<FetchedMeeting, ProviderError>>) -> Seq<FetchedMeeting>
    decreases rs.len(),
{
    if rs.len() == 0 {
        Seq::empty()
    } else {
        let rest = successes(rs.drop_first());
        match rs[0] {
            Ok(m) => seq![m] + rest,
            Err(_) => rest,
        }
    }
}

/// Keeps the meetings of the successful fetches, in order.
pub fn successful_meetings(results: Vec<Result<FetchedMeeting, ProviderError>>) -> (v: Vec<FetchedMeeting>)
    ensures
        v@ == successes(results@),
{
    let ghost orig = results@;
    let mut rs = results;
    let mut out: Vec<FetchedMeeting> = Vec::new();
    while rs.len() > 0
        invariant
            out@ + successes(rs@) == successes(orig),
        decreases rs.len(),
    {
        let ghost before = rs@;
        let r = rs.remove(0);
        assert(rs@ =~= before.drop_first());
        match r {
            Ok(m) => {
                out.push(m);
                assert(out@ + successes(rs@) =~= successes(orig));
            },
            Err(_) => {},
        }
    }
    assert(successes(rs@) =~= Seq::<FetchedMeeting>::empty());
    assert(out@ =~= successes(orig));
    out
}

/// The bundled source: one sample meeting per session.
pub struct MockProvider;

/// An object member.
fn member_of(key: &str, value: JsonValue) -> (m: (String, JsonValue))
    ensures
        m.0@ == key@,
        m.1 == value,
{
    (key.to_owned(), value)
}

/// A string value.
fn jstr(s: &str) -> (v: JsonValue)
    ensures
        json_str(v) == Some(s@),
{
    JsonValue::Str(s.to_owned())
}

/// The view of an optional string argument.
pub open spec fn str_opt_view(o: Option<&str>) -> Option<Seq<char>> {
    match o {
        Some(s) => Some(s@),
        None => None,
    }
}

/// `j` is the string `s` where there is one, `null` where there is none.
pub open spec fn str_or_null(j: JsonValue, o: Option<Seq<char>>) -> bool {
    match o {
        Some(s) => json_str(j) == Some(s),
        None => j is Null,
    }
}

/// `v` is the number whose JSON text is `t`.
pub open spec fn number_text(v: JsonValue, t: Seq<char>) -> bool {
    v matches JsonValue::Number(n) && n@ == t
}

/// `v` is a speech record object with exactly these members, in this
/// order: `speechID`, `speechOrder`, `speaker`, `speakerGroup`,
/// `speakerPosition`, `speakerId` (the optional ones `null` when absent)
/// and `speech`.
pub open spec fn speech_record(
    v: JsonValue,
    id: Seq<char>,
    order: Seq<char>,
    speaker: Seq<char>,
    group: Option<Seq<char>>,
    position: Option<Seq<char>>,
    speaker_id: Option<Seq<char>>,
    speech: Seq<char>,
) -> bool {
    v matches JsonValue::Object(f) && {
        &&& f@.len() == 7
        &&& f@[0].0@ == "speechID"@ && json_str(f@[0].1) == Some(id)
        &&& f@[1].0@ == "speechOrder"@ && json_str(f@[1].1) == Some(order)
        &&& f@[2].0@ == "speaker"@ && json_str(f@[2].1) == Some(speaker)
        &&& f@[3].0@ == "speakerGroup"@ && str_or_null(f@[3].1, group)
        &&& f@[4].0@ == "speakerPosition"@ && str_or_null(f@[4].1, position)
        &&& f@[5].0@ == "speakerId"@ && str_or_null(f@[5].1, speaker_id)
        &&& f@[6].0@ == "speech"@ && json_str(f@[6].1) == Some(speech)
    }
}

/// The two speeches of the sample meeting: the chair's opening and a
/// member's question.
pub open spec fn sample_speeches(v: JsonValue) -> bool {
    v matches JsonValue::Array(sp) && {
        &&& sp@.len() == 2
        &&& speech_record(
            sp@[0],
            "120020241101200X06_000"@,
            "0"@,
            "委員長"@,
            None,
            None,
            None,
            "これより法務委員会を開会します。"@,
        )
        &&& speech_record(
            sp@[1],
            "120020241101200X06_001"@,
            "1"@,
            "山田太郎"@,
            Some("自由民主党"@),
            Some("委員"@),
            Some("1234567"@),
            "民法改正案について質問します。"@,
        )
    }
}

/// The sample meeting's record: session 215, the House of
/// Representatives' 法務委員会 第6号 on 2024-11-01, its two speeches.
pub open spec fn sample_record_entry(v: JsonValue) -> bool {
    v matches JsonValue::Object(rec) && {
        &&& rec@.len() == 9
        &&& rec@[0].0@ == "issueID"@ && json_str(rec@[0].1) == Some("120020241101200X06"@)
        &&& rec@[1].0@ == "session"@ && json_str(rec@[1].1) == Some("215"@)
        &&& rec@[2].0@ == "nameOfHouse"@ && json_str(rec@[2].1) == Some("衆議院"@)
        &&& rec@[3].0@ == "nameOfMeeting"@ && json_str(rec@[3].1) == Some("法務委員会"@)
        &&& rec@[4].0@ == "issue"@ && json_str(rec@[4].1) == Some("第6号"@)
        &&& rec@[5].0@ == "date"@ && json_str(rec@[5].1) == Some("2024-11-01"@)
        &&& rec@[6].0@ == "closing"@ && rec@[6].1 is Null
        &&& rec@[7].0@ == "meetingId"@ && json_str(rec@[7].1) == Some("120020241101200X06"@)
        &&& rec@[8].0@ == "speechRecord"@ && sample_speeches(rec@[8].1)
    }
}

/// The sample answer: the counters of a one-record page and the one
/// `meetingRecord`.
pub open spec fn sample_meeting_record(v: JsonValue) -> bool {
    v matches JsonValue::Object(top) && {
        &&& top@.len() == 5
        &&& top@[0].0@ == "numberOfRecords"@ && number_text(top@[0].1, "1"@)
        &&& top@[1].0@ == "numberOfReturn"@ && number_text(top@[1].1, "1"@)
        &&& top@[2].0@ == "startRecord"@ && number_text(top@[2].1, "1"@)
        &&& top@[3].0@ == "nextRecordPosition"@ && number_text(top@[3].1, "-1"@)
        &&& top@[4].0@ == "meetingRecord"@ && sample_records(top@[4].1)
    }
}

/// A list of exactly the sample meeting's record.
pub open spec fn sample_records(v: JsonValue) -> bool {
    v matches JsonValue::Array(records) && records@.len() == 1 && sample_record_entry(records@[0])
}

/// A string value, or `null` for none.
fn jopt(o: Option<&str>) -> (j: JsonValue)
    ensures
        str_or_null(j, str_opt_view(o)),
{
    match o {
        Some(s) => JsonValue::Str(s.to_owned()),
        None => JsonValue::Null,
    }
}

/// One speech record of the sample meeting.
fn sample_speech(
    id: &str,
    order: &str,
    speaker: &str,
    group: Option<&str>,
    position: Option<&str>,
    speaker_id: Option<&str>,
    speech: &str,
) -> (v: JsonValue)
    ensures
        speech_record(
            v,
            id@,
            order@,
            speaker@,
            str_opt_view(group),
            str_opt_view(position),
            str_opt_view(speaker_id),
            speech@,
        ),
{
    let mut f: Vec<(String, JsonValue)> = Vec::new();
    f.push(member_of("speechID", jstr(id)));
    f.push(member_of("speechOrder", jstr(order)));
    f.push(member_of("speaker", jstr(speaker)));
    f.push(member_of("speakerGroup", jopt(group)));
    f.push(member_of("speakerPosition", jopt(position)));
    f.push(member_of("speakerId", jopt(speaker_id)));
    f.push(member_of("speech", jstr(speech)));
    JsonValue::Object(f)
}

/// A number value with the JSON text `t`.
fn jnum(t: &str) -> (v: JsonValue)
    ensures
        number_text(v, t@),
{
    JsonValue::Number(t.to_owned())
}

/// The sample meeting record (session 215, 法務委員会 第6号, two speeches).
fn sample_meeting() -> (v: JsonValue)
    ensures
        sample_meeting_record(v),
{
    let mut speeches: Vec<JsonValue> = Vec::new();
    speeches.push(sample_speech("120020241101200X06_000", "0", "委員長", None, None, None, "これより法務委員会を開会します。"));
    speeches.push(
        sample_speech(
            "120020241101200X06_001",
            "1",
            "山田太郎",
            Some("自由民主党"),
            Some("委員"),
            Some("1234567"),
            "民法改正案について質問します。",
        ),
    );
    let mut rec: Vec<(String, JsonValue)> = Vec::new();
    rec.push(member_of("issueID", jstr("120020241101200X06")));
    rec.push(member_of("session", jstr("215")));
    rec.push(member_of("nameOfHouse", jstr("衆議院")));
    rec.push(member_of("nameOfMeeting", jstr("法務委員会")));
    rec.push(member_of("issue", jstr("第6号")));
    rec.push(member_of("date", jstr("2024-11-01")));
    rec.push(member_of("closing", JsonValue::Null));
    rec.push(member_of("meetingId", jstr("120020241101200X06")));
    rec.push(member_of("speechRecord", JsonValue::Array(speeches)));
    let mut records: Vec<JsonValue> = Vec::new();
    records.push(JsonValue::Object(rec));
    let mut top: Vec<(String, JsonValue)> = Vec::new();
    top.push(member_of("numberOfRecords", jnum("1")));
    top.push(member_of("numberOfReturn", jnum("1")));
    top.push(member_of("startRecord", jnum("1")));
    top.push(member_of("nextRecordPosition", jnum("-1")));
    top.push(member_of("meetingRecord", JsonValue::Array(records)));
    JsonValue::Object(top)
}

impl KokkaiProvider for MockProvider {
    /// One meeting `mock_{session}_001` of the House of Representatives'
    /// Judicial Affairs Committee on 2024-11-01 (第1号, three speeches).
    fn fetch_meeting_list(&self, session: u32) -> (r: Result<Vec<MeetingMeta>, ProviderError>)
        ensures
            r matches Ok(v) && {
                &&& v.len() == 1
                &&& v[0].meeting_id@ == "mock_"@ + dec(session as nat) + "_001"@
                &&& v[0].session == session
                &&& v[0].house@ == "shugiin"@
                &&& opt_view(v[0].committee) == Some("法務委員会"@)
                &&& v[0].date@ == "2024-11-01"@
                &&& opt_view(v[0].issue) == Some("第1号"@)
                &&& v[0].speech_count == 3
            },
    {
        let mut id = chars_of("mock_");
        let n = u64_to_chars(session as u64);
        append_chars(&mut id, &n);
        let t = chars_of("_001");
        append_chars(&mut id, &t);
        let meta = MeetingMeta {
            meeting_id: string_of(&id),
            session,
            house: "shugiin".to_owned(),
            committee: Some("法務委員会".to_owned()),
            date: "2024-11-01".to_owned(),
            issue: Some("第1号".to_owned()),
            speech_count: 3,
        };
        let mut v: Vec<MeetingMeta> = Vec::new();
        v.push(meta);
        Ok(v)
    }

    /// The sample meeting record under the requested id, from
    /// `mock://kokkai/{meeting_id}`.
    fn fetch_meeting(&self, meeting_id: &str) -> (r: Result<FetchedMeeting, ProviderError>)
        ensures
            r matches Ok(f) && f.meeting_id@ == meeting_id@ && f.source_url@ == "mock://kokkai/"@ + meeting_id@,
    {
        let mut url = chars_of("mock://kokkai/");
        let m = chars_of(meeting_id);
        append_chars(&mut url, &m);
        Ok(FetchedMeeting { meeting_id: meeting_id.to_owned(), raw_json: sample_meeting(), source_url: string_of(&url) })
    }
}

/// The house code of a house name: 衆議院 → `shugiin`, 参議院 → `sangiin`,
/// 両院 / 両議院 → `both`; any other name is kept.
pub open spec fn house_code(raw: Seq<char>) -> Seq<char> {
    if raw == "衆議院"@ {
        "shugiin"@
    } else if raw == "参議院"@ {
        "sangiin"@
    } else if raw == "両院"@ || raw == "両議院"@ {
        "both"@
    } else {
        raw
    }
}

/// The house code of the API's `nameOfHouse`.
pub fn normalize_house(raw: &str) -> (out: String)
    ensures
        out@ == house_code(raw@),
{
    let r = chars_of(raw);
    let shu = chars_of("衆議院");
    let san = chars_of("参議院");
    let ryo = chars_of("両院");
    let ryo2 = chars_of("両議院");
    if chars_eq(&r, &shu) {
        "shugiin".to_owned()
    } else if chars_eq(&r, &san) {
        "sangiin".to_owned()
    } else if chars_eq(&r, &ryo) || chars_eq(&r, &ryo2) {
        "both".to_owned()
    } else {
        raw.to_owned()
    }
}


// ---------------------------------------------------------------------------
// Reading the API's answers
// ---------------------------------------------------------------------------

/// A meeting-list entry: id, session, house code, committee, date, issue,
/// number of speeches.
pub type MetaView = (Seq<char>, u32, Seq<char>, Option<Seq<char>>, Seq<char>, Option<Seq<char>>, u32);

/// The view of a meeting-list entry.
pub open spec fn meta_view(m: MeetingMeta) -> MetaView {
    (m.meeting_id@, m.session, m.house@, opt_view(m.committee), m.date@, opt_view(m.issue), m.speech_count)
}

/// `o.unwrap_or("")`.
pub open spec fn or_empty(o: Option<Seq<char>>) -> Seq<char> {
    match o {
        Some(s) => s,
        None => Seq::empty(),
    }
}

/// A number written as a `u32`, else 0.
pub open spec fn u32_or_zero(o: Option<Seq<char>>) -> u32 {
    match o {
        Some(s) => match parse_u32_spec(s) {
            Some(n) => n,
            None => 0,
        },
        None => 0,
    }
}

/// The entry a meeting-list record gives: it needs a `meetingId` and a
/// `session` that reads as a number.
pub open spec fn meta_of(r: JsonValue) -> Option<MetaView> {
    match (str_at(r, "meetingId"@), str_at(r, "session"@)) {
        (Some(id), Some(s)) => match parse_u32_spec(s) {
            Some(n) => Some(
                (
                    id,
                    n,
                    house_code(or_empty(str_at(r, "nameOfHouse"@))),
                    str_at(r, "nameOfMeeting"@),
                    or_empty(str_at(r, "date"@)),
                    str_at(r, "issue"@),
                    u32_or_zero(str_at(r, "numberOfSpeech"@)),
                ),
            ),
            None => None,
        },
        _ => None,
    }
}

/// The listed meeting `m` carries the fields of the record `r` as the API
/// writes them: its `meetingId`, its numeric `session`, its
/// `nameOfMeeting`, its `date` (empty where absent) and its `issue`.
pub open spec fn record_gives(r: JsonValue, m: MetaView) -> bool {
    &&& str_at(r, "meetingId"@) == Some(m.0)
    &&& (str_at(r, "session"@) matches Some(s) && parse_u32_spec(s) == Some(m.1))
    &&& m.3 == str_at(r, "nameOfMeeting"@)
    &&& m.4 == (match str_at(r, "date"@) {
        Some(d) => d,
        None => Seq::empty(),
    })
    &&& m.5 == str_at(r, "issue"@)
}

/// Some record of `rs` gives the listed meeting `m`.
pub open spec fn from_some_record(rs: Seq<JsonValue>, m: MetaView) -> bool {
    exists|j: int| 0 <= j < rs.len() && #[trigger] record_gives(rs[j], m)
}

/// Every listed meeting comes from a record and carries that record's id,
/// session, meeting name, date and issue; and every record with an id and a
/// numeric session is listed.
#[verifier::spinoff_prover]
#[verifier::rlimit(50)]
pub proof fn lemma_meeting_list_fields(rs: Seq<JsonValue>)
    ensures
        forall|i: int| 0 <= i < metas_of(rs).len() ==> from_some_record(rs, #[trigger] metas_of(rs)[i]),
        forall|j: int|
            0 <= j < rs.len() && (#[trigger] str_at(rs[j], "meetingId"@)) is Some && (str_at(rs[j], "session"@) matches Some(s)
                && parse_u32_spec(s) is Some) ==> exists|i: int|
                0 <= i < metas_of(rs).len() && Some(#[trigger] metas_of(rs)[i].0) == str_at(rs[j], "meetingId"@),
    decreases rs.len(),
{
    if rs.len() > 0 {
        let p = rs.drop_last();
        lemma_meeting_list_fields(p);
        let mp = metas_of(p);
        let m = metas_of(rs);
        let n = rs.len() - 1;
        assert(rs.last() == rs[n]);
        assert forall|i: int| 0 <= i < m.len() implies from_some_record(rs, #[trigger] m[i]) by {
            if i < mp.len() {
                assert(m[i] == mp[i]);
                assert(from_some_record(p, mp[i]));
                let j = choose|j: int| 0 <= j < p.len() && #[trigger] record_gives(p[j], mp[i]);
                assert(p[j] == rs[j]);
                assert(record_gives(rs[j], m[i]));
            } else {
                assert(record_gives(rs[n], m[i]));
            }
        }
        assert forall|j: int|
            0 <= j < rs.len() && (#[trigger] str_at(rs[j], "meetingId"@)) is Some && (str_at(rs[j], "session"@) matches Some(s)
                && parse_u32_spec(s) is Some) implies exists|i: int|
                0 <= i < m.len() && Some(#[trigger] m[i].0) == str_at(rs[j], "meetingId"@) by {
            if j < n {
                assert(p[j] == rs[j]);
                assert(str_at(p[j], "meetingId"@) is Some);
                let i = choose|i: int| 0 <= i < mp.len() && Some(#[trigger] mp[i].0) == str_at(p[j], "meetingId"@);
                assert(m[i] == mp[i]);
            } else {
                assert(m[mp.len() as int].0 == str_at(rs[n], "meetingId"@).unwrap());
            }
        }
    }
}

proof fn lemma_listed_from_records(out: Seq<MeetingMeta>, rs: Seq<JsonValue>)
    requires
        out.len() == metas_of(rs).len(),
        forall|k: int| 0 <= k < out.len() ==> meta_view(#[trigger] out[k]) == metas_of(rs)[k],
    ensures
        forall|i: int| 0 <= i < out.len() ==> from_some_record(rs, meta_view(#[trigger] out[i])),
{
    lemma_meeting_list_fields(rs);
    assert forall|i: int| 0 <= i < out.len() implies from_some_record(rs, meta_view(#[trigger] out[i])) by {
        assert(meta_view(out[i]) == metas_of(rs)[i]);
        assert(from_some_record(rs, metas_of(rs)[i]));
    }
}

/// The entries of the records that give one, in order.
pub open spec fn metas_of(rs: Seq<JsonValue>) -> Seq<MetaView>
    decreases rs.len(),
{
    if rs.len() == 0 {
        Seq::empty()
    } else {
        match meta_of(rs.last()) {
            Some(m) => metas_of(rs.drop_last()).push(m),
            None => metas_of(rs.drop_last()),
        }
    }
}

/// The `meetingRecord` array of an answer (empty when absent).
pub open spec fn meeting_records(v: JsonValue) -> Seq<JsonValue> {
    match json_get(v, "meetingRecord"@) {
        Some(x) => match json_array(x) {
            Some(items) => items,
            None => Seq::empty(),
        },
        None => Seq::empty(),
    }
}

/// `v[key].as_str().and_then(|s| s.parse().ok()).unwrap_or(0)`.
fn u32_field_or_zero(v: &JsonValue, key: &str) -> (n: u32)
    ensures
        n == u32_or_zero(str_at(*v, key@)),
{
    match str_field(v, key) {
        Some(s) => {
            let c = chars_of(s.as_str());
            match parse_u32(&c) {
                Some(n) => n,
                None => 0,
            }
        },
        None => 0,
    }
}

/// The `meetingRecord` items of an answer.
fn records_of(v: &JsonValue) -> (r: Option<&Vec<JsonValue>>)
    ensures
        match r {
            Some(items) => items@ == meeting_records(*v),
            None => meeting_records(*v) == Seq::<JsonValue>::empty(),
        },
{
    match v.get("meetingRecord") {
        Some(x) => x.as_array(),
        None => None,
    }
}

/// The meetings listed in a `meeting_list` answer: each record with a
/// `meetingId` and a numeric `session`, the house as a code.
pub fn parse_meeting_list(v: &JsonValue) -> (r: Result<Vec<MeetingMeta>, ProviderError>)
    ensures
        r matches Ok(ms) && ms@.len() == metas_of(meeting_records(*v)).len() && forall|i: int|
            0 <= i < ms.len() ==> meta_view(#[trigger] ms@[i]) == metas_of(meeting_records(*v))[i],
        r matches Ok(ms) && forall|i: int|
            0 <= i < ms.len() ==> from_some_record(meeting_records(*v), meta_view(#[trigger] ms@[i])),
{
    let mut out: Vec<MeetingMeta> = Vec::new();
    let records = match records_of(v) {
        Some(rs) => rs,
        None => return Ok(out),
    };
    let ghost rs = records@;
    let mut i: usize = 0;
    while i < records.len()
        invariant
            i <= records.len(),
            rs == records@,
            out@.len() == metas_of(rs.take(i as int)).len(),
            forall|k: int| 0 <= k < out.len() ==> meta_view(#[trigger] out@[k]) == metas_of(rs.take(i as int))[k],
        decreases records.len() - i,
    {
        let r = &records[i];
        assert(rs.take(i + 1).drop_last() =~= rs.take(i as int));
        assert(rs.take(i + 1).last() == *r);
        let id = str_field(r, "meetingId");
        let sess = str_field(r, "session");
        match (id, sess) {
            (Some(id), Some(s)) => {
                let sc = chars_of(s.as_str());
                match parse_u32(&sc) {
                    Some(n) => {
                        let house = str_field_or_empty(r, "nameOfHouse");
                        let m = MeetingMeta {
                            meeting_id: id,
                            session: n,
                            house: normalize_house(house.as_str()),
                            committee: str_field(r, "nameOfMeeting"),
                            date: str_field_or_empty(r, "date"),
                            issue: str_field(r, "issue"),
                            speech_count: u32_field_or_zero(r, "numberOfSpeech"),
                        };
                        out.push(m);
                    },
                    None => {},
                }
            },
            _ => {},
        }
        i = i + 1;
    }
    assert(rs.take(records.len() as int) =~= rs);
    proof {
        lemma_listed_from_records(out@, rs);
    }
    Ok(out)
}

/// A speech: id, order, speaker, speaker id, group, position, text.
pub type SpeechView = (Seq<char>, u32, Option<Seq<char>>, Option<Seq<char>>, Option<Seq<char>>, Option<Seq<char>>, Seq<char>);

/// The view of a speech.
pub open spec fn speech_view(s: Speech) -> SpeechView {
    (
        s.speech_id@,
        s.order,
        opt_view(s.speaker),
        opt_view(s.speaker_id),
        opt_view(s.speaker_group),
        opt_view(s.speaker_position),
        s.speech@,
    )
}

/// The speech a speech record gives: it needs a non-empty `speechID`.
pub open spec fn speech_of(s: JsonValue) -> Option<SpeechView> {
    let id = or_empty(str_at(s, "speechID"@));
    if id.len() == 0 {
        None
    } else {
        Some(
            (
                id,
                u32_or_zero(str_at(s, "speechOrder"@)),
                str_at(s, "speaker"@),
                str_at(s, "speakerId"@),
                str_at(s, "speakerGroup"@),
                str_at(s, "speakerPosition"@),
                or_empty(str_at(s, "speech"@)),
            ),
        )
    }
}

/// The speeches of the records that give one, in order.
pub open spec fn speeches_of(rs: Seq<JsonValue>) -> Seq<SpeechView>
    decreases rs.len(),
{
    if rs.len() == 0 {
        Seq::empty()
    } else {
        match speech_of(rs.last()) {
            Some(m) => speeches_of(rs.drop_last()).push(m),
            None => speeches_of(rs.drop_last()),
        }
    }
}

/// `m` is the meeting that record `rec` of fetched meeting `id` gives.
pub open spec fn meeting_from(m: Meeting, rec: JsonValue, id: Seq<char>, fetched_at: Seq<char>) -> bool {
    let sp = match json_array(json_at(rec, "speechRecord"@)) {
        Some(items) => speeches_of(items),
        None => Seq::empty(),
    };
    &&& m.schema_version == 1
    &&& m.meeting_id@ == match str_at(rec, "meetingId"@) {
        Some(x) => x,
        None => id,
    }
    &&& m.session == u32_or_zero(str_at(rec, "session"@))
    &&& m.house@ == house_code(or_empty(str_at(rec, "nameOfHouse"@)))
    &&& opt_view(m.committee) == str_at(rec, "nameOfMeeting"@)
    &&& m.date@ == or_empty(str_at(rec, "date"@))
    &&& opt_view(m.issue) == str_at(rec, "issue"@)
    &&& m.speeches@.len() == sp.len()
    &&& forall|i: int| 0 <= i < sp.len() ==> speech_view(#[trigger] m.speeches@[i]) == sp[i]
    &&& m.source.provider@ == "kokkai_ndl"@
    &&& m.source.fetched_at@ == fetched_at
}

/// The meeting of a `meeting` answer: its first `meetingRecord`, with
/// each speech record that has an id; an error when the answer has no
/// meeting record.
pub fn normalize_meeting(raw: &FetchedMeeting, fetched_at: &str) -> (r: Result<Meeting, ProviderError>)
    ensures
        meeting_records(raw.raw_json).len() == 0 ==> r matches Err(ProviderError::Source(_)),
        meeting_records(raw.raw_json).len() > 0 ==> (r matches Ok(m) && meeting_from(
            m,
            meeting_records(raw.raw_json)[0],
            raw.meeting_id@,
            fetched_at@,
        )),
{
    let rec = match records_of(&raw.raw_json) {
        Some(rs) => {
            if rs.len() == 0 {
                return Err(ProviderError::Source("no meetingRecord in response".to_owned()));
            }
            &rs[0]
        },
        None => return Err(ProviderError::Source("no meetingRecord in response".to_owned())),
    };
    let meeting_id = match str_field(rec, "meetingId") {
        Some(x) => x,
        None => raw.meeting_id.clone(),
    };
    let session = u32_field_or_zero(rec, "session");
    let house = str_field_or_empty(rec, "nameOfHouse");
    let date = str_field_or_empty(rec, "date");
    let mut speeches: Vec<Speech> = Vec::new();
    let items: Option<&Vec<JsonValue>> = match rec.get("speechRecord") {
        Some(x) => x.as_array(),
        None => None,
    };
    let ghost sp = match json_array(json_at(*rec, "speechRecord"@)) {
        Some(items) => speeches_of(items),
        None => Seq::empty(),
    };
    match items {
        Some(list) => {
            let ghost ls = list@;
            let mut i: usize = 0;
            while i < list.len()
                invariant
                    i <= list.len(),
                    ls == list@,
                    speeches@.len() == speeches_of(ls.take(i as int)).len(),
                    forall|k: int| 0 <= k < speeches.len() ==> speech_view(#[trigger] speeches@[k]) == speeches_of(ls.take(i as int))[k],
                decreases list.len() - i,
            {
                let s = &list[i];
                assert(ls.take(i + 1).drop_last() =~= ls.take(i as int));
                assert(ls.take(i + 1).last() == *s);
                let id = str_field_or_empty(s, "speechID");
                if !id.as_str().is_empty() {
                    let sp1 = Speech {
                        speech_id: id,
                        order: u32_field_or_zero(s, "speechOrder"),
                        speaker: str_field(s, "speaker"),
                        speaker_id: str_field(s, "speakerId"),
                        speaker_group: str_field(s, "speakerGroup"),
                        speaker_position: str_field(s, "speakerPosition"),
                        speech: str_field_or_empty(s, "speech"),
                    };
                    speeches.push(sp1);
                }
                i = i + 1;
            }
            assert(ls.take(list.len() as int) =~= ls);
        },
        None => {},
    }
    Ok(Meeting {
        schema_version: 1,
        meeting_id,
        session,
        house: normalize_house(house.as_str()),
        committee: str_field(rec, "nameOfMeeting"),
        date,
        issue: str_field(rec, "issue"),
        speeches,
        source: MeetingSource { provider: "kokkai_ndl".to_owned(), fetched_at: fetched_at.to_owned() },
    })
}

} // verus!
