use lawpub::json::JsonValue;
use lawpub::kokkai::{
    normalize_house, normalize_meeting, parse_meeting_list, FetchedMeeting, KokkaiProvider, MockProvider,
};

fn to_json(v: &serde_json::Value) -> JsonValue {
    match v {
        serde_json::Value::Null => JsonValue::Null,
        serde_json::Value::Bool(b) => JsonValue::Bool(*b),
        serde_json::Value::Number(n) => JsonValue::Number(n.to_string()),
        serde_json::Value::String(s) => JsonValue::Str(s.clone()),
        serde_json::Value::Array(a) => JsonValue::Array(a.iter().map(to_json).collect()),
        serde_json::Value::Object(o) => {
            JsonValue::Object(o.iter().map(|(k, x)| (k.clone(), to_json(x))).collect())
        }
    }
}

fn parse(text: &str) -> JsonValue {
    to_json(&serde_json::from_str::<serde_json::Value>(text).unwrap())
}

const SAMPLE_MEETING_JSON: &str = r#"{
  "numberOfRecords": 1,
  "numberOfReturn": 1,
  "startRecord": 1,
  "nextRecordPosition": -1,
  "meetingRecord": [
    {
      "issueID": "120020241101200X06",
      "imageKind": "会議録",
      "searchObject": 0,
      "session": "215",
      "nameOfHouse": "衆議院",
      "nameOfMeeting": "法務委員会",
      "issue": "第6号",
      "date": "2024-11-01",
      "closing": null,
      "meetingId": "120020241101200X06",
      "speechRecord": [
        {
          "speechID": "120020241101200X06_000",
          "speechOrder": "0",
          "speaker": "委員長",
          "speakerYomi": null,
          "speakerGroup": null,
          "speakerPosition": null,
          "speakerRole": null,
          "speakerId": null,
          "parliamentMemberFlag": 1,
          "governmentSpecialMemberFlag": 0,
          "otherMemberFlag": 0,
          "speech": "これより法務委員会を開会します。",
          "startPage": 1,
          "createTime": "2024-11-10T10:00:00",
          "updateTime": "2024-11-10T10:00:00",
          "speechUrl": "https://kokkai.ndl.go.jp/txt/120020241101200X06/0"
        },
        {
          "speechID": "120020241101200X06_001",
          "speechOrder": "1",
          "speaker": "山田太郎",
          "speakerYomi": "やまだたろう",
          "speakerGroup": "自由民主党",
          "speakerPosition": "委員",
          "speakerRole": null,
          "speakerId": "1234567",
          "parliamentMemberFlag": 1,
          "governmentSpecialMemberFlag": 0,
          "otherMemberFlag": 0,
          "speech": "民法改正案について質問します。",
          "startPage": 2,
          "createTime": "2024-11-10T10:00:00",
          "updateTime": "2024-11-10T10:00:00",
          "speechUrl": "https://kokkai.ndl.go.jp/txt/120020241101200X06/1"
        }
      ]
    }
  ]
}"#;

const SAMPLE_MEETING_LIST_JSON: &str = r#"{
  "numberOfRecords": 1,
  "numberOfReturn": 1,
  "startRecord": 1,
  "nextRecordPosition": -1,
  "meetingRecord": [
    {
      "issueID": "120020241101200X06",
      "session": "215",
      "nameOfHouse": "衆議院",
      "nameOfMeeting": "法務委員会",
      "issue": "第6号",
      "date": "2024-11-01",
      "meetingId": "120020241101200X06",
      "numberOfSpeech": "2"
    }
  ]
}"#;

fn sample_fetched() -> FetchedMeeting {
    FetchedMeeting {
        meeting_id: "120020241101200X06".to_string(),
        raw_json: parse(SAMPLE_MEETING_JSON),
        source_url: "mock://test".to_string(),
    }
}

#[test]
fn normalize_meeting_basic_fields() {
    let fetched = sample_fetched();
    let m = normalize_meeting(&fetched, "2024-11-10T10:00:00Z").unwrap();
    assert_eq!(m.meeting_id, "120020241101200X06");
    assert_eq!(m.session, 215);
    assert_eq!(m.house, "shugiin");
    assert_eq!(m.committee.as_deref(), Some("法務委員会"));
    assert_eq!(m.date, "2024-11-01");
    assert_eq!(m.issue.as_deref(), Some("第6号"));
    assert_eq!(m.schema_version, 1);
    assert_eq!(m.source.provider, "kokkai_ndl");
}

#[test]
fn normalize_meeting_speeches() {
    let fetched = sample_fetched();
    let m = normalize_meeting(&fetched, "2024-11-10T10:00:00Z").unwrap();
    assert_eq!(m.speeches.len(), 2);
    assert_eq!(m.speeches[1].speaker.as_deref(), Some("山田太郎"));
    assert_eq!(m.speeches[1].speaker_group.as_deref(), Some("自由民主党"));
    assert_eq!(m.speeches[1].speech, "民法改正案について質問します。");
}

#[test]
fn mock_provider_returns_meeting() {
    let p = MockProvider;
    let metas = p.fetch_meeting_list(215).unwrap();
    assert!(!metas.is_empty());
    let fetched = p.fetch_meeting(&metas[0].meeting_id).unwrap();
    let m = normalize_meeting(&fetched, "2024-01-01T00:00:00Z").unwrap();
    assert_eq!(m.session, 215);
    assert_eq!(m.speeches.len(), 2);
    assert_eq!(m.speeches[0].speaker.as_deref(), Some("委員長"));
    assert!(m.speeches[0].speaker_group.is_none());
    assert_eq!(m.speeches[1].speaker_group.as_deref(), Some("自由民主党"));
    assert_eq!(m.speeches[1].speaker_id.as_deref(), Some("1234567"));
}

#[test]
fn parse_meeting_list_from_sample() {
    let v = parse(SAMPLE_MEETING_LIST_JSON);
    let metas = parse_meeting_list(&v).unwrap();
    assert_eq!(metas.len(), 1);
    assert_eq!(metas[0].house, "shugiin");
    assert_eq!(metas[0].session, 215);
}

#[test]
fn answer_without_meeting_record_is_an_error() {
    let raw = FetchedMeeting {
        meeting_id: "x".to_string(),
        raw_json: parse(r#"{"numberOfRecords": 0}"#),
        source_url: "u".to_string(),
    };
    assert!(normalize_meeting(&raw, "t").is_err());
    let v = parse(r#"{"meetingRecord": [{"meetingId": "a"}, {"meetingId": "b", "session": "x"}, {"meetingId": "c", "session": "7"}]}"#);
    let metas = parse_meeting_list(&v).unwrap();
    assert_eq!(metas.len(), 1);
    assert_eq!(metas[0].meeting_id, "c");
    assert_eq!(metas[0].speech_count, 0);
    assert_eq!(metas[0].date, "");
}

#[test]
fn session_collects_every_meeting() {
    let b = MockProvider.fetch_session(210).unwrap();
    assert_eq!(b.session, 210);
    assert_eq!(b.meetings.len(), 1);
    assert_eq!(b.meetings[0].meeting_id, "mock_210_001");
}


#[test]
fn houses_are_coded() {
    assert_eq!(normalize_house("衆議院"), "shugiin");
    assert_eq!(normalize_house("参議院"), "sangiin");
    assert_eq!(normalize_house("両院"), "both");
    assert_eq!(normalize_house("両議院"), "both");
    assert_eq!(normalize_house("その他"), "その他");
}

#[test]
fn mock_meeting_list() {
    let metas = MockProvider.fetch_meeting_list(215).unwrap();
    assert_eq!(metas.len(), 1);
    assert_eq!(metas[0].meeting_id, "mock_215_001");
    assert_eq!(metas[0].session, 215);
    assert_eq!(metas[0].speech_count, 3);
}

#[test]
fn failed_meeting_fetches_are_dropped_in_order() {
    let fm = |id: &str| FetchedMeeting { meeting_id: id.to_string(), raw_json: JsonValue::Null, source_url: String::new() };
    let rs = vec![Ok(fm("a")), Err(lawpub::error::ProviderError::NotImplemented), Ok(fm("b"))];
    let v = lawpub::kokkai::successful_meetings(rs);
    assert_eq!(v.len(), 2);
    assert_eq!(v[0].meeting_id, "a");
    assert_eq!(v[1].meeting_id, "b");
}
