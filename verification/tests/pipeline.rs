use lawpub::archive::maybe_unzip_xml;
use lawpub::cli::compress::is_compress_target;
use lawpub::cli::diffs::{diff_file_name, diff_pairs, diff_path, revision_path, snapshot_current};
use lawpub::cli::revisions::revision_id_from_sha;
use lawpub::cli::snapshots::VersionEntry;
use lawpub::error::ProviderError;
use lawpub::estat::{next_key, stats_dataset, PageStep, Paging, StatValue};
use lawpub::json::JsonValue;
use lawpub::procurement::{latest_items_by_id, ProcurementItem, ProcurementSource};
use std::io::Write;

fn v(rev: &str, eff: Option<&str>, body: bool) -> VersionEntry {
    VersionEntry {
        revision_id: rev.to_string(),
        effective_date: eff.map(String::from),
        promulgation_date: None,
        body_available: body,
    }
}

#[test]
fn revision_id_is_first_twelve_hash_digits() {
    assert_eq!(revision_id_from_sha("0123456789abcdef0123"), "0123456789ab");
    assert_eq!(revision_id_from_sha("abc"), "abc");
    assert_eq!(revision_id_from_sha(""), "");
}

#[test]
fn compress_targets_are_json_and_ndjson_but_not_search_db() {
    assert!(is_compress_target("current.json"));
    assert!(is_compress_target("all.ndjson"));
    assert!(!is_compress_target("current.json.gz"));
    assert!(!is_compress_target("search.db"));
    assert!(!is_compress_target("search.db.json"));
    assert!(!is_compress_target(".json"));
    assert!(!is_compress_target("json"));
    assert!(!is_compress_target("data.JSON"));
}

#[test]
fn diff_pairs_follow_effective_dates_with_undated_last() {
    let vs = vec![
        v("r3", Some("2024-04-01"), true),
        v("rx", None, true),
        v("r1", Some("2017-06-01"), true),
        v("meta", Some("2019-01-01"), false),
        v("r2", Some("2020-04-01"), true),
    ];
    assert_eq!(diff_pairs(&vs), vec![(2, 4), (4, 0), (0, 1)]);
    assert!(diff_pairs(&vec![v("r1", Some("2020-01-01"), true)]).is_empty());
    assert!(diff_pairs(&vec![]).is_empty());
}

#[test]
fn undated_revisions_are_ordered_by_id() {
    let vs = vec![v("b", None, true), v("a", None, true)];
    assert_eq!(diff_pairs(&vs), vec![(1, 0)]);
}

#[test]
fn published_paths() {
    let name = diff_file_name("r1", "r2");
    assert_eq!(name, "r1..r2.json");
    assert_eq!(diff_path("LAW1", &name), "laws/LAW1/diff/r1..r2.json");
    assert_eq!(revision_path("LAW1", "r1"), "laws/LAW1/revisions/r1.json");
    assert_eq!(snapshot_current("LAW1", &v("r1", None, true)), Some("laws/LAW1/revisions/r1.json".to_string()));
    assert_eq!(snapshot_current("LAW1", &v("r1", None, false)), None);
}

fn zip_of(entries: &[(&str, &[u8])]) -> Vec<u8> {
    let mut w = zip::ZipWriter::new(std::io::Cursor::new(Vec::new()));
    let opts = zip::write::SimpleFileOptions::default().compression_method(zip::CompressionMethod::Stored);
    for (name, data) in entries {
        w.start_file(*name, opts).unwrap();
        w.write_all(data).unwrap();
    }
    w.finish().unwrap().into_inner()
}

fn source_message(r: Result<Vec<u8>, ProviderError>) -> String {
    match r {
        Err(ProviderError::Source(m)) => m,
        other => panic!("expected a source error, got {:?}", other),
    }
}

#[test]
fn plain_answer_is_returned_as_is() {
    let xml = b"<Law/>".to_vec();
    assert_eq!(maybe_unzip_xml(xml.clone()).unwrap(), xml);
}

#[test]
fn zipped_answer_gives_first_xml_entry() {
    let z = zip_of(&[("readme.txt", b"hello"), ("law.XML", b"<Law>1</Law>"), ("b.xml", b"<Law>2</Law>")]);
    assert_eq!(maybe_unzip_xml(z).unwrap(), b"<Law>1</Law>".to_vec());
}

#[test]
fn zip_without_xml_is_refused() {
    let z = zip_of(&[("readme.txt", b"hello")]);
    assert_eq!(source_message(maybe_unzip_xml(z)), "zip contained no .xml entry");
}

#[test]
fn broken_zip_is_refused() {
    let mut bytes = b"PK\x03\x04".to_vec();
    bytes.extend_from_slice(&[0u8; 16]);
    assert_eq!(source_message(maybe_unzip_xml(bytes)), "open zip");
}

fn conv(v: &serde_json::Value) -> JsonValue {
    match v {
        serde_json::Value::Null => JsonValue::Null,
        serde_json::Value::Bool(b) => JsonValue::Bool(*b),
        serde_json::Value::Number(n) => JsonValue::Number(n.to_string()),
        serde_json::Value::String(s) => JsonValue::Str(s.clone()),
        serde_json::Value::Array(a) => JsonValue::Array(a.iter().map(conv).collect()),
        serde_json::Value::Object(o) => JsonValue::Object(o.iter().map(|(k, x)| (k.clone(), conv(x))).collect()),
    }
}

fn parse(text: &str) -> JsonValue {
    conv(&serde_json::from_str::<serde_json::Value>(text).unwrap())
}

#[test]
fn next_key_reads_number_or_text() {
    assert_eq!(next_key(&parse(r#"{"GET_STATS_DATA":{"STATISTICAL_DATA":{"RESULT_INF":{"NEXT_KEY":101}}}}"#)), Some(101));
    assert_eq!(next_key(&parse(r#"{"GET_STATS_DATA":{"STATISTICAL_DATA":{"RESULT_INF":{"NEXT_KEY":"202"}}}}"#)), Some(202));
    assert_eq!(next_key(&parse(r#"{"GET_STATS_DATA":{"STATISTICAL_DATA":{"RESULT_INF":{}}}}"#)), None);
    assert_eq!(next_key(&parse(r#"{}"#)), None);
}

#[test]
fn paging_stops_on_repeat() {
    let mut p = Paging::new();
    assert!(matches!(p.step(Some(11), "T1"), PageStep::NextPage(11)));
    match p.step(Some(11), "T1") {
        PageStep::Failed(m) => assert_eq!(m, "e-Stat pagination repeated NEXT_KEY=11 for T1"),
        other => panic!("unexpected {:?}", other),
    }
}

#[test]
fn paging_finishes_without_next_key() {
    let mut p = Paging::new();
    assert!(matches!(p.step(None, "T1"), PageStep::Finished));
}

#[test]
fn paging_gives_up_after_the_page_limit() {
    let mut p = Paging::new();
    for k in 1..50u64 {
        assert!(matches!(p.step(Some(k), "T1"), PageStep::NextPage(_)));
    }
    match p.step(Some(50), "T1") {
        PageStep::Failed(m) => assert_eq!(m, "e-Stat pagination exceeded 50 pages for T1"),
        other => panic!("unexpected {:?}", other),
    }
}

#[test]
fn empty_dataset_is_an_error() {
    match stats_dataset("T1", "歳出", Vec::new(), "now") {
        Err(ProviderError::Source(m)) => assert_eq!(m, "e-Stat returned no values for T1 (歳出)"),
        _ => panic!("expected an error"),
    }
    let value = StatValue {
        area: None,
        time: None,
        category: None,
        dimensions: lawpub::stat_dims::Dimensions::new(),
        value: "1".to_string(),
        unit: None,
    };
    let d = stats_dataset("T1", "歳出", vec![value], "now").unwrap();
    assert_eq!(d.stats_data_id, "T1");
    assert_eq!(d.source.provider, "estat");
    assert_eq!(d.values.len(), 1);
}

fn item(id: &str, title: &str) -> ProcurementItem {
    ProcurementItem {
        schema_version: 1,
        item_id: id.to_string(),
        notice_type: "bid".to_string(),
        title: title.to_string(),
        organization: None,
        publish_date: None,
        deadline: None,
        contract_amount: None,
        contractor: None,
        contract_date: None,
        detail_url: None,
        source: ProcurementSource { provider: "kkj".to_string(), fetched_at: "now".to_string() },
    }
}

#[test]
fn latest_item_per_id_is_kept() {
    let items = vec![item("b", "old b"), item("a", "a"), item("b", "new b"), item("c", "c")];
    assert_eq!(latest_items_by_id(&items), vec![1, 2, 3]);
    assert!(latest_items_by_id(&vec![]).is_empty());
}
