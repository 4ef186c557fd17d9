use lawpub::cli::pubcomment::{apply_fetched_file, apply_reader_text, fill_from_listing, AttachmentRecord, CaseFields};
use chrono::Datelike;
use lawpub::cli::calendar::{effective_meeting_status, meeting_status_on, pick_dates};
use lawpub::cli::pubcomment::{attachment_cache_key, is_stale_open_case, modes_for, retain_unseen_cases};
use lawpub::cli::shingikai::source_extension;
use lawpub::cli::state::LatestState;
use lawpub::law_xml::sha256_hex;

fn day(y: i32, m: u32, d: u32) -> i32 {
    chrono::NaiveDate::from_ymd_opt(y, m, d).unwrap().num_days_from_ce()
}

fn state(date: Option<&str>) -> LatestState {
    LatestState {
        version: 1,
        latest_successful_update_date: date.map(String::from),
        last_run_at: None,
        last_run_status: None,
        law_count: None,
    }
}

#[test]
fn pick_dates_spans_three_days_before_last_update_to_today() {
    let got = pick_dates(&state(Some("2024-02-28")), day(2024, 3, 1));
    assert_eq!(got, vec!["2024-02-25", "2024-02-26", "2024-02-27", "2024-02-28", "2024-02-29", "2024-03-01"]);
}

#[test]
fn pick_dates_without_state_is_today_alone() {
    assert_eq!(pick_dates(&state(None), day(2024, 1, 5)), vec!["2024-01-05"]);
    assert_eq!(pick_dates(&state(Some("garbage")), day(2024, 1, 5)), vec!["2024-01-05"]);
}

#[test]
fn pick_dates_after_today_is_empty() {
    assert!(pick_dates(&state(Some("2024-01-20")), day(2024, 1, 5)).is_empty());
}

#[test]
fn meeting_status_rolls_forward_at_build_time() {
    assert_eq!(effective_meeting_status(Some("2099-09-15")), "scheduled");
    assert_eq!(effective_meeting_status(Some("2000-01-01")), "held");
}

#[test]
fn meeting_status_on_a_given_day() {
    let today = day(2024, 6, 1);
    assert_eq!(meeting_status_on(Some("2024-06-02"), today), "scheduled");
    assert_eq!(meeting_status_on(Some("2024-06-01"), today), "held");
    assert_eq!(meeting_status_on(Some("not a date"), today), "held");
    assert_eq!(meeting_status_on(None, today), "held");
}

fn ids(v: &[&str]) -> Vec<String> {
    v.iter().map(|s| s.to_string()).collect()
}

#[test]
fn repeated_list_page_is_detected_as_exhausted() {
    let mut seen = Vec::new();
    let first = retain_unseen_cases(&ids(&["a", "b"]), &mut seen);
    let repeated = retain_unseen_cases(&ids(&["a", "b"]), &mut seen);
    let partly_new_ids = ids(&["b", "c"]);
    let partly_new = retain_unseen_cases(&partly_new_ids, &mut seen);

    assert_eq!(first.len(), 2);
    assert!(repeated.is_empty());
    assert_eq!(partly_new_ids[partly_new[0]], "c");
}

#[test]
fn duplicates_within_one_page_are_kept_once() {
    let mut seen = ids(&["x"]);
    let got = retain_unseen_cases(&ids(&["a", "x", "a", "b"]), &mut seen);
    assert_eq!(got, vec![0, 3]);
    assert_eq!(seen, ids(&["x", "a", "b"]));
}

#[test]
fn modes_by_status() {
    assert_eq!(modes_for("open"), vec![0]);
    assert_eq!(modes_for("both"), vec![0, 1]);
    assert_eq!(modes_for("closed"), vec![1]);
    assert_eq!(modes_for(""), vec![1]);
}

#[test]
fn only_unlisted_open_cases_are_stale() {
    let active = ids(&["active"]);
    assert!(!is_stale_open_case("open", "active", &active));
    assert!(is_stale_open_case("open", "stale", &active));
    assert!(!is_stale_open_case("closed", "result", &active));
}

#[test]
fn attachment_key_is_hash_prefix() {
    let url = "https://public-comment.e-gov.go.jp/pcm/download?seqNo=0000012345";
    let key = attachment_cache_key(url);
    assert_eq!(key.len(), 24);
    assert_eq!(key, sha256_hex(url.as_bytes())[..24]);
    assert_ne!(key, url[..24]);
}

#[test]
fn source_extensions() {
    assert_eq!(source_extension("https://www.moj.go.jp/content/001.PDF"), "pdf");
    assert_eq!(source_extension("https://www.moj.go.jp/content/minutes.txt?x=1"), "txt");
    assert_eq!(source_extension("https://www.moj.go.jp/content/"), "bin");
    assert_eq!(source_extension("https://www.moj.go.jp/content/a.tar-gz"), "bin");
    assert_eq!(source_extension("not a url"), "bin");
    assert_eq!(source_extension("https://example.com/file"), "bin");
}

use lawpub::cli::update::{rebuild_decision, record_run, snapshot_dates, Rebuild};

#[test]
fn rebuild_decisions() {
    assert_eq!(rebuild_decision(false, 0, true, true), Rebuild::Unchanged);
    assert_eq!(rebuild_decision(false, 2, true, true), Rebuild::FromCache);
    assert_eq!(rebuild_decision(true, 0, true, false), Rebuild::KeepExisting);
    assert_eq!(rebuild_decision(false, 0, false, false), Rebuild::Impossible);
    assert_eq!(rebuild_decision(false, 0, false, true), Rebuild::FromCache);
}

#[test]
fn run_is_recorded_in_state() {
    let mut st = state(Some("2024-01-01"));
    record_run(&mut st, &ids(&["2024-01-02", "2024-01-03"]), true, "now".to_string());
    assert_eq!(st.latest_successful_update_date.as_deref(), Some("2024-01-03"));
    assert_eq!(st.last_run_status.as_deref(), Some("partial"));
    assert_eq!(st.last_run_at.as_deref(), Some("now"));
    record_run(&mut st, &Vec::new(), false, "later".to_string());
    assert_eq!(st.latest_successful_update_date.as_deref(), Some("2024-01-03"));
    assert_eq!(st.last_run_status.as_deref(), Some("ok"));
}

#[test]
fn snapshot_dates_are_trimmed_and_nonempty() {
    assert_eq!(snapshot_dates("2018-04-01, 2020-04-01,,2024-04-01 "), ids(&["2018-04-01", "2020-04-01", "2024-04-01"]));
    assert!(snapshot_dates("").is_empty());
    assert!(snapshot_dates(" , ").is_empty());
}

use lawpub::cli::manifest::{content_type_of, entry_errors};

#[test]
fn content_types_by_extension() {
    assert_eq!(content_type_of("current.json"), "application/json");
    assert_eq!(content_type_of("history.NDJSON"), "application/x-ndjson");
    assert_eq!(content_type_of("sitemap.xml"), "application/xml");
    assert_eq!(content_type_of("robots.txt"), "text/plain");
    assert_eq!(content_type_of("search.db"), "application/vnd.sqlite3");
    assert_eq!(content_type_of("x.sqlite3"), "application/vnd.sqlite3");
    assert_eq!(content_type_of("history.ndjson.zst"), "application/octet-stream");
    assert_eq!(content_type_of("README"), "application/octet-stream");
    assert_eq!(content_type_of(".json"), "application/octet-stream");
}

#[test]
fn validation_errors_name_each_mismatch() {
    assert!(entry_errors("a.json", "ab", 3, "ab", 3).is_empty());
    assert_eq!(
        entry_errors("a.json", "ab", 3, "cd", 4),
        vec![
            "a.json: sha256 mismatch (manifest=ab, actual=cd)".to_string(),
            "a.json: size mismatch (manifest=3, actual=4)".to_string(),
        ]
    );
    assert_eq!(entry_errors("b.json", "ab", 10, "ab", 0), vec!["b.json: size mismatch (manifest=10, actual=0)".to_string()]);
}

use lawpub::cli::pubcomment::order_cases;
use lawpub::json::JsonValue;

fn case(status: &str, end: &str, published: &str) -> JsonValue {
    JsonValue::Object(vec![
        ("status".to_string(), JsonValue::Str(status.to_string())),
        ("reception_end".to_string(), JsonValue::Str(end.to_string())),
        ("result_published".to_string(), JsonValue::Str(published.to_string())),
    ])
}

#[test]
fn open_cases_first_closing_soonest_then_latest_results() {
    let cases = vec![
        case("closed", "", "2024-01-10"),
        case("open", "2024-03-01", ""),
        case("closed", "", "2024-02-10"),
        case("open", "2024-02-01", ""),
    ];
    assert_eq!(order_cases(&cases), vec![3, 1, 2, 0]);
}

use lawpub::cli::extract::{minutes_attachment_kind, pubcomment_attachment_kind, resolution_source_kind, ExtractKind};

#[test]
fn attachment_kinds() {
    assert_eq!(pubcomment_attachment_kind(Some("application/pdf"), b"x"), ExtractKind::Pdf);
    assert_eq!(pubcomment_attachment_kind(None, b"%PDF-1.7"), ExtractKind::Pdf);
    assert_eq!(pubcomment_attachment_kind(Some("text/plain"), b"x"), ExtractKind::Text);
    assert_eq!(pubcomment_attachment_kind(Some("application/json"), b"{}"), ExtractKind::Text);
    assert_eq!(pubcomment_attachment_kind(Some("application/zip"), b"PK"), ExtractKind::Unsupported);
    assert_eq!(minutes_attachment_kind(Some("text/html; charset=UTF-8"), "bin"), ExtractKind::Html);
    assert_eq!(minutes_attachment_kind(None, "htm"), ExtractKind::Html);
    assert_eq!(minutes_attachment_kind(None, "csv"), ExtractKind::Text);
    assert_eq!(minutes_attachment_kind(Some("application/pdf"), "bin"), ExtractKind::Pdf);
    assert_eq!(minutes_attachment_kind(None, "docx"), ExtractKind::Unsupported);
    assert_eq!(resolution_source_kind(Some("application/pdf; x"), b""), ExtractKind::Pdf);
    assert_eq!(resolution_source_kind(Some("text/plain"), b"abc"), ExtractKind::Text);
    assert_eq!(resolution_source_kind(None, b"abc"), ExtractKind::Unsupported);
}

use lawpub::cli::pubcomment::{attachment_plan, AttachmentPlan};

#[test]
fn attachments_listed_again_are_reused_or_fetched() {
    assert_eq!(attachment_plan(None, true), AttachmentPlan::Fetch);
    assert_eq!(attachment_plan(Some((Some("jina-reader"), Some("本文"), false)), false), AttachmentPlan::ReuseReaderText);
    assert_eq!(attachment_plan(Some((Some("jina-reader"), Some(""), true)), true), AttachmentPlan::ReuseArchived);
    assert_eq!(attachment_plan(Some((Some("pdftotext-layout"), Some("x"), true)), true), AttachmentPlan::ReuseArchived);
    assert_eq!(attachment_plan(Some((Some("pdftotext-layout"), Some("x"), true)), false), AttachmentPlan::Fetch);
    assert_eq!(attachment_plan(Some((None, None, false)), true), AttachmentPlan::Fetch);
}

use lawpub::cli::shingikai::{minutes_text, MinutesText};

#[test]
fn extracts_visible_text_from_html_minutes() {
    let bytes = r#"<!doctype html><html><body><nav>menu</nav><main id="content">
            <h1>第35回議事録</h1><p>制度改正について審議した。</p>
            </main></body></html>"#
        .as_bytes();
    let html = String::from_utf8_lossy(bytes);
    let (text, method) = match minutes_text(Some("text/html; charset=UTF-8"), &html, "html") {
        MinutesText::Extracted(t, m) => (t, m),
        other => panic!("unexpected {:?}", other),
    };
    assert_eq!(method, "html-visible-text");
    assert!(text.contains("制度改正について審議した。"));
    assert!(!text.contains("menu"));
}

#[test]
fn minutes_text_branches() {
    assert_eq!(
        minutes_text(None, "<html><body><p>a  b</p><p>c</p></body></html>", "htm"),
        MinutesText::Extracted("a b c".to_string(), "html-visible-text".to_string())
    );
    assert_eq!(
        minutes_text(Some("text/plain"), "\u{feff}  議事録 \n", "txt"),
        MinutesText::Extracted("議事録".to_string(), "utf8-lossy".to_string())
    );
    assert_eq!(minutes_text(None, "   ", "csv"), MinutesText::Failed("text attachment is empty".to_string()));
    assert_eq!(minutes_text(Some("application/pdf"), "", "pdf"), MinutesText::NeedsPdf);
    assert_eq!(
        minutes_text(None, "", "docx"),
        MinutesText::Failed("text extraction unsupported; raw attachment archived".to_string())
    );
}

#[test]
fn case_detail_takes_missing_fields_from_listing() {
    let mut detail = CaseFields {
        ministry: None,
        result_published: Some("2024-05-01".to_string()),
        reception_end: None,
        category: None,
        responsible_office: Some("課".to_string()),
        opinion_count: None,
        title: String::new(),
        status: "closed".to_string(),
    };
    let listed = CaseFields {
        ministry: Some("法務省".to_string()),
        result_published: Some("2024-06-01".to_string()),
        reception_end: Some("2024-04-01".to_string()),
        category: None,
        responsible_office: Some("局".to_string()),
        opinion_count: Some(12),
        title: "案".to_string(),
        status: "open".to_string(),
    };
    fill_from_listing(&mut detail, &listed);
    assert_eq!(detail.ministry.as_deref(), Some("法務省"));
    assert_eq!(detail.result_published.as_deref(), Some("2024-05-01"));
    assert_eq!(detail.reception_end.as_deref(), Some("2024-04-01"));
    assert_eq!(detail.category, None);
    assert_eq!(detail.responsible_office.as_deref(), Some("課"));
    assert_eq!(detail.opinion_count, Some(12));
    assert_eq!(detail.title, "案");
    assert_eq!(detail.status, "closed");
}

#[test]
fn attachment_records_reader_text_and_fetched_files() {
    let blank = AttachmentRecord {
        name: "別紙".to_string(),
        url: "https://example.go.jp/a.pdf".to_string(),
        media_type: None,
        filename: None,
        sha256: Some("x".to_string()),
        bytes: Some(3),
        extracted_text: None,
        extraction_method: None,
        extraction_error: None,
        fetched_at: None,
    };
    let mut a = blank.clone();
    apply_reader_text(&mut a, "jina-reader", "  \n ", None, None, "t".to_string());
    assert_eq!(a.extraction_error.as_deref(), Some("jina-reader returned empty text"));
    assert_eq!(a.sha256.as_deref(), Some("x"));
    let mut b = blank.clone();
    apply_reader_text(&mut b, "jina-reader", " 本文 ", Some("text/plain".to_string()), None, "t".to_string());
    assert_eq!(b.extracted_text.as_deref(), Some("本文"));
    assert_eq!(b.sha256, None);
    assert_eq!(b.bytes, None);
    assert_eq!(b.fetched_at.as_deref(), Some("t"));
    let mut c = blank;
    apply_fetched_file(&mut c, b"abc", Some("application/pdf".to_string()), Some("a.pdf".to_string()), "t2".to_string());
    assert_eq!(c.sha256.as_deref(), Some("ba7816bf8f01cfea414140de5dae2223b00361a396177a9cb410ff61f20015ad"));
    assert_eq!(c.bytes, Some(3));
    assert_eq!(c.filename.as_deref(), Some("a.pdf"));
}
