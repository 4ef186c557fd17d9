use lawpub::cli::feed_items::{
    finish_feed, finish_feed_checked, gian_feed_items, kanpo_feed_items, law_feed_items,
    newest_dates, pubcomment_feed_items, rss_text,
};
use lawpub::cli::feeds::{date_readable, FeedItem};
use lawpub::json::JsonValue;

fn to_json(v: &serde_json::Value) -> JsonValue {
    match v {
        serde_json::Value::Null => JsonValue::Null,
        serde_json::Value::Bool(b) => JsonValue::Bool(*b),
        serde_json::Value::Number(n) => JsonValue::Number(n.to_string()),
        serde_json::Value::String(s) => JsonValue::Str(s.clone()),
        serde_json::Value::Array(a) => JsonValue::Array(a.iter().map(to_json).collect()),
        serde_json::Value::Object(o) => {
            JsonValue::Object(o.iter().map(|(k, x)| (k.clone(), to_json(x))).collect())
        }
    }
}

fn parse(text: &str) -> JsonValue {
    to_json(&serde_json::from_str::<serde_json::Value>(text).unwrap())
}

#[test]
fn builds_feed_from_published_artifacts() {
    let updates = parse(
        r#"{"date": "2026-05-22",
            "updated_laws": [{"law_id": "X1", "title": "テスト法", "change_type": "amended"}]}"#,
    );
    let pubcomment = parse(
        r#"{"schema_version": 1, "count": 1,
            "cases": [{"case_id": "c1", "title": "テストパブコメ", "ministry": "法務省",
                       "result_published": "2026-06-01", "related_law_name": "民法"}]}"#,
    );
    let kanpo = parse(
        r#"{"date": "2026-04-02",
            "issues": [{"issue_no": "第1号", "items": [
                {"title": "ある省令の一部改正", "pdf_url": "https://x/y.pdf", "agency_hint": "総務一", "amend_text": "改める。"},
                {"title": "ただの公告", "pdf_url": "https://x/z.pdf"}]}]}"#,
    );
    let mut items = Vec::new();
    items.extend(law_feed_items("2026-05-22", &updates));
    items.extend(pubcomment_feed_items(&pubcomment));
    items.extend(kanpo_feed_items(&kanpo));
    let items = finish_feed(&items);
    assert_eq!(items.len(), 3);
    let kinds: Vec<&str> = items.iter().map(|i| i.kind.as_str()).collect();
    assert_eq!(kinds, vec!["pubcomment", "law", "kanpo"]);
    assert_eq!(items[0].date, "2026-06-01");
    assert_eq!(items[0].summary.as_deref(), Some("関連: 民法"));
    assert_eq!(items[1].href, "/laws/X1");
    assert_eq!(items[1].summary.as_deref(), Some("改正"));
    assert_eq!(items[2].href, "https://x/y.pdf");
    assert_eq!(items[2].ministry.as_deref(), Some("総務一"));
    assert!(!items[2].internal);

    let rss = rss_text("/", &items);
    assert!(rss.contains("<rss version=\"2.0\">"));
    assert!(rss.contains("[パブコメ] テストパブコメ"));
    assert!(rss.contains("<link>/#/pubcomment/c1</link>"));
    assert!(rss.contains("<pubDate>Mon, 01 Jun 2026 00:00:00 +0000</pubDate>"));
    assert!(rss.ends_with("</channel>\n</rss>\n"));
}

#[test]
fn feed_dates_normalized_sorted_and_capped() {
    let mut items = Vec::new();
    for i in 0..205u32 {
        items.push(FeedItem {
            kind: if i % 2 == 0 { "law".into() } else { "kanpo".into() },
            date: format!("2026年{}月{}日", 1 + i % 12, 1 + i % 28),
            title: format!("t{i}"),
            href: String::new(),
            internal: false,
            law_id: None,
            law_title: None,
            ministry: None,
            summary: None,
        });
    }
    let out = finish_feed(&items);
    assert_eq!(out.len(), 200);
    assert!(out.windows(2).all(|w| w[0].date > w[1].date
        || (w[0].date == w[1].date && w[0].kind <= w[1].kind)));
    assert!(out.iter().all(|i| i.date.len() == 10 && i.date.starts_with("2026-")));
    let bad = vec![FeedItem { date: "1日2月2026年".into(), ..items[0].clone() }];
    assert!(!date_readable("1日2月2026年"));
    assert!(finish_feed_checked(&bad).is_none());
    assert!(finish_feed_checked(&items).is_some());
}

#[test]
fn bill_items_need_date_and_detail() {
    let index = parse(
        r#"{"bills": [
            {"title": "甲法案", "latest_date": "2026-06-12", "detail_url": "https://x/keika/A.htm",
             "bill_type": "衆法", "latest_event": "委員会付託(衆)", "committee": "政治改革に関する特別"},
            {"title": "乙法案", "latest_date": "", "detail_url": "https://x/keika/B.htm"},
            {"title": "丙法案", "latest_date": "2026-06-01", "detail_url": "https://x/keika/C.htm", "committee": ""}]}"#,
    );
    let items = gian_feed_items(&index);
    assert_eq!(items.len(), 2);
    assert_eq!(items[0].summary.as_deref(), Some("衆法 · 委員会付託(衆) · 政治改革に関する特別"));
    assert_eq!(items[1].summary, None);
    assert_eq!(items[1].kind, "bill");
}

#[test]
fn newest_dated_names_only() {
    let names: Vec<String> = ["2026-05-20", "latest", "2026-05-22", "2026-05-21", "2026-13-01"]
        .iter()
        .map(|s| s.to_string())
        .collect();
    assert_eq!(newest_dates(&names, true, 2), vec![2, 3]);
    assert_eq!(newest_dates(&names, false, 3), vec![1, 4, 2]);
}
