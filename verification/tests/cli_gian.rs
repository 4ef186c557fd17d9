use lawpub::cli::gian::{
    normalize_title, order_by_number, order_by_resolution_date, order_by_session,
    related_bills_for_resolution,
};
use lawpub::json::JsonValue;

fn to_json(v: &serde_json::Value) -> JsonValue {
    match v {
        serde_json::Value::Null => JsonValue::Null,
        serde_json::Value::Bool(b) => JsonValue::Bool(*b),
        serde_json::Value::Number(n) => JsonValue::Number(n.to_string()),
        serde_json::Value::String(s) => JsonValue::Str(s.clone()),
        serde_json::Value::Array(a) => JsonValue::Array(a.iter().map(to_json).collect()),
        serde_json::Value::Object(o) => {
            JsonValue::Object(o.iter().map(|(k, x)| (k.clone(), to_json(x))).collect())
        }
    }
}

fn parse_list(text: &str) -> Vec<JsonValue> {
    match to_json(&serde_json::from_str::<serde_json::Value>(text).unwrap()) {
        JsonValue::Array(items) => items,
        _ => panic!("not a list"),
    }
}

fn bill_id(v: &JsonValue) -> String {
    v.get("bill_id").and_then(|x| x.as_str()).unwrap_or("").to_string()
}

#[test]
fn resolution_links_to_latest_eligible_bill_session() {
    let bills = parse_list(
        r#"[{"bill_id": "old", "session": 220, "title": "継続審議法案"},
            {"bill_id": "future", "session": 222, "title": "継続審議法案"},
            {"bill_id": "same", "session": 221, "title": "関連整備法案"}]"#,
    );
    let related = related_bills_for_resolution(
        221,
        "継続審議法案及び関連整備法案に対する附帯決議",
        &bills,
    );
    let ids: Vec<String> = related.iter().map(|&i| bill_id(&bills[i])).collect();
    assert_eq!(ids, vec!["old", "same"]);
}

#[test]
fn related_bills_ignore_separators_and_keep_latest_only() {
    let bills = parse_list(
        r#"[{"bill_id": "a", "session": 210, "title": "甲・乙法案"},
            {"bill_id": "b", "session": 215, "title": "甲乙 法案"},
            {"bill_id": "c", "session": "215", "title": "甲乙法案"},
            {"bill_id": "d", "session": 215, "title": ""}]"#,
    );
    let related = related_bills_for_resolution(216, "甲、乙法案に対する附帯決議", &bills);
    let ids: Vec<String> = related.iter().map(|&i| bill_id(&bills[i])).collect();
    assert_eq!(ids, vec!["b"]);
    assert_eq!(normalize_title(" 甲・乙、丙，丁,戊\u{3000}"), "甲乙丙丁戊");
}

#[test]
fn index_orders() {
    let entries = parse_list(
        r#"[{"number": "3", "session": 220}, {"session": 221}, {"number": "10", "session": 222}, {"number": "1"}]"#,
    );
    assert_eq!(order_by_number(&entries), vec![1, 3, 2, 0]);
    assert_eq!(order_by_session(&entries), vec![2, 1, 0, 3]);
    let resolutions = parse_list(
        r#"[{"resolution_date": "2026-06-09"}, {}, {"resolution_date": "2026-06-16"}, {"resolution_date": null}]"#,
    );
    assert_eq!(order_by_resolution_date(&resolutions), vec![2, 0, 1, 3]);
}
