use lawpub::estat::{fiscal_stats, parse_estat_response, EstatProvider, MockProvider};
use lawpub::json::JsonValue;

fn to_json(v: &serde_json::Value) -> JsonValue {
    match v {
        serde_json::Value::Null => JsonValue::Null,
        serde_json::Value::Bool(b) => JsonValue::Bool(*b),
        serde_json::Value::Number(n) => JsonValue::Number(n.to_string()),
        serde_json::Value::String(s) => JsonValue::Str(s.clone()),
        serde_json::Value::Array(a) => JsonValue::Array(a.iter().map(to_json).collect()),
        serde_json::Value::Object(o) => {
            JsonValue::Object(o.iter().map(|(k, x)| (k.clone(), to_json(x))).collect())
        }
    }
}

fn parse(text: &str) -> JsonValue {
    to_json(&serde_json::from_str::<serde_json::Value>(text).unwrap())
}


#[test]
fn mock_provider_returns_dataset() {
    let p = MockProvider;
    let d = p.fetch_stats("0003410379", "財政統計").unwrap();
    assert_eq!(d.schema_version, 2);
    assert!(!d.values.is_empty());
    assert_eq!(d.source.provider, "estat");
}

#[test]
fn mock_dataset_keeps_requested_id_and_sample_values() {
    let d = MockProvider.fetch_stats("X1", "題").unwrap();
    assert_eq!(d.stats_data_id, "X1");
    assert_eq!(d.title, "題");
    assert_eq!(d.source.stats_data_id, "X1");
    assert_eq!(d.values[0].value, "107528600");
    assert_eq!(d.values[0].area.as_deref(), Some("全国"));
    assert_eq!(d.values[0].dimensions.get("時間軸").map(String::as_str), Some("2023"));
}

#[test]
fn tracked_fiscal_tables() {
    let s = fiscal_stats();
    assert_eq!(s.len(), 3);
    assert_eq!(s[0], ("0003410379", "財政統計（一般会計）"));
    assert_eq!(s[2].0, "0003061945");
}

#[test]
fn parse_estat_response_sample() {
    let v = parse(r#"{
        "GET_STATS_DATA": {
            "RESULT": {
                "STATUS": 0,
                "ERROR_MSG": "正常に終了しました。"
            },
            "STATISTICAL_DATA": {
                "CLASS_INF": {
                    "CLASS_OBJ": [
                        {
                            "@id": "tab",
                            "@name": "表章項目",
                            "CLASS": { "@code": "001", "@name": "歳出", "@unit": "百万円" }
                        },
                        {
                            "@id": "area",
                            "@name": "地域",
                            "CLASS": { "@code": "00000", "@name": "全国" }
                        },
                        {
                            "@id": "time",
                            "@name": "時間軸",
                            "CLASS": { "@code": "2023", "@name": "2023年度" }
                        },
                        {
                            "@id": "cat01",
                            "@name": "会計区分",
                            "CLASS": { "@code": "110", "@name": "一般会計" }
                        }
                    ]
                },
                "DATA_INF": {
                    "VALUE": [
                        {
                            "$": "107528600",
                            "@tab": "001",
                            "@area": "00000",
                            "@time": "2023",
                            "@cat01": "110"
                        }
                    ]
                }
            }
        }
    }"#);
    let d = parse_estat_response(&v, "test_id", "テスト", "2024-01-01T00:00:00Z").unwrap();
    assert_eq!(d.values.len(), 1);
    assert_eq!(d.values[0].value, "107528600");
    assert_eq!(d.values[0].area.as_deref(), Some("全国"));
    assert_eq!(d.values[0].time.as_deref(), Some("2023年度"));
    assert_eq!(d.values[0].category.as_deref(), Some("一般会計"));
    assert_eq!(d.values[0].unit.as_deref(), Some("百万円"));
    assert_eq!(d.values[0].dimensions.get("表章項目").map(String::as_str), Some("歳出"));
    assert_eq!(d.schema_version, 2);
}

#[test]
fn parse_estat_response_surfaces_api_error() {
    let v = parse(r#"{
        "GET_STATS_DATA": {
            "RESULT": {
                "STATUS": 100,
                "ERROR_MSG": "統計表が見つかりません"
            }
        }
    }"#);
    let err = parse_estat_response(&v, "stale_id", "テスト", "2024-01-01T00:00:00Z").unwrap_err();
    assert!(err.message().contains("e-Stat API error 100"));
    assert!(err.message().contains("統計表が見つかりません"));
}

#[test]
fn estat_status_as_text_single_value_and_missing_status() {
    let v = parse(r#"{"GET_STATS_DATA": {"RESULT": {"STATUS": "0"}, "STATISTICAL_DATA": {"DATA_INF": {"VALUE": {"$": "5", "@area": "X", "@unit": "円"}}}}}"#);
    let d = parse_estat_response(&v, "i", "t", "f").unwrap();
    assert_eq!(d.values.len(), 1);
    assert_eq!(d.values[0].area.as_deref(), Some("X"));
    assert_eq!(d.values[0].unit.as_deref(), Some("円"));
    let missing = parse(r#"{"GET_STATS_DATA": {}}"#);
    assert_eq!(
        parse_estat_response(&missing, "i", "t", "f").unwrap_err().message(),
        "e-Stat response missing RESULT.STATUS"
    );
}

#[test]
fn dimensions_keep_name_order_and_last_label() {
    let mut d = lawpub::stat_dims::Dimensions::new();
    assert!(d.is_empty());
    d.insert("時間軸".to_string(), "2022".to_string());
    d.insert("地域".to_string(), "全国".to_string());
    d.insert("時間軸".to_string(), "2023".to_string());
    assert_eq!(d.get("時間軸").map(String::as_str), Some("2023"));
    assert_eq!(d.get("分類"), None);
    let names: Vec<&str> = d.pairs().iter().map(|(k, _)| k.as_str()).collect();
    assert_eq!(names, vec!["地域", "時間軸"]);
}
