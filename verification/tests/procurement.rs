use lawpub::procurement::{
    normalized_date, parse_xml, safe_item_id, MockProvider, ProcurementItemBuilder, ProcurementProvider,
};

#[test]
fn mock_provider_returns_batch() {
    let p = MockProvider;
    let b = p.fetch_range("2024-01-01", "2024-01-31").unwrap();
    assert_eq!(b.items.len(), 1);
    assert_eq!(b.items[0].notice_type, "入札公告");
}

#[test]
fn parse_xml_sample() {
    let xml = [
        r#"<?xml version="1.0" encoding="UTF-8"?><results><hasNextPage>false</hasNextPage><item>"#,
        r#"<id>2024-KKJ-00001</id><noticeType>"#,
        "\u{5165}\u{672d}\u{516c}\u{544a}",
        r#"</noticeType><title>"#,
        "\u{5e81}\u{820e}\u{6e05}\u{6383}\u{696d}\u{52d9}\u{59d4}\u{8a17}",
        r#"</title><organization>"#,
        "\u{30c6}\u{30b9}\u{30c8}\u{7701}",
        r#"</organization><publishDate>2024-01-15</publishDate>"#,
        r#"<deadline>2024-02-15</deadline>"#,
        r#"<url>https://www.kkj.go.jp/s/detail/2024-KKJ-00001</url>"#,
        r#"</item></results>"#,
    ]
    .concat();
    let (items, has_next) = parse_xml(xml.as_bytes(), "2024-01-01T00:00:00Z").unwrap();
    assert_eq!(items.len(), 1);
    assert_eq!(items[0].item_id, "2024-KKJ-00001");
    assert!(!has_next);
}

#[test]
fn parse_xml_has_next_page() {
    let xml = r#"<?xml version="1.0"?><results><hasNextPage>true</hasNextPage><item><id>X</id><title>T</title></item></results>"#;
    let (_items, has_next) = parse_xml(xml.as_bytes(), "t").unwrap();
    assert!(has_next);
}

#[test]
fn parse_current_api_xml() {
    let xml = r#"<?xml version="1.0" encoding="UTF-8"?>
<Results><SearchResults><SearchHits>1</SearchHits><SearchResult>
<ResultId>1</ResultId>
<Key><![CDATA[abc/def+=]]></Key>
<ExternalDocumentURI><![CDATA[https://example.go.jp/notice/1]]></ExternalDocumentURI>
<ProjectName>庁舎清掃業務</ProjectName>
<Date>2026-08-11</Date>
<OrganizationName>テスト省</OrganizationName>
<CftIssueDate>2026-08-12T00:00:00</CftIssueDate>
<PeriodEndTime>2026-09-01T17:00:00</PeriodEndTime>
<Category>役務</Category><ProcedureType>一般競争入札</ProcedureType>
</SearchResult></SearchResults></Results>"#;
    let (items, _) = parse_xml(xml.as_bytes(), "2026-08-12T00:00:00Z").unwrap();
    assert_eq!(items.len(), 1);
    assert_eq!(items[0].item_id, "abc_def-");
    assert_eq!(items[0].title, "庁舎清掃業務");
    assert_eq!(items[0].notice_type, "一般競争入札");
    assert_eq!(items[0].organization.as_deref(), Some("テスト省"));
    assert_eq!(items[0].publish_date.as_deref(), Some("2026-08-12"));
    assert_eq!(items[0].deadline.as_deref(), Some("2026-09-01T17:00:00"));
    assert_eq!(items[0].detail_url.as_deref(), Some("https://example.go.jp/notice/1"));
}

#[test]
fn records_without_id_or_title_are_dropped_and_type_defaults() {
    let xml = r#"<r><item><id>A</id></item><item><title>only title</title></item><item><id>B</id><title>T</title></item></r>"#;
    let (items, has_next) = parse_xml(xml.as_bytes(), "now").unwrap();
    assert_eq!(items.len(), 1);
    assert_eq!(items[0].item_id, "B");
    assert_eq!(items[0].notice_type, "不明");
    assert_eq!(items[0].source.provider, "kkj_go_jp");
    assert_eq!(items[0].source.fetched_at, "now");
    assert!(!has_next);
}

#[test]
fn malformed_xml_is_an_error() {
    let xml = r#"<r><item><id>A</id></wrong></r>"#;
    assert!(parse_xml(xml.as_bytes(), "now").is_err());
}

#[test]
fn ids_and_dates_are_normalized() {
    assert_eq!(safe_item_id("  ab/c+d==  "), "ab_c-d");
    assert_eq!(normalized_date(" 2026-08-12T00:00:00 ").as_deref(), Some("2026-08-12"));
    assert_eq!(normalized_date("2026"), Some("2026".to_string()));
    assert_eq!(normalized_date("   "), None);
}

#[test]
fn builder_needs_id_and_title() {
    let mut b = ProcurementItemBuilder::new();
    b.item_id = Some("x".into());
    assert!(b.build("t").is_none());
    let mut b = ProcurementItemBuilder::new();
    b.item_id = Some("x".into());
    b.title = Some("y".into());
    let it = b.build("t").unwrap();
    assert_eq!(it.notice_type, "不明");
}

#[test]
fn fetch_days_lists_each_day_in_order() {
    let days = lawpub::procurement::fetch_days("2024-02-28", "2024-03-01").unwrap();
    assert_eq!(days, vec!["2024-02-28".to_string(), "2024-02-29".to_string(), "2024-03-01".to_string()]);
    assert_eq!(lawpub::procurement::fetch_days("2024-05-01", "2024-05-01").unwrap(), vec!["2024-05-01".to_string()]);
}

#[test]
fn fetch_days_rejects_bad_ranges() {
    let msg = |r: Result<Vec<String>, lawpub::error::ProviderError>| r.unwrap_err().message();
    assert_eq!(msg(lawpub::procurement::fetch_days("2026-08-12", "2026-08-11")), "from date must be on or before to date");
    assert_eq!(msg(lawpub::procurement::fetch_days("x", "2026-08-11")), "invalid from date: x");
    assert_eq!(msg(lawpub::procurement::fetch_days("2026-08-11", "2026-13-01")), "invalid to date: 2026-13-01");
}
