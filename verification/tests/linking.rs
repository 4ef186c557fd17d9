use lawpub::json::JsonValue;
use lawpub::linking::{
    amending_law_nums, build_automaton, council_links, index_laws, proceeding_links,
    order_most_confident, order_newest_first, procurement_links, pubcomment_links, LawEntry,
};

fn to_json(v: &serde_json::Value) -> JsonValue {
    match v {
        serde_json::Value::Null => JsonValue::Null,
        serde_json::Value::Bool(b) => JsonValue::Bool(*b),
        serde_json::Value::Number(n) => JsonValue::Number(n.to_string()),
        serde_json::Value::String(s) => JsonValue::Str(s.clone()),
        serde_json::Value::Array(a) => JsonValue::Array(a.iter().map(to_json).collect()),
        serde_json::Value::Object(o) => {
            JsonValue::Object(o.iter().map(|(k, x)| (k.clone(), to_json(x))).collect())
        }
    }
}

fn parse(text: &str) -> JsonValue {
    to_json(&serde_json::from_str::<serde_json::Value>(text).unwrap())
}

fn make_law(id: &str, title: &str, nums: &[&str]) -> LawEntry {
    LawEntry {
        law_id: id.to_string(),
        title: title.to_string(),
        amending_law_nums: nums.iter().map(|s| s.to_string()).collect(),
    }
}

#[test]
fn automaton_matches_law_num() {
    let laws = vec![make_law(
        "129AC0000000089",
        "民法",
        &["令和四年法律第百二号"],
    )];
    let (ac, metas) = build_automaton(&laws).unwrap();
    let text = "令和四年法律第百二号に基づく改正について審議します。";
    let hits: Vec<_> = ac.find_overlapping_iter(text).collect();
    assert!(!hits.is_empty());
    assert!(metas[hits[0].pattern().as_usize()].is_law_num);
    assert_eq!(metas[hits[0].pattern().as_usize()].law_id, "129AC0000000089");
}

#[test]
fn automaton_matches_title() {
    let laws = vec![make_law("140AC0000000045", "刑事訴訟法", &[])];
    let (ac, metas) = build_automaton(&laws).unwrap();
    let text = "刑事訴訟法の改正に関する質問をします。";
    let hits: Vec<_> = ac.find_overlapping_iter(text).collect();
    assert!(!hits.is_empty());
    assert!(!metas[hits[0].pattern().as_usize()].is_law_num);
}

#[test]
fn short_title_is_excluded() {
    let laws = vec![make_law("X", "法", &[])];
    let (ac, _metas) = build_automaton(&laws).unwrap();
    let hits: Vec<_> = ac.find_overlapping_iter("法について").collect();
    assert!(hits.is_empty());
}

#[test]
fn patterns_keep_long_titles_and_numbers_in_law_order() {
    let laws = vec![
        make_law("A", "会社法", &["平成十七年法律第八十六号", "短い"]),
        make_law("B", "個人情報の保護に関する法律", &[]),
    ];
    let (_ac, metas) = build_automaton(&laws).unwrap();
    let view: Vec<(&str, &str, bool)> = metas
        .iter()
        .map(|m| (m.law_id.as_str(), m.pattern_text.as_str(), m.is_law_num))
        .collect();
    assert_eq!(
        view,
        vec![
            ("A", "平成十七年法律第八十六号", true),
            ("B", "個人情報の保護に関する法律", false),
        ]
    );
}

#[test]
fn proceedings_count_speeches_and_grade_relevance() {
    let laws = vec![
        make_law("L1", "刑事訴訟法", &["令和四年法律第百二号"]),
        make_law("L2", "地方自治法", &[]),
    ];
    let (ac, metas) = build_automaton(&laws).unwrap();
    let meeting = parse(
        r#"{"meeting_id":"M1","date":"2024-01-02","house":"衆議院","committee":"法務委員会",
            "speeches":[{"speech":"刑事訴訟法の改正"},{"speech":"令和四年法律第百二号について"},
                        {"speaker":"no text"},{"speech":"地方自治法と刑事訴訟法"}]}"#,
    );
    let links = proceeding_links(&ac, &metas, &meeting);
    assert_eq!(links.len(), 2);
    assert_eq!(links[0].law_id, "L1");
    assert_eq!(links[0].relevance, "amendment_debate");
    assert_eq!(links[0].confidence_pct, 92);
    assert_eq!(links[0].speech_count_mentioning, 3);
    assert_eq!(links[0].match_reasons, vec!["刑事訴訟法", "令和四年法律第百二号"]);
    assert_eq!(links[0].meeting_id, "M1");
    assert_eq!(links[0].committee.as_deref(), Some("法務委員会"));
    assert_eq!(links[1].law_id, "L2");
    assert_eq!(links[1].relevance, "reference_only");
    assert_eq!(links[1].confidence_pct, 55);
    assert_eq!(links[1].speech_count_mentioning, 1);
}

#[test]
fn pubcomment_related_field_and_exact_short_title() {
    let laws = vec![make_law("CIV", "民法", &[]), make_law("CORP", "会社法施行規則", &[])];
    let (ac, metas) = build_automaton(&laws).unwrap();
    let doc = parse(
        r#"{"case_id":"C1","title":"意見募集","ministry":"法務省","reception_start":"2024-01-01",
            "reception_end":"2024-02-01","related_law_name":" 民法 ",
            "opinions":[{"item":"1","opinion":"会社法施行規則について","ministry_response":"承知"}]}"#,
    );
    let links = pubcomment_links(&ac, &metas, &laws, &doc);
    assert_eq!(links.len(), 2);
    assert_eq!(links[0].law_id, "CIV");
    assert_eq!(links[0].relevance, "amendment_comment");
    assert_eq!(links[0].confidence_pct, 90);
    assert_eq!(links[0].match_reasons, vec!["民法"]);
    assert_eq!(links[1].law_id, "CORP");
    assert_eq!(links[1].relevance, "reference_only");
    assert_eq!(links[1].confidence_pct, 55);
    assert_eq!(links[1].start_date, "2024-01-01");
    assert_eq!(links[1].end_date, "2024-02-01");
}

#[test]
fn procurement_notice_cites_law_number() {
    let laws = vec![make_law("P", "会計法施行令", &["昭和二十二年勅令第百六十五号"])];
    let (ac, metas) = build_automaton(&laws).unwrap();
    let doc = parse(
        r#"{"item_id":"I1","title":"昭和二十二年勅令第百六十五号に基づく入札","organization":"財務省","notice_date":"2024-03-01"}"#,
    );
    let links = procurement_links(&ac, &metas, &doc);
    assert_eq!(links.len(), 1);
    assert_eq!(links[0].relevance, "law_cited");
    assert_eq!(links[0].confidence_pct, 88);
    assert_eq!(links[0].organization, "財務省");
    let other = parse(r#"{"item_id":"I2","title":"物品購入","organization":"会計法施行令所管"}"#);
    let links = procurement_links(&ac, &metas, &other);
    assert_eq!(links.len(), 1);
    assert_eq!(links[0].relevance, "reference_only");
    assert_eq!(links[0].confidence_pct, 50);
    assert_eq!(links[0].notice_date, "");
}

#[test]
fn council_meeting_finds_short_titles_and_sorts_reasons() {
    let laws = vec![
        make_law("417AC0000000086", "会社法", &[]),
        make_law("415AC0000000057", "個人情報の保護に関する法律", &[]),
    ];
    let (ac, metas) = build_automaton(&laws).unwrap();
    let doc = parse(
        r#"{"minutes_id":"meeting-1","ministry":"moj","committee":"法制審議会会社法制部会",
            "date":"2026-08-01","title":"第1回会議","agenda":"会社法制の見直し","summary":"",
            "body_text":"","minutes_text":"会社法の改正について審議した。",
            "attachments":[{"kind":"material","extracted_text":"個人情報の保護に関する法律との関係を整理する。"},
                           {"kind":"minutes","extracted_text":"民法"}]}"#,
    );
    let links = council_links(&ac, &metas, &laws, &doc);
    assert_eq!(links.len(), 2);
    assert_eq!(links[0].law_id, "415AC0000000057");
    assert_eq!(links[0].relevance, "deliberation_reference");
    assert_eq!(links[0].confidence_pct, 72);
    assert_eq!(links[1].law_id, "417AC0000000086");
    assert_eq!(links[1].relevance, "title_reference");
    assert_eq!(links[1].confidence_pct, 60);
    assert_eq!(links[1].match_reasons, vec!["会社法"]);
    let unnamed = parse(r#"{"title":"会社法"}"#);
    assert!(council_links(&ac, &metas, &laws, &unnamed).is_empty());
}

#[test]
fn index_and_timeline_reading() {
    let index = parse(
        r#"{"laws":[{"law_id":"A","title":"甲法","timeline":"laws/A/timeline.json"},
                    {"law_id":"","title":"無名"},{"law_id":"B","title":"乙法"}]}"#,
    );
    let laws = index_laws(&index);
    assert_eq!(
        laws,
        vec![
            ("A".to_string(), "甲法".to_string(), "laws/A/timeline.json".to_string()),
            ("B".to_string(), "乙法".to_string(), String::new()),
        ]
    );
    let timeline = parse(
        r#"{"events":[{"amending_law_num":"令和元年法律第一号"},{"amending_law_num":""},{"kind":"x"}]}"#,
    );
    assert_eq!(amending_law_nums(&timeline), vec!["令和元年法律第一号".to_string()]);
}

#[test]
fn newest_first_breaks_ties_by_key_and_keeps_order() {
    let dates: Vec<String> = ["2024-01-01", "2024-03-01", "2024-01-01", "2024-03-01", "2023-12-31"]
        .iter()
        .map(|s| s.to_string())
        .collect();
    let ties: Vec<String> = ["b", "z", "a", "a", ""].iter().map(|s| s.to_string()).collect();
    assert_eq!(order_newest_first(&dates, &ties), vec![3, 1, 2, 0, 4]);
    let same: Vec<String> = vec![String::new(); 5];
    assert_eq!(order_newest_first(&dates, &same), vec![1, 3, 0, 2, 4]);
}

#[test]
fn most_confident_first_then_by_law_id() {
    let pcts = vec![55, 92, 60, 92, 72];
    let ids: Vec<String> = ["L5", "L9", "L1", "L2", "L0"].iter().map(|s| s.to_string()).collect();
    assert_eq!(order_most_confident(&pcts, &ids), vec![3, 1, 4, 2, 0]);
}

#[test]
fn links_group_by_key_in_key_order() {
    let keys: Vec<String> = ["b", "a", "b", "c", "a"].iter().map(|s| s.to_string()).collect();
    let g = lawpub::linking::group_by_key(&keys);
    assert_eq!(
        g,
        vec![("a".to_string(), vec![1, 4]), ("b".to_string(), vec![0, 2]), ("c".to_string(), vec![3])]
    );
    assert!(lawpub::linking::group_by_key(&Vec::new()).is_empty());
}
