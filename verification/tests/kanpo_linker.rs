use lawpub::kanpo_client::model::{KanpoDate, KanpoIssue};
use lawpub::kanpo_linker::{auto_linked, best_match, match_event, score, AUTO_LINK_THRESHOLD_PCT};

fn issue(date: &str, nums: &[&str], titles: &[&str]) -> KanpoIssue {
    KanpoIssue {
        issue_type: "regular".to_string(),
        issue_no: "第1号".to_string(),
        pdf_url: String::new(),
        sha256: None,
        promulgation_date: date.to_string(),
        law_nums: nums.iter().map(|s| s.to_string()).collect(),
        titles: titles.iter().map(|s| s.to_string()).collect(),
        items: Vec::new(),
        page_count: None,
    }
}

#[test]
fn score_weights() {
    assert_eq!(score(true, false, false, false), 40);
    assert_eq!(score(true, true, false, false), 75);
    assert_eq!(score(true, true, true, true), 100);
    assert_eq!(score(false, false, true, true), 25);
    assert_eq!(AUTO_LINK_THRESHOLD_PCT, 80);
    assert!(auto_linked(85));
    assert!(!auto_linked(75));
}

#[test]
fn match_event_reasons_in_order() {
    let i = issue("2024-05-01", &["令和六年法律第十号"], &["甲法の一部を改正する法律"]);
    let r = match_event(
        Some("2024-05-01"),
        Some("令和六年法律第十号"),
        Some("甲法の一部を改正する法律"),
        Some("甲法"),
        &i,
    );
    assert_eq!(r.confidence_pct, 100);
    assert_eq!(r.match_reasons, vec!["promulgation_date", "law_num", "title", "target_law"]);
    let r = match_event(Some("2024-05-02"), None, Some("甲法"), Some("乙法"), &i);
    assert_eq!(r.confidence_pct, 0);
    assert!(r.match_reasons.is_empty());
}

#[test]
fn best_match_keeps_first_highest() {
    let dates = vec![
        KanpoDate {
            date: "2024-05-01".to_string(),
            issues: vec![issue("2024-05-01", &[], &[]), issue("2024-05-01", &["N"], &[])],
        },
        KanpoDate { date: "2024-05-02".to_string(), issues: vec![issue("2024-05-02", &["N"], &[])] },
    ];
    let (pct, date, reasons) = best_match(Some("2024-05-01"), Some("N"), &dates).unwrap();
    assert_eq!(pct, 75);
    assert_eq!(date, "2024-05-01");
    assert_eq!(reasons, vec!["promulgation_date", "law_num"]);
    let (pct, date, _) = best_match(Some("2024-05-09"), Some("N"), &dates).unwrap();
    assert_eq!(pct, 35);
    assert_eq!(date, "2024-05-01");
    assert!(best_match(None, Some("X"), &dates).is_none());
}
