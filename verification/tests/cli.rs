use lawpub::cli::budget::{fetch_failure, run_fetch, stale_stems};
use lawpub::cli::feeds::{kind_label, normalize_date, xml_escape};
use lawpub::cli::kanpo::{best_segment, body_score, sanitize, title_core, truncate_chars};
use lawpub::cli::state::LatestState;
use lawpub::estat::MockProvider;

#[test]
fn feed_labels_and_escaping() {
    assert_eq!(kind_label("pubcomment"), "パブコメ");
    assert_eq!(kind_label("bill"), "法案");
    assert_eq!(kind_label("other"), "other");
    assert_eq!(xml_escape(r#"a<b>&"c""#), "a&lt;b&gt;&amp;&quot;c&quot;");
}

#[test]
fn feed_dates_become_iso() {
    assert_eq!(normalize_date("2026年6月19日"), "2026-06-19");
    assert_eq!(normalize_date(" 2026年3月27日18時0分 "), "2026-03-27");
    assert_eq!(normalize_date("2026-04-02"), "2026-04-02");
    assert_eq!(normalize_date("不明"), "不明");
    assert_eq!(normalize_date("0年1月1日"), "0年1月1日");
}

#[test]
fn gazette_titles_and_segments() {
    assert_eq!(title_core("建築基準法施行令の一部を改正する政令（国土交通一二）"), "建築基準法施行令");
    assert_eq!(title_core("○○規則を廃止する件"), "○○規則");
    assert_eq!(title_core("告示"), "告示");
    assert_eq!(body_score("次のように改める"), 2000 + 8);
    let segs = vec![
        "建築基準法施行令（目次）".to_string(),
        "建築基準法施行令（昭和二十五年政令第三百三十八号）の一部を次のように改正する。".to_string(),
        "別の法令".to_string(),
    ];
    assert_eq!(
        best_segment("建築基準法施行令の一部を改正する政令（国土交通一二）", &segs),
        Some(segs[1].as_str())
    );
    assert_eq!(best_segment("短い", &segs), None);
    assert_eq!(sanitize("a/b\\c:d"), "a_b_c_d");
    assert_eq!(sanitize("あいうえおかきくけこさしすせそたちつてとなにぬねの").chars().count(), 24);
    assert_eq!(truncate_chars("あいうえお", 3), "あいう…");
    assert_eq!(truncate_chars("あい", 3), "あい");
}

#[test]
fn latest_state_default() {
    let s = LatestState::default();
    assert_eq!(s.version, 1);
    assert!(s.latest_successful_update_date.is_none());
    assert!(s.law_count.is_none());
}

#[test]
fn budget_fetch_and_stale_cache_entries() {
    let ds = run_fetch(&MockProvider).unwrap();
    assert_eq!(ds.len(), 3);
    assert_eq!(ds[1].stats_data_id, "0003360064");
    assert_eq!(ds[0].stats_data_id, "0003410379");
    assert_eq!(ds[0].title, "財政統計（一般会計）");
    assert_eq!(ds[2].title, "法人企業統計調査（全産業時系列）");
    let stale = stale_stems(&vec!["obsolete".to_string(), "0003410379".to_string(), "x".to_string()]);
    assert_eq!(stale, vec!["obsolete".to_string(), "x".to_string()]);
}

#[test]
fn budget_fetch_failure_names_the_table() {
    let e = fetch_failure(1, &lawpub::error::ProviderError::Source("timeout".to_string()));
    match e {
        lawpub::error::ProviderError::Source(m) => {
            assert_eq!(m, "fetch e-Stat dataset 0003360064 (国有財産統計（政府出資等の推移）): timeout")
        },
        _ => panic!("not a source error"),
    }
}
