use lawpub::cli::snapshots::{resolve, VersionEntry};

fn v(rev: &str, eff: Option<&str>, prom: Option<&str>, body: bool) -> VersionEntry {
    VersionEntry {
        revision_id: rev.to_string(),
        effective_date: eff.map(|s| s.to_string()),
        promulgation_date: prom.map(|s| s.to_string()),
        body_available: body,
    }
}

#[test]
fn resolves_latest_effective_at_date() {
    let vs = vec![
        v("r1", Some("2017-06-01"), Some("2017-05-01"), true),
        v("r2", Some("2020-04-01"), Some("2019-12-01"), true),
        v("r3", Some("2024-04-01"), Some("2023-12-01"), true),
    ];
    let got = resolve(&vs, "2021-01-01", false).unwrap();
    assert_eq!(got.revision_id, "r2");
}

#[test]
fn ignores_future_revisions() {
    let vs = vec![v("r1", Some("2017-06-01"), None, true), v("r2", Some("2030-04-01"), None, true)];
    let got = resolve(&vs, "2021-01-01", false).unwrap();
    assert_eq!(got.revision_id, "r1");
}

#[test]
fn include_unenforced_uses_promulgation() {
    let vs = vec![
        v("r1", Some("2017-06-01"), Some("2017-05-01"), true),
        v("r2", Some("2030-04-01"), Some("2024-06-01"), true),
    ];
    let strict = resolve(&vs, "2025-01-01", false).unwrap();
    assert_eq!(strict.revision_id, "r1");
    let loose = resolve(&vs, "2025-01-01", true).unwrap();
    assert_eq!(loose.revision_id, "r2");
}

#[test]
fn returns_none_before_any_effective_date() {
    let vs = vec![v("r1", Some("2020-01-01"), None, true)];
    assert!(resolve(&vs, "2019-01-01", false).is_none());
}

#[test]
fn first_of_equal_dates_wins_and_date_is_inclusive() {
    let vs = vec![
        v("a", Some("2020-01-01"), None, true),
        v("b", Some("2020-01-01"), None, false),
    ];
    let got = resolve(&vs, "2020-01-01", false).unwrap();
    assert_eq!(got.revision_id, "a");
    assert!(got.body_available);
}

#[test]
fn unenforced_falls_back_to_effective_date() {
    let vs = vec![v("r1", Some("2018-01-01"), None, true), v("r2", None, None, true)];
    let got = resolve(&vs, "2019-01-01", true).unwrap();
    assert_eq!(got.revision_id, "r1");
}
