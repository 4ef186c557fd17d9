use lawpub::law_diff::{diff_documents, ArticleDiff, ParagraphDiff, TextOp};
use lawpub::law_normalizer::{Article, LawDocument, Paragraph, SourceMeta, SCHEMA_VERSION};

fn doc(law_id: &str, rev: &str, articles: Vec<Article>) -> LawDocument {
    LawDocument {
        schema_version: SCHEMA_VERSION,
        law_id: law_id.to_string(),
        law_num: None,
        title: "テスト法".to_string(),
        revision_id: Some(rev.to_string()),
        promulgation_date: None,
        effective_date: None,
        status: "current".to_string(),
        articles,
        suppl_provisions: Vec::new(),
        source: SourceMeta {
            provider: "test".to_string(),
            raw_xml_sha256: None,
            fetched_at: "2026-01-01T00:00:00Z".to_string(),
        },
    }
}

fn art(id: &str, no: &str, texts: &[(&str, &str)]) -> Article {
    Article {
        article_id: id.to_string(),
        article_no: no.to_string(),
        caption: None,
        paragraphs: texts
            .iter()
            .map(|(n, t)| Paragraph {
                paragraph_no: if n.is_empty() { None } else { Some(n.to_string()) },
                text: t.to_string(),
            })
            .collect(),
    }
}

#[test]
fn detects_added_article() {
    let from = doc("L1", "r1", vec![art("art_1", "第一条", &[("1", "あ")])]);
    let to = doc(
        "L1",
        "r2",
        vec![art("art_1", "第一条", &[("1", "あ")]), art("art_2", "第二条", &[("1", "い")])],
    );
    let d = diff_documents(&from, &to, false);
    assert_eq!(d.summary.articles_added, 1);
    assert_eq!(d.summary.articles_unchanged, 1);
    assert_eq!(d.summary.articles_modified, 0);
    assert!(matches!(d.articles[0], ArticleDiff::Added { .. }));
}

#[test]
fn detects_removed_article() {
    let from = doc(
        "L1",
        "r1",
        vec![art("art_1", "第一条", &[("1", "あ")]), art("art_2", "第二条", &[("1", "い")])],
    );
    let to = doc("L1", "r2", vec![art("art_1", "第一条", &[("1", "あ")])]);
    let d = diff_documents(&from, &to, false);
    assert_eq!(d.summary.articles_removed, 1);
    assert!(matches!(d.articles[0], ArticleDiff::Removed { .. }));
}

#[test]
fn detects_modified_paragraph_text() {
    let from = doc("L1", "r1", vec![art("art_1", "第一条", &[("1", "他人の権利を侵害した者は")])]);
    let to = doc(
        "L1",
        "r2",
        vec![art("art_1", "第一条", &[("1", "他人の権利又は法律上保護される利益を侵害した者は")])],
    );
    let d = diff_documents(&from, &to, false);
    assert_eq!(d.summary.articles_modified, 1);
    let ArticleDiff::Modified { paragraphs, .. } = &d.articles[0] else {
        panic!("expected modified");
    };
    let ParagraphDiff::Modified { text_diff, .. } = &paragraphs[0] else {
        panic!("expected paragraph modified");
    };
    assert!(text_diff.iter().any(|op| matches!(op, TextOp::Insert { .. })));
    let eq_text: String = text_diff
        .iter()
        .filter_map(|op| match op {
            TextOp::Equal { text } => Some(text.as_str()),
            _ => None,
        })
        .collect();
    assert!(eq_text.contains("他人の権利"));
}

#[test]
fn unchanged_articles_omitted_by_default() {
    let from = doc("L1", "r1", vec![art("art_1", "第一条", &[("1", "あ")])]);
    let to = doc("L1", "r2", vec![art("art_1", "第一条", &[("1", "あ")])]);
    let d = diff_documents(&from, &to, false);
    assert_eq!(d.summary.articles_unchanged, 1);
    assert!(d.articles.is_empty());
}

#[test]
fn unchanged_articles_listed_when_asked() {
    let from = doc("L1", "r1", vec![art("art_1", "第一条", &[("1", "あ")])]);
    let to = doc("L1", "r2", vec![art("art_1", "第一条", &[("1", "あ")])]);
    let d = diff_documents(&from, &to, true);
    assert_eq!(d.articles.len(), 1);
    assert!(matches!(&d.articles[0], ArticleDiff::Unchanged { article_id } if article_id == "art_1"));
}

#[test]
fn added_paragraph_is_reported_with_its_text() {
    let from = doc("L1", "r1", vec![art("art_1", "第一条", &[("1", "あ")])]);
    let to = doc("L1", "r2", vec![art("art_1", "第一条", &[("1", "あ"), ("2", "い")])]);
    let d = diff_documents(&from, &to, false);
    assert_eq!(d.summary.articles_modified, 1);
    let ArticleDiff::Modified { paragraphs, .. } = &d.articles[0] else {
        panic!("expected modified");
    };
    assert_eq!(paragraphs.len(), 2);
    assert!(matches!(&paragraphs[0], ParagraphDiff::Unchanged { .. }));
    assert!(matches!(&paragraphs[1], ParagraphDiff::Added { text, .. } if text == "い"));
}

#[test]
fn insert_only_change_keeps_old_text_as_equal_and_deletes_nothing() {
    let from = doc("L1", "r1", vec![art("art_1", "第一条", &[("1", "ab")])]);
    let to = doc("L1", "r2", vec![art("art_1", "第一条", &[("1", "abc")])]);
    let d = diff_documents(&from, &to, false);
    let ArticleDiff::Modified { paragraphs, .. } = &d.articles[0] else {
        panic!("expected modified");
    };
    let ParagraphDiff::Modified { text_diff, .. } = &paragraphs[0] else {
        panic!("expected paragraph modified");
    };
    assert!(!text_diff.iter().any(|op| matches!(op, TextOp::Delete { .. })));
}

#[test]
fn comparing_a_document_with_itself_changes_nothing() {
    let d0 = doc(
        "L1",
        "r1",
        vec![art("art_1", "第一条", &[("1", "あ"), ("2", "い")]), art("art_2", "第二条", &[("", "う")])],
    );
    let d = diff_documents(&d0, &d0, true);
    assert_eq!(d.summary.articles_added, 0);
    assert_eq!(d.summary.articles_removed, 0);
    assert_eq!(d.summary.articles_modified, 0);
    assert_eq!(d.summary.articles_unchanged, 2);
    assert!(d.articles.iter().all(|a| matches!(a, ArticleDiff::Unchanged { .. })));
}

#[test]
fn every_article_has_exactly_one_fate() {
    let from = doc("L1", "r1", vec![art("art_1", "第一条", &[("1", "あ")]), art("art_2", "第二条", &[("1", "い")])]);
    let to = doc("L1", "r2", vec![art("art_2", "第二条", &[("1", "いい")]), art("art_3", "第三条", &[("1", "う")])]);
    let d = diff_documents(&from, &to, true);
    let s = &d.summary;
    assert_eq!((s.articles_added, s.articles_removed, s.articles_modified, s.articles_unchanged), (1, 1, 1, 0));
    assert_eq!(s.articles_removed + s.articles_modified + s.articles_unchanged, from.articles.len());
    assert_eq!(s.articles_added + s.articles_modified + s.articles_unchanged, to.articles.len());
}

use lawpub::cli::changes::{article_changes, change_type};

#[test]
fn article_changes_list_ids_in_order() {
    let prev = doc(
        "L1",
        "r1",
        vec![art("art_3", "第三条", &[("1", "う")]), art("art_1", "第一条", &[("1", "あ")]), art("art_2", "第二条", &[("1", "い")])],
    );
    let cur = doc(
        "L1",
        "r2",
        vec![
            art("art_5", "第五条", &[("1", "お")]),
            art("art_2", "第二条", &[("1", "いい")]),
            art("art_1", "第一条", &[("1", "あ")]),
            art("art_4", "第四条", &[("1", "え")]),
        ],
    );
    let c = article_changes(&prev, &cur);
    assert_eq!(c.added, vec!["art_4".to_string(), "art_5".to_string()]);
    assert_eq!(c.removed, vec!["art_3".to_string()]);
    assert_eq!(c.modified, vec!["art_2".to_string()]);
    let same = article_changes(&prev, &prev);
    assert!(same.added.is_empty() && same.removed.is_empty() && same.modified.is_empty());
}

#[test]
fn duplicate_ids_compare_their_last_article() {
    let prev = doc("L1", "r1", vec![art("art_1", "第一条", &[("1", "x")]), art("art_1", "第一条", &[("1", "あ")])]);
    let cur = doc("L1", "r2", vec![art("art_1", "第一条", &[("1", "あ")])]);
    let c = article_changes(&prev, &cur);
    assert!(c.modified.is_empty() && c.added.is_empty() && c.removed.is_empty());
}

#[test]
fn change_type_of_first_and_later_revisions() {
    assert_eq!(change_type(Some("r1"), "r1"), "added");
    assert_eq!(change_type(Some("r1"), "r2"), "modified");
    assert_eq!(change_type(None, "r2"), "modified");
}

#[test]
fn document_diffed_with_itself_has_no_change() {
    let d = doc(
        "L",
        "r1",
        vec![art("art_1", "第一条", &[("1", "甲")]), art("art_2", "第二条", &[("1", "乙")])],
    );
    let r = diff_documents(&d, &d, false);
    assert!(r.articles.is_empty());
    assert_eq!(r.summary.articles_unchanged, 2);
    assert_eq!(r.summary.articles_added + r.summary.articles_modified + r.summary.articles_removed, 0);
}
