use lawpub::kanpo_client::http::{
    clean_title, compact_date, extract_agency_hint, issue_dir, max_page_in_index, parse_issue_heading,
    parse_item_link,
};
use lawpub::kanpo_client::toc::parse_toc;
use lawpub::kanpo_client::{page_pdf_url, KanpoProvider, MockKanpoProvider};

#[test]
fn mock_date_has_one_regular_issue() {
    let d = MockKanpoProvider.fetch_date("2026-06-15").unwrap();
    assert_eq!(d.date, "2026-06-15");
    assert_eq!(d.issues.len(), 1);
    assert_eq!(d.issues[0].pdf_url, "mock://kanpo/2026-06-15/regular-1.pdf");
    assert_eq!(d.issues[0].issue_no, "第1号");
}

#[test]
fn page_pdf_url_swaps_the_page() {
    let u = "https://www.kanpo.go.jp/20260615/20260615h01726/pdf/20260615h017260002.pdf";
    assert_eq!(
        page_pdf_url(u, 2, 13).as_deref(),
        Some("https://www.kanpo.go.jp/20260615/20260615h01726/pdf/20260615h017260013.pdf")
    );
    assert_eq!(page_pdf_url(u, 3, 13), None);
}

#[test]
fn dates_headings_and_titles() {
    assert_eq!(compact_date("2026-06-15").unwrap(), "20260615");
    assert!(compact_date("2026-6-15").is_err());
    assert_eq!(
        parse_issue_heading("本紙\u{3000}第1726号"),
        Some(("regular".to_string(), "第1726号".to_string()))
    );
    assert_eq!(
        parse_issue_heading("特別号外 第5号"),
        Some(("special_extra".to_string(), "第5号".to_string()))
    );
    assert_eq!(parse_issue_heading("号外 第131号").unwrap().0, "extra");
    assert_eq!(parse_issue_heading("目次"), None);
    assert_eq!(parse_issue_heading("政令 第1号"), None);
    assert_eq!(clean_title("  ○○の一部を改正する政令（総務七七）  12 "), "○○の一部を改正する政令（総務七七）");
    assert_eq!(extract_agency_hint("○○の一部を改正する政令（総務七七）").as_deref(), Some("総務七七"));
    assert_eq!(extract_agency_hint("（）"), None);
    assert_eq!(extract_agency_hint("無括弧"), None);
}

#[test]
fn item_links_and_issue_directories() {
    let it = parse_item_link(
        "https://www.kanpo.go.jp",
        "20260615",
        "20260615h01726/20260615h017260002f.html",
        "○○の一部を改正する政令（総務七七） 2",
    )
    .unwrap();
    assert_eq!(it.page, 2);
    assert_eq!(it.title, "○○の一部を改正する政令（総務七七）");
    assert_eq!(it.pdf_url, "https://www.kanpo.go.jp/20260615/20260615h01726/pdf/20260615h017260002.pdf");
    assert_eq!(it.agency_hint.as_deref(), Some("総務七七"));
    assert!(parse_item_link("b", "20260615", "20260615h01726/20260615h017260002.html", "x").is_none());
    assert!(parse_item_link("b", "20260616", "20260615h01726/20260615h017260002f.html", "x").is_none());
    assert_eq!(
        issue_dir("https://www.kanpo.go.jp/20260615/20260615h01726/").as_deref(),
        Some("20260615h01726")
    );
    assert_eq!(issue_dir("///"), None);
}

#[test]
fn max_page_reads_four_digit_links() {
    let html = r#"<a href="20260615h017260001f.html">1</a><a href="20260615h017260016f.html">16</a><a href="20260615h01726fullf.html">x</a>"#;
    assert_eq!(max_page_in_index(html, "20260615h01726"), Some(16));
    assert_eq!(max_page_in_index("<p>none</p>", "20260615h01726"), None);
    assert_eq!(max_page_in_index(html, ""), None);
}

#[test]
fn toc_groups_items_by_issue_and_dedups() {
    let html = r#"<html><body>
      <a href="javascript:void(0)">本紙　第1726号</a>
      <a href="20260615h01726/20260615h017260002f.html">○○の一部を改正する政令（総務七七） 2</a>
      <a href="20260615h01726/20260615h017260002f.html">○○の一部を改正する政令（総務七七） 2</a>
      <a href="20260615h01726/20260615h017260005f.html">△△規則 5</a>
      <a href="javascript:void(0)">号外　第131号</a>
      <a href="20260615g00131/20260615g001310001f.html">□□法 1</a>
    </body></html>"#;
    let issues = parse_toc("https://www.kanpo.go.jp", "20260615", "2026-06-15", html);
    assert_eq!(issues.len(), 2);
    assert_eq!(issues[0].issue_type, "regular");
    assert_eq!(issues[0].issue_no, "第1726号");
    assert_eq!(issues[0].pdf_url, "https://www.kanpo.go.jp/20260615/20260615h01726/");
    assert_eq!(issues[0].items.len(), 2);
    assert_eq!(issues[0].titles, vec!["○○の一部を改正する政令（総務七七）".to_string(), "△△規則".to_string()]);
    assert_eq!(issues[1].issue_type, "extra");
    assert_eq!(issues[1].items[0].page, 1);
    assert_eq!(issues[1].promulgation_date, "2026-06-15");
}
