use lawpub::gian::dates::{jp_num, wareki_to_iso};
use lawpub::gian::html::{extract_document_text, norm, parse_keika, parse_keika_checked};
use lawpub::gian::keika::{after_slash, before_slash, latest_event};
use lawpub::gian::lists::{
    parse_bill_list, parse_document_index, parse_resolution_list, parse_resolution_list_checked,
};
use lawpub::gian::model::{list_url, BillMeta, GianProvider, KeyValue, MockProvider, BASE_URL};
use lawpub::gian::resolution::{extract_session_number, parse_resolution_label};

#[test]
fn mock_list_and_fetch() {
    let p = MockProvider;
    let bills = p.list_bills(0).unwrap();
    assert_eq!(bills.len(), 1);
    let b = p.fetch_bill(&bills[0]).unwrap();
    assert_eq!(b.bill_type.as_deref(), Some("衆法"));
    assert!(b.source.detail_url.contains("keika/"));
    assert_eq!(b.documents[0].kind, "bill_text");
}

#[test]
fn parse_keika_fields() {
    let html = r#"<html><body><table>
      <tr><td headers="KOMOKU"><span>議案種類</span></td><td headers="NAIYO"><span>衆法</span></td></tr>
      <tr><td headers="KOMOKU"><span>議案提出回次</span></td><td headers="NAIYO"><span>221</span></td></tr>
      <tr><td headers="KOMOKU"><span>議案番号</span></td><td headers="NAIYO"><span>1</span></td></tr>
      <tr><td headers="KOMOKU"><span>議案件名</span></td><td headers="NAIYO"><span>政治資金規正法の一部を改正する法律案</span></td></tr>
      <tr><td headers="KOMOKU"><span>議案提出者</span></td><td headers="NAIYO"><span>落合 貴之君外四名</span></td></tr>
      <tr><td headers="KOMOKU"><span>衆議院付託年月日／衆議院付託委員会</span></td><td headers="NAIYO"><span>令和 8年 6月12日 ／ 政治改革に関する特別</span></td></tr>
      <tr><td headers="KOMOKU"><span>公布年月日／法律番号</span></td><td headers="NAIYO"><span>令和 8年 6月20日 ／ 法律第50号</span></td></tr>
    </table></body></html>"#;
    let meta = BillMeta {
        bill_id: "1DE153E".into(),
        session: 0,
        title: "一覧由来".into(),
        status: Some("成立".into()),
        keika_url: "https://x/keika/1DE153E.htm".into(),
        honbun_url: Some("https://x/honbun/g22105001.htm".into()),
    };
    let b = parse_keika(html, &meta, "2026-01-01T00:00:00Z").unwrap();
    assert_eq!(b.bill_type.as_deref(), Some("衆法"));
    assert_eq!(b.number.as_deref(), Some("1"));
    assert!(b.title.contains("政治資金規正法"));
    assert_eq!(b.submitter.as_deref(), Some("落合 貴之君外四名"));
    assert_eq!(b.committee.as_deref(), Some("政治改革に関する特別"));
    assert_eq!(b.law_num.as_deref(), Some("法律第50号"));
    assert_eq!(b.promulgation_date.as_deref(), Some("令和 8年 6月20日"));
    assert_eq!(b.fields.len(), 7);
    assert_eq!(b.session, 221);
    assert_eq!(b.latest_date.as_deref(), Some("2026-06-20"));
    assert_eq!(b.latest_event.as_deref(), Some("公布"));

    let checked = parse_keika_checked(html, &meta, "2026-01-01T00:00:00Z").unwrap();
    assert_eq!(checked.latest_event.as_deref(), Some("公布"));
}

#[test]
fn wareki_conversion() {
    assert_eq!(wareki_to_iso("令和 8年 6月12日").as_deref(), Some("2026-06-12"));
    assert_eq!(wareki_to_iso("令和元年 5月 1日").as_deref(), Some("2019-05-01"));
    assert_eq!(wareki_to_iso("平成31年 4月30日").as_deref(), Some("2019-04-30"));
    assert_eq!(wareki_to_iso("／").as_deref(), None);
    assert_eq!(wareki_to_iso("").as_deref(), None);
}

#[test]
fn wareki_other_eras_full_width_and_range_checks() {
    assert_eq!(wareki_to_iso("昭和２０年８月１５日").as_deref(), Some("1945-08-15"));
    assert_eq!(wareki_to_iso("明治29年4月27日").as_deref(), Some("1896-04-27"));
    assert_eq!(wareki_to_iso("大正元年12月1日").as_deref(), Some("1912-12-01"));
    assert_eq!(wareki_to_iso("令和8年13月1日"), None);
    assert_eq!(wareki_to_iso("令和8年6月32日"), None);
    assert_eq!(wareki_to_iso("令和8年6月"), None);
    assert_eq!(wareki_to_iso("西暦2026年6月1日"), None);
}

#[test]
fn jp_num_reads_digits_and_gannen() {
    assert_eq!(jp_num(" 8"), Some(8));
    assert_eq!(jp_num("元"), Some(1));
    assert_eq!(jp_num("１２"), Some(12));
    assert_eq!(jp_num("第3"), Some(3));
    assert_eq!(jp_num(""), None);
    assert_eq!(jp_num("99999999999"), None);
}

#[test]
fn slash_parts_of_progress_values() {
    assert_eq!(before_slash("令和 8年 6月12日 ／ 政治改革"), "令和 8年 6月12日");
    assert_eq!(before_slash("令和 8年"), "令和 8年");
    assert_eq!(after_slash("令和 8年 6月12日 ／ 政治改革 ／ 他").as_deref(), Some("政治改革"));
    assert_eq!(after_slash("令和 8年 6月12日 ／ "), None);
    assert_eq!(after_slash("令和 8年"), None);
}

#[test]
fn latest_event_prefers_newest_date_and_earlier_row_on_tie() {
    let fields = vec![
        KeyValue { key: "衆議院議案受理年月日".into(), value: "令和 8年 6月 1日".into() },
        KeyValue { key: "衆議院付託年月日／衆議院付託委員会".into(), value: "令和 8年 6月12日 ／ 法務".into() },
        KeyValue { key: "参議院付託年月日／参議院付託委員会".into(), value: "令和 8年 6月12日 ／ 法務".into() },
    ];
    let (d, e) = latest_event(&fields);
    assert_eq!(d.as_deref(), Some("2026-06-12"));
    assert_eq!(e.as_deref(), Some("委員会付託(衆)"));
    let (d, e) = latest_event(&Vec::new());
    assert_eq!(d, None);
    assert_eq!(e, None);
}

#[test]
fn resolution_labels_and_session_numbers() {
    let (title, subject, date) =
        parse_resolution_label("国家情報会議設置法案に対する附帯決議（令和8年6月9日）（PDF）");
    assert_eq!(title, "国家情報会議設置法案に対する附帯決議");
    assert_eq!(subject, "国家情報会議設置法案");
    assert_eq!(date.as_deref(), Some("2026-06-09"));
    let (title, subject, date) = parse_resolution_label(
        "民法等の一部を改正する法律案及び関係法律整備法案に対する附帯決議（令和８年６月１６日）（PDF）",
    );
    assert_eq!(title, "民法等の一部を改正する法律案及び関係法律整備法案に対する附帯決議");
    assert_eq!(subject, "民法等の一部を改正する法律案及び関係法律整備法案");
    assert_eq!(date.as_deref(), Some("2026-06-16"));
    let (title, subject, date) = parse_resolution_label("  附帯決議一覧  ");
    assert_eq!(title, "附帯決議一覧");
    assert_eq!(subject, "附帯決議一覧");
    assert_eq!(date, None);
    assert_eq!(extract_session_number("第221回国会 附帯決議一覧"), Some(221));
    assert_eq!(extract_session_number("附帯決議一覧"), None);
}

#[test]
fn list_urls_and_document_text() {
    assert_eq!(list_url(BASE_URL, 0), format!("{BASE_URL}/menu.htm"));
    assert_eq!(list_url("b", 221), "b/kaiji221.htm");
    assert_eq!(norm("  a \n b\u{3000}c  "), "a b c");
    let body = r#"<html><body><div id="mainlayout">
      <p>法律案本文</p><p>理 由</p><p>理 由</p><p>これが提出理由である。</p>
    </div><div id="FooterBlock"><p>footer</p></div></body></html>"#;
    let text = extract_document_text(body);
    assert_eq!(text, "法律案本文\n理 由\nこれが提出理由である。");
}

#[test]
fn mock_resolutions() {
    let p = MockProvider;
    let rs = p.list_resolutions(0).unwrap();
    assert_eq!(rs[0].resolution_id, "sangiin-221-f065_061601");
    assert!(rs[0].source_url.ends_with("/221/f065_061601.pdf"));
    let rs = p.list_resolutions(215).unwrap();
    assert_eq!(rs[0].session, 215);
    let f = p.fetch_resolution(&rs[0]).unwrap();
    assert_eq!(f.bytes, "政府は、この法律の施行に当たり必要な措置を講ずること。".as_bytes());
}

#[test]
fn parse_bill_list_sample() {
    let html = r#"<html><body><table>
      <tr>
        <td class="td"><span class="txt03">政治資金規正法の一部を改正する法律案</span></td>
        <td class="td"><span class="txt03">衆議院で審議中</span></td>
        <td class="td"><a href="./keika/1DE153E.htm" title="経過">経過</a></td>
        <td class="td"><a href="./honbun/g22105001.htm" title="本文">本文</a></td>
      </tr>
    </table></body></html>"#;
    let bills = parse_bill_list(html, 221, BASE_URL).unwrap();
    assert_eq!(bills.len(), 1);
    assert_eq!(bills[0].bill_id, "1DE153E");
    assert!(bills[0].title.contains("政治資金規正法"));
    assert_eq!(bills[0].status.as_deref(), Some("衆議院で審議中"));
    assert!(bills[0].keika_url.ends_with("keika/1DE153E.htm"));
    assert!(bills[0]
        .honbun_url
        .as_deref()
        .unwrap()
        .ends_with("honbun/g22105001.htm"));
}

#[test]
fn parse_document_index_and_body() {
    let index = r#"<html><body><div id="mainlayout"><ul>
      <li><a href="./houan/g22105001.htm">提出時法律案</a></li>
      <li><a href="./youkou/g22105001.htm">[要綱]</a></li>
      <li><a href="./syuuseian/13_8A62.htm">修正案（可決）</a></li>
    </ul></div></body></html>"#;
    let links = parse_document_index(
        index,
        "https://www.shugiin.go.jp/internet/itdb_gian.nsf/html/gian/honbun/g22105001.htm",
    )
    .unwrap();
    assert_eq!(links.len(), 3);
    assert_eq!(links[0].kind, "bill_text");
    assert_eq!(links[1].kind, "outline");
    assert_eq!(links[2].kind, "amendment");
    assert!(links[0].url.contains("/honbun/houan/"));

    let body = r#"<html><body><div id="mainlayout">
      <p>法律案本文</p><p>理 由</p><p>これが提出理由である。</p>
    </div><div id="FooterBlock"><p>footer</p></div></body></html>"#;
    let text = extract_document_text(body);
    assert!(text.contains("法律案本文\n理 由\nこれが提出理由である。"));
    assert!(!text.contains("footer"));
}

#[test]
fn parse_sangiin_resolution_list() {
    let html = r#"<html><head><title>第221回国会 附帯決議一覧</title></head><body>
      <h2 class="title_text">第221回国会　附帯決議一覧</h2>
      <h3 class="title03 mt20">内閣委員会</h3>
      <ul class="exp_list_icn02">
        <li><a href="f063_060902.pdf">国家情報会議設置法案に対する附帯決議（令和8年6月9日）（PDF）</a></li>
      </ul>
      <h3 class="title03 mt20">法務委員会</h3>
      <ul class="exp_list_icn02">
        <li><a href="f065_061601.pdf">民法等の一部を改正する法律案及び関係法律整備法案に対する附帯決議（令和８年６月１６日）（PDF）</a></li>
      </ul>
    </body></html>"#;
    let resolutions = parse_resolution_list(
        html,
        0,
        "https://www.sangiin.go.jp/japanese/gianjoho/ketsugi/current/futai_ind.html",
    )
    .unwrap();
    assert_eq!(resolutions.len(), 2);
    assert_eq!(resolutions[0].session, 221);
    assert_eq!(resolutions[0].committee, "内閣委員会");
    assert_eq!(resolutions[0].subject, "国家情報会議設置法案");
    assert_eq!(
        resolutions[0].resolution_date.as_deref(),
        Some("2026-06-09")
    );
    assert_eq!(resolutions[1].committee, "法務委員会");
    assert_eq!(
        resolutions[1].resolution_date.as_deref(),
        Some("2026-06-16")
    );
    assert!(resolutions[1].source_url.ends_with("f065_061601.pdf"));
}

#[test]
fn bill_list_skips_repeated_and_untitled_rows() {
    let html = r#"<table>
      <tr><td><a href="keika/A1.htm">経過</a></td></tr>
      <tr><td>法案甲</td><td><a href="keika/A1.htm.htm">経過</a></td></tr>
      <tr><td>法案乙</td><td><a href="keika/B2.htm">経過</a></td></tr>
      <tr><td>法案丙</td><td>成立</td><td><a href="keika/B2.htm">経過</a></td></tr>
      <tr><td>見出し</td></tr>
    </table>"#;
    let bills = parse_bill_list(html, 7, "https://example.org/gian").unwrap();
    // A1 is taken by the untitled first row; B2 is read once.
    assert_eq!(bills.len(), 1);
    assert_eq!(bills[0].bill_id, "B2");
    assert_eq!(bills[0].session, 7);
    assert_eq!(bills[0].title, "法案乙");
    assert_eq!(bills[0].status, None);
    assert_eq!(bills[0].keika_url, "https://example.org/gian/keika/B2.htm");
    assert_eq!(bills[0].honbun_url, None);
}

#[test]
fn document_index_errors_and_defaults() {
    let err = parse_document_index("<a href='houan/x.htm'>x</a>", "not a url").unwrap_err();
    assert_eq!(err.message(), "parse bill document index URL");
    let html = r#"<a href="./HOUAN/a.htm"></a><a href="./houan/a.htm">again</a><a href="./houan/a.htm">dup</a><a href="other.htm">no</a><a href="./SHUSEIAN/b.htm">修正</a>"#;
    let links = parse_document_index(html, "https://example.org/x/index.htm").unwrap();
    assert_eq!(links.len(), 3);
    assert_eq!(links[0].kind, "bill_text");
    assert_eq!(links[0].label, "bill_text");
    assert_eq!(links[0].url, "https://example.org/x/HOUAN/a.htm");
    assert_eq!(links[1].url, "https://example.org/x/houan/a.htm");
    assert_eq!(links[2].kind, "amendment");
    assert_eq!(links[2].label, "修正");
}

#[test]
fn resolution_list_session_and_errors() {
    let page = r#"<h3>委員会</h3><ul class="exp_list_icn02"><li><a href="dir/r1.PDF">件名に対する附帯決議</a></li><li><a href="dir/r1.PDF">again</a></li><li><a href="x.html">not pdf</a></li></ul>"#;
    let rs = parse_resolution_list(page, 210, "https://example.org/k/i.html").unwrap();
    assert_eq!(rs.len(), 1);
    assert_eq!(rs[0].resolution_id, "sangiin-210-r1");
    assert_eq!(rs[0].chamber, "参議院");
    assert_eq!(rs[0].title, "件名に対する附帯決議");
    assert_eq!(rs[0].subject, "件名");
    assert_eq!(rs[0].resolution_date, None);
    assert_eq!(rs[0].source_url, "https://example.org/k/dir/r1.PDF");
    let err = parse_resolution_list(page, 0, "https://example.org/k/i.html").unwrap_err();
    assert_eq!(err.message(), "current resolution page does not contain a Diet session number");
    let err = parse_resolution_list(page, 1, "::").unwrap_err();
    assert_eq!(err.message(), "parse resolution index URL");
    let overflowing = r#"<h3>委員会</h3><ul class="exp_list_icn02"><li><a href="r.pdf">件名（令和2147483647年1月1日）</a></li></ul>"#;
    assert!(parse_resolution_list_checked(overflowing, 1, "https://example.org/k/i.html").is_none());
    assert!(parse_resolution_list_checked(page, 210, "https://example.org/k/i.html").is_some());
}
