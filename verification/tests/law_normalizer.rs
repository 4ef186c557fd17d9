use lawpub::law_normalizer::{parse_law_xml, sha256_hex};

#[test]
fn parses_minimal_lawxml() {
    let xml = r#"<?xml version="1.0"?>
<Law>
  <LawNum>明治二十九年法律第八十九号</LawNum>
  <LawBody>
<LawTitle>民法</LawTitle>
<MainProvision>
  <Article Num="1">
    <ArticleTitle>第一条</ArticleTitle>
    <ArticleCaption>基本原則</ArticleCaption>
    <Paragraph>
      <ParagraphNum>1</ParagraphNum>
      <ParagraphSentence>私権は、公共の福祉に適合しなければならない。</ParagraphSentence>
    </Paragraph>
  </Article>
</MainProvision>
  </LawBody>
</Law>"#;
    let doc = parse_law_xml(xml.as_bytes(), "129AC0000000089").unwrap();
    assert_eq!(doc.title, "民法");
    assert_eq!(doc.law_num.as_deref(), Some("明治二十九年法律第八十九号"));
    assert_eq!(doc.articles.len(), 1);
    assert_eq!(doc.articles[0].article_no, "第一条");
    assert_eq!(doc.articles[0].caption.as_deref(), Some("基本原則"));
    assert_eq!(doc.articles[0].paragraphs.len(), 1);
    assert!(doc.articles[0].paragraphs[0].text.contains("公共の福祉"));
}

#[test]
fn parses_egov_dataroot_wrapped_law() {
    // 実 e-Gov v2 の `lawdata` エンドポイントは DataRoot/ApplData 包みで返す。
    // 内側の <Law> 配下の要素を拾えるか確認する。
    let xml = r#"<?xml version="1.0"?>
<DataRoot>
  <Result><Code>0</Code><Message></Message></Result>
  <ApplData>
<LawId>129AC0000000089</LawId>
<LawNum>明治二十九年法律第八十九号</LawNum>
<LawFullText>
  <Law>
    <LawNum>明治二十九年法律第八十九号</LawNum>
    <PromulgationDate>1896-04-27</PromulgationDate>
    <LawBody>
      <LawTitle>民法</LawTitle>
      <MainProvision>
        <Article Num="1">
          <ArticleTitle>第一条</ArticleTitle>
          <ArticleCaption>基本原則</ArticleCaption>
          <Paragraph>
            <ParagraphNum>1</ParagraphNum>
            <ParagraphSentence>私権は、公共の福祉に適合しなければならない。</ParagraphSentence>
          </Paragraph>
        </Article>
      </MainProvision>
    </LawBody>
  </Law>
</LawFullText>
  </ApplData>
</DataRoot>"#;
    let doc = parse_law_xml(xml.as_bytes(), "129AC0000000089").unwrap();
    assert_eq!(doc.title, "民法");
    assert_eq!(doc.law_num.as_deref(), Some("明治二十九年法律第八十九号"));
    assert_eq!(doc.promulgation_date.as_deref(), Some("1896-04-27"));
    assert_eq!(doc.articles.len(), 1);
}

#[test]
fn parses_promulgation_date_from_law_attrs() {
    // e-Gov v1 API 実 XML は <PromulgationDate> 要素ではなく <Law> 属性に
    // Era / Year / PromulgateMonth / PromulgateDay を持つ。これを西暦に変換できること。
    let xml = r#"<?xml version="1.0"?>
<Law Era="Meiji" Year="29" PromulgateMonth="04" PromulgateDay="27">
  <LawBody><LawTitle>民法</LawTitle><MainProvision/></LawBody>
</Law>"#;
    let doc = parse_law_xml(xml.as_bytes(), "129AC0000000089").unwrap();
    assert_eq!(doc.promulgation_date.as_deref(), Some("1896-04-27"));

    let xml2 = r#"<?xml version="1.0"?>
<Law Era="Reiwa" Year="5" PromulgateMonth="06" PromulgateDay="14">
  <LawBody><LawTitle>x</LawTitle><MainProvision/></LawBody>
</Law>"#;
    let doc2 = parse_law_xml(xml2.as_bytes(), "x").unwrap();
    assert_eq!(doc2.promulgation_date.as_deref(), Some("2023-06-14"));
}

#[test]
fn synthesizes_preamble_for_law_without_articles() {
    // 105DF0000000337 (改暦ノ布告) のような <MainProvision><Paragraph> 直下構造を救う。
    let xml = r#"<?xml version="1.0"?>
<DataRoot>
  <Result><Code>0</Code></Result>
  <ApplData>
<LawFullText>
  <Law>
    <LawNum>明治五年太政官布告第三百三十七号</LawNum>
    <LawBody>
      <LawTitle>明治五年太政官布告第三百三十七号（改暦ノ布告）</LawTitle>
      <MainProvision>
        <Paragraph Num="1">
          <ParagraphNum/>
          <ParagraphSentence>
            <Sentence>今般改暦ノ儀別紙詔書ノ通被仰出候条此旨相達候事</Sentence>
          </ParagraphSentence>
        </Paragraph>
      </MainProvision>
    </LawBody>
  </Law>
</LawFullText>
  </ApplData>
</DataRoot>"#;
    let doc = parse_law_xml(xml.as_bytes(), "105DF0000000337").unwrap();
    assert_eq!(doc.articles.len(), 1);
    assert_eq!(doc.articles[0].article_id, "art_preamble");
    assert_eq!(doc.articles[0].article_no, "本則");
    assert!(doc.articles[0].paragraphs[0].text.contains("改暦"));
}

#[test]
fn isolates_main_and_suppl_articles() {
    // 民法のように MainProvision と複数の SupplProvision が同じ Num="1" を
    // 持つケースで、article_id が衝突せず本則・附則が分離されることを確認する。
    let xml = r#"<?xml version="1.0"?>
<Law>
  <LawNum>明治二十九年法律第八十九号</LawNum>
  <LawBody>
<LawTitle>民法</LawTitle>
<MainProvision>
  <Article Num="1">
    <ArticleTitle>第一条</ArticleTitle>
    <ArticleCaption>（基本原則）</ArticleCaption>
    <Paragraph>
      <ParagraphNum>1</ParagraphNum>
      <ParagraphSentence>私権は、公共の福祉に適合しなければならない。</ParagraphSentence>
    </Paragraph>
  </Article>
  <Article Num="2">
    <ArticleTitle>第二条</ArticleTitle>
    <Paragraph>
      <ParagraphSentence>本則の二条本文。</ParagraphSentence>
    </Paragraph>
  </Article>
</MainProvision>
<SupplProvision>
  <SupplProvisionLabel>附則</SupplProvisionLabel>
  <Article Num="1">
    <ArticleTitle>第一条</ArticleTitle>
    <Paragraph>
      <ParagraphSentence>この法律は、公布の日から起算して施行する。</ParagraphSentence>
    </Paragraph>
  </Article>
</SupplProvision>
<SupplProvision AmendLawNum="令和五年法律第五十三号">
  <SupplProvisionLabel>附則（令和五年六月一四日法律第五十三号）</SupplProvisionLabel>
  <Article Num="1">
    <ArticleTitle>第一条</ArticleTitle>
    <Paragraph>
      <ParagraphSentence>改正法附則の一条本文。</ParagraphSentence>
    </Paragraph>
  </Article>
</SupplProvision>
  </LawBody>
</Law>"#;
    let doc = parse_law_xml(xml.as_bytes(), "129AC0000000089").unwrap();
    // 本則は 2 条のみ
    assert_eq!(doc.articles.len(), 2);
    assert_eq!(doc.articles[0].article_id, "art_1");
    assert_eq!(doc.articles[1].article_id, "art_2");
    assert!(doc.articles[0].paragraphs[0]
        .text
        .contains("公共の福祉"));
    // 附則 2 本が独立
    assert_eq!(doc.suppl_provisions.len(), 2);
    assert_eq!(doc.suppl_provisions[0].index, 1);
    assert_eq!(doc.suppl_provisions[0].articles[0].article_id, "suppl1_art_1");
    assert!(doc.suppl_provisions[0].articles[0].paragraphs[0]
        .text
        .contains("公布の日"));
    assert_eq!(doc.suppl_provisions[1].index, 2);
    assert_eq!(
        doc.suppl_provisions[1].amend_law_num.as_deref(),
        Some("令和五年法律第五十三号")
    );
    assert_eq!(doc.suppl_provisions[1].articles[0].article_id, "suppl2_art_1");
    assert!(doc.suppl_provisions[1].articles[0].paragraphs[0]
        .text
        .contains("改正法附則"));
}

#[test]
fn excludes_appdx_articles() {
    // AppdxTable などの別表/別記配下に <Article> がある場合は articles に含めない。
    let xml = r#"<?xml version="1.0"?>
<Law>
  <LawBody>
<LawTitle>テスト法</LawTitle>
<MainProvision>
  <Article Num="1">
    <ArticleTitle>第一条</ArticleTitle>
    <Paragraph><ParagraphSentence>本則。</ParagraphSentence></Paragraph>
  </Article>
</MainProvision>
<AppdxTable>
  <Article Num="1">
    <ArticleTitle>第一条</ArticleTitle>
    <Paragraph><ParagraphSentence>別表条文 (拾わない)。</ParagraphSentence></Paragraph>
  </Article>
</AppdxTable>
  </LawBody>
</Law>"#;
    let doc = parse_law_xml(xml.as_bytes(), "L").unwrap();
    assert_eq!(doc.articles.len(), 1);
    assert!(doc.articles[0].paragraphs[0].text.contains("本則"));
    assert_eq!(doc.suppl_provisions.len(), 0);
}

#[test]
fn parses_chapters_and_items() {
    let xml = r#"<?xml version="1.0"?>
<Law>
  <LawNum>令和五年法律第一号</LawNum>
  <LawBody>
<LawTitle>テスト法</LawTitle>
<MainProvision>
  <Chapter Num="1">
    <ChapterTitle>第一章 総則</ChapterTitle>
    <Article Num="1">
      <ArticleTitle>第一条</ArticleTitle>
      <Paragraph>
        <ParagraphNum>1</ParagraphNum>
        <ParagraphSentence>本則。</ParagraphSentence>
        <Item Num="1">
          <ItemSentence>一つ目。</ItemSentence>
        </Item>
        <Item Num="2">
          <ItemSentence>二つ目。</ItemSentence>
        </Item>
      </Paragraph>
    </Article>
  </Chapter>
</MainProvision>
  </LawBody>
</Law>"#;
    let doc = parse_law_xml(xml.as_bytes(), "L1").unwrap();
    assert_eq!(doc.articles.len(), 1);
    let p = &doc.articles[0].paragraphs[0];
    assert!(p.text.contains("本則。"));
    assert!(p.text.contains("1 一つ目。"));
    assert!(p.text.contains("2 二つ目。"));
}

#[test]
fn keeps_xml_digest_and_falls_back_to_law_id_title() {
    let xml = r#"<?xml version="1.0"?><Law><LawBody><MainProvision/></LawBody></Law>"#;
    let doc = parse_law_xml(xml.as_bytes(), "NOTITLE").unwrap();
    assert_eq!(doc.title, "NOTITLE");
    assert_eq!(doc.source.provider, "egov");
    assert_eq!(doc.source.raw_xml_sha256.as_deref(), Some(sha256_hex(xml.as_bytes()).as_str()));
    assert_eq!(doc.status, "current");
    assert!(doc.articles.is_empty());
}

#[test]
fn sha256_of_empty_input() {
    assert_eq!(
        sha256_hex(b""),
        "e3b0c44298fc1c149afbf4c8996fb92427ae41e4649b934ca495991b7852b855"
    );
}

#[test]
fn unnumbered_articles_are_numbered_in_order() {
    let xml = r#"<Law><LawBody><LawTitle>t</LawTitle><MainProvision>
      <Article><ArticleTitle>第一条</ArticleTitle></Article>
      <Article><ArticleTitle>第二条</ArticleTitle></Article>
    </MainProvision><SupplProvision><Article><ArticleTitle>附</ArticleTitle></Article></SupplProvision></LawBody></Law>"#;
    let doc = parse_law_xml(xml.as_bytes(), "L").unwrap();
    assert_eq!(doc.articles[0].article_id, "art_1");
    assert_eq!(doc.articles[1].article_id, "art_2");
    assert_eq!(doc.suppl_provisions[0].articles[0].article_id, "suppl1_art_1");
}

#[test]
fn broken_xml_is_an_error() {
    let xml = r#"<Law><LawTitle>t</Law>"#;
    assert!(parse_law_xml(xml.as_bytes(), "L").is_err());
}
