use lawpub::egov::{EgovProvider, MockProvider, UpdateBatch};
use lawpub::error::ProviderError;

#[test]
fn mock_update_serves_five_samples_under_dated_urls() {
    let b = MockProvider.fetch_update("2024-05-01").unwrap();
    assert_eq!(b.date, "2024-05-01");
    assert_eq!(b.laws.len(), 5);
    assert_eq!(b.laws[0].law_id, "129AC0000000089");
    assert_eq!(b.laws[0].source_url, "mock://egov/2024-05-01/129AC0000000089.xml");
    assert_eq!(b.laws[4].law_id, "321CONSTITUTION");
    assert!(String::from_utf8(b.laws[1].xml.clone()).unwrap().contains("<LawTitle>刑法</LawTitle>"));
}

#[test]
fn mock_bulk_truncates_and_labels_category() {
    let b = MockProvider.fetch_bulk(2, Some(2)).unwrap();
    assert_eq!(b.date, "bulk-cat2");
    assert_eq!(b.laws.len(), 2);
    assert_eq!(b.laws[1].source_url, "mock://egov/bulk/cat2/140AC0000000045.xml");
    let all = MockProvider.fetch_bulk(1, None).unwrap();
    assert_eq!(all.laws.len(), 5);
    let capped = MockProvider.fetch_bulk(1, Some(50)).unwrap();
    assert_eq!(capped.laws.len(), 5);
}

#[test]
fn extracts_law_ids_from_dataroot() {
    let xml = r#"<?xml version="1.0"?>
<DataRoot>
  <Result><Code>0</Code></Result>
  <ApplData>
    <LawNameListInfo>
      <LawId>129AC0000000089</LawId>
      <LawName>民法</LawName>
    </LawNameListInfo>
    <LawNameListInfo>
      <LawId>140AC0000000045</LawId>
      <LawName>刑法</LawName>
    </LawNameListInfo>
  </ApplData>
</DataRoot>"#;
    let ids = lawpub::egov::extract_law_ids(xml.as_bytes());
    assert_eq!(ids, vec!["129AC0000000089", "140AC0000000045"]);
}

#[test]
fn returns_empty_when_egov_signals_error() {
    let xml = br#"<?xml version="1.0"?>
<DataRoot>
  <Result><Code>1</Code><Message>NG</Message></Result>
  <ApplData>
    <LawId>SHOULD_BE_IGNORED</LawId>
  </ApplData>
</DataRoot>"#;
    assert!(lawpub::egov::extract_law_ids(xml.as_slice()).is_empty());
}

#[test]
fn law_ids_are_sorted_and_deduplicated() {
    let xml = r#"<DataRoot><ApplData><LawID>B</LawID><LawId>A</LawId><LawId>B</LawId><LawId> </LawId></ApplData></DataRoot>"#;
    assert_eq!(lawpub::egov::extract_law_ids(xml.as_bytes()), vec!["A", "B"]);
}

struct UpdatesOnly;

impl EgovProvider for UpdatesOnly {
    fn fetch_update(&self, date: &str) -> Result<UpdateBatch, ProviderError> {
        Ok(UpdateBatch { date: date.to_string(), laws: Vec::new() })
    }
}

#[test]
fn bulk_fetch_is_not_implemented_by_default() {
    let r = UpdatesOnly.fetch_bulk(1, Some(3));
    assert!(matches!(r, Err(ProviderError::NotImplemented)));
}
