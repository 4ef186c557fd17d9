use lawpub::kanpo_amend::format::{detect_format, detect_format_of};
use lawpub::kanpo_amend::model::{Block, Document, Run};
use lawpub::kanpo_amend::normalize::{is_margin_noise, normalize_char, normalize_text};
use lawpub::kanpo_amend::segment::segment_articles;
use lawpub::kanpo_amend::shinkyu::find_run;

#[test]
fn format_detects_shinkyu() {
    assert_eq!(detect_format("改正後\n（見出し）\n改正前\n（見出し）"), "shinkyu");
    assert_eq!(detect_format("第一条中「甲」を「乙」に改める。"), "prose");
}

#[test]
fn format_substring_kaiseigo_is_not_shinkyu() {
    let repeal = "次に掲げる府令は、廃止する。\n改正後の規定は…改正前の例による。";
    assert_eq!(detect_format(repeal), "prose");
}

#[test]
fn unknown_when_no_marker() {
    assert_eq!(detect_format("単なる本文。"), "unknown");
    assert_eq!(detect_format_of("単なる本文。"), None);
    assert_eq!(detect_format_of("廃止する。"), Some("prose".to_string()));
}

#[test]
fn structures_prose_as_single_paragraph() {
    let doc = Document::from_text("第一条中「甲」を「乙」に改める。");
    assert_eq!(doc.format, "prose");
    assert_eq!(
        doc.blocks,
        vec![Block::Paragraph {
            runs: vec![Run::plain("第一条中「甲」を「乙」に改める。")]
        }]
    );
}

#[test]
fn structures_shinkyu_into_after_before() {
    let text = "前文\n改正後\n甲種\n改正前\n乙類";
    let doc = Document::from_text(text);
    assert_eq!(doc.format, "shinkyu");
    assert_eq!(
        doc.blocks,
        vec![
            Block::Paragraph {
                runs: vec![Run::plain("前文")]
            },
            Block::Shinkyu {
                after: vec![Run::plain("甲種")],
                before: vec![Run::plain("乙類")],
            },
        ]
    );
}

#[test]
fn handles_multiple_shinkyu_segments() {
    let text = "改正後\nA1\n改正前\nB1\n改正後\nA2\n改正前\nB2";
    let doc = Document::from_text(text);
    let shinkyu: Vec<_> = doc
        .blocks
        .iter()
        .filter(|b| matches!(b, Block::Shinkyu { .. }))
        .collect();
    assert_eq!(shinkyu.len(), 2);
    assert_eq!(
        doc.blocks[1],
        Block::Shinkyu {
            after: vec![Run::plain("A2")],
            before: vec![Run::plain("B2")]
        }
    );
}

#[test]
fn to_text_roundtrips_markers() {
    let text = "前文\n改正後\n甲種\n改正前\n乙類";
    let doc = Document::from_text(text);
    assert_eq!(doc.to_text(), text);
}

#[test]
fn normalize_normalizes_vertical_punctuation() {
    let raw = "\u{FE35}施行\u{FE36}\u{FE12}";
    assert_eq!(normalize_text(raw), "（施行）。");
}

#[test]
fn normalize_drops_margin_noise_lines() {
    let raw = "本則を次のように改める\n官\n令和 ８ 年 ６ 月 15 日\n第六条";
    let out = normalize_text(raw);
    assert!(out.contains("本則を次のように改める"));
    assert!(out.contains("第六条"));
    assert!(!out.contains("令和"));
}

#[test]
fn normalize_strips_private_use_glyphs() {
    let raw = "本文\u{E0A8}\u{E0A8}\u{E0A8}\n令和八年";
    let out = normalize_text(raw);
    assert!(!out.contains('\u{E0A8}'));
    assert!(out.contains("本文"));
    assert!(out.contains("令和八年"));
}

#[test]
fn segment_segments_articles_on_circle_heading() {
    let text = "〇総務省令第七十七号\n電波法の一部を改正する省令\n〇農林水産省告示第七百六十四号\n規格を廃止する件";
    let arts = segment_articles(text);
    assert_eq!(arts.len(), 2);
    assert!(arts[0].contains("電波法"));
    assert!(arts[1].contains("規格を廃止"));
}

#[test]
fn segments_articles_on_kokuji_heading() {
    let text = "改正前\n第十六条〔同上〕\nこの省令は…から施行する。\n告示\n型式認定番号…\n交Ｎ2626…";
    let arts = segment_articles(text);
    assert_eq!(arts.len(), 2);
    assert!(arts[0].contains("第十六条") && !arts[0].contains("型式認定"));
    assert!(arts[1].starts_with("告示") && arts[1].contains("型式認定"));
}

#[test]
fn segments_articles_on_section_header() {
    let text = "〇農林水産省令第三十二号\n…の一部を改正する省令\n附則\nこの省令は…から施行する。\n法規的告示\n…第六十二条第二号ただし書の規定に基づき…\n…の措置を講じている場合";
    let arts = segment_articles(text);
    assert_eq!(arts.len(), 2);
    assert!(arts[0].contains("省令") && !arts[0].contains("ただし書"));
    assert!(arts[1].starts_with("法規的告示"));
}

#[test]
fn segment_segments_articles_on_promulgation_boundary() {
    let text = "労働組合法施行令の一部を改正する政令をここに公布する。\n御名御璽\n労働組合法施行令の一部を次のように改正する。\n美容師法施行令の一部を改正する政令をここに公布する。\n御名御璽\n美容師法施行令の一部を次のように改正する。";
    let arts = segment_articles(text);
    assert_eq!(arts.len(), 2);
    assert!(arts[0].contains("労働組合法施行令") && !arts[0].contains("美容師"));
    assert!(arts[1].contains("美容師法施行令") && !arts[1].contains("労働組合"));
}

#[test]
fn finds_run_subsequence() {
    assert_eq!(find_run(&['改', '正', '後'], &['改', '正', '後']), Some(0));
    assert_eq!(find_run(&['x', '改', '正', '前'], &['改', '正', '前']), Some(1));
    assert_eq!(find_run(&['改', '正'], &['改', '正', '後']), None);
}

// ---- further cases ----

#[test]
fn normalize_collapses_blank_runs_and_trims() {
    assert_eq!(normalize_text("  甲\n\n\n\n乙  \n"), "甲\n\n乙");
    assert_eq!(normalize_text(""), "");
    assert_eq!(normalize_text("\r\n"), "");
}

#[test]
fn normalize_strips_margin_lead_with_two_spaces() {
    assert_eq!(normalize_text("官  本文です"), "本文です");
    // a single space is not the margin pattern: the line stays
    assert_eq!(normalize_text("官 本文"), "官 本文");
}

#[test]
fn normalize_char_maps_every_form() {
    assert_eq!(normalize_char('\u{FE11}'), '、');
    assert_eq!(normalize_char('\u{FE33}'), '｜');
    assert_eq!(normalize_char('\u{FE34}'), '｜');
    assert_eq!(normalize_char('\u{FE48}'), '〕');
    assert_eq!(normalize_char('あ'), 'あ');
}

#[test]
fn margin_noise_matches_weekday_and_issue_lines() {
    let v: Vec<char> = "（号外第 123 号）".chars().collect();
    assert!(is_margin_noise(&v));
    let v: Vec<char> = "木曜日".chars().collect();
    assert!(is_margin_noise(&v));
    let v: Vec<char> = "第六条".chars().collect();
    assert!(!is_margin_noise(&v));
    let v: Vec<char> = "".chars().collect();
    assert!(!is_margin_noise(&v));
}

#[test]
fn shinkyu_with_missing_before_heading_keeps_empty_before() {
    let doc = Document::from_text("改正後\n甲");
    assert_eq!(
        doc.blocks,
        vec![Block::Shinkyu {
            after: vec![Run::plain("甲")],
            before: vec![]
        }]
    );
    assert_eq!(doc.format, "unknown");
}

#[test]
fn segment_drops_whitespace_only_tail() {
    assert_eq!(segment_articles(""), Vec::<String>::new());
    assert_eq!(segment_articles("  \n "), Vec::<String>::new());
    assert_eq!(segment_articles("〇甲\n乙"), vec!["〇甲\n乙".to_string()]);
}

#[test]
fn serializes_to_json() {
    let doc = Document::from_text("改正後\n甲\n改正前\n乙");
    let json = doc.to_json();
    assert!(json.contains("\"format\":\"shinkyu\""));
    assert!(json.contains("\"kind\":\"shinkyu\""));
    assert!(!json.contains("underline"));
}

#[test]
fn json_form_escapes_text_and_parses_back() {
    let text = "a\"b\\c\n\u{1}\t終";
    let doc = Document {
        format: "prose".to_string(),
        blocks: vec![Block::Paragraph { runs: vec![Run { text: text.to_string(), underline: true }] }],
    };
    let json = doc.to_json();
    assert_eq!(
        json,
        "{\"format\":\"prose\",\"blocks\":[{\"kind\":\"paragraph\",\"runs\":[{\"text\":\"a\\\"b\\\\c\\n\\u0001\\t終\",\"underline\":true}]}]}"
    );
    let v: serde_json::Value = serde_json::from_str(&json).unwrap();
    assert_eq!(v["blocks"][0]["runs"][0]["text"], text);
    let empty = Document { format: "unknown".to_string(), blocks: vec![] };
    assert_eq!(empty.to_json(), "{\"format\":\"unknown\",\"blocks\":[]}");
}

#[test]
fn structure_survives_flat_text() {
    let doc = lawpub::kanpo_amend::model::Document::from_text("前文\n改正後\n甲種\n改正前\n乙類\n改正後\nA2\n改正前\nB2");
    let again = lawpub::kanpo_amend::model::Document::from_text(&doc.to_text());
    assert_eq!(again.blocks, doc.blocks);
    assert_eq!(doc.blocks.len(), 3);
}

#[test]
fn multi_line_cells_survive_flat_text() {
    let doc = lawpub::kanpo_amend::model::Document::from_text("前文一\n改正前の定め\n改正後\n甲\n 乙\n改正前\n丙\n改正後の語\n丁");
    let again = lawpub::kanpo_amend::model::Document::from_text(&doc.to_text());
    assert_eq!(again.blocks, doc.blocks);
    assert_eq!(doc.blocks.len(), 2);
}

#[test]
fn empty_cells_survive_flat_text() {
    for text in ["改正後\n甲\n改正前", "改正後\n\n改正前\n乙\n改正後\n丙\n改正前\n"] {
        let doc = lawpub::kanpo_amend::model::Document::from_text(text);
        let again = lawpub::kanpo_amend::model::Document::from_text(&doc.to_text());
        assert_eq!(again.blocks, doc.blocks);
    }
}
