use lawpub::kanpo_client::pdf::{detect_format, normalize_text, segment_articles};

#[test]
fn pdf_normalizes_vertical_punctuation() {
    let raw = "\u{FE35}施行\u{FE36}\u{FE12}";
    assert_eq!(normalize_text(raw), "（施行）。");
}

#[test]
fn pdf_drops_margin_noise_lines() {
    let raw = "本則を次のように改める\n官\n令和 ８ 年 ６ 月 15 日\n第六条";
    let out = normalize_text(raw);
    assert!(out.contains("本則を次のように改める"));
    assert!(out.contains("第六条"));
    assert!(!out.contains("令和"));
}

#[test]
fn pdf_strips_private_use_glyphs() {
    let raw = "本文\u{E0A8}\u{E0A8}\u{E0A8}\n令和八年";
    let out = normalize_text(raw);
    assert!(!out.contains('\u{E0A8}'));
    assert!(out.contains("本文"));
    assert!(out.contains("令和八年"));
}

#[test]
fn pdf_detects_shinkyu() {
    assert_eq!(detect_format("改正後\n（見出し）\n改正前\n（見出し）"), "shinkyu");
    assert_eq!(detect_format("第一条中「甲」を「乙」に改める。"), "prose");
}

#[test]
fn pdf_substring_kaiseigo_is_not_shinkyu() {
    let repeal = "次に掲げる府令は、廃止する。\n改正後の規定は…改正前の例による。";
    assert_eq!(detect_format(repeal), "prose");
}

#[test]
fn pdf_segments_articles_on_circle_heading() {
    let text = "〇総務省令第七十七号\n電波法の一部を改正する省令\n〇農林水産省告示第七百六十四号\n規格を廃止する件";
    let arts = segment_articles(text);
    assert_eq!(arts.len(), 2);
    assert!(arts[0].contains("電波法"));
    assert!(arts[1].contains("規格を廃止"));
}

#[test]
fn pdf_segments_articles_on_promulgation_boundary() {
    let text = "労働組合法施行令の一部を改正する政令をここに公布する。\n御名御璽\n労働組合法施行令の一部を次のように改正する。\n美容師法施行令の一部を改正する政令をここに公布する。\n御名御璽\n美容師法施行令の一部を次のように改正する。";
    let arts = segment_articles(text);
    assert_eq!(arts.len(), 2);
    assert!(arts[0].contains("労働組合法施行令") && !arts[0].contains("美容師"));
    assert!(arts[1].contains("美容師法施行令") && !arts[1].contains("労働組合"));
}

#[test]
fn pdf_segmenter_splits_at_section_headings() {
    let arts = segment_articles("A\n告示\nB");
    assert_eq!(arts, vec!["A".to_string(), "告示\nB".to_string()]);
}
