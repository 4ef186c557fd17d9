//! Format of an amendment text: prose, old/new comparison table, or unknown.
use crate::text::{
    chars_of, contains, contains_chars, has_trimmed_line, has_trimmed_line_exec, lines, seqs_of,
    split_lines,
};
use vstd::prelude::*;

verus! {

/// A comparison table (新旧対照表): both column headings 「改正後」 and
/// 「改正前」 stand as lines of their own.
pub open spec fn is_shinkyu_text(t: Seq<char>) -> bool {
    has_trimmed_line(lines(t), "改正後"@) && has_trimmed_line(lines(t), "改正前"@)
}

/// Prose amendment: one of the amending phrases occurs.
pub open spec fn is_prose_text(t: Seq<char>) -> bool {
    ||| contains(t, "に改める"@)
    ||| contains(t, "次のように改正する"@)
    ||| contains(t, "を加える"@)
    ||| contains(t, "を削る"@)
    ||| contains(t, "廃止する"@)
    ||| contains(t, "定める"@)
}

/// `"shinkyu"`, `"prose"` or `"unknown"`, checked in that order.
pub open spec fn format_of(t: Seq<char>) -> Seq<char> {
    if is_shinkyu_text(t) {
        "shinkyu"@
    } else if is_prose_text(t) {
        "prose"@
    } else {
        "unknown"@
    }
}

fn is_shinkyu_exec(cs: &[char]) -> (b: bool)
    ensures
        b == is_shinkyu_text(cs@),
{
    let ls = split_lines(cs);
    let after = chars_of("改正後");
    let before = chars_of("改正前");
    has_trimmed_line_exec(&ls, &after) && has_trimmed_line_exec(&ls, &before)
}

fn is_prose_exec(cs: &[char]) -> (b: bool)
    ensures
        b == is_prose_text(cs@),
{
    contains_chars(cs, &chars_of("に改める")) || contains_chars(cs, &chars_of("次のように改正する"))
        || contains_chars(cs, &chars_of("を加える")) || contains_chars(cs, &chars_of("を削る"))
        || contains_chars(cs, &chars_of("廃止する")) || contains_chars(cs, &chars_of("定める"))
}

/// Detects the format of an amendment text.
///
/// Only texts where 「改正後」 and 「改正前」 appear as heading lines count as
/// comparison tables; a mere mention in running text does not.
pub fn detect_format(text: &str) -> (out: String)
    ensures
        out@ == format_of(text@),
        !(has_trimmed_line(lines(text@), "改正後"@) && has_trimmed_line(lines(text@), "改正前"@)) && (contains(text@, "に改める"@)
            || contains(text@, "次のように改正する"@) || contains(text@, "を加える"@) || contains(text@, "を削る"@)
            || contains(text@, "廃止する"@) || contains(text@, "定める"@)) ==> out@ == "prose"@,
{
    let cs = chars_of(text);
    if is_shinkyu_exec(&cs) {
        "shinkyu".to_owned()
    } else if is_prose_exec(&cs) {
        "prose".to_owned()
    } else {
        "unknown".to_owned()
    }
}

/// The format of an article, or `None` when it cannot be told (so that the
/// caller can fall back to the whole page's format).
pub fn detect_format_of(text: &str) -> (out: Option<String>)
    ensures
        out is Some <==> (is_shinkyu_text(text@) || is_prose_text(text@)),
        out matches Some(f) ==> f@ == format_of(text@),
        (contains(text@, "に改める"@) || contains(text@, "次のように改正する"@) || contains(text@, "を加える"@)
            || contains(text@, "を削る"@) || contains(text@, "廃止する"@) || contains(text@, "定める"@)) ==> out is Some,
{
    let cs = chars_of(text);
    if is_shinkyu_exec(&cs) {
        Some("shinkyu".to_owned())
    } else if is_prose_exec(&cs) {
        Some("prose".to_owned())
    } else {
        None
    }
}

/// A text with no 「改正後」/「改正前」 heading-line pair that uses one of
/// the amending phrases (「に改める」, 「次のように改正する」, 「を加える」,
/// 「を削る」, 「廃止する」, 「定める」) is a prose amendment.
pub proof fn lemma_amending_phrase_is_prose(t: Seq<char>)
    ensures
        !(has_trimmed_line(lines(t), "改正後"@) && has_trimmed_line(lines(t), "改正前"@)) && (contains(t, "に改める"@)
            || contains(t, "次のように改正する"@) || contains(t, "を加える"@) || contains(t, "を削る"@)
            || contains(t, "廃止する"@) || contains(t, "定める"@)) ==> format_of(t) == "prose"@,
{
}

/// A text whose lines include both headings 「改正後」 and 「改正前」 is a
/// comparison table, whatever else it says.
pub proof fn lemma_headings_make_table(t: Seq<char>)
    ensures
        has_trimmed_line(lines(t), "改正後"@) && has_trimmed_line(lines(t), "改正前"@) ==> format_of(t) == "shinkyu"@,
{
}

/// A text with neither the heading-line pair nor any amending phrase is of
/// unknown format.
pub proof fn lemma_no_marker_is_unknown(t: Seq<char>)
    ensures
        !(has_trimmed_line(lines(t), "改正後"@) && has_trimmed_line(lines(t), "改正前"@)) && !contains(t, "に改める"@)
            && !contains(t, "次のように改正する"@) && !contains(t, "を加える"@) && !contains(t, "を削る"@)
            && !contains(t, "廃止する"@) && !contains(t, "定める"@) ==> format_of(t) == "unknown"@,
{
}

} // verus!
