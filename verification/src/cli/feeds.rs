//! The cross-source feed of recent changes: its items, their dates and the
//! escaping of its RSS text.
use vstd::prelude::*;
use crate::cli::calendar::{day_number_of, ymd_day_number};
use crate::gian::dates::signed_pad4;
use crate::num::{dec, digits_value, parse_u32, parse_u32_spec, parses_within, u64_padded, unsigned_body, zero_pad};
use crate::scan::{index_of, index_of_char};
use crate::text::{append_chars, chars_eq, chars_of, copy_range, string_of, trim, trim_chars};

verus! {

/// Number of items a feed keeps.
pub const MAX_ITEMS: usize = 200;

/// One entry of the feed.
#[derive(Debug, Clone)]
pub struct FeedItem {
    /// `law`, `pubcomment`, `kanpo` or `bill`.
    pub kind: String,
    pub date: String,
    pub title: String,
    /// A route of the app or an external URL.
    pub href: String,
    /// `href` is a route of the app.
    pub internal: bool,
    pub law_id: Option<String>,
    /// The amended law a gazette item names.
    pub law_title: Option<String>,
    pub ministry: Option<String>,
    pub summary: Option<String>,
}

/// The label a feed shows for a kind.
pub open spec fn kind_label_spec(k: Seq<char>) -> Seq<char> {
    if k == "law"@ {
        "法令"@
    } else if k == "pubcomment"@ {
        "パブコメ"@
    } else if k == "kanpo"@ {
        "官報"@
    } else if k == "bill"@ {
        "法案"@
    } else {
        k
    }
}

/// 法令 / パブコメ / 官報 / 法案 for the known kinds; any other kind as is.
pub fn kind_label(k: &str) -> (out: String)
    ensures
        out@ == kind_label_spec(k@),
{
    let c = chars_of(k);
    let law = chars_of("law");
    let pc = chars_of("pubcomment");
    let kp = chars_of("kanpo");
    let bill = chars_of("bill");
    if chars_eq(&c, &law) {
        "法令".to_owned()
    } else if chars_eq(&c, &pc) {
        "パブコメ".to_owned()
    } else if chars_eq(&c, &kp) {
        "官報".to_owned()
    } else if chars_eq(&c, &bill) {
        "法案".to_owned()
    } else {
        k.to_owned()
    }
}

/// The escape of one character in XML text.
pub open spec fn xml_escape_char(c: char) -> Seq<char> {
    if c == '&' {
        "&amp;"@
    } else if c == '<' {
        "&lt;"@
    } else if c == '>' {
        "&gt;"@
    } else if c == '"' {
        "&quot;"@
    } else {
        seq![c]
    }
}

/// `s` with `&`, `<`, `>` and `"` escaped.
pub open spec fn xml_escape_spec(s: Seq<char>) -> Seq<char>
    decreases s.len(),
{
    if s.len() == 0 {
        Seq::empty()
    } else {
        xml_escape_spec(s.drop_last()) + xml_escape_char(s.last())
    }
}

/// Escapes `&`, `<`, `>` and `"` for XML text and attribute values.
pub fn xml_escape(s: &str) -> (out: String)
    ensures
        out@ == xml_escape_spec(s@),
{
    let c = chars_of(s);
    let amp = chars_of("&amp;");
    let lt = chars_of("&lt;");
    let gt = chars_of("&gt;");
    let quot = chars_of("&quot;");
    let mut out: Vec<char> = Vec::new();
    let mut i: usize = 0;
    while i < c.len()
        invariant
            i <= c.len(),
            c@ == s@,
            amp@ == "&amp;"@,
            lt@ == "&lt;"@,
            gt@ == "&gt;"@,
            quot@ == "&quot;"@,
            out@ == xml_escape_spec(c@.take(i as int)),
        decreases c.len() - i,
    {
        let ch = c[i];
        assert(c@.take(i + 1).drop_last() =~= c@.take(i as int));
        if ch == '&' {
            append_chars(&mut out, &amp);
        } else if ch == '<' {
            append_chars(&mut out, &lt);
        } else if ch == '>' {
            append_chars(&mut out, &gt);
        } else if ch == '"' {
            append_chars(&mut out, &quot);
        } else {
            out.push(ch);
            assert(out@ =~= xml_escape_spec(c@.take(i as int)) + seq![ch]);
        }
        i = i + 1;
    }
    assert(c@.take(c.len() as int) =~= c@);
    string_of(&out)
}

/// Escaped text holds no `<`, `>` or `"`: it cannot open or close markup
/// or end an attribute value.
pub proof fn lemma_xml_escape_safe(s: Seq<char>)
    ensures
        forall|i: int| 0 <= i < xml_escape_spec(s).len() ==> {
            let c = #[trigger] xml_escape_spec(s)[i];
            c != '<' && c != '>' && c != '"'
        },
    decreases s.len(),
{
    reveal_strlit("&amp;");
    reveal_strlit("&lt;");
    reveal_strlit("&gt;");
    reveal_strlit("&quot;");
    if s.len() > 0 {
        lemma_xml_escape_safe(s.drop_last());
        let p = xml_escape_spec(s.drop_last());
        let e = xml_escape_char(s.last());
        assert forall|i: int| 0 <= i < (p + e).len() implies {
            let c = #[trigger] (p + e)[i];
            c != '<' && c != '>' && c != '"'
        } by {
            if i >= p.len() {
                assert((p + e)[i] == e[i - p.len()]);
            } else {
                assert((p + e)[i] == p[i]);
            }
        }
    }
}

/// Whether `s` reads as a `YYYY-MM-DD` date (what chrono's
/// `NaiveDate::parse_from_str(s, "%Y-%m-%d")` accepts).
pub open spec fn parses_as_ymd(s: Seq<char>) -> bool {
    ymd_day_number(s) is Some
}

/// Whether `s` reads as a `YYYY-MM-DD` date.
pub(crate) fn parses_ymd(s: &str) -> (b: bool)
    ensures
        b == parses_as_ymd(s@),
{
    match day_number_of(s) {
        Some(_) => true,
        None => false,
    }
}

/// The positions of 年, 月 and 日 when all three occur.
pub open spec fn jp_date_marks(t: Seq<char>) -> Option<(int, int, int)> {
    match (index_of(t, '年'), index_of(t, '月'), index_of(t, '日')) {
        (Some(y), Some(m), Some(d)) => Some((y, m, d)),
        _ => None,
    }
}

/// The text can be cut at its date marks: 年 comes before 月 and 月
/// before 日 (the cut is in reading order).
pub open spec fn date_cuts_ordered(s: Seq<char>) -> bool {
    let t = trim(s);
    parses_as_ymd(t) || match jp_date_marks(t) {
        Some((y, m, d)) => y < m && m < d,
        None => true,
    }
}

/// A positive number written as an `i32` (sign, digits), else 0.
pub open spec fn positive_i32(s: Seq<char>) -> nat {
    if parses_within(s, i32::MAX as nat) {
        digits_value(unsigned_body(s))
    } else {
        0
    }
}

/// A number written as a `u32`, else 0.
pub open spec fn u32_or_zero(s: Seq<char>) -> nat {
    match parse_u32_spec(s) {
        Some(v) => v as nat,
        None => 0,
    }
}

/// The ISO form of a feed date.
pub open spec fn normalize_date_spec(s: Seq<char>) -> Seq<char> {
    let t = trim(s);
    if parses_as_ymd(t) {
        t
    } else {
        match jp_date_marks(t) {
            Some((yi, mi, di)) => {
                let y = positive_i32(trim(t.take(yi)));
                let m = u32_or_zero(trim(t.subrange(yi + 1, mi)));
                let d = u32_or_zero(trim(t.subrange(mi + 1, di)));
                if y > 0 && m > 0 && d > 0 {
                    zero_pad(dec(y), 4) + seq!['-'] + zero_pad(dec(m), 2) + seq!['-'] + zero_pad(dec(d), 2)
                } else {
                    t
                }
            },
            None => t,
        }
    }
}

/// 「2026年6月19日」 (and 「2026年3月27日18時0分」) → `2026-06-19`; an ISO date
/// is kept; a text that does not read as a date is returned trimmed.
pub fn normalize_date(s: &str) -> (out: String)
    requires
        date_cuts_ordered(s@),
    ensures
        out@ == normalize_date_spec(s@),
{
    let c = chars_of(s);
    let t = trim_chars(&c);
    let ts = string_of(&t);
    if parses_ymd(ts.as_str()) {
        return ts;
    }
    let yi = match index_of_char(&t, '年') {
        Some(i) => i,
        None => return ts,
    };
    let mi = match index_of_char(&t, '月') {
        Some(i) => i,
        None => return ts,
    };
    let di = match index_of_char(&t, '日') {
        Some(i) => i,
        None => return ts,
    };
    let ypart = copy_range(&t, 0, yi);
    let mpart = copy_range(&t, yi + 1, mi);
    let dpart = copy_range(&t, mi + 1, di);
    assert(ypart@ =~= t@.take(yi as int));
    let yt = trim_chars(&ypart);
    let mt = trim_chars(&mpart);
    let dt = trim_chars(&dpart);
    let y: u64 = match parse_u32(&yt) {
        Some(v) => if v <= 2147483647 { v as u64 } else { 0 },
        None => 0,
    };
    proof {
        if parses_within(yt@, i32::MAX as nat) {
            assert(parse_u32_spec(yt@) == Some(digits_value(unsigned_body(yt@)) as u32));
        }
    }
    let m: u64 = match parse_u32(&mt) {
        Some(v) => v as u64,
        None => 0,
    };
    let d: u64 = match parse_u32(&dt) {
        Some(v) => v as u64,
        None => 0,
    };
    if y > 0 && m > 0 && d > 0 {
        let mut out = u64_padded(y, 4);
        out.push('-');
        let mm = u64_padded(m, 2);
        append_chars(&mut out, &mm);
        out.push('-');
        let dd = u64_padded(d, 2);
        append_chars(&mut out, &dd);
        string_of(&out)
    } else {
        ts
    }
}

/// Whether `normalize_date` can read `s`: an ISO date, or its 年, 月 and
/// 日 (where all three occur) in reading order.
pub fn date_readable(s: &str) -> (b: bool)
    ensures
        b == date_cuts_ordered(s@),
{
    let c = chars_of(s);
    let t = trim_chars(&c);
    let ts = string_of(&t);
    if parses_ymd(ts.as_str()) {
        return true;
    }
    match (index_of_char(&t, '年'), index_of_char(&t, '月'), index_of_char(&t, '日')) {
        (Some(y), Some(m), Some(d)) => y < m && m < d,
        _ => true,
    }
}

} // verus!
