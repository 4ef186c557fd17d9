//! The digital gazette site (`https://www.kanpo.go.jp/`): dates, the table
//! of contents of a day, item links and page PDFs.
//!
//! A table-of-contents link such as `20260615h01726/20260615h017260002f.html`
//! names the issue directory `20260615h01726` and the item file
//! `20260615h017260002`, whose tail `0002` is the page; the item's PDF is
//! `{base}/20260615/20260615h01726/pdf/20260615h017260002.pdf`.
use vstd::prelude::*;
use crate::error::ProviderError;
use crate::num::{dec, digits_value, parse_u32, parse_u32_spec, u64_padded, zero_pad};
use crate::scan::{
    ascii_digits, ascii_digits_exec, find_pat, find_pat_exec, index_of, index_of_char, normalize_ws,
    normalize_ws_exec, replace_char, replace_char_exec, rindex_of, rindex_of_char, split_at_pat,
    strip_prefix, strip_suffix, trim_end_char, trim_end_char_exec, trim_end_digits_ws,
    trim_end_digits_ws_exec,
};
use crate::text::{
    append_chars, chars_of, copy_range, ends_with, ends_with_chars, is_ascii_digit, lemma_seqs_of_push,
    opt_view, seqs_of, starts_with, starts_with_chars, string_of, trim, trim_chars,
};

verus! {

/// The site the gazette is served from.
pub const DEFAULT_BASE: &'static str = "https://www.kanpo.go.jp";

/// `YYYY-MM-DD` (or any text with exactly eight ASCII digits) as `YYYYMMDD`.
pub open spec fn compact_date_spec(date: Seq<char>) -> Option<Seq<char>> {
    if ascii_digits(date).len() == 8 {
        Some(ascii_digits(date))
    } else {
        None
    }
}

/// The eight digits of a date, or `InvalidDate` with the date.
pub fn compact_date(date: &str) -> (r: Result<String, ProviderError>)
    ensures
        match compact_date_spec(date@) {
            Some(d) => r matches Ok(s) && s@ == d,
            None => r matches Err(ProviderError::InvalidDate(s)) && s@ == date@,
        },
{
    let c = chars_of(date);
    let d = ascii_digits_exec(&c);
    if d.len() != 8 {
        return Err(ProviderError::InvalidDate(date.to_owned()));
    }
    Ok(string_of(&d))
}

/// The issue type and number of a heading such as 「本紙　第1726号」.
pub open spec fn issue_heading_spec(text: Seq<char>) -> Option<(Seq<char>, Seq<char>)> {
    let t = trim(replace_char(text, '\u{3000}', ' '));
    if index_of(t, '第') is None || index_of(t, '号') is None {
        None
    } else {
        let kind = if starts_with(t, "特別号外"@) {
            Some("special_extra"@)
        } else if starts_with(t, "号外"@) {
            Some("extra"@)
        } else if starts_with(t, "本紙"@) {
            Some("regular"@)
        } else {
            None
        };
        match kind {
            None => None,
            Some(k) => {
                let rest = t.skip(index_of(t, '第').unwrap());
                match index_of(rest, '号') {
                    Some(end) => Some((k, rest.take(end + 1))),
                    None => None,
                }
            },
        }
    }
}

/// 「本紙 第1726号」 → (`regular`, 「第1726号」); 号外 is `extra`, 特別号外
/// `special_extra`; `None` for anything that is not an issue heading.
pub fn parse_issue_heading(text: &str) -> (r: Option<(String, String)>)
    ensures
        match issue_heading_spec(text@) {
            Some((k, n)) => r matches Some((a, b)) && a@ == k && b@ == n,
            None => r is None,
        },
{
    let tc = chars_of(text);
    let sp = replace_char_exec(&tc, '\u{3000}', ' ');
    let t = trim_chars(&sp);
    let first = index_of_char(&t, '第');
    let has_go = index_of_char(&t, '号');
    let start = match first {
        Some(s) => s,
        None => return None,
    };
    if has_go.is_none() {
        return None;
    }
    let sp_extra = chars_of("特別号外");
    let extra = chars_of("号外");
    let regular = chars_of("本紙");
    let kind: &str = if starts_with_chars(&t, &sp_extra) {
        "special_extra"
    } else if starts_with_chars(&t, &extra) {
        "extra"
    } else if starts_with_chars(&t, &regular) {
        "regular"
    } else {
        return None;
    };
    let rest = copy_range(&t, start, t.len());
    assert(rest@ =~= t@.skip(start as int));
    let end = match index_of_char(&rest, '号') {
        Some(e) => e,
        None => return None,
    };
    let no = copy_range(&rest, 0, end + 1);
    assert(no@ =~= rest@.take(end + 1));
    Some((kind.to_owned(), string_of(&no)))
}

/// A table-of-contents text without page numbers and surplus whitespace.
pub open spec fn clean_title_spec(text: Seq<char>) -> Seq<char> {
    trim(trim_end_digits_ws(normalize_ws(text)))
}

/// The title of a table-of-contents entry: whitespace collapsed, trailing
/// page numbers dropped.
pub fn clean_title_chars(text: &[char]) -> (out: Vec<char>)
    ensures
        out@ == clean_title_spec(text@),
{
    let n = normalize_ws_exec(text);
    let t = trim_end_digits_ws_exec(&n);
    trim_chars(&t)
}

/// The text in the last full-width brackets of a title, if they close
/// after they open and are not empty.
pub open spec fn agency_hint_spec(title: Seq<char>) -> Option<Seq<char>> {
    match (rindex_of(title, '（'), rindex_of(title, '）')) {
        (Some(open), Some(close)) => if close > open && close - (open + 1) > 0 {
            Some(title.subrange(open + 1, close))
        } else {
            None
        },
        _ => None,
    }
}

/// The issuing body's abbreviation from a title ending in 「（総務七七）」.
pub fn extract_agency_hint_chars(title: &[char]) -> (r: Option<String>)
    ensures
        opt_view(r) == agency_hint_spec(title@),
{
    let open = match rindex_of_char(title, '（') {
        Some(o) => o,
        None => return None,
    };
    let close = match rindex_of_char(title, '）') {
        Some(c) => c,
        None => return None,
    };
    if close > open && close - (open + 1) > 0 {
        let inner = copy_range(title, open + 1, close);
        Some(string_of(&inner))
    } else {
        None
    }
}

/// The fields of a table-of-contents item: title, page, PDF URL and
/// agency hint.
pub type ItemLinkView = (Seq<char>, u32, Seq<char>, Option<Seq<char>>);

/// The item that the link `href` with text `text` names, if it is an item
/// link of the date `compact`.
pub open spec fn item_link_spec(base: Seq<char>, compact: Seq<char>, href: Seq<char>, text: Seq<char>) -> Option<ItemLinkView> {
    if !ends_with(href, "f.html"@) {
        None
    } else {
        match index_of(href, '/') {
            None => None,
            Some(slash) => {
                let dir = href.take(slash);
                let file = href.skip(slash + 1);
                if !starts_with(dir, compact) || !starts_with(file, compact) {
                    None
                } else {
                    match strip_suffix(file, "f.html"@) {
                        None => None,
                        Some(stem) => match strip_prefix(stem, dir) {
                            None => None,
                            Some(page_str) => match parse_u32_spec(page_str) {
                                None => None,
                                Some(page) => {
                                    let title = clean_title_spec(text);
                                    if title.len() == 0 {
                                        None
                                    } else {
                                        Some(
                                            (
                                                title,
                                                page,
                                                base + "/"@ + compact + "/"@ + dir + "/pdf/"@ + stem
                                                    + ".pdf"@,
                                                agency_hint_spec(title),
                                            ),
                                        )
                                    }
                                },
                            },
                        },
                    }
                }
            },
        }
    }
}

/// The view of a gazette item with the fields a link sets.
pub open spec fn item_link_view(it: crate::kanpo_client::model::KanpoItem) -> ItemLinkView {
    (it.title@, it.page, it.pdf_url@, opt_view(it.agency_hint))
}

/// The table-of-contents item of a link `<issuedir>/<stem>f.html` of the
/// date `compact`: its title (`clean_title` of the link text), its start
/// page (the tail of the stem after the issue directory) and its PDF URL.
pub fn parse_item_link(base_url: &str, compact: &str, href: &str, text: &str) -> (r: Option<
    crate::kanpo_client::model::KanpoItem,
>)
    ensures
        match item_link_spec(base_url@, compact@, href@, text@) {
            Some(v) => r matches Some(it) && item_link_view(it) == v && it.sha256 is None
                && it.amend_text is None && it.amend_format is None && it.amend_document is None,
            None => r is None,
        },
{
    let h = chars_of(href);
    let suffix = chars_of("f.html");
    if !ends_with_chars(&h, &suffix) {
        return None;
    }
    let slash = match index_of_char(&h, '/') {
        Some(i) => i,
        None => return None,
    };
    let dir = copy_range(&h, 0, slash);
    let file = copy_range(&h, slash + 1, h.len());
    assert(dir@ =~= h@.take(slash as int));
    assert(file@ =~= h@.skip(slash + 1));
    let c = chars_of(compact);
    if !starts_with_chars(&dir, &c) || !starts_with_chars(&file, &c) {
        return None;
    }
    if !ends_with_chars(&file, &suffix) {
        return None;
    }
    let stem = copy_range(&file, 0, file.len() - suffix.len());
    if !starts_with_chars(&stem, &dir) {
        return None;
    }
    let page_str = copy_range(&stem, dir.len(), stem.len());
    assert(page_str@ =~= stem@.skip(dir.len() as int));
    let page = match parse_u32(&page_str) {
        Some(p) => p,
        None => return None,
    };
    let tc = chars_of(text);
    let title = clean_title_chars(&tc);
    if title.len() == 0 {
        return None;
    }
    let mut url = chars_of(base_url);
    let sl = chars_of("/");
    append_chars(&mut url, &sl);
    append_chars(&mut url, &c);
    append_chars(&mut url, &sl);
    append_chars(&mut url, &dir);
    let pdfdir = chars_of("/pdf/");
    append_chars(&mut url, &pdfdir);
    append_chars(&mut url, &stem);
    let ext = chars_of(".pdf");
    append_chars(&mut url, &ext);
    let agency_hint = extract_agency_hint_chars(&title);
    Some(crate::kanpo_client::model::KanpoItem {
        title: string_of(&title),
        page,
        pdf_url: string_of(&url),
        sha256: None,
        agency_hint,
        amend_text: None,
        amend_format: None,
        amend_document: None,
    })
}

/// The last path segment of an issue PDF URL (`{base}/{date}/{dir}/`).
pub open spec fn issue_dir_spec(url: Seq<char>) -> Option<Seq<char>> {
    let t = trim_end_char(url, '/');
    let seg = match rindex_of(t, '/') {
        Some(i) => t.skip(i + 1),
        None => t,
    };
    if seg.len() > 0 {
        Some(seg)
    } else {
        None
    }
}

/// The issue directory named by an issue PDF URL.
pub fn issue_dir(pdf_url: &str) -> (r: Option<String>)
    ensures
        opt_view(r) == issue_dir_spec(pdf_url@),
{
    let u = chars_of(pdf_url);
    let t = trim_end_char_exec(&u, '/');
    let seg = match rindex_of_char(&t, '/') {
        Some(i) => copy_range(&t, i + 1, t.len()),
        None => t,
    };
    if seg.len() > 0 {
        Some(string_of(&seg))
    } else {
        None
    }
}

/// The page number that an index part starts with: its first four
/// characters when they are ASCII digits.
pub open spec fn part_page(p: Seq<char>) -> nat {
    if p.len() >= 4 && is_ascii_digit(p[0]) && is_ascii_digit(p[1]) && is_ascii_digit(p[2])
        && is_ascii_digit(p[3]) {
        digits_value(p.take(4))
    } else {
        0
    }
}

/// The largest page number among the parts.
pub open spec fn max_part_page(parts: Seq<Seq<char>>) -> nat
    decreases parts.len(),
{
    if parts.len() == 0 {
        0
    } else {
        let m = max_part_page(parts.drop_last());
        let p = part_page(parts.last());
        if p > m { p } else { m }
    }
}

/// The largest page of an issue index: among the texts that follow each
/// occurrence of the issue directory, those starting with four digits.
/// An empty directory splits the page into single characters, none of
/// which holds four digits: there is no page then.
pub open spec fn max_page_spec(html: Seq<char>, dir: Seq<char>) -> Option<u32> {
    if dir.len() == 0 {
        None
    } else {
        let m = max_part_page(split_at_pat(html, dir).drop_first());
        if m > 0 {
            Some(m as u32)
        } else {
            None
        }
    }
}

/// `s.split(pat)` for a non-empty pattern.
pub fn split_at_pat_exec(s: &[char], pat: &[char]) -> (out: Vec<Vec<char>>)
    requires
        pat.len() > 0,
    ensures
        seqs_of(out@) == split_at_pat(s@, pat@),
{
    let mut out: Vec<Vec<char>> = Vec::new();
    let mut rest: Vec<char> = copy_range(s, 0, s.len());
    assert(rest@ =~= s@);
    loop
        invariant
            pat.len() > 0,
            split_at_pat(s@, pat@) == seqs_of(out@) + split_at_pat(rest@, pat@),
        decreases rest.len(),
    {
        match find_pat_exec(&rest, pat) {
            Some(i) => {
                let part = copy_range(&rest, 0, i);
                let next = copy_range(&rest, i + pat.len(), rest.len());
                assert(part@ =~= rest@.take(i as int));
                assert(next@ =~= rest@.skip(i + pat.len()));
                proof {
                    lemma_seqs_of_push(out@, part);
                    assert(split_at_pat(rest@, pat@) =~= seq![part@] + split_at_pat(next@, pat@));
                    assert(seqs_of(out@) + split_at_pat(rest@, pat@) =~= seqs_of(out@).push(part@)
                        + split_at_pat(next@, pat@));
                }
                out.push(part);
                rest = next;
            },
            None => {
                proof {
                    lemma_seqs_of_push(out@, rest);
                    assert(seqs_of(out@) + split_at_pat(rest@, pat@) =~= seqs_of(out@).push(rest@));
                }
                out.push(rest);
                return out;
            },
        }
    }
}

/// The highest page number that the index page `html` of issue `dir`
/// links to (`{dir}{NNNN}f.html`), if any is above zero.
pub fn max_page_in_index(html: &str, dir: &str) -> (r: Option<u32>)
    ensures
        r == max_page_spec(html@, dir@),
{
    let h = chars_of(html);
    let d = chars_of(dir);
    if d.len() == 0 {
        return None;
    }
    let parts = split_at_pat_exec(&h, &d);
    let ghost ps = seqs_of(parts@);
    let mut max: u32 = 0;
    let mut i: usize = 1;
    if parts.len() == 0 {
        assert(ps.drop_first() =~= Seq::<Seq<char>>::empty());
        return None;
    }
    assert(ps.drop_first().take(0) =~= Seq::<Seq<char>>::empty());
    while i < parts.len()
        invariant
            1 <= i <= parts.len(),
            ps == seqs_of(parts@),
            max as nat == max_part_page(ps.drop_first().take(i - 1)),
        decreases parts.len() - i,
    {
        let p = &parts[i];
        assert(ps.drop_first().take(i as int).drop_last() =~= ps.drop_first().take(i - 1));
        assert(ps.drop_first().take(i as int).last() == p@);
        if p.len() >= 4 && '0' <= p[0] && p[0] <= '9' && '0' <= p[1] && p[1] <= '9' && '0' <= p[2]
            && p[2] <= '9' && '0' <= p[3] && p[3] <= '9' {
            let four = copy_range(p, 0, 4);
            assert(four@ =~= p@.take(4));
            match parse_u32(&four) {
                Some(n) => {
                    proof {
                        assert(crate::num::unsigned_body(four@) == four@);
                    }
                    if n > max {
                        max = n;
                    }
                },
                None => {
                    proof {
                        assert(crate::num::unsigned_body(four@) == four@);
                        assert(crate::num::all_ascii_digits(four@));
                        crate::num::lemma_digits_value_bound(four@);
                        assert(crate::num::pow10(4) == 10000) by {
                            reveal_with_fuel(crate::num::pow10, 5);
                        }
                    }
                },
            }
        }
        i = i + 1;
    }
    assert(ps.drop_first().take(i - 1) =~= ps.drop_first());
    if max > 0 {
        Some(max)
    } else {
        None
    }
}

/// The URL of page `target` given the URL of page `current` of an item.
pub open spec fn page_pdf_url_spec(url: Seq<char>, current: u32, target: u32) -> Option<Seq<char>> {
    match strip_suffix(url, zero_pad(dec(current as nat), 4) + ".pdf"@) {
        Some(prefix) => Some(prefix + zero_pad(dec(target as nat), 4) + ".pdf"@),
        None => None,
    }
}

/// Replaces the four-digit page `current` at the end of an item PDF URL
/// (`.../pdf/{dir}{PPPP}.pdf`) by `target`; `None` if the URL does not end
/// with `current`'s page.
pub fn page_pdf_url(item_pdf_url: &str, current_page: u32, target_page: u32) -> (r: Option<String>)
    ensures
        opt_view(r) == page_pdf_url_spec(item_pdf_url@, current_page, target_page),
{
    let u = chars_of(item_pdf_url);
    let mut suffix = u64_padded(current_page as u64, 4);
    let ext = chars_of(".pdf");
    append_chars(&mut suffix, &ext);
    if !ends_with_chars(&u, &suffix) {
        return None;
    }
    let mut out = copy_range(&u, 0, u.len() - suffix.len());
    let tp = u64_padded(target_page as u64, 4);
    append_chars(&mut out, &tp);
    append_chars(&mut out, &ext);
    Some(string_of(&out))
}

/// The title of a table-of-contents entry (see `clean_title_chars`).
pub fn clean_title(text: &str) -> (out: String)
    ensures
        out@ == clean_title_spec(text@),
{
    let c = chars_of(text);
    let t = clean_title_chars(&c);
    string_of(&t)
}

/// The issuing body's abbreviation from a title (see
/// `extract_agency_hint_chars`).
pub fn extract_agency_hint(title: &str) -> (r: Option<String>)
    ensures
        opt_view(r) == agency_hint_spec(title@),
{
    let c = chars_of(title);
    extract_agency_hint_chars(&c)
}

} // verus!
