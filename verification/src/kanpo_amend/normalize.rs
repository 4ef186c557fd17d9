//! Vertical-writing punctuation, private-use glyphs and page-margin noise.
use crate::text::{
    chars_eq, chars_of, copy_range, is_ascii_digit, is_blank, is_blank_chars, is_whitespace,
    is_wide_digit, is_ws, join, join_lines, lemma_seqs_of_push, lines, nl, seqs_of, split_lines,
    starts_with, starts_with_chars, string_of, trim, trim_chars, trim_end, trim_end_chars,
    trim_start, trim_start_chars, lemma_trim_start_suffix, lemma_trim_end_prefix,
};
use vstd::prelude::*;

verus! {

/// Private-use-area character (U+E000..U+F8FF): font-specific glyphs such as
/// underline marks, meaningless as text.
pub open spec fn is_pua(c: char) -> bool {
    '\u{E000}' <= c && c <= '\u{F8FF}'
}

/// Whether `c` lies in the private use area.
pub fn is_private_use(c: char) -> (b: bool)
    ensures
        b == is_pua(c),
{
    '\u{E000}' <= c && c <= '\u{F8FF}'
}

/// Presentation forms for vertical writing, mapped to their ordinary
/// full-width punctuation; every other character maps to itself.
pub open spec fn vertical_form(c: char) -> char {
    if c == '\u{FE10}' { '，' }
    else if c == '\u{FE11}' { '、' }
    else if c == '\u{FE12}' { '。' }
    else if c == '\u{FE13}' { '：' }
    else if c == '\u{FE14}' { '；' }
    else if c == '\u{FE15}' { '！' }
    else if c == '\u{FE16}' { '？' }
    else if c == '\u{FE17}' { '〖' }
    else if c == '\u{FE18}' { '〗' }
    else if c == '\u{FE19}' { '…' }
    else if c == '\u{FE31}' { '—' }
    else if c == '\u{FE32}' { '–' }
    else if c == '\u{FE33}' || c == '\u{FE34}' { '｜' }
    else if c == '\u{FE35}' { '（' }
    else if c == '\u{FE36}' { '）' }
    else if c == '\u{FE37}' { '｛' }
    else if c == '\u{FE38}' { '｝' }
    else if c == '\u{FE39}' { '〔' }
    else if c == '\u{FE3A}' { '〕' }
    else if c == '\u{FE3B}' { '【' }
    else if c == '\u{FE3C}' { '】' }
    else if c == '\u{FE3D}' { '《' }
    else if c == '\u{FE3E}' { '》' }
    else if c == '\u{FE3F}' { '〈' }
    else if c == '\u{FE40}' { '〉' }
    else if c == '\u{FE41}' { '「' }
    else if c == '\u{FE42}' { '」' }
    else if c == '\u{FE43}' { '『' }
    else if c == '\u{FE44}' { '』' }
    else if c == '\u{FE47}' { '〔' }
    else if c == '\u{FE48}' { '〕' }
    else { c }
}

/// Maps a vertical presentation form to ordinary full-width punctuation.
pub fn normalize_char(c: char) -> (r: char)
    ensures
        r == vertical_form(c),
{
    match c {
        '\u{FE10}' => '，',
        '\u{FE11}' => '、',
        '\u{FE12}' => '。',
        '\u{FE13}' => '：',
        '\u{FE14}' => '；',
        '\u{FE15}' => '！',
        '\u{FE16}' => '？',
        '\u{FE17}' => '〖',
        '\u{FE18}' => '〗',
        '\u{FE19}' => '…',
        '\u{FE31}' => '—',
        '\u{FE32}' => '–',
        '\u{FE33}' | '\u{FE34}' => '｜',
        '\u{FE35}' => '（',
        '\u{FE36}' => '）',
        '\u{FE37}' => '｛',
        '\u{FE38}' => '｝',
        '\u{FE39}' => '〔',
        '\u{FE3A}' => '〕',
        '\u{FE3B}' => '【',
        '\u{FE3C}' => '】',
        '\u{FE3D}' => '《',
        '\u{FE3E}' => '》',
        '\u{FE3F}' => '〈',
        '\u{FE40}' => '〉',
        '\u{FE41}' => '「',
        '\u{FE42}' => '」',
        '\u{FE43}' => '『',
        '\u{FE44}' => '』',
        '\u{FE47}' => '〔',
        '\u{FE48}' => '〕',
        other => other,
    }
}

/// A line with private-use glyphs removed and vertical forms normalized.
pub open spec fn clean_chars(s: Seq<char>) -> Seq<char>
    decreases s.len(),
{
    if s.len() == 0 {
        Seq::empty()
    } else {
        let p = clean_chars(s.drop_last());
        if is_pua(s.last()) {
            p
        } else {
            p.push(vertical_form(s.last()))
        }
    }
}

/// Removes private-use glyphs and normalizes vertical punctuation.
pub fn clean_line(s: &[char]) -> (out: Vec<char>)
    ensures
        out@ == clean_chars(s@),
{
    let mut out: Vec<char> = Vec::new();
    let mut i: usize = 0;
    while i < s.len()
        invariant
            i <= s.len(),
            out@ == clean_chars(s@.take(i as int)),
        decreases s.len() - i,
    {
        assert(s@.take(i + 1).drop_last() =~= s@.take(i as int));
        let c = s[i];
        if !is_private_use(c) {
            out.push(normalize_char(c));
        }
        i = i + 1;
    }
    assert(s@.take(s.len() as int) =~= s@);
    out
}

/// The page-margin lead of a line: a lone 「官」 or 「報」 at the start of the
/// line, followed by at least two spaces (then the rest is kept without its
/// leading whitespace) or by nothing but whitespace (then the line empties).
pub open spec fn strip_margin_lead_spec(line: Seq<char>) -> Seq<char> {
    let t = trim_start(line);
    if t.len() > 0 && (t[0] == '官' || t[0] == '報') {
        let rest = t.drop_first();
        if starts_with(rest, seq![' ', ' ']) {
            trim_start(rest)
        } else if is_blank(rest) {
            Seq::empty()
        } else {
            line
        }
    } else {
        line
    }
}

/// Removes a page-margin 「官」/「報」 from the start of a line.
pub fn strip_margin_lead(line: &[char]) -> (out: Vec<char>)
    ensures
        out@ == strip_margin_lead_spec(line@),
{
    let t = trim_start_chars(line);
    if t.len() > 0 && (t[0] == '官' || t[0] == '報') {
        let rest = copy_range(&t, 1, t.len());
        assert(rest@ =~= t@.drop_first());
        let two = [' ', ' '];
        assert(two@ =~= seq![' ', ' ']);
        if starts_with_chars(&rest, &two) {
            return trim_start_chars(&rest);
        }
        if is_blank_chars(&rest) {
            return Vec::new();
        }
    }
    copy_range(line, 0, line.len())
}

/// The characters of a line other than whitespace and (ASCII or full-width)
/// digits.
pub open spec fn skeleton(s: Seq<char>) -> Seq<char>
    decreases s.len(),
{
    if s.len() == 0 {
        Seq::empty()
    } else {
        let p = skeleton(s.drop_last());
        let c = s.last();
        if is_ws(c) || is_ascii_digit(c) || is_wide_digit(c) {
            p
        } else {
            p.push(c)
        }
    }
}

/// The skeletons of page-margin lines: issue date, weekday, issue number, and
/// the lone 「官」「報」.
pub open spec fn is_noise_skeleton(k: Seq<char>) -> bool {
    ||| k == seq!['官']
    ||| k == seq!['報']
    ||| k == seq!['令', '和', '年', '月', '日']
    ||| k == seq!['平', '成', '年', '月', '日']
    ||| k == seq!['号', '外', '第', '号']
    ||| k == seq!['（', '号', '外', '第', '号', '）']
    ||| k == seq!['(', '号', '外', '第', '号', ')']
    ||| k == seq!['月', '曜', '日']
    ||| k == seq!['火', '曜', '日']
    ||| k == seq!['水', '曜', '日']
    ||| k == seq!['木', '曜', '日']
    ||| k == seq!['金', '曜', '日']
    ||| k == seq!['土', '曜', '日']
    ||| k == seq!['日', '曜', '日']
}

/// A line is page-margin noise when its skeleton is one of the margin
/// skeletons.
pub open spec fn is_margin_noise_spec(line: Seq<char>) -> bool {
    is_noise_skeleton(skeleton(line))
}

fn skeleton_of(s: &[char]) -> (out: Vec<char>)
    ensures
        out@ == skeleton(s@),
{
    let mut out: Vec<char> = Vec::new();
    let mut i: usize = 0;
    while i < s.len()
        invariant
            i <= s.len(),
            out@ == skeleton(s@.take(i as int)),
        decreases s.len() - i,
    {
        assert(s@.take(i + 1).drop_last() =~= s@.take(i as int));
        let c = s[i];
        if !(is_whitespace(c) || ('0' <= c && c <= '9') || ('０' <= c && c <= '９')) {
            out.push(c);
        }
        i = i + 1;
    }
    assert(s@.take(s.len() as int) =~= s@);
    out
}

fn is_noise_skeleton_exec(k: &[char]) -> (b: bool)
    ensures
        b == is_noise_skeleton(k@),
{
    let w0 = ['官'];
    let w1 = ['報'];
    let w2 = ['令', '和', '年', '月', '日'];
    let w3 = ['平', '成', '年', '月', '日'];
    let w4 = ['号', '外', '第', '号'];
    let w5 = ['（', '号', '外', '第', '号', '）'];
    let w6 = ['(', '号', '外', '第', '号', ')'];
    let w7 = ['月', '曜', '日'];
    let w8 = ['火', '曜', '日'];
    let w9 = ['水', '曜', '日'];
    let w10 = ['木', '曜', '日'];
    let w11 = ['金', '曜', '日'];
    let w12 = ['土', '曜', '日'];
    let w13 = ['日', '曜', '日'];
    assert(w0@ =~= seq!['官']);
    assert(w1@ =~= seq!['報']);
    assert(w2@ =~= seq!['令', '和', '年', '月', '日']);
    assert(w3@ =~= seq!['平', '成', '年', '月', '日']);
    assert(w4@ =~= seq!['号', '外', '第', '号']);
    assert(w5@ =~= seq!['（', '号', '外', '第', '号', '）']);
    assert(w6@ =~= seq!['(', '号', '外', '第', '号', ')']);
    assert(w7@ =~= seq!['月', '曜', '日']);
    assert(w8@ =~= seq!['火', '曜', '日']);
    assert(w9@ =~= seq!['水', '曜', '日']);
    assert(w10@ =~= seq!['木', '曜', '日']);
    assert(w11@ =~= seq!['金', '曜', '日']);
    assert(w12@ =~= seq!['土', '曜', '日']);
    assert(w13@ =~= seq!['日', '曜', '日']);
    chars_eq(k, &w0) || chars_eq(k, &w1) || chars_eq(k, &w2) || chars_eq(k, &w3) || chars_eq(
        k,
        &w4,
    ) || chars_eq(k, &w5) || chars_eq(k, &w6) || chars_eq(k, &w7) || chars_eq(k, &w8)
        || chars_eq(k, &w9) || chars_eq(k, &w10) || chars_eq(k, &w11) || chars_eq(k, &w12)
        || chars_eq(k, &w13)
}

/// Whether a line is page-margin noise (issue date, weekday, issue number).
pub fn is_margin_noise(line: &[char]) -> (b: bool)
    ensures
        b == is_margin_noise_spec(line@),
{
    let k = skeleton_of(line);
    is_noise_skeleton_exec(&k)
}

/// The lines that survive cleaning: each line is cleaned, loses a margin
/// lead, is dropped when it is margin noise, and loses trailing whitespace.
pub open spec fn kept_lines(ls: Seq<Seq<char>>) -> Seq<Seq<char>>
    decreases ls.len(),
{
    if ls.len() == 0 {
        Seq::empty()
    } else {
        let p = kept_lines(ls.drop_last());
        let st = strip_margin_lead_spec(clean_chars(ls.last()));
        if is_margin_noise_spec(st) {
            p
        } else {
            p.push(trim_end(st))
        }
    }
}

/// Collapses each run of blank lines into one blank line.
pub open spec fn collapse_blanks(ls: Seq<Seq<char>>) -> Seq<Seq<char>>
    decreases ls.len(),
{
    if ls.len() == 0 {
        Seq::empty()
    } else {
        let p = collapse_blanks(ls.drop_last());
        if is_blank(ls.last()) && p.len() > 0 && is_blank(p.last()) {
            p
        } else {
            p.push(ls.last())
        }
    }
}

/// The cleaned page text: kept lines, blank runs collapsed, joined by
/// newlines and trimmed.
pub open spec fn normalized(raw: Seq<char>) -> Seq<char> {
    trim(join(collapse_blanks(kept_lines(lines(raw))), nl()))
}

/// Normalizes vertical punctuation, drops private-use glyphs and page-margin
/// noise, and collapses runs of blank lines.
pub fn normalize_text(raw: &str) -> (out: String)
    ensures
        out@ == normalized(raw@),
{
    let cs = chars_of(raw);
    let ls = split_lines(&cs);
    let ghost lsv = seqs_of(ls@);
    let mut out_lines: Vec<Vec<char>> = Vec::new();
    let ghost mut kept: Seq<Seq<char>> = Seq::empty();
    let mut prev_blank = false;
    let mut i: usize = 0;
    while i < ls.len()
        invariant
            i <= ls.len(),
            lsv == seqs_of(ls@),
            kept == kept_lines(lsv.take(i as int)),
            seqs_of(out_lines@) == collapse_blanks(kept),
            prev_blank == (seqs_of(out_lines@).len() > 0 && is_blank(seqs_of(out_lines@).last())),
        decreases ls.len() - i,
    {
        assert(lsv.take(i + 1).drop_last() =~= lsv.take(i as int));
        assert(lsv.take(i + 1).last() == ls@[i as int]@);
        let cl = clean_line(&ls[i]);
        let st = strip_margin_lead(&cl);
        if !is_margin_noise(&st) {
            let l = trim_end_chars(&st);
            let blank = is_blank_chars(&l);
            proof {
                kept = kept.push(l@);
                assert(kept.drop_last() =~= kept_lines(lsv.take(i as int)));
            }
            if !(blank && prev_blank) {
                proof {
                    lemma_seqs_of_push(out_lines@, l);
                }
                out_lines.push(l);
                prev_blank = blank;
            }
        }
        i = i + 1;
    }
    assert(lsv.take(ls.len() as int) =~= lsv);
    let joined = join_lines(&out_lines);
    let t = trim_chars(&joined);
    string_of(&t)
}

/// No private-use glyph in `s`.
pub open spec fn pua_free(s: Seq<char>) -> bool {
    forall|i: int| 0 <= i < s.len() ==> !is_pua(#[trigger] s[i])
}

proof fn lemma_clean_pua_free(s: Seq<char>)
    ensures
        pua_free(clean_chars(s)),
    decreases s.len(),
{
    if s.len() > 0 {
        lemma_clean_pua_free(s.drop_last());
        let p = clean_chars(s.drop_last());
        if !is_pua(s.last()) {
            let c = vertical_form(s.last());
            assert(!is_pua(c));
            assert forall|i: int| 0 <= i < p.push(c).len() implies !is_pua(#[trigger] p.push(c)[i]) by {
                if i < p.len() {
                    assert(p.push(c)[i] == p[i]);
                }
            }
        }
    }
}

proof fn lemma_pua_free_skip(s: Seq<char>, k: int)
    requires
        pua_free(s),
        0 <= k <= s.len(),
    ensures
        pua_free(s.skip(k)),
        pua_free(s.take(k)),
{
    assert forall|i: int| 0 <= i < s.skip(k).len() implies !is_pua(#[trigger] s.skip(k)[i]) by {
        assert(s.skip(k)[i] == s[i + k]);
    }
    assert forall|i: int| 0 <= i < s.take(k).len() implies !is_pua(#[trigger] s.take(k)[i]) by {
        assert(s.take(k)[i] == s[i]);
    }
}

proof fn lemma_pua_free_trim(s: Seq<char>)
    requires
        pua_free(s),
    ensures
        pua_free(trim_start(s)),
        pua_free(trim_end(s)),
        pua_free(trim(s)),
{
    lemma_trim_start_suffix(s);
    lemma_pua_free_skip(s, s.len() - trim_start(s).len());
    lemma_trim_end_prefix(s);
    lemma_pua_free_skip(s, trim_end(s).len() as int);
    let a = trim_start(s);
    lemma_trim_end_prefix(a);
    lemma_pua_free_skip(a, trim_end(a).len() as int);
}

proof fn lemma_kept_pua_free(ls: Seq<Seq<char>>)
    ensures
        forall|k: int| 0 <= k < kept_lines(ls).len() ==> pua_free(#[trigger] kept_lines(ls)[k]),
    decreases ls.len(),
{
    if ls.len() > 0 {
        lemma_kept_pua_free(ls.drop_last());
        let p = kept_lines(ls.drop_last());
        let c = clean_chars(ls.last());
        lemma_clean_pua_free(ls.last());
        lemma_pua_free_trim(c);
        let t = trim_start(c);
        if t.len() > 0 && (t[0] == '官' || t[0] == '報') {
            lemma_pua_free_skip(t, 1);
            assert(t.drop_first() =~= t.skip(1));
            lemma_pua_free_trim(t.drop_first());
        }
        let st = strip_margin_lead_spec(c);
        assert(pua_free(st));
        lemma_pua_free_trim(st);
        if !is_margin_noise_spec(st) {
            assert forall|k: int| 0 <= k < p.push(trim_end(st)).len() implies pua_free(#[trigger] p.push(trim_end(st))[k]) by {
                if k < p.len() {
                    assert(p.push(trim_end(st))[k] == p[k]);
                }
            }
        }
    }
}

proof fn lemma_collapse_from(ls: Seq<Seq<char>>)
    ensures
        forall|k: int| 0 <= k < collapse_blanks(ls).len() ==> exists|j: int| 0 <= j < ls.len() && #[trigger] collapse_blanks(ls)[k] == ls[j],
        forall|k: int| 0 <= k < collapse_blanks(ls).len() - 1 ==> !(is_blank(#[trigger] collapse_blanks(ls)[k]) && is_blank(collapse_blanks(ls)[k + 1])),
    decreases ls.len(),
{
    if ls.len() > 0 {
        let init = ls.drop_last();
        lemma_collapse_from(init);
        let p = collapse_blanks(init);
        let c = collapse_blanks(ls);
        assert forall|k: int| 0 <= k < c.len() implies exists|j: int| 0 <= j < ls.len() && #[trigger] c[k] == ls[j] by {
            if k < p.len() {
                assert(c[k] == p[k]);
                let j = choose|j: int| 0 <= j < init.len() && p[k] == init[j];
                assert(init[j] == ls[j]);
            } else {
                assert(c[k] == ls[ls.len() - 1]);
            }
        }
        assert forall|k: int| 0 <= k < c.len() - 1 implies !(is_blank(#[trigger] c[k]) && is_blank(c[k + 1])) by {
            if k + 1 < p.len() {
                assert(c[k] == p[k] && c[k + 1] == p[k + 1]);
            } else if c.len() > p.len() {
                assert(c[k] == p[k]);
                assert(k == p.len() - 1);
                assert(c[k + 1] == ls.last());
            }
        }
    }
}

proof fn lemma_join_pua_free(ls: Seq<Seq<char>>)
    requires
        forall|k: int| 0 <= k < ls.len() ==> pua_free(#[trigger] ls[k]),
    ensures
        pua_free(join(ls, nl())),
    decreases ls.len(),
{
    if ls.len() == 1 {
        assert(pua_free(ls[0]));
    } else if ls.len() > 1 {
        let init = ls.drop_last();
        assert forall|k: int| 0 <= k < init.len() implies pua_free(#[trigger] init[k]) by {
            assert(init[k] == ls[k]);
        }
        lemma_join_pua_free(init);
        let j = join(init, nl());
        assert(pua_free(ls.last())) by {
            assert(ls.last() == ls[ls.len() - 1]);
        }
        let t = j + nl() + ls.last();
        assert forall|i: int| 0 <= i < t.len() implies !is_pua(#[trigger] t[i]) by {
            if i < j.len() {
                assert(t[i] == j[i]);
            } else if i == j.len() {
                assert(t[i] == '\n');
            } else {
                assert(t[i] == ls.last()[i - j.len() - 1]);
            }
        }
    }
}

/// The cleaned page text holds no private-use glyph, and its cleaned lines
/// never hold two blank lines in a row.
pub proof fn lemma_normalized_clean(raw: Seq<char>)
    ensures
        pua_free(normalized(raw)),
        forall|k: int| 0 <= k < collapse_blanks(kept_lines(lines(raw))).len() - 1 ==> !(is_blank(
            #[trigger] collapse_blanks(kept_lines(lines(raw)))[k],
        ) && is_blank(collapse_blanks(kept_lines(lines(raw)))[k + 1])),
{
    let kl = kept_lines(lines(raw));
    lemma_kept_pua_free(lines(raw));
    lemma_collapse_from(kl);
    let c = collapse_blanks(kl);
    assert forall|k: int| 0 <= k < c.len() implies pua_free(#[trigger] c[k]) by {
        let j = choose|j: int| 0 <= j < kl.len() && c[k] == kl[j];
        assert(pua_free(kl[j]));
    }
    lemma_join_pua_free(c);
    lemma_pua_free_trim(join(c, nl()));
}

} // verus!
