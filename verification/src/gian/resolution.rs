//! The labels of the House of Councillors' supplementary-resolution lists.
//!
//! A link reads 「国家情報会議設置法案に対する附帯決議（令和8年6月9日）（PDF）」:
//! the title, the resolution date in an era, and a file-type note.
use vstd::prelude::*;
use super::dates::{jp_num_chars, jp_num_spec, wareki_overflows, wareki_overflows_exec, wareki_to_iso_chars, wareki_to_iso_spec};
use crate::scan::{
    before_char, before_char_exec, index_of, index_of_char, lemma_index_of, lemma_rfind_occurs,
    rfind, rfind_exec,
    strip_suffix, without_suffix, without_suffix_exec,
};
use crate::text::{chars_of, copy_range, ends_with_chars, opt_view, string_of, trim, trim_chars};

verus! {

/// The session number in a page heading such as 「第221回国会 附帯決議一覧」:
/// the numeral between the first 第 and the first 回 after it.
pub open spec fn session_number_spec(text: Seq<char>) -> Option<u32> {
    match index_of(text, '第') {
        None => None,
        Some(start) => {
            let rest = text.skip(start + 1);
            match index_of(rest, '回') {
                None => None,
                Some(end) => jp_num_spec(rest.take(end)),
            }
        },
    }
}

/// The Diet session number that a heading names.
pub fn extract_session_number(text: &str) -> (r: Option<u32>)
    ensures
        r == session_number_spec(text@),
{
    let text = chars_of(text);
    let text = text.as_slice();
    proof {
        lemma_index_of(text@, '第');
    }
    let start = match index_of_char(text, '第') {
        Some(i) => i,
        None => return None,
    };
    let rest = copy_range(text, start + 1, text.len());
    assert(rest@ =~= text@.skip(start + 1));
    proof {
        lemma_index_of(rest@, '回');
    }
    let end = match index_of_char(&rest, '回') {
        Some(i) => i,
        None => return None,
    };
    let head = copy_range(&rest, 0, end);
    assert(head@ =~= rest@.take(end as int));
    jp_num_chars(&head)
}

/// The era markers that open a resolution date.
pub open spec fn date_marker(i: int) -> Seq<char> {
    if i == 0 {
        seq!['（', '令', '和']
    } else if i == 1 {
        seq!['（', '平', '成']
    } else if i == 2 {
        seq!['（', '昭', '和']
    } else if i == 3 {
        seq!['（', '大', '正']
    } else {
        seq!['（', '明', '治']
    }
}

/// The larger of two optional indices.
pub open spec fn max_opt(a: Option<int>, b: Option<int>) -> Option<int> {
    match (a, b) {
        (Some(x), Some(y)) => Some(if x >= y { x } else { y }),
        (Some(x), None) => Some(x),
        (None, Some(y)) => Some(y),
        (None, None) => None,
    }
}

/// Where the date of a label starts: the last occurrence of any era marker.
pub open spec fn date_start(l: Seq<char>) -> Option<int> {
    max_opt(
        max_opt(max_opt(rfind(l, date_marker(0)), rfind(l, date_marker(1))), max_opt(
            rfind(l, date_marker(2)),
            rfind(l, date_marker(3)),
        )),
        rfind(l, date_marker(4)),
    )
}

/// The label without surrounding whitespace and a trailing 「（PDF）」.
pub open spec fn bare_label(label: Seq<char>) -> Seq<char> {
    without_suffix(trim(label), seq!['（', 'P', 'D', 'F', '）'])
}

/// The era date written in a label, up to its closing bracket.
pub open spec fn label_date_text(label: Seq<char>) -> Option<Seq<char>> {
    let l = bare_label(label);
    match date_start(l) {
        Some(start) => Some(before_char(l.skip(start + 1), '）')),
        None => None,
    }
}

/// The date of a label can be read without overflow.
pub open spec fn label_readable(label: Seq<char>) -> bool {
    match label_date_text(label) {
        Some(dt) => !wareki_overflows(dt),
        None => true,
    }
}

/// Title, subject and ISO date of a resolution link label.
pub open spec fn resolution_label_spec(label: Seq<char>) -> (Seq<char>, Seq<char>, Option<Seq<char>>) {
    let l = bare_label(label);
    let (title, date) = match date_start(l) {
        Some(start) => (trim(l.take(start)), wareki_to_iso_spec(before_char(l.skip(start + 1), '）'))),
        None => (l, None),
    };
    (title, trim(without_suffix(title, "に対する附帯決議"@)), date)
}

fn max_opt_exec(a: Option<usize>, b: Option<usize>) -> (r: Option<usize>)
    ensures
        match r {
            Some(x) => max_opt(
                match a { Some(v) => Some(v as int), None => None },
                match b { Some(v) => Some(v as int), None => None },
            ) == Some(x as int),
            None => max_opt(
                match a { Some(v) => Some(v as int), None => None },
                match b { Some(v) => Some(v as int), None => None },
            ) is None,
        },
{
    match (a, b) {
        (Some(x), Some(y)) => Some(if x >= y { x } else { y }),
        (Some(x), None) => Some(x),
        (None, Some(y)) => Some(y),
        (None, None) => None,
    }
}

fn rfind_marker(l: &[char], i: usize) -> (r: Option<usize>)
    requires
        i < 5,
    ensures
        match r {
            Some(x) => rfind(l@, date_marker(i as int)) == Some(x as int),
            None => rfind(l@, date_marker(i as int)) is None,
        },
{
    let m = if i == 0 {
        ['（', '令', '和']
    } else if i == 1 {
        ['（', '平', '成']
    } else if i == 2 {
        ['（', '昭', '和']
    } else if i == 3 {
        ['（', '大', '正']
    } else {
        ['（', '明', '治']
    };
    assert(m@ =~= date_marker(i as int));
    rfind_exec(l, &m)
}

/// Splits a link label such as
/// 「民法等の一部を改正する法律案に対する附帯決議（令和８年６月１６日）（PDF）」
/// into its title (before the last era date), its subject (the title
/// without 「に対する附帯決議」) and the date in ISO form.
pub fn parse_resolution_label(label: &str) -> (r: (String, String, Option<String>))
    requires
        label_readable(label@),
    ensures
        (r.0@, r.1@, opt_view(r.2)) == resolution_label_spec(label@),
{
    let lc = chars_of(label);
    let t = trim_chars(&lc);
    let pdf = ['（', 'P', 'D', 'F', '）'];
    assert(pdf@ =~= seq!['（', 'P', 'D', 'F', '）']);
    let l = without_suffix_exec(&t, &pdf);
    let a = max_opt_exec(rfind_marker(&l, 0), rfind_marker(&l, 1));
    let b = max_opt_exec(rfind_marker(&l, 2), rfind_marker(&l, 3));
    let ab = max_opt_exec(a, b);
    let start = max_opt_exec(ab, rfind_marker(&l, 4));
    let (title, date) = match start {
        Some(s) => {
            proof {
                lemma_rfind_occurs(l@, date_marker(0));
                lemma_rfind_occurs(l@, date_marker(1));
                lemma_rfind_occurs(l@, date_marker(2));
                lemma_rfind_occurs(l@, date_marker(3));
                lemma_rfind_occurs(l@, date_marker(4));
            }
            assert(s + 1 <= l.len());
            let after = copy_range(&l, s + 1, l.len());
            let dt = before_char_exec(&after, '）');
            assert(after@ =~= l@.skip(s + 1));
            let head = copy_range(&l, 0, s);
            assert(head@ =~= l@.take(s as int));
            (trim_chars(&head), wareki_to_iso_chars(&dt))
        },
        None => (l, None),
    };
    let suffix = chars_of("に対する附帯決議");
    let subj = without_suffix_exec(&title, &suffix);
    let subject = trim_chars(&subj);
    (string_of(&title), string_of(&subject), date)
}

/// Where the date of a label starts, on characters.
fn date_start_exec(l: &[char]) -> (r: Option<usize>)
    ensures
        match r {
            Some(x) => date_start(l@) == Some(x as int) && x + 3 <= l.len(),
            None => date_start(l@) is None,
        },
{
    let a = max_opt_exec(rfind_marker(l, 0), rfind_marker(l, 1));
    let b = max_opt_exec(rfind_marker(l, 2), rfind_marker(l, 3));
    let ab = max_opt_exec(a, b);
    let r = max_opt_exec(ab, rfind_marker(l, 4));
    proof {
        lemma_rfind_occurs(l@, date_marker(0));
        lemma_rfind_occurs(l@, date_marker(1));
        lemma_rfind_occurs(l@, date_marker(2));
        lemma_rfind_occurs(l@, date_marker(3));
        lemma_rfind_occurs(l@, date_marker(4));
    }
    r
}

/// Whether the date of a link label can be read without overflow.
pub fn label_readable_exec(label: &str) -> (b: bool)
    ensures
        b == label_readable(label@),
{
    let lc = chars_of(label);
    let t = trim_chars(&lc);
    let pdf = ['（', 'P', 'D', 'F', '）'];
    assert(pdf@ =~= seq!['（', 'P', 'D', 'F', '）']);
    let l = without_suffix_exec(&t, &pdf);
    match date_start_exec(&l) {
        Some(s) => {
            let after = copy_range(&l, s + 1, l.len());
            assert(after@ =~= l@.skip(s + 1));
            let dt = before_char_exec(&after, '）');
            !wareki_overflows_exec(&dt)
        },
        None => true,
    }
}

} // verus!
