//! Japanese numerals and era dates as the Diet's bill pages write them.
//!
//! `jp_num` reads a year, month or day number written with ASCII or
//! full-width digits (or `元` for the first year of an era); `wareki_to_iso`
//! turns `令和 8年 6月12日` into `2026-06-12`.
use vstd::prelude::*;
use crate::num::{dec, parse_u32, parse_u32_spec, u64_padded, zero_pad};
use crate::scan::{index_of, index_of_char, lemma_index_of};
use crate::text::{
    append_chars, chars_of, copy_range, first_index_of, is_ascii_digit, is_wide_digit,
    starts_with, starts_with_chars, string_of, trim, trim_chars,
};

verus! {

/// The ASCII digits of `s`, full-width digits converted, everything else
/// dropped.
pub open spec fn jp_digits(s: Seq<char>) -> Seq<char>
    decreases s.len(),
{
    if s.len() == 0 {
        Seq::empty()
    } else {
        let r = jp_digits(s.drop_last());
        let c = s.last();
        if is_ascii_digit(c) {
            r.push(c)
        } else if is_wide_digit(c) {
            r.push(((c as int) - ('０' as int) + ('0' as int)) as char)
        } else {
            r
        }
    }
}

/// The number written in `s`: `元` is one, otherwise its digits read as a
/// `u32`.
pub open spec fn jp_num_spec(s: Seq<char>) -> Option<u32> {
    let t = trim(s);
    if t == seq!['元'] {
        Some(1)
    } else {
        parse_u32_spec(jp_digits(t))
    }
}

/// The number in `s`: `元` (first year) is 1; otherwise the ASCII and
/// full-width digits of `s`, other characters ignored, read as a `u32`.
pub fn jp_num_chars(s: &[char]) -> (r: Option<u32>)
    ensures
        r == jp_num_spec(s@),
{
    let t = trim_chars(s);
    if t.len() == 1 && t[0] == '元' {
        assert(t@ =~= seq!['元']);
        return Some(1);
    }
    assert(t@ != seq!['元']);
    let mut digits: Vec<char> = Vec::new();
    let mut i: usize = 0;
    while i < t.len()
        invariant
            i <= t.len(),
            digits@ == jp_digits(t@.take(i as int)),
        decreases t.len() - i,
    {
        let c = t[i];
        assert(t@.take(i + 1).drop_last() =~= t@.take(i as int));
        assert(t@.take(i + 1).last() == c);
        if '0' <= c && c <= '9' {
            digits.push(c);
        } else if '０' <= c && c <= '９' {
            let v: u32 = (c as u32) - ('０' as u32) + ('0' as u32);
            let d: char = if v == 48 { '0' } else if v == 49 { '1' } else if v == 50 { '2' }
                else if v == 51 { '3' } else if v == 52 { '4' } else if v == 53 { '5' }
                else if v == 54 { '6' } else if v == 55 { '7' } else if v == 56 { '8' }
                else { '9' };
            assert(d == ((c as int) - ('０' as int) + ('0' as int)) as char);
            digits.push(d);
        }
        i = i + 1;
    }
    assert(t@.take(t.len() as int) =~= t@);
    parse_u32(&digits)
}

/// The western year of the first year of the era that `t` starts with
/// minus one, and the rest of `t` after the era name.
pub open spec fn era_match(t: Seq<char>) -> Option<(int, Seq<char>)> {
    if starts_with(t, seq!['令', '和']) {
        Some((2018, t.skip(2)))
    } else if starts_with(t, seq!['平', '成']) {
        Some((1988, t.skip(2)))
    } else if starts_with(t, seq!['昭', '和']) {
        Some((1925, t.skip(2)))
    } else if starts_with(t, seq!['大', '正']) {
        Some((1911, t.skip(2)))
    } else if starts_with(t, seq!['明', '治']) {
        Some((1867, t.skip(2)))
    } else {
        None
    }
}

/// The era's base year, the era-year number, and the text after `年`.
pub open spec fn wareki_year(s: Seq<char>) -> Option<(int, u32, Seq<char>)> {
    match era_match(trim(s)) {
        None => None,
        Some((base, rest)) => match index_of(rest, '年') {
            None => None,
            Some(yi) => match jp_num_spec(rest.take(yi)) {
                None => None,
                Some(j) => Some((base, j, rest.skip(yi + 1))),
            },
        },
    }
}

/// The year as an `i32` sum: the era-year number taken as an `i32` (a
/// number above `i32::MAX` wraps to a negative one) plus the base year.
pub open spec fn year_value(j: u32, base: int) -> int {
    (if j <= i32::MAX { j as int } else { j as int - 0x1_0000_0000 }) + base
}

/// The `i32` year sum of `s` does not fit in an `i32`.
pub open spec fn wareki_overflows(s: Seq<char>) -> bool {
    match wareki_year(s) {
        Some((base, j, _)) => year_value(j, base) > i32::MAX,
        None => false,
    }
}

/// `{:04}` of an integer: the sign counts toward the width.
pub open spec fn signed_pad4(y: int) -> Seq<char> {
    if y >= 0 {
        zero_pad(dec(y as nat), 4)
    } else {
        seq!['-'] + zero_pad(dec((-y) as nat), 3)
    }
}

/// `YYYY-MM-DD` for a date written in a Japanese era, if it reads as one
/// with a month in 1..=12 and a day in 1..=31.
pub open spec fn wareki_to_iso_spec(s: Seq<char>) -> Option<Seq<char>> {
    match wareki_year(s) {
        None => None,
        Some((base, j, after_y)) => match index_of(after_y, '月') {
            None => None,
            Some(mi) => match jp_num_spec(after_y.take(mi)) {
                None => None,
                Some(m) => {
                    let after_m = after_y.skip(mi + 1);
                    match index_of(after_m, '日') {
                        None => None,
                        Some(di) => match jp_num_spec(after_m.take(di)) {
                            None => None,
                            Some(d) => if 1 <= m <= 12 && 1 <= d <= 31 {
                                Some(
                                    signed_pad4(year_value(j, base)) + seq!['-'] + zero_pad(
                                        dec(m as nat),
                                        2,
                                    ) + seq!['-'] + zero_pad(dec(d as nat), 2),
                                )
                            } else {
                                None
                            },
                        },
                    }
                },
            },
        },
    }
}

fn era_match_exec(t: &[char]) -> (r: Option<(i64, Vec<char>)>)
    ensures
        match r {
            Some((b, rest)) => era_match(t@) == Some((b as int, rest@)),
            None => era_match(t@) is None,
        },
{
    let reiwa = ['令', '和'];
    let heisei = ['平', '成'];
    let showa = ['昭', '和'];
    let taisho = ['大', '正'];
    let meiji = ['明', '治'];
    assert(reiwa@ =~= seq!['令', '和']);
    assert(heisei@ =~= seq!['平', '成']);
    assert(showa@ =~= seq!['昭', '和']);
    assert(taisho@ =~= seq!['大', '正']);
    assert(meiji@ =~= seq!['明', '治']);
    let base: i64 = if starts_with_chars(t, &reiwa) {
        2018
    } else if starts_with_chars(t, &heisei) {
        1988
    } else if starts_with_chars(t, &showa) {
        1925
    } else if starts_with_chars(t, &taisho) {
        1911
    } else if starts_with_chars(t, &meiji) {
        1867
    } else {
        return None;
    };
    Some((base, copy_range(t, 2, t.len())))
}

/// The pieces `wareki_year` describes, computed.
fn wareki_year_exec(s: &[char]) -> (r: Option<(i64, u32, Vec<char>)>)
    ensures
        match r {
            Some((b, j, after)) => wareki_year(s@) == Some((b as int, j, after@)),
            None => wareki_year(s@) is None,
        },
{
    let t = trim_chars(s);
    let (base, rest) = match era_match_exec(&t) {
        Some(p) => p,
        None => return None,
    };
    proof {
        lemma_index_of(rest@, '年');
    }
    let yi = match index_of_char(&rest, '年') {
        Some(i) => i,
        None => return None,
    };
    let head = copy_range(&rest, 0, yi);
    assert(head@ =~= rest@.take(yi as int));
    let j = match jp_num_chars(&head) {
        Some(j) => j,
        None => return None,
    };
    let after = copy_range(&rest, yi + 1, rest.len());
    assert(after@ =~= rest@.skip(yi + 1));
    Some((base, j, after))
}

/// Whether the year sum of `s` overflows an `i32`.
pub fn wareki_overflows_exec(s: &[char]) -> (b: bool)
    ensures
        b == wareki_overflows(s@),
{
    match wareki_year_exec(s) {
        Some((base, j, _)) => {
            let y: i64 = if j <= 2147483647 { j as i64 } else { (j as i64) - 4294967296 };
            y + base > 2147483647
        },
        None => false,
    }
}

/// `{:04}` of an `i32`-ranged year.
fn signed_pad4_exec(y: i64) -> (out: Vec<char>)
    requires
        -0x8000_0000 <= y <= 0x7fff_ffff,
    ensures
        out@ == signed_pad4(y as int),
{
    if y >= 0 {
        u64_padded(y as u64, 4)
    } else {
        let mag = u64_padded((-y) as u64, 3);
        let mut out: Vec<char> = Vec::new();
        out.push('-');
        append_chars(&mut out, &mag);
        assert(out@ =~= seq!['-'] + mag@);
        out
    }
}

/// `令和 8年 6月12日` → `2026-06-12`: the era's base year plus the era-year
/// number (as an `i32`), month and day read by `jp_num` and checked to be
/// in 1..=12 and 1..=31; `None` where the text does not read as such a date.
pub fn wareki_to_iso_chars(s: &[char]) -> (r: Option<String>)
    requires
        !wareki_overflows(s@),
    ensures
        match r {
            Some(v) => wareki_to_iso_spec(s@) == Some(v@),
            None => wareki_to_iso_spec(s@) is None,
        },
{
    let (base, j, after_y) = match wareki_year_exec(s) {
        Some(p) => p,
        None => return None,
    };
    let jy: i64 = if j <= 2147483647 { j as i64 } else { (j as i64) - 4294967296 };
    let year: i64 = jy + base;
    proof {
        lemma_index_of(after_y@, '月');
    }
    let mi = match index_of_char(&after_y, '月') {
        Some(i) => i,
        None => return None,
    };
    let mhead = copy_range(&after_y, 0, mi);
    assert(mhead@ =~= after_y@.take(mi as int));
    let m = match jp_num_chars(&mhead) {
        Some(m) => m,
        None => return None,
    };
    let after_m = copy_range(&after_y, mi + 1, after_y.len());
    assert(after_m@ =~= after_y@.skip(mi + 1));
    proof {
        lemma_index_of(after_m@, '日');
    }
    let di = match index_of_char(&after_m, '日') {
        Some(i) => i,
        None => return None,
    };
    let dhead = copy_range(&after_m, 0, di);
    assert(dhead@ =~= after_m@.take(di as int));
    let d = match jp_num_chars(&dhead) {
        Some(d) => d,
        None => return None,
    };
    if !(1 <= m && m <= 12) || !(1 <= d && d <= 31) {
        return None;
    }
    let mut out = signed_pad4_exec(year);
    out.push('-');
    let mm = u64_padded(m as u64, 2);
    append_chars(&mut out, &mm);
    out.push('-');
    let dd = u64_padded(d as u64, 2);
    append_chars(&mut out, &dd);
    Some(string_of(&out))
}

/// The number in `s` (see `jp_num_chars`): 「8」, 「８」, 「元」.
pub fn jp_num(s: &str) -> (r: Option<u32>)
    ensures
        r == jp_num_spec(s@),
{
    let c = chars_of(s);
    jp_num_chars(&c)
}

/// 「令和 8年 6月12日」 → `2026-06-12` (see `wareki_to_iso_chars`).
pub fn wareki_to_iso(s: &str) -> (r: Option<String>)
    requires
        !wareki_overflows(s@),
    ensures
        match r {
            Some(v) => wareki_to_iso_spec(s@) == Some(v@),
            None => wareki_to_iso_spec(s@) is None,
        },
{
    let c = chars_of(s);
    wareki_to_iso_chars(&c)
}

} // verus!
