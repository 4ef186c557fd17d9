//! Searching, splitting and ordering character sequences.
//!
//! The meaning of `str::find` (as an index function), `split(c).next()`,
//! `split_whitespace`, `strip_prefix`/`strip_suffix`, `rfind` with a string
//! pattern and the lexicographic order of strings, over `Seq<char>`, with
//! executable counterparts.
use vstd::prelude::*;
use crate::text::{
    append_chars, copy_range, ends_with, ends_with_chars, find_char, find_from, first_index_of,
    is_ascii_digit, is_whitespace, is_ws, join, join_chars, lemma_seqs_of_push, match_at, occurs_at,
    seqs_of, starts_with,
};

verus! {

// ---------------------------------------------------------------------------
// First occurrence of a character
// ---------------------------------------------------------------------------

/// The index of the first `c` in `s`.
pub open spec fn index_of(s: Seq<char>, c: char) -> Option<int>
    decreases s.len(),
{
    if s.len() == 0 {
        None
    } else if s[0] == c {
        Some(0)
    } else {
        match index_of(s.drop_first(), c) {
            Some(i) => Some(i + 1),
            None => None,
        }
    }
}

/// `index_of` agrees with a direct description of the first occurrence.
pub proof fn lemma_index_of(s: Seq<char>, c: char)
    ensures
        match index_of(s, c) {
            Some(i) => first_index_of(s, c, i),
            None => forall|j: int| 0 <= j < s.len() ==> s[j] != c,
        },
    decreases s.len(),
{
    if s.len() > 0 && s[0] != c {
        lemma_index_of(s.drop_first(), c);
        match index_of(s.drop_first(), c) {
            Some(i) => {
                assert forall|j: int| 0 <= j < i + 1 implies s[j] != c by {
                    if j > 0 {
                        assert(s[j] == s.drop_first()[j - 1]);
                    }
                }
            },
            None => {
                assert forall|j: int| 0 <= j < s.len() implies s[j] != c by {
                    if j > 0 {
                        assert(s[j] == s.drop_first()[j - 1]);
                    }
                }
            },
        }
    }
}

/// `str::find` with a `char` pattern, as a character index.
pub fn index_of_char(s: &[char], c: char) -> (r: Option<usize>)
    ensures
        match r {
            Some(i) => index_of(s@, c) == Some(i as int) && i < s.len() && s@[i as int] == c,
            None => index_of(s@, c) is None,
        },
{
    proof {
        lemma_index_of(s@, c);
    }
    let r = find_char(s, c);
    proof {
        match index_of(s@, c) {
            Some(k) => {
                match r {
                    Some(i) => {
                        if (i as int) < k {
                            assert(s@[i as int] == c);
                        } else if k < (i as int) {
                            assert(s@[k] == c);
                        }
                    },
                    None => {
                        assert(s@[k] == c);
                    },
                }
            },
            None => {
                match r {
                    Some(i) => {
                        assert(s@[i as int] == c);
                    },
                    None => {},
                }
            },
        }
    }
    r
}

/// `s.split(c).next()`: the part of `s` before its first `c`, or all of `s`.
pub open spec fn before_char(s: Seq<char>, c: char) -> Seq<char> {
    match index_of(s, c) {
        Some(i) => s.take(i),
        None => s,
    }
}

/// The part of `s` after its first `c`, if `s` holds a `c`.
pub open spec fn after_char(s: Seq<char>, c: char) -> Option<Seq<char>> {
    match index_of(s, c) {
        Some(i) => Some(s.skip(i + 1)),
        None => None,
    }
}

/// `s.split(c).nth(1)`: the second part of `s` split at `c`, if any.
pub open spec fn second_part(s: Seq<char>, c: char) -> Option<Seq<char>> {
    match after_char(s, c) {
        Some(rest) => Some(before_char(rest, c)),
        None => None,
    }
}

/// `s.split(c).next()` on characters.
pub fn before_char_exec(s: &[char], c: char) -> (out: Vec<char>)
    ensures
        out@ == before_char(s@, c),
{
    proof {
        lemma_index_of(s@, c);
    }
    match index_of_char(s, c) {
        Some(i) => copy_range(s, 0, i),
        None => copy_range(s, 0, s.len()),
    }
}

/// The part of `s` after its first `c`.
pub fn after_char_exec(s: &[char], c: char) -> (out: Option<Vec<char>>)
    ensures
        match out {
            Some(v) => after_char(s@, c) == Some(v@),
            None => after_char(s@, c) is None,
        },
{
    match index_of_char(s, c) {
        Some(i) => {
            proof {
                lemma_index_of(s@, c);
            }
            assert(first_index_of(s@, c, i as int));
            assert(i < s.len());
            Some(copy_range(s, i + 1, s.len()))
        },
        None => None,
    }
}

/// `s.split(c).nth(1)` on characters.
pub fn second_part_exec(s: &[char], c: char) -> (out: Option<Vec<char>>)
    ensures
        match out {
            Some(v) => second_part(s@, c) == Some(v@),
            None => second_part(s@, c) is None,
        },
{
    match after_char_exec(s, c) {
        Some(rest) => Some(before_char_exec(&rest, c)),
        None => None,
    }
}

// ---------------------------------------------------------------------------
// Prefixes and suffixes
// ---------------------------------------------------------------------------

/// `s.strip_prefix(p)`.
pub open spec fn strip_prefix(s: Seq<char>, p: Seq<char>) -> Option<Seq<char>> {
    if starts_with(s, p) {
        Some(s.skip(p.len() as int))
    } else {
        None
    }
}

/// `s.strip_suffix(p)`.
pub open spec fn strip_suffix(s: Seq<char>, p: Seq<char>) -> Option<Seq<char>> {
    if ends_with(s, p) {
        Some(s.take(s.len() - p.len()))
    } else {
        None
    }
}

/// `s.strip_suffix(p).unwrap_or(s)`.
pub open spec fn without_suffix(s: Seq<char>, p: Seq<char>) -> Seq<char> {
    match strip_suffix(s, p) {
        Some(t) => t,
        None => s,
    }
}

/// `s.strip_suffix(p).unwrap_or(s)` on characters.
pub fn without_suffix_exec(s: &[char], p: &[char]) -> (out: Vec<char>)
    ensures
        out@ == without_suffix(s@, p@),
{
    if ends_with_chars(s, p) {
        copy_range(s, 0, s.len() - p.len())
    } else {
        copy_range(s, 0, s.len())
    }
}

// ---------------------------------------------------------------------------
// Last occurrence of a pattern
// ---------------------------------------------------------------------------

/// `i` is the last index at which `pat` occurs in `s`.
pub open spec fn last_occurrence(s: Seq<char>, pat: Seq<char>, i: int) -> bool {
    occurs_at(s, pat, i) && forall|j: int| i < j ==> !#[trigger] occurs_at(s, pat, j)
}

/// `s.rfind(pat)`, as a character index.
pub open spec fn rfind(s: Seq<char>, pat: Seq<char>) -> Option<int> {
    if exists|i: int| last_occurrence(s, pat, i) {
        Some(choose|i: int| last_occurrence(s, pat, i))
    } else {
        None
    }
}

/// What `rfind` finds is an occurrence.
pub proof fn lemma_rfind_occurs(s: Seq<char>, pat: Seq<char>)
    ensures
        match rfind(s, pat) {
            Some(i) => occurs_at(s, pat, i),
            None => true,
        },
{
}

/// `s.rfind(pat)` on characters.
pub fn rfind_exec(s: &[char], pat: &[char]) -> (r: Option<usize>)
    ensures
        match r {
            Some(i) => rfind(s@, pat@) == Some(i as int),
            None => rfind(s@, pat@) is None,
        },
{
    if pat.len() > s.len() {
        assert forall|j: int| !last_occurrence(s@, pat@, j) by {}
        return None;
    }
    let mut i: usize = s.len() - pat.len();
    loop
        invariant
            i <= s.len() - pat.len(),
            pat.len() <= s.len(),
            forall|j: int| i < j ==> !#[trigger] occurs_at(s@, pat@, j),
        ensures
            forall|j: int| 0 <= j ==> !#[trigger] occurs_at(s@, pat@, j),
        decreases i,
    {
        if match_at(s, pat, i) {
            assert(last_occurrence(s@, pat@, i as int));
            proof {
                let w = choose|x: int| last_occurrence(s@, pat@, x);
                assert(last_occurrence(s@, pat@, w));
                if w < i {
                    assert(occurs_at(s@, pat@, i as int));
                } else if w > i {
                    assert(occurs_at(s@, pat@, w));
                }
            }
            return Some(i);
        }
        if i == 0 {
            break;
        }
        i = i - 1;
    }
    assert forall|j: int| !last_occurrence(s@, pat@, j) by {
        if j >= 0 {
            assert(!occurs_at(s@, pat@, j));
        }
    }
    None
}

// ---------------------------------------------------------------------------
// Whitespace-separated words
// ---------------------------------------------------------------------------

/// Scanning state of `split_whitespace`: the finished words and the word
/// being read.
pub open spec fn words_scan(s: Seq<char>) -> (Seq<Seq<char>>, Seq<char>)
    decreases s.len(),
{
    if s.len() == 0 {
        (Seq::empty(), Seq::empty())
    } else {
        let (done, cur) = words_scan(s.drop_last());
        let c = s.last();
        if is_ws(c) {
            if cur.len() > 0 {
                (done.push(cur), Seq::empty())
            } else {
                (done, cur)
            }
        } else {
            (done, cur.push(c))
        }
    }
}

/// `s.split_whitespace()`: the maximal runs of non-whitespace characters.
pub open spec fn words(s: Seq<char>) -> Seq<Seq<char>> {
    let (done, cur) = words_scan(s);
    if cur.len() > 0 {
        done.push(cur)
    } else {
        done
    }
}

/// `s.split_whitespace().collect::<Vec<_>>().join(" ")`.
pub open spec fn normalize_ws(s: Seq<char>) -> Seq<char> {
    join(words(s), seq![' '])
}

/// `split_whitespace` on characters.
pub fn words_exec(s: &[char]) -> (out: Vec<Vec<char>>)
    ensures
        seqs_of(out@) == words(s@),
{
    let mut done: Vec<Vec<char>> = Vec::new();
    let mut cur: Vec<char> = Vec::new();
    let mut i: usize = 0;
    while i < s.len()
        invariant
            i <= s.len(),
            words_scan(s@.take(i as int)) == (seqs_of(done@), cur@),
        decreases s.len() - i,
    {
        let c = s[i];
        assert(s@.take(i + 1).drop_last() =~= s@.take(i as int));
        assert(s@.take(i + 1).last() == c);
        if is_whitespace(c) {
            if cur.len() > 0 {
                let w = cur;
                cur = Vec::new();
                proof {
                    lemma_seqs_of_push(done@, w);
                }
                done.push(w);
            }
        } else {
            cur.push(c);
        }
        i = i + 1;
    }
    assert(s@.take(s.len() as int) =~= s@);
    if cur.len() > 0 {
        proof {
            lemma_seqs_of_push(done@, cur);
        }
        done.push(cur);
    }
    done
}

/// `normalize_ws` on characters.
pub fn normalize_ws_exec(s: &[char]) -> (out: Vec<char>)
    ensures
        out@ == normalize_ws(s@),
{
    let ws = words_exec(s);
    let sep = [' '];
    assert(sep@ =~= seq![' ']);
    join_chars(&ws, &sep)
}

// ---------------------------------------------------------------------------
// Lexicographic order
// ---------------------------------------------------------------------------

/// `a < b` for strings: lexicographic by character, a proper prefix first.
pub open spec fn seq_lt(a: Seq<char>, b: Seq<char>) -> bool
    decreases a.len(),
{
    if a.len() == 0 {
        b.len() > 0
    } else if b.len() == 0 {
        false
    } else if a[0] != b[0] {
        a[0] < b[0]
    } else {
        seq_lt(a.drop_first(), b.drop_first())
    }
}

/// `a < b` on characters.
pub fn chars_lt(a: &[char], b: &[char]) -> (r: bool)
    ensures
        r == seq_lt(a@, b@),
{
    let mut i: usize = 0;
    assert(a@.skip(0) =~= a@);
    assert(b@.skip(0) =~= b@);
    while i < a.len() && i < b.len()
        invariant
            i <= a.len(),
            i <= b.len(),
            seq_lt(a@, b@) == seq_lt(a@.skip(i as int), b@.skip(i as int)),
        decreases a.len() - i,
    {
        if a[i] != b[i] {
            assert(a@.skip(i as int)[0] == a@[i as int]);
            assert(b@.skip(i as int)[0] == b@[i as int]);
            return a[i] < b[i];
        }
        assert(a@.skip(i as int).drop_first() =~= a@.skip(i + 1));
        assert(b@.skip(i as int).drop_first() =~= b@.skip(i + 1));
        i = i + 1;
    }
    i < b.len()
}

/// The strict order on strings is irreflexive and transitive, and any two
/// different strings are ordered one way or the other.
pub proof fn lemma_seq_lt_order(a: Seq<char>, b: Seq<char>, c: Seq<char>)
    ensures
        !seq_lt(a, a),
        seq_lt(a, b) && seq_lt(b, c) ==> seq_lt(a, c),
        a != b ==> seq_lt(a, b) || seq_lt(b, a),
        seq_lt(a, b) ==> !seq_lt(b, a),
    decreases a.len(),
{
    if a.len() > 0 && b.len() > 0 && c.len() > 0 {
        lemma_seq_lt_order(a.drop_first(), b.drop_first(), c.drop_first());
    }
    if a.len() > 0 && b.len() > 0 {
        lemma_seq_lt_order(a.drop_first(), b.drop_first(), b.drop_first());
        if a != b && a[0] == b[0] {
            assert(a.drop_first() != b.drop_first()) by {
                if a.drop_first() == b.drop_first() {
                    assert(a =~= seq![a[0]] + a.drop_first());
                    assert(b =~= seq![b[0]] + b.drop_first());
                }
            }
        }
    }
    if a.len() > 0 {
        lemma_seq_lt_order(a.drop_first(), a.drop_first(), a.drop_first());
    }
    if a.len() == 0 && b.len() == 0 {
        assert(a =~= b);
    }
}

// ---------------------------------------------------------------------------
// Last occurrence of a character
// ---------------------------------------------------------------------------

/// The index of the last `c` in `s`.
pub open spec fn rindex_of(s: Seq<char>, c: char) -> Option<int>
    decreases s.len(),
{
    if s.len() == 0 {
        None
    } else if s.last() == c {
        Some(s.len() - 1)
    } else {
        rindex_of(s.drop_last(), c)
    }
}

/// `str::rfind` with a `char` pattern, as a character index.
pub fn rindex_of_char(s: &[char], c: char) -> (r: Option<usize>)
    ensures
        match r {
            Some(i) => rindex_of(s@, c) == Some(i as int) && i < s.len(),
            None => rindex_of(s@, c) is None,
        },
{
    let mut i: usize = s.len();
    assert(s@.take(i as int) =~= s@);
    while i > 0
        invariant
            i <= s.len(),
            rindex_of(s@, c) == rindex_of(s@.take(i as int), c),
        decreases i,
    {
        assert(s@.take(i as int).drop_last() =~= s@.take(i - 1));
        if s[i - 1] == c {
            return Some(i - 1);
        }
        i = i - 1;
    }
    None
}

// ---------------------------------------------------------------------------
// Splitting at a string pattern
// ---------------------------------------------------------------------------

/// `i` is the first index at which `pat` occurs in `s`.
pub open spec fn first_occurrence(s: Seq<char>, pat: Seq<char>, i: int) -> bool {
    occurs_at(s, pat, i) && forall|j: int| 0 <= j < i ==> !#[trigger] occurs_at(s, pat, j)
}

/// `s.find(pat)`, as a character index.
pub open spec fn find_pat(s: Seq<char>, pat: Seq<char>) -> Option<int> {
    if exists|i: int| first_occurrence(s, pat, i) {
        Some(choose|i: int| first_occurrence(s, pat, i))
    } else {
        None
    }
}

/// `s.find(pat)` on characters.
pub fn find_pat_exec(s: &[char], pat: &[char]) -> (r: Option<usize>)
    ensures
        match r {
            Some(i) => find_pat(s@, pat@) == Some(i as int) && i + pat.len() <= s.len(),
            None => find_pat(s@, pat@) is None,
        },
{
    match find_from(s, pat, 0) {
        Some(i) => {
            assert(first_occurrence(s@, pat@, i as int));
            proof {
                let w = choose|x: int| first_occurrence(s@, pat@, x);
                if w < i {
                    assert(occurs_at(s@, pat@, w));
                } else if w > i {
                    assert(occurs_at(s@, pat@, i as int));
                }
            }
            Some(i)
        },
        None => {
            assert forall|i: int| !first_occurrence(s@, pat@, i) by {
                if 0 <= i {
                    assert(!occurs_at(s@, pat@, i));
                }
            }
            None
        },
    }
}

/// `s.split(pat)` for a non-empty pattern: the parts between the
/// non-overlapping occurrences found left to right.
pub open spec fn split_at_pat(s: Seq<char>, pat: Seq<char>) -> Seq<Seq<char>>
    decreases s.len(),
{
    if pat.len() == 0 {
        seq![s]
    } else {
        match find_pat(s, pat) {
            Some(i) => if 0 <= i && i + pat.len() <= s.len() {
                seq![s.take(i)] + split_at_pat(s.skip(i + pat.len()), pat)
            } else {
                seq![s]
            },
            None => seq![s],
        }
    }
}

// ---------------------------------------------------------------------------
// Trailing characters
// ---------------------------------------------------------------------------

/// `s` without its trailing ASCII digits and whitespace.
pub open spec fn trim_end_digits_ws(s: Seq<char>) -> Seq<char>
    decreases s.len(),
{
    if s.len() > 0 && (is_ascii_digit(s.last()) || is_ws(s.last())) {
        trim_end_digits_ws(s.drop_last())
    } else {
        s
    }
}

/// `s.trim_end_matches(|c| c.is_ascii_digit() || c.is_whitespace())`.
pub fn trim_end_digits_ws_exec(s: &[char]) -> (out: Vec<char>)
    ensures
        out@ == trim_end_digits_ws(s@),
{
    let mut end = s.len();
    assert(s@.take(end as int) =~= s@);
    while end > 0 && (('0' <= s[end - 1] && s[end - 1] <= '9') || is_whitespace(s[end - 1]))
        invariant
            end <= s.len(),
            trim_end_digits_ws(s@) == trim_end_digits_ws(s@.take(end as int)),
        decreases end,
    {
        assert(s@.take(end - 1) =~= s@.take(end as int).drop_last());
        end = end - 1;
    }
    assert(trim_end_digits_ws(s@.take(end as int)) == s@.take(end as int));
    copy_range(s, 0, end)
}

/// `s` without its trailing `c`s.
pub open spec fn trim_end_char(s: Seq<char>, c: char) -> Seq<char>
    decreases s.len(),
{
    if s.len() > 0 && s.last() == c {
        trim_end_char(s.drop_last(), c)
    } else {
        s
    }
}

/// `s.trim_end_matches(c)`.
pub fn trim_end_char_exec(s: &[char], c: char) -> (out: Vec<char>)
    ensures
        out@ == trim_end_char(s@, c),
{
    let mut end = s.len();
    assert(s@.take(end as int) =~= s@);
    while end > 0 && s[end - 1] == c
        invariant
            end <= s.len(),
            trim_end_char(s@, c) == trim_end_char(s@.take(end as int), c),
        decreases end,
    {
        assert(s@.take(end - 1) =~= s@.take(end as int).drop_last());
        end = end - 1;
    }
    assert(trim_end_char(s@.take(end as int), c) == s@.take(end as int));
    copy_range(s, 0, end)
}

/// Every `a` in `s` replaced by `b`.
pub open spec fn replace_char(s: Seq<char>, a: char, b: char) -> Seq<char> {
    s.map_values(|c: char| if c == a { b } else { c })
}

/// `s.replace(a, b)` for characters.
pub fn replace_char_exec(s: &[char], a: char, b: char) -> (out: Vec<char>)
    ensures
        out@ == replace_char(s@, a, b),
{
    let mut out: Vec<char> = Vec::new();
    let mut i: usize = 0;
    while i < s.len()
        invariant
            i <= s.len(),
            out@ == replace_char(s@.take(i as int), a, b),
        decreases s.len() - i,
    {
        let c = s[i];
        out.push(if c == a { b } else { c });
        assert(replace_char(s@.take(i + 1), a, b) =~= replace_char(s@.take(i as int), a, b).push(
            if c == a { b } else { c },
        ));
        i = i + 1;
    }
    assert(s@.take(s.len() as int) =~= s@);
    out
}

// ---------------------------------------------------------------------------
// Digits
// ---------------------------------------------------------------------------

/// The ASCII digits of `s`, in order.
pub open spec fn ascii_digits(s: Seq<char>) -> Seq<char>
    decreases s.len(),
{
    if s.len() == 0 {
        Seq::empty()
    } else if is_ascii_digit(s.last()) {
        ascii_digits(s.drop_last()).push(s.last())
    } else {
        ascii_digits(s.drop_last())
    }
}

pub fn ascii_digits_exec(s: &[char]) -> (out: Vec<char>)
    ensures
        out@ == ascii_digits(s@),
{
    let mut out: Vec<char> = Vec::new();
    let mut i: usize = 0;
    while i < s.len()
        invariant
            i <= s.len(),
            out@ == ascii_digits(s@.take(i as int)),
        decreases s.len() - i,
    {
        assert(s@.take(i + 1).drop_last() =~= s@.take(i as int));
        if '0' <= s[i] && s[i] <= '9' {
            out.push(s[i]);
        }
        i = i + 1;
    }
    assert(s@.take(s.len() as int) =~= s@);
    out
}

} // verus!
