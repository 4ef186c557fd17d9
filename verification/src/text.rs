//! Character-level text model shared by every parser of the library.
//!
//! Text is handled as a sequence of `char`s.  The spec functions here give the
//! meaning of the usual string operations (`lines`, `trim`, `contains`, `join`,
//! ...) over `Seq<char>`, and the executable functions compute them on
//! `Vec<char>` / `&[char]`.
use vstd::prelude::*;

verus! {

// ---------------------------------------------------------------------------
// Character classes
// ---------------------------------------------------------------------------

/// Unicode `White_Space`, the set that `char::is_whitespace` tests.
pub open spec fn is_ws(c: char) -> bool {
    ||| ('\u{9}' <= c && c <= '\u{D}')
    ||| c == ' '
    ||| c == '\u{85}'
    ||| c == '\u{A0}'
    ||| c == '\u{1680}'
    ||| ('\u{2000}' <= c && c <= '\u{200A}')
    ||| c == '\u{2028}'
    ||| c == '\u{2029}'
    ||| c == '\u{202F}'
    ||| c == '\u{205F}'
    ||| c == '\u{3000}'
}

/// `char::is_whitespace`.
pub fn is_whitespace(c: char) -> (b: bool)
    ensures
        b == is_ws(c),
{
    ('\u{9}' <= c && c <= '\u{D}') || c == ' ' || c == '\u{85}' || c == '\u{A0}' || c
        == '\u{1680}' || ('\u{2000}' <= c && c <= '\u{200A}') || c == '\u{2028}' || c
        == '\u{2029}' || c == '\u{202F}' || c == '\u{205F}' || c == '\u{3000}'
}

/// ASCII decimal digit `0`..`9`.
pub open spec fn is_ascii_digit(c: char) -> bool {
    '0' <= c && c <= '9'
}

/// Full-width decimal digit `０`..`９`.
pub open spec fn is_wide_digit(c: char) -> bool {
    '０' <= c && c <= '９'
}

// ---------------------------------------------------------------------------
// Conversions between `str`/`String` and `Vec<char>`
// ---------------------------------------------------------------------------

/// The characters of a string slice, in order.
pub fn chars_of(s: &str) -> (out: Vec<char>)
    ensures
        out@ == s@,
{
    let mut out: Vec<char> = Vec::new();
    for c in it: s.chars()
        invariant
            out@ == it.seq().take(it.index() as int),
    {
        out.push(c);
    }
    proof {
        vstd::string::axiom_spec_iter(s);
    }
    out
}

/// Appends one character to a `String` (`String::push`).
#[verifier::external_body]
fn push_char(s: &mut String, c: char)
    ensures
        final(s)@ == old(s)@.push(c),
{
    s.push(c);
}

/// Builds a `String` holding exactly the given characters.
pub fn string_of(cs: &[char]) -> (out: String)
    ensures
        out@ == cs@,
{
    let mut out = String::new();
    let mut i: usize = 0;
    while i < cs.len()
        invariant
            i <= cs.len(),
            out@ == cs@.take(i as int),
        decreases cs.len() - i,
    {
        push_char(&mut out, cs[i]);
        assert(cs@.take(i + 1) =~= cs@.take(i as int).push(cs@[i as int]));
        i = i + 1;
    }
    assert(cs@.take(cs.len() as int) =~= cs@);
    out
}

/// A copy of `s[a..b]`.
pub fn copy_range(s: &[char], a: usize, b: usize) -> (out: Vec<char>)
    requires
        a <= b <= s.len(),
    ensures
        out@ == s@.subrange(a as int, b as int),
{
    let mut out: Vec<char> = Vec::new();
    let mut i = a;
    while i < b
        invariant
            a <= i <= b <= s.len(),
            out@ == s@.subrange(a as int, i as int),
        decreases b - i,
    {
        out.push(s[i]);
        assert(s@.subrange(a as int, i + 1) =~= s@.subrange(a as int, i as int).push(s@[i as int]));
        i = i + 1;
    }
    out
}

/// Appends a copy of `b` to `a`.
pub fn append_chars(a: &mut Vec<char>, b: &[char])
    ensures
        final(a)@ == old(a)@ + b@,
{
    let mut i: usize = 0;
    while i < b.len()
        invariant
            i <= b.len(),
            a@ == old(a)@ + b@.take(i as int),
        decreases b.len() - i,
    {
        a.push(b[i]);
        assert(b@.take(i + 1) =~= b@.take(i as int).push(b@[i as int]));
        i = i + 1;
    }
    assert(b@.take(b.len() as int) =~= b@);
}

/// Character-wise equality of two slices.
pub fn chars_eq(a: &[char], b: &[char]) -> (r: bool)
    ensures
        r == (a@ == b@),
{
    if a.len() != b.len() {
        return false;
    }
    let mut i: usize = 0;
    while i < a.len()
        invariant
            i <= a.len() == b.len(),
            a@.take(i as int) == b@.take(i as int),
        decreases a.len() - i,
    {
        if a[i] != b[i] {
            assert(a@[i as int] != b@[i as int]);
            return false;
        }
        assert(a@.take(i + 1) =~= a@.take(i as int).push(a@[i as int]));
        assert(b@.take(i + 1) =~= b@.take(i as int).push(b@[i as int]));
        i = i + 1;
    }
    assert(a@.take(a.len() as int) =~= a@);
    assert(b@.take(b.len() as int) =~= b@);
    true
}

/// The views of a sequence of character vectors.
pub open spec fn seqs_of(v: Seq<Vec<char>>) -> Seq<Seq<char>> {
    Seq::new(v.len(), |i: int| v[i]@)
}

pub proof fn lemma_seqs_of_push(v: Seq<Vec<char>>, x: Vec<char>)
    ensures
        seqs_of(v.push(x)) == seqs_of(v).push(x@),
{
    assert(seqs_of(v.push(x)) =~= seqs_of(v).push(x@));
}

// ---------------------------------------------------------------------------
// Trimming
// ---------------------------------------------------------------------------

/// `str::trim_start`: drops leading whitespace.
pub open spec fn trim_start(s: Seq<char>) -> Seq<char>
    decreases s.len(),
{
    if s.len() > 0 && is_ws(s[0]) {
        trim_start(s.drop_first())
    } else {
        s
    }
}

/// `str::trim_end`: drops trailing whitespace.
pub open spec fn trim_end(s: Seq<char>) -> Seq<char>
    decreases s.len(),
{
    if s.len() > 0 && is_ws(s.last()) {
        trim_end(s.drop_last())
    } else {
        s
    }
}

/// `str::trim`.
pub open spec fn trim(s: Seq<char>) -> Seq<char> {
    trim_end(trim_start(s))
}

/// Index of the first non-whitespace character of `s[lo..]`, or `s.len()`.
fn skip_ws_forward(s: &[char], lo: usize) -> (i: usize)
    requires
        lo <= s.len(),
    ensures
        lo <= i <= s.len(),
        trim_start(s@.skip(lo as int)) == s@.skip(i as int),
{
    let mut i = lo;
    while i < s.len() && is_whitespace(s[i])
        invariant
            lo <= i <= s.len(),
            trim_start(s@.skip(lo as int)) == trim_start(s@.skip(i as int)),
        decreases s.len() - i,
    {
        assert(s@.skip(i as int).drop_first() =~= s@.skip(i + 1));
        i = i + 1;
    }
    i
}

/// End index of `trim_end(s[lo..hi])`.
fn skip_ws_backward(s: &[char], lo: usize, hi: usize) -> (j: usize)
    requires
        lo <= hi <= s.len(),
    ensures
        lo <= j <= hi,
        trim_end(s@.subrange(lo as int, hi as int)) == s@.subrange(lo as int, j as int),
{
    let mut j = hi;
    while j > lo && is_whitespace(s[j - 1])
        invariant
            lo <= j <= hi <= s.len(),
            trim_end(s@.subrange(lo as int, hi as int)) == trim_end(
                s@.subrange(lo as int, j as int),
            ),
        decreases j - lo,
    {
        assert(s@.subrange(lo as int, j as int).drop_last() =~= s@.subrange(
            lo as int,
            j - 1,
        ));
        j = j - 1;
    }
    j
}

/// `str::trim_start` on characters.
pub fn trim_start_chars(s: &[char]) -> (out: Vec<char>)
    ensures
        out@ == trim_start(s@),
{
    let i = skip_ws_forward(s, 0);
    assert(s@.skip(0) =~= s@);
    copy_range(s, i, s.len())
}

/// `str::trim_end` on characters.
pub fn trim_end_chars(s: &[char]) -> (out: Vec<char>)
    ensures
        out@ == trim_end(s@),
{
    let j = skip_ws_backward(s, 0, s.len());
    assert(s@.subrange(0, s.len() as int) =~= s@);
    copy_range(s, 0, j)
}

/// `str::trim` on characters.
pub fn trim_chars(s: &[char]) -> (out: Vec<char>)
    ensures
        out@ == trim(s@),
{
    let i = skip_ws_forward(s, 0);
    assert(s@.skip(0) =~= s@);
    assert(s@.skip(i as int) =~= s@.subrange(i as int, s.len() as int));
    let j = skip_ws_backward(s, i, s.len());
    copy_range(s, i, j)
}

/// Whether `trim(s)` is empty, i.e. `s` is whitespace only.
pub open spec fn is_blank(s: Seq<char>) -> bool {
    trim(s).len() == 0
}

pub proof fn lemma_trim_start_empty(s: Seq<char>)
    ensures
        trim_start(s).len() == 0 <==> (forall|i: int| 0 <= i < s.len() ==> is_ws(#[trigger] s[i])),
    decreases s.len(),
{
    if s.len() > 0 && is_ws(s[0]) {
        lemma_trim_start_empty(s.drop_first());
        assert forall|i: int| 0 <= i < s.len() && (forall|k: int| 0 <= k < s.drop_first().len() ==> is_ws(#[trigger] s.drop_first()[k])) implies is_ws(s[i]) by {
            if i > 0 {
                assert(s[i] == s.drop_first()[i - 1]);
            }
        }
    }
}

pub proof fn lemma_trim_end_empty(s: Seq<char>)
    ensures
        trim_end(s).len() == 0 <==> (forall|i: int| 0 <= i < s.len() ==> is_ws(#[trigger] s[i])),
    decreases s.len(),
{
    if s.len() > 0 && is_ws(s.last()) {
        lemma_trim_end_empty(s.drop_last());
        assert forall|i: int| 0 <= i < s.len() && (forall|k: int| 0 <= k < s.drop_last().len() ==> is_ws(#[trigger] s.drop_last()[k])) implies is_ws(s[i]) by {
            if i < s.len() - 1 {
                assert(s[i] == s.drop_last()[i]);
            }
        }
    }
}

/// `s` is blank exactly when every character is whitespace.
pub proof fn lemma_blank_iff_all_ws(s: Seq<char>)
    ensures
        is_blank(s) <==> (forall|i: int| 0 <= i < s.len() ==> is_ws(#[trigger] s[i])),
{
    lemma_trim_start_empty(s);
    lemma_trim_start_suffix(s);
    lemma_trim_end_empty(trim_start(s));
    let t = trim_start(s);
    if is_blank(s) {
        // every char of t is ws, and t's first char (if any) is not ws
        if t.len() > 0 {
            assert(is_ws(t[0]));
        }
    }
}

/// `trim_start(s)` is a suffix of `s`, preceded only by whitespace, and does not
/// start with whitespace.
pub proof fn lemma_trim_start_suffix(s: Seq<char>)
    ensures
        trim_start(s).len() <= s.len(),
        trim_start(s) == s.skip(s.len() - trim_start(s).len()),
        forall|i: int| 0 <= i < s.len() - trim_start(s).len() ==> is_ws(#[trigger] s[i]),
        trim_start(s).len() > 0 ==> !is_ws(trim_start(s)[0]),
    decreases s.len(),
{
    if s.len() > 0 && is_ws(s[0]) {
        lemma_trim_start_suffix(s.drop_first());
        let t = trim_start(s.drop_first());
        assert(s.drop_first().skip(s.drop_first().len() - t.len()) =~= s.skip(
            s.len() - t.len(),
        ));
        assert forall|i: int| 0 <= i < s.len() - t.len() implies is_ws(#[trigger] s[i]) by {
            if i > 0 {
                assert(s[i] == s.drop_first()[i - 1]);
            }
        }
    } else {
        assert(s.skip(0) =~= s);
    }
}

/// Fast exec test for blankness.
pub fn is_blank_chars(s: &[char]) -> (b: bool)
    ensures
        b == is_blank(s@),
{
    let mut i: usize = 0;
    while i < s.len()
        invariant
            i <= s.len(),
            forall|k: int| 0 <= k < i ==> is_ws(#[trigger] s@[k]),
        decreases s.len() - i,
    {
        if !is_whitespace(s[i]) {
            proof {
                lemma_blank_iff_all_ws(s@);
            }
            return false;
        }
        i = i + 1;
    }
    proof {
        lemma_blank_iff_all_ws(s@);
    }
    true
}

// ---------------------------------------------------------------------------
// Substring search
// ---------------------------------------------------------------------------

/// `pat` occurs in `s` starting at character index `i`.
pub open spec fn occurs_at(s: Seq<char>, pat: Seq<char>, i: int) -> bool {
    0 <= i && i + pat.len() <= s.len() && s.subrange(i, i + pat.len()) == pat
}

/// `str::contains` with a string pattern.
pub open spec fn contains(s: Seq<char>, pat: Seq<char>) -> bool {
    exists|i: int| #[trigger] occurs_at(s, pat, i)
}

/// `str::starts_with`.
pub open spec fn starts_with(s: Seq<char>, pat: Seq<char>) -> bool {
    pat.len() <= s.len() && s.take(pat.len() as int) == pat
}

/// `str::ends_with`.
pub open spec fn ends_with(s: Seq<char>, pat: Seq<char>) -> bool {
    pat.len() <= s.len() && s.skip(s.len() - pat.len()) == pat
}

/// Whether `pat` occurs in `s` at index `i`.
pub fn match_at(s: &[char], pat: &[char], i: usize) -> (r: bool)
    ensures
        r == occurs_at(s@, pat@, i as int),
{
    if i > s.len() || pat.len() > s.len() - i {
        return false;
    }
    let mut k: usize = 0;
    while k < pat.len()
        invariant
            i + pat.len() <= s.len(),
            k <= pat.len(),
            forall|m: int| 0 <= m < k ==> s@[i + m] == pat@[m],
        decreases pat.len() - k,
    {
        if s[i + k] != pat[k] {
            assert(s@.subrange(i as int, i + pat.len())[k as int] != pat@[k as int]);
            return false;
        }
        k = k + 1;
    }
    assert(s@.subrange(i as int, i + pat.len()) =~= pat@);
    true
}

/// First index at or after `from` where `pat` occurs.
pub fn find_from(s: &[char], pat: &[char], from: usize) -> (r: Option<usize>)
    ensures
        match r {
            Some(i) => from <= i && occurs_at(s@, pat@, i as int) && forall|j: int|
                from <= j < i ==> !#[trigger] occurs_at(s@, pat@, j),
            None => forall|j: int| from <= j ==> !#[trigger] occurs_at(s@, pat@, j),
        },
{
    if from > s.len() {
        return None;
    }
    let mut i = from;
    while i < s.len()
        invariant
            from <= i <= s.len(),
            forall|j: int| from <= j < i ==> !#[trigger] occurs_at(s@, pat@, j),
        decreases s.len() - i,
    {
        if match_at(s, pat, i) {
            return Some(i);
        }
        i = i + 1;
    }
    if match_at(s, pat, i) {
        return Some(i);
    }
    None
}

/// `str::contains`.
pub fn contains_chars(s: &[char], pat: &[char]) -> (r: bool)
    ensures
        r == contains(s@, pat@),
{
    match find_from(s, pat, 0) {
        Some(i) => true,
        None => false,
    }
}

/// `str::starts_with`.
pub fn starts_with_chars(s: &[char], pat: &[char]) -> (r: bool)
    ensures
        r == starts_with(s@, pat@),
{
    let r = match_at(s, pat, 0);
    proof {
        if pat@.len() <= s@.len() {
            assert(s@.subrange(0, pat@.len() as int) =~= s@.take(pat@.len() as int));
        }
    }
    r
}

/// `str::ends_with`.
pub fn ends_with_chars(s: &[char], pat: &[char]) -> (r: bool)
    ensures
        r == ends_with(s@, pat@),
{
    if pat.len() > s.len() {
        return false;
    }
    let r = match_at(s, pat, s.len() - pat.len());
    assert(s@.subrange(s.len() - pat.len(), s.len() as int) =~= s@.skip(s.len() - pat.len()));
    r
}

/// Index of the first occurrence of `c` in `s`, if any.
pub open spec fn first_index_of(s: Seq<char>, c: char, i: int) -> bool {
    0 <= i < s.len() && s[i] == c && forall|j: int| 0 <= j < i ==> s[j] != c
}

/// `str::find` with a `char` pattern, as a character index.
pub fn find_char(s: &[char], c: char) -> (r: Option<usize>)
    ensures
        match r {
            Some(i) => first_index_of(s@, c, i as int),
            None => forall|j: int| 0 <= j < s.len() ==> s@[j] != c,
        },
{
    let mut i: usize = 0;
    while i < s.len()
        invariant
            i <= s.len(),
            forall|j: int| 0 <= j < i ==> s@[j] != c,
        decreases s.len() - i,
    {
        if s[i] == c {
            return Some(i);
        }
        i = i + 1;
    }
    None
}

/// Index of the last occurrence of `c` in `s`, if any.
pub open spec fn last_index_of(s: Seq<char>, c: char, i: int) -> bool {
    0 <= i < s.len() && s[i] == c && forall|j: int| i < j < s.len() ==> s[j] != c
}

/// `str::rfind` with a `char` pattern, as a character index.
pub fn rfind_char(s: &[char], c: char) -> (r: Option<usize>)
    ensures
        match r {
            Some(i) => last_index_of(s@, c, i as int),
            None => forall|j: int| 0 <= j < s.len() ==> s@[j] != c,
        },
{
    let mut i: usize = s.len();
    while i > 0
        invariant
            i <= s.len(),
            forall|j: int| i <= j < s.len() ==> s@[j] != c,
        decreases i,
    {
        if s[i - 1] == c {
            return Some(i - 1);
        }
        i = i - 1;
    }
    None
}

// ---------------------------------------------------------------------------
// Lines
// ---------------------------------------------------------------------------

/// Splits `s` at every `'\n'`; always at least one (possibly empty) part.
pub open spec fn split_nl(s: Seq<char>) -> Seq<Seq<char>>
    decreases s.len(),
{
    if s.len() == 0 {
        seq![Seq::<char>::empty()]
    } else {
        let p = split_nl(s.drop_last());
        if s.last() == '\n' {
            p.push(Seq::<char>::empty())
        } else {
            p.update(p.len() - 1, p.last().push(s.last()))
        }
    }
}

pub proof fn lemma_split_nl_nonempty(s: Seq<char>)
    ensures
        split_nl(s).len() >= 1,
    decreases s.len(),
{
    if s.len() > 0 {
        lemma_split_nl_nonempty(s.drop_last());
    }
}

/// Drops one trailing `'\r'` (the `\r` of a `\r\n` line ending).
pub open spec fn strip_cr(l: Seq<char>) -> Seq<char> {
    if l.len() > 0 && l.last() == '\r' {
        l.drop_last()
    } else {
        l
    }
}

/// `str::lines`: the `'\n'`-terminated parts with a `"\r\n"` ending removed,
/// then the final unterminated part when it is not empty.
pub open spec fn lines(s: Seq<char>) -> Seq<Seq<char>> {
    let p = split_nl(s);
    let init = p.drop_last().map_values(|l: Seq<char>| strip_cr(l));
    if p.last().len() == 0 {
        init
    } else {
        init.push(p.last())
    }
}

/// `str::lines` on characters.
pub fn split_lines(s: &[char]) -> (out: Vec<Vec<char>>)
    ensures
        seqs_of(out@) == lines(s@),
{
    let mut parts: Vec<Vec<char>> = Vec::new();
    let mut cur: Vec<char> = Vec::new();
    let ghost mut raw: Seq<Seq<char>> = Seq::empty();
    let mut i: usize = 0;
    while i < s.len()
        invariant
            i <= s.len(),
            split_nl(s@.take(i as int)) == raw.push(cur@),
            seqs_of(parts@) == raw.map_values(|l: Seq<char>| strip_cr(l)),
        decreases s.len() - i,
    {
        let c = s[i];
        assert(s@.take(i + 1).drop_last() =~= s@.take(i as int));
        assert(s@.take(i + 1).last() == c);
        if c == '\n' {
            let ghost old_cur = cur@;
            if cur.len() > 0 && cur[cur.len() - 1] == '\r' {
                cur.pop();
            }
            assert(cur@ == strip_cr(old_cur));
            let done = cur;
            cur = Vec::new();
            proof {
                lemma_seqs_of_push(parts@, done);
            }
            parts.push(done);
            proof {
                assert(raw.push(old_cur).map_values(|l: Seq<char>| strip_cr(l)) =~= raw.map_values(
                    |l: Seq<char>| strip_cr(l),
                ).push(strip_cr(old_cur)));
                raw = raw.push(old_cur);
                assert(split_nl(s@.take(i + 1)) =~= raw.push(cur@));
            }
        } else {
            let ghost old_cur = cur@;
            cur.push(c);
            assert(split_nl(s@.take(i + 1)) =~= raw.push(cur@));
        }
        i = i + 1;
    }
    assert(s@.take(s.len() as int) =~= s@);
    assert(split_nl(s@).drop_last() =~= raw);
    if cur.len() > 0 {
        proof {
            lemma_seqs_of_push(parts@, cur);
        }
        parts.push(cur);
    }
    parts
}

// ---------------------------------------------------------------------------
// Joining
// ---------------------------------------------------------------------------

/// `[..].join(sep)` on character sequences.
pub open spec fn join(parts: Seq<Seq<char>>, sep: Seq<char>) -> Seq<char>
    decreases parts.len(),
{
    if parts.len() == 0 {
        Seq::empty()
    } else if parts.len() == 1 {
        parts[0]
    } else {
        join(parts.drop_last(), sep) + sep + parts.last()
    }
}

/// The newline character as a one-element sequence.
pub open spec fn nl() -> Seq<char> {
    seq!['\n']
}

/// `parts.join(sep)`.
pub fn join_chars(parts: &Vec<Vec<char>>, sep: &[char]) -> (out: Vec<char>)
    ensures
        out@ == join(seqs_of(parts@), sep@),
{
    let mut out: Vec<char> = Vec::new();
    let mut i: usize = 0;
    while i < parts.len()
        invariant
            i <= parts.len(),
            out@ == join(seqs_of(parts@).take(i as int), sep@),
        decreases parts.len() - i,
    {
        let ghost prev = seqs_of(parts@).take(i as int);
        assert(seqs_of(parts@).take(i + 1).drop_last() =~= prev);
        if i > 0 {
            append_chars(&mut out, sep);
        }
        append_chars(&mut out, &parts[i]);
        proof {
            if i == 0 {
                assert(seqs_of(parts@).take(1) =~= seq![parts@[0]@]);
            }
        }
        i = i + 1;
    }
    assert(seqs_of(parts@).take(parts.len() as int) =~= seqs_of(parts@));
    out
}

/// Joins with `'\n'`.
pub fn join_lines(parts: &Vec<Vec<char>>) -> (out: Vec<char>)
    ensures
        out@ == join(seqs_of(parts@), nl()),
{
    let sep = ['\n'];
    assert(sep@ =~= nl());
    join_chars(parts, &sep)
}

} // verus!

verus! {

/// The views of a sequence of `String`s.
pub open spec fn strings_of(v: Seq<String>) -> Seq<Seq<char>> {
    Seq::new(v.len(), |i: int| v[i]@)
}

pub proof fn lemma_strings_of_push(v: Seq<String>, x: String)
    ensures
        strings_of(v.push(x)) == strings_of(v).push(x@),
{
    assert(strings_of(v.push(x)) =~= strings_of(v).push(x@));
}

/// Whether some line of `ls` equals `label` once trimmed.
pub open spec fn has_trimmed_line(ls: Seq<Seq<char>>, label: Seq<char>) -> bool {
    exists|i: int| 0 <= i < ls.len() && #[trigger] trim(ls[i]) == label
}

/// Whether some line of `ls` equals `label` once trimmed.
pub fn has_trimmed_line_exec(ls: &Vec<Vec<char>>, label: &[char]) -> (b: bool)
    ensures
        b == has_trimmed_line(seqs_of(ls@), label@),
{
    let mut i: usize = 0;
    while i < ls.len()
        invariant
            i <= ls.len(),
            forall|k: int| 0 <= k < i ==> #[trigger] trim(seqs_of(ls@)[k]) != label@,
        decreases ls.len() - i,
    {
        let t = trim_chars(&ls[i]);
        if chars_eq(&t, label) {
            assert(trim(seqs_of(ls@)[i as int]) == label@);
            return true;
        }
        i = i + 1;
    }
    false
}

/// A copy of a line list.
pub fn copy_lines(ls: &Vec<Vec<char>>, a: usize, b: usize) -> (out: Vec<Vec<char>>)
    requires
        a <= b <= ls.len(),
    ensures
        seqs_of(out@) == seqs_of(ls@).subrange(a as int, b as int),
{
    let mut out: Vec<Vec<char>> = Vec::new();
    let mut i = a;
    while i < b
        invariant
            a <= i <= b <= ls.len(),
            seqs_of(out@) == seqs_of(ls@).subrange(a as int, i as int),
        decreases b - i,
    {
        let l = copy_range(&ls[i], 0, ls[i].len());
        assert(ls@[i as int]@.subrange(0, ls@[i as int]@.len() as int) =~= ls@[i as int]@);
        proof {
            lemma_seqs_of_push(out@, l);
        }
        out.push(l);
        assert(seqs_of(ls@).subrange(a as int, i + 1) =~= seqs_of(ls@).subrange(
            a as int,
            i as int,
        ).push(ls@[i as int]@));
        i = i + 1;
    }
    out
}

} // verus!

verus! {

/// The characters of an optional string.
pub open spec fn opt_view(o: Option<String>) -> Option<Seq<char>> {
    match o {
        Some(s) => Some(s@),
        None => None,
    }
}

/// A copy of an optional string.
pub fn copy_opt(o: &Option<String>) -> (r: Option<String>)
    ensures
        opt_view(r) == opt_view(*o),
{
    match o {
        Some(s) => Some(s.clone()),
        None => None,
    }
}

/// Equality of two optional strings by their characters.
pub fn opt_eq(a: &Option<String>, b: &Option<String>) -> (r: bool)
    ensures
        r == (opt_view(*a) == opt_view(*b)),
{
    match (a, b) {
        (Some(x), Some(y)) => *x == *y,
        (None, None) => true,
        _ => false,
    }
}

/// A copy of a string.
pub fn copy_string(s: &String) -> (r: String)
    ensures
        r@ == s@,
{
    s.clone()
}

/// No line break in `s`.
pub open spec fn no_newline(s: Seq<char>) -> bool {
    forall|i: int| 0 <= i < s.len() ==> #[trigger] s[i] != '\n'
}

/// Appending text without a line break extends the last part.
proof fn lemma_split_nl_append(x: Seq<char>, y: Seq<char>)
    requires
        no_newline(y),
    ensures
        split_nl(x + y) == split_nl(x).update(split_nl(x).len() - 1, split_nl(x).last() + y),
    decreases y.len(),
{
    lemma_split_nl_nonempty(x);
    if y.len() == 0 {
        assert(x + y =~= x);
        assert(split_nl(x).last() + y =~= split_nl(x).last());
        assert(split_nl(x).update(split_nl(x).len() - 1, split_nl(x).last()) =~= split_nl(x));
    } else {
        let y0 = y.drop_last();
        assert forall|i: int| 0 <= i < y0.len() implies #[trigger] y0[i] != '\n' by {
            assert(y0[i] == y[i]);
        }
        lemma_split_nl_append(x, y0);
        assert((x + y).drop_last() =~= x + y0);
        assert((x + y).last() == y.last());
        assert(y.last() != '\n') by {
            assert(y[y.len() - 1] != '\n');
        }
        let p = split_nl(x);
        let q = split_nl(x + y0);
        assert(q == p.update(p.len() - 1, p.last() + y0));
        assert(q.len() == p.len());
        assert(q.last() == p.last() + y0);
        assert(split_nl(x + y) == q.update(q.len() - 1, q.last().push(y.last())));
        assert((p.last() + y0).push(y.last()) =~= p.last() + y);
        assert(split_nl(x + y) =~= p.update(p.len() - 1, p.last() + y));
    }
}

/// Splitting lines joined by line breaks at the line breaks gives the
/// lines back.
pub proof fn lemma_split_nl_join(ls: Seq<Seq<char>>)
    requires
        ls.len() > 0,
        forall|i: int| 0 <= i < ls.len() ==> no_newline(#[trigger] ls[i]),
    ensures
        split_nl(join(ls, nl())) == ls,
    decreases ls.len(),
{
    if ls.len() == 1 {
        lemma_split_nl_append(Seq::empty(), ls[0]);
        assert(Seq::<char>::empty() + ls[0] =~= ls[0]);
        assert(split_nl(Seq::<char>::empty()) =~= seq![Seq::<char>::empty()]);
        assert(Seq::<char>::empty() + ls[0] =~= ls[0]);
        assert(split_nl(join(ls, nl())) =~= ls);
    } else {
        let init = ls.drop_last();
        assert forall|i: int| 0 <= i < init.len() implies no_newline(#[trigger] init[i]) by {
            assert(init[i] == ls[i]);
        }
        lemma_split_nl_join(init);
        let x = join(init, nl()) + nl();
        assert(x.drop_last() =~= join(init, nl()));
        assert(x.last() == '\n');
        assert(split_nl(x) == init.push(Seq::<char>::empty()));
        assert(no_newline(ls.last()));
        lemma_split_nl_append(x, ls.last());
        assert(Seq::<char>::empty() + ls.last() =~= ls.last());
        assert(join(ls, nl()) == x + ls.last());
        assert(split_nl(join(ls, nl())) =~= ls);
    }
}

/// The first character of lines joined is that of the first line.
pub proof fn lemma_join_ends(ls: Seq<Seq<char>>)
    requires
        ls.len() > 0,
        ls[0].len() > 0,
        ls.last().len() > 0,
    ensures
        join(ls, nl()).len() > 0,
        join(ls, nl())[0] == ls[0][0],
        join(ls, nl()).last() == ls.last().last(),
    decreases ls.len(),
{
    if ls.len() > 1 {
        let init = ls.drop_last();
        if init.len() > 1 {
            assert(init[0] == ls[0]);
            lemma_join_first(init);
        }
        let j = join(init, nl());
        assert(join(ls, nl()) == j + nl() + ls.last());
        if init.len() == 1 {
            assert(j == ls[0]);
        }
        assert((j + nl() + ls.last())[0] == j[0]);
    }
}

/// The first character of lines joined is that of the first line.
proof fn lemma_join_first(ls: Seq<Seq<char>>)
    requires
        ls.len() > 0,
        ls[0].len() > 0,
    ensures
        join(ls, nl()).len() > 0,
        join(ls, nl())[0] == ls[0][0],
    decreases ls.len(),
{
    if ls.len() > 1 {
        let init = ls.drop_last();
        assert(init[0] == ls[0]);
        lemma_join_first(init);
        let j = join(init, nl());
        assert((j + nl() + ls.last())[0] == j[0]);
    }
}

/// A text that neither starts nor ends with white space is its own trim.
pub proof fn lemma_trim_unchanged(s: Seq<char>)
    requires
        s.len() > 0,
        !is_ws(s[0]),
        !is_ws(s.last()),
    ensures
        trim(s) == s,
{
    assert(trim_start(s) == s);
    assert(trim_end(s) == s);
}

/// No carriage return in `s`.
pub open spec fn no_cr(s: Seq<char>) -> bool {
    forall|i: int| 0 <= i < s.len() ==> #[trigger] s[i] != '\r'
}

/// The lines of several texts: the line-break parts of each, in order.
pub open spec fn split_all(ts: Seq<Seq<char>>) -> Seq<Seq<char>>
    decreases ts.len(),
{
    if ts.len() == 0 {
        Seq::empty()
    } else {
        split_all(ts.drop_last()) + split_nl(ts.last())
    }
}

/// Splitting at line breaks distributes over a joining line break.
pub proof fn lemma_split_nl_concat(x: Seq<char>, y: Seq<char>)
    ensures
        split_nl(x + nl() + y) == split_nl(x) + split_nl(y),
    decreases y.len(),
{
    if y.len() == 0 {
        assert(x + nl() + y =~= x + nl());
        assert((x + nl()).drop_last() =~= x);
        assert(split_nl(x) + split_nl(y) =~= split_nl(x).push(Seq::<char>::empty()));
    } else {
        let y0 = y.drop_last();
        lemma_split_nl_concat(x, y0);
        lemma_split_nl_nonempty(y0);
        assert((x + nl() + y).drop_last() =~= x + nl() + y0);
        assert((x + nl() + y).last() == y.last());
        let a = split_nl(x);
        let b = split_nl(y0);
        if y.last() == '\n' {
            assert(split_nl(y) == b.push(Seq::<char>::empty()));
            assert((a + b).push(Seq::<char>::empty()) =~= a + b.push(Seq::<char>::empty()));
        } else {
            assert(split_nl(y) == b.update(b.len() - 1, b.last().push(y.last())));
            assert((a + b).last() == b.last());
            assert((a + b).update((a + b).len() - 1, b.last().push(y.last())) =~= a + b.update(b.len() - 1, b.last().push(y.last())));
        }
    }
}

/// The lines of texts joined by line breaks are the lines of each.
pub proof fn lemma_split_nl_join_all(ts: Seq<Seq<char>>)
    requires
        ts.len() > 0,
    ensures
        split_nl(join(ts, nl())) == split_all(ts),
    decreases ts.len(),
{
    if ts.len() == 1 {
        assert(ts.drop_last() =~= Seq::<Seq<char>>::empty());
        assert(split_all(ts.drop_last()) == Seq::<Seq<char>>::empty());
        assert(ts.last() == ts[0]);
        assert(split_all(ts) =~= split_nl(ts[0]));
    } else {
        lemma_split_nl_join_all(ts.drop_last());
        lemma_split_nl_concat(join(ts.drop_last(), nl()), ts.last());
    }
}

/// Joining the lines of a text by line breaks gives the text back.
pub proof fn lemma_join_split_nl(t: Seq<char>)
    ensures
        join(split_nl(t), nl()) == t,
    decreases t.len(),
{
    lemma_split_nl_nonempty(t);
    if t.len() == 0 {
        assert(join(split_nl(t), nl()) =~= t);
    } else {
        let t0 = t.drop_last();
        lemma_join_split_nl(t0);
        lemma_split_nl_nonempty(t0);
        let p = split_nl(t0);
        assert(t0.push(t.last()) =~= t);
        if t.last() == '\n' {
            assert(split_nl(t) == p.push(Seq::<char>::empty()));
            assert(p.push(Seq::<char>::empty()).drop_last() =~= p);
            assert(join(split_nl(t), nl()) == join(p, nl()) + nl() + Seq::<char>::empty());
            assert(t0 + nl() + Seq::<char>::empty() =~= t);
        } else {
            let q = p.update(p.len() - 1, p.last().push(t.last()));
            assert(split_nl(t) == q);
            if p.len() == 1 {
                assert(join(q, nl()) == q[0]);
                assert(join(p, nl()) == p[0]);
                assert(q[0] =~= p[0].push(t.last()));
            } else {
                assert(q.drop_last() =~= p.drop_last());
                assert(join(q, nl()) == join(p.drop_last(), nl()) + nl() + p.last().push(t.last()));
                assert(join(p, nl()) == join(p.drop_last(), nl()) + nl() + p.last());
                assert(join(p.drop_last(), nl()) + nl() + p.last().push(t.last()) =~= (join(p.drop_last(), nl()) + nl() + p.last()).push(t.last()));
            }
        }
    }
}

/// The lines of a text hold no line break, and no carriage return when
/// the text holds none; the last line ends as the text does.
pub proof fn lemma_split_nl_parts(t: Seq<char>)
    ensures
        split_nl(t).len() >= 1,
        forall|q: int| 0 <= q < split_nl(t).len() ==> no_newline(#[trigger] split_nl(t)[q]),
        no_cr(t) ==> forall|q: int| 0 <= q < split_nl(t).len() ==> no_cr(#[trigger] split_nl(t)[q]),
        t.len() > 0 && t.last() != '\n' ==> split_nl(t).last().len() > 0 && split_nl(t).last().last() == t.last(),
    decreases t.len(),
{
    lemma_split_nl_nonempty(t);
    if t.len() > 0 {
        let t0 = t.drop_last();
        lemma_split_nl_parts(t0);
        let p = split_nl(t0);
        if no_cr(t) {
            assert forall|i: int| 0 <= i < t0.len() implies #[trigger] t0[i] != '\r' by {
                assert(t0[i] == t[i]);
            }
        }
        assert(t.last() == t[t.len() - 1]);
        if t.last() == '\n' {
            assert(split_nl(t) == p.push(Seq::<char>::empty()));
            assert forall|q: int| 0 <= q < split_nl(t).len() implies no_newline(#[trigger] split_nl(t)[q]) by {
                if q < p.len() {
                    assert(split_nl(t)[q] == p[q]);
                }
            }
        } else {
            let l = p.last().push(t.last());
            assert(split_nl(t) == p.update(p.len() - 1, l));
            assert(no_newline(p[p.len() - 1]));
            assert forall|i: int| 0 <= i < l.len() implies #[trigger] l[i] != '\n' by {
                if i < l.len() - 1 {
                    assert(l[i] == p[p.len() - 1][i]);
                }
            }
            assert forall|q: int| 0 <= q < split_nl(t).len() implies no_newline(#[trigger] split_nl(t)[q]) by {
                if q < p.len() - 1 {
                    assert(split_nl(t)[q] == p[q]);
                }
            }
            if no_cr(t) {
                assert(no_cr(p[p.len() - 1]));
                assert forall|i: int| 0 <= i < l.len() implies #[trigger] l[i] != '\r' by {
                    if i < l.len() - 1 {
                        assert(l[i] == p[p.len() - 1][i]);
                    }
                }
                assert forall|q: int| 0 <= q < split_nl(t).len() implies no_cr(#[trigger] split_nl(t)[q]) by {
                    if q < p.len() - 1 {
                        assert(split_nl(t)[q] == p[q]);
                    }
                }
            }
        }
    }
}

/// Texts without carriage returns, joined by line breaks, hold none.
pub proof fn lemma_join_no_cr(ls: Seq<Seq<char>>)
    requires
        forall|k: int| 0 <= k < ls.len() ==> no_cr(#[trigger] ls[k]),
    ensures
        no_cr(join(ls, nl())),
    decreases ls.len(),
{
    if ls.len() == 1 {
        assert(no_cr(ls[0]));
    } else if ls.len() > 1 {
        let init = ls.drop_last();
        assert forall|k: int| 0 <= k < init.len() implies no_cr(#[trigger] init[k]) by {
            assert(init[k] == ls[k]);
        }
        lemma_join_no_cr(init);
        let j = join(init, nl());
        assert(no_cr(ls.last())) by {
            assert(ls.last() == ls[ls.len() - 1]);
        }
        let t = j + nl() + ls.last();
        assert forall|i: int| 0 <= i < t.len() implies #[trigger] t[i] != '\r' by {
            if i < j.len() {
                assert(t[i] == j[i]);
            } else if i == j.len() {
                assert(t[i] == '\n');
            } else {
                assert(t[i] == ls.last()[i - j.len() - 1]);
            }
        }
    }
}

/// Dropping trailing white space keeps a prefix that ends with no white
/// space.
pub proof fn lemma_trim_end_prefix(s: Seq<char>)
    ensures
        trim_end(s).len() <= s.len(),
        trim_end(s) == s.take(trim_end(s).len() as int),
        trim_end(s).len() > 0 ==> !is_ws(trim_end(s).last()),
    decreases s.len(),
{
    if s.len() > 0 && is_ws(s.last()) {
        lemma_trim_end_prefix(s.drop_last());
        let t = trim_end(s.drop_last());
        assert(s.drop_last().take(t.len() as int) =~= s.take(t.len() as int));
    } else {
        assert(s.take(s.len() as int) =~= s);
    }
}

/// Trimming a trimmed text changes nothing.
pub proof fn lemma_trim_idempotent(s: Seq<char>)
    ensures
        trim(trim(s)) == trim(s),
{
    let a = trim_start(s);
    lemma_trim_start_suffix(s);
    lemma_trim_end_prefix(a);
    let t = trim_end(a);
    if t.len() > 0 {
        assert(t[0] == a[0]);
        lemma_trim_unchanged(t);
    } else {
        assert(trim_start(t) == t);
        assert(trim_end(t) == t);
    }
}

} // verus!
