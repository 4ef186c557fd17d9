//! Matching gazette items to the articles of their amendment text, and the
//! short forms of titles used for files and previews.
use vstd::prelude::*;
use crate::scan::{find_pat, find_pat_exec, rindex_of, rindex_of_char};
use crate::text::{
    chars_of, contains, contains_chars, copy_range, string_of, strings_of, trim, trim_chars,
};

verus! {

/// The markers of an enactment text (as opposed to a table-of-contents
/// line).
pub open spec fn body_marker(i: int) -> Seq<char> {
    if i == 0 {
        "の規定に基づき"@
    } else if i == 1 {
        "次のように"@
    } else if i == 2 {
        "に改める"@
    } else if i == 3 {
        "を加える"@
    } else {
        "定める"@
    }
}

fn body_marker_exec(i: usize) -> (s: &'static str)
    requires
        i < 5,
    ensures
        s@ == body_marker(i as int),
{
    if i == 0 {
        "の規定に基づき"
    } else if i == 1 {
        "次のように"
    } else if i == 2 {
        "に改める"
    } else if i == 3 {
        "を加える"
    } else {
        "定める"
    }
}

/// How many of the first `n` markers `s` contains.
pub open spec fn markers_in(s: Seq<char>, n: nat) -> nat
    decreases n,
{
    if n == 0 {
        0
    } else {
        markers_in(s, (n - 1) as nat) + if contains(s, body_marker(n - 1)) { 1nat } else { 0nat }
    }
}

/// The enactment score of a segment: 1000 per marker it contains, plus its
/// length in characters.
pub open spec fn body_score_spec(s: Seq<char>) -> nat {
    1000 * markers_in(s, 5) + s.len()
}

/// The score fits in a `usize`.
pub open spec fn score_fits(s: Seq<char>) -> bool {
    body_score_spec(s) <= usize::MAX
}

/// How much a segment reads like an enactment text rather than a table of
/// contents line: 1000 for each of 「の規定に基づき」「次のように」「に改める」
/// 「を加える」「定める」 it contains, plus its length.
pub fn body_score(s: &str) -> (score: usize)
    requires
        score_fits(s@),
    ensures
        score == body_score_spec(s@),
{
    let c = chars_of(s);
    let mut score: usize = 0;
    let mut i: usize = 0;
    while i < 5
        invariant
            i <= 5,
            c@ == s@,
            score == 1000 * markers_in(s@, i as nat),
            markers_in(s@, i as nat) <= i,
        decreases 5 - i,
    {
        let m = chars_of(body_marker_exec(i));
        if contains_chars(&c, &m) {
            score = score + 1000;
        }
        i = i + 1;
    }
    proof {
        assert(1000 * markers_in(s@, 5) + s@.len() <= usize::MAX);
    }
    score + c.len()
}

/// `body_score` computed without bound on the segment's length.
fn score_wide(s: &str) -> (score: u128)
    ensures
        score == body_score_spec(s@),
{
    let c = chars_of(s);
    let mut score: u128 = 0;
    let mut i: usize = 0;
    while i < 5
        invariant
            i <= 5,
            c@ == s@,
            score == 1000 * markers_in(s@, i as nat),
            markers_in(s@, i as nat) <= i,
        decreases 5 - i,
    {
        let m = chars_of(body_marker_exec(i));
        if contains_chars(&c, &m) {
            score = score + 1000;
        }
        i = i + 1;
    }
    score + c.len() as u128
}

/// The markers after which a title names the law it changes.
pub open spec fn core_marker(i: int) -> Seq<char> {
    if i == 0 {
        "の一部を"@
    } else {
        "を廃止"@
    }
}

/// The name of the law a title is about: the title without its closing
/// agency brackets, cut before 「の一部を」 or (failing that) 「を廃止」.
pub open spec fn title_core_spec(title: Seq<char>) -> Seq<char> {
    let t = match rindex_of(title, '（') {
        Some(p) => title.take(p),
        None => title,
    };
    match find_pat(t, core_marker(0)) {
        Some(p) => trim(t.take(p)),
        None => match find_pat(t, core_marker(1)) {
            Some(p) => trim(t.take(p)),
            None => trim(t),
        },
    }
}

/// The key under which an item title is matched against article text: for
/// 「○○の一部を改正する…」 or 「○○を廃止する件」 the law name ○○.
pub fn title_core(title: &str) -> (out: String)
    ensures
        out@ == title_core_spec(title@),
{
    let c = chars_of(title);
    let t = match rindex_of_char(&c, '（') {
        Some(p) => copy_range(&c, 0, p),
        None => copy_range(&c, 0, c.len()),
    };
    assert(c@.take(c.len() as int) =~= c@);
    let m0 = chars_of("の一部を");
    let m1 = chars_of("を廃止");
    let cut = match find_pat_exec(&t, &m0) {
        Some(p) => Some(p),
        None => find_pat_exec(&t, &m1),
    };
    let core = match cut {
        Some(p) => {
            let head = copy_range(&t, 0, p);
            trim_chars(&head)
        },
        None => trim_chars(&t),
    };
    string_of(&core)
}

/// A character that cannot stand in a file name, replaced.
pub open spec fn file_char(c: char) -> char {
    if c == '/' || c == '\\' || c == ':' || c == '\u{0}' {
        '_'
    } else {
        c
    }
}

/// The first 24 characters of `s`, path separators and NUL replaced by `_`.
pub open spec fn sanitize_spec(s: Seq<char>) -> Seq<char> {
    s.take(if s.len() < 24 { s.len() as int } else { 24 }).map_values(|c: char| file_char(c))
}

/// A title shortened and made safe for a file name.
pub fn sanitize(s: &str) -> (out: String)
    ensures
        out@ == sanitize_spec(s@),
{
    let c = chars_of(s);
    let n = if c.len() < 24 { c.len() } else { 24 };
    let mut out: Vec<char> = Vec::new();
    let mut i: usize = 0;
    while i < n
        invariant
            i <= n <= c.len(),
            c@ == s@,
            out@ == c@.take(i as int).map_values(|x: char| file_char(x)),
        decreases n - i,
    {
        let x = c[i];
        out.push(if x == '/' || x == '\\' || x == ':' || x == '\u{0}' { '_' } else { x });
        assert(c@.take(i + 1).map_values(|x: char| file_char(x)) =~= c@.take(i as int).map_values(
            |x: char| file_char(x),
        ).push(file_char(x)));
        i = i + 1;
    }
    string_of(&out)
}

/// The first `n` characters of `s`, with `…` when something was cut.
pub open spec fn truncate_spec(s: Seq<char>, n: nat) -> Seq<char> {
    if s.len() > n {
        s.take(n as int).push('…')
    } else {
        s
    }
}

/// At most `n` characters of `s`, followed by `…` if `s` is longer.
pub fn truncate_chars(s: &str, n: usize) -> (out: String)
    ensures
        out@ == truncate_spec(s@, n as nat),
{
    let c = chars_of(s);
    if c.len() > n {
        let mut head = copy_range(&c, 0, n);
        head.push('…');
        string_of(&head)
    } else {
        s.to_owned()
    }
}

/// A truncated text is never longer than the limit plus the ellipsis,
/// and a text within the limit comes back unchanged.
pub proof fn lemma_truncate_bounds(s: Seq<char>, n: nat)
    ensures
        truncate_spec(s, n).len() <= n + 1,
        s.len() <= n ==> truncate_spec(s, n) == s,
        s.len() > n ==> truncate_spec(s, n).take(n as int) == s.take(n as int),
{
    if s.len() > n {
        assert(truncate_spec(s, n).take(n as int) =~= s.take(n as int));
    }
}

/// The keys tried for a title core `c` (by characters): the core, then
/// prefixes from two characters shorter, four shorter each time, while at
/// least six long.
pub open spec fn segment_keys(c: Seq<char>) -> Seq<Seq<char>> {
    seq![c] + prefix_keys(c, if c.len() >= 2 { (c.len() - 2) as nat } else { 0 })
}

/// The prefixes of `c` of length `len`, `len - 4`, ... while at least six.
pub open spec fn prefix_keys(c: Seq<char>, len: nat) -> Seq<Seq<char>>
    decreases len,
{
    if len >= 6 && len <= c.len() {
        seq![c.take(len as int)] + prefix_keys(c, (len - 4) as nat)
    } else {
        Seq::empty()
    }
}

/// A segment contains one of the keys.
pub open spec fn matches_key(s: Seq<char>, keys: Seq<Seq<char>>) -> bool {
    exists|k: int| 0 <= k < keys.len() && contains(s, #[trigger] keys[k])
}

/// The chosen segment among the first `n`: a matching segment with a
/// score at least as high as the choice so far replaces it (the last of
/// equal scores wins).
pub open spec fn best_upto(segs: Seq<Seq<char>>, keys: Seq<Seq<char>>, n: nat) -> Option<int>
    decreases n,
{
    if n == 0 {
        None
    } else {
        let b = best_upto(segs, keys, (n - 1) as nat);
        let i = n - 1;
        if matches_key(segs[i], keys) {
            match b {
                None => Some(i),
                Some(j) => if body_score_spec(segs[i]) >= body_score_spec(segs[j]) {
                    Some(i)
                } else {
                    b
                },
            }
        } else {
            b
        }
    }
}

/// The segment that `best_segment` picks for `title`.
pub open spec fn best_segment_spec(title: Seq<char>, segs: Seq<Seq<char>>) -> Option<int> {
    let core = title_core_spec(title);
    if core.len() < 4 {
        None
    } else {
        best_upto(segs, segment_keys(core), segs.len())
    }
}

fn keys_exec(core: &Vec<char>) -> (keys: Vec<Vec<char>>)
    ensures
        crate::text::seqs_of(keys@) == segment_keys(core@),
{
    let mut keys: Vec<Vec<char>> = Vec::new();
    keys.push(copy_range(core, 0, core.len()));
    assert(core@.take(core.len() as int) =~= core@);
    let mut len: usize = if core.len() >= 2 { core.len() - 2 } else { 0 };
    let ghost first = if core@.len() >= 2 { (core@.len() - 2) as nat } else { 0 };
    assert(crate::text::seqs_of(keys@) =~= seq![core@]);
    while len >= 6
        invariant
            len <= core.len(),
            segment_keys(core@) == crate::text::seqs_of(keys@) + prefix_keys(core@, len as nat),
        decreases len,
    {
        let p = copy_range(core, 0, len);
        proof {
            crate::text::lemma_seqs_of_push(keys@, p);
            assert(prefix_keys(core@, len as nat) =~= seq![p@] + prefix_keys(core@, (len - 4) as nat));
            assert(crate::text::seqs_of(keys@) + prefix_keys(core@, len as nat) =~= crate::text::seqs_of(
                keys@,
            ).push(p@) + prefix_keys(core@, (len - 4) as nat));
        }
        keys.push(p);
        len = len - 4;
    }
    assert(prefix_keys(core@, len as nat) =~= Seq::<Seq<char>>::empty());
    assert(crate::text::seqs_of(keys@) + Seq::<Seq<char>>::empty() =~= crate::text::seqs_of(keys@));
    keys
}

/// Picks the segment of an amendment text that belongs to the item titled
/// `title`: among the segments containing the title's core (or a prefix of
/// it), the one with the highest `body_score`, the last of equals.  `None`
/// when the core is shorter than four characters or nothing matches.
pub fn best_segment<'a>(title: &str, segments: &'a Vec<String>) -> (r: Option<&'a str>)
    ensures
        match best_segment_spec(title@, strings_of(segments@)) {
            Some(i) => r matches Some(s) && s@ == segments@[i]@,
            None => r is None,
        },
{
    match best_segment_index(title, segments) {
        Some(i) => Some(segments[i].as_str()),
        None => None,
    }
}

/// The index of the segment `best_segment` picks.
pub fn best_segment_index(title: &str, segments: &Vec<String>) -> (r: Option<usize>)
    ensures
        match best_segment_spec(title@, strings_of(segments@)) {
            Some(i) => r == Some(i as usize) && 0 <= i < segments.len(),
            None => r is None,
        },
{
    let core_s = title_core(title);
    let core = chars_of(core_s.as_str());
    if core.len() < 4 {
        return None;
    }
    let keys = keys_exec(&core);
    let ghost ks = crate::text::seqs_of(keys@);
    let ghost segs = strings_of(segments@);
    let mut best: Option<usize> = None;
    let mut best_score: u128 = 0;
    let mut i: usize = 0;
    while i < segments.len()
        invariant
            i <= segments.len(),
            ks == crate::text::seqs_of(keys@),
            ks == segment_keys(title_core_spec(title@)),
            segs == strings_of(segments@),
            match best_upto(segs, ks, i as nat) {
                Some(j) => best == Some(j as usize) && 0 <= j < i && best_score == body_score_spec(segs[j]),
                None => best is None,
            },
        decreases segments.len() - i,
    {
        let s = chars_of(segments[i].as_str());
        assert(segs[i as int] == s@);
        let mut hit = false;
        let mut k: usize = 0;
        while k < keys.len()
            invariant
                k <= keys.len(),
                ks == crate::text::seqs_of(keys@),
                hit == exists|q: int| 0 <= q < k && contains(s@, #[trigger] ks[q]),
            decreases keys.len() - k,
        {
            if contains_chars(&s, &keys[k]) {
                hit = true;
            }
            assert(ks[k as int] == keys@[k as int]@);
            k = k + 1;
        }
        assert(hit == matches_key(s@, ks));
        if hit {
            let sc = score_wide(segments[i].as_str());
            let replace = match best {
                None => true,
                Some(_) => sc >= best_score,
            };
            if replace {
                best = Some(i);
                best_score = sc;
            }
        }
        i = i + 1;
    }
    best
}

} // verus!
