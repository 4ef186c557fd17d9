//! Matching an amendment event of a law's timeline with a gazette issue.
//!
//! An issue scores by what it shares with the event: the promulgation
//! date (40), the law number (35), the title (15), the amended law's title
//! (10).  Scores are in hundredths; from 80 on, a link is made without
//! review.
use vstd::prelude::*;
use crate::kanpo_client::model::{KanpoDate, KanpoIssue};
use crate::text::{chars_of, contains, contains_chars, strings_of, copy_string, lemma_strings_of_push};

verus! {

/// The score (in hundredths) from which a link is made without review.
pub const AUTO_LINK_THRESHOLD_PCT: u32 = 80;

/// The score of a match, in hundredths: promulgation date 40, law number
/// 35, title 15, amended law's title 10.
pub open spec fn score_spec(promulgation_match: bool, law_num_match: bool, title_match: bool, target_match: bool) -> u32 {
    ((if promulgation_match { 40u32 } else { 0u32 }) + (if law_num_match { 35u32 } else { 0u32 }) + (if title_match {
        15u32
    } else {
        0u32
    }) + (if target_match { 10u32 } else { 0u32 })) as u32
}

/// The score of a match, in hundredths.
pub fn score(promulgation_match: bool, law_num_match: bool, title_match: bool, target_match: bool) -> (s: u32)
    ensures
        s == score_spec(promulgation_match, law_num_match, title_match, target_match),
{
    let mut s: u32 = 0;
    if promulgation_match {
        s = s + 40;
    }
    if law_num_match {
        s = s + 35;
    }
    if title_match {
        s = s + 15;
    }
    if target_match {
        s = s + 10;
    }
    s
}

/// The outcome of matching an event with an issue: the score in
/// hundredths and what matched (`promulgation_date`, `law_num`, `title`,
/// `target_law`, in that order).
pub struct MatchResult {
    pub confidence_pct: u32,
    pub match_reasons: Vec<String>,
}

/// `s` is one of `list`.
pub open spec fn listed(list: Seq<Seq<char>>, s: Seq<char>) -> bool {
    list.contains(s)
}

/// One of `list` holds `s`.
pub open spec fn some_holds(list: Seq<Seq<char>>, s: Seq<char>) -> bool {
    exists|i: int| 0 <= i < list.len() && contains(#[trigger] list[i], s)
}

/// The four matches of an event with an issue.
pub open spec fn matches_of(
    pd: Option<Seq<char>>,
    ln: Option<Seq<char>>,
    title: Option<Seq<char>>,
    target: Option<Seq<char>>,
    issue: KanpoIssue,
) -> (bool, bool, bool, bool) {
    (
        pd is Some && pd.unwrap() == issue.promulgation_date@,
        ln is Some && listed(strings_of(issue.law_nums@), ln.unwrap()),
        title is Some && listed(strings_of(issue.titles@), title.unwrap()),
        target is Some && some_holds(strings_of(issue.titles@), target.unwrap()),
    )
}

/// The reasons of the matches, in order.
pub open spec fn reasons_of(m: (bool, bool, bool, bool)) -> Seq<Seq<char>> {
    (if m.0 { seq!["promulgation_date"@] } else { Seq::empty() }) + (if m.1 {
        seq!["law_num"@]
    } else {
        Seq::empty()
    }) + (if m.2 { seq!["title"@] } else { Seq::empty() }) + (if m.3 { seq!["target_law"@] } else { Seq::empty() })
}

fn opt_str_view(o: Option<&str>) -> (r: Option<Vec<char>>)
    ensures
        match o {
            Some(s) => r matches Some(v) && v@ == s@,
            None => r is None,
        },
{
    match o {
        Some(s) => Some(chars_of(s)),
        None => None,
    }
}

pub open spec fn opt_chars(o: Option<&str>) -> Option<Seq<char>> {
    match o {
        Some(s) => Some(s@),
        None => None,
    }
}

fn is_listed(list: &Vec<String>, s: &[char]) -> (b: bool)
    ensures
        b == listed(strings_of(list@), s@),
{
    let mut i: usize = 0;
    while i < list.len()
        invariant
            i <= list.len(),
            forall|j: int| 0 <= j < i ==> list@[j]@ != s@,
        decreases list.len() - i,
    {
        let c = chars_of(list[i].as_str());
        if crate::text::chars_eq(&c, s) {
            assert(strings_of(list@)[i as int] == s@);
            return true;
        }
        i = i + 1;
    }
    proof {
        if strings_of(list@).contains(s@) {
            let j = choose|j: int| 0 <= j < strings_of(list@).len() && strings_of(list@)[j] == s@;
            assert(list@[j]@ == s@);
        }
    }
    false
}

fn any_holds(list: &Vec<String>, s: &[char]) -> (b: bool)
    ensures
        b == some_holds(strings_of(list@), s@),
{
    let mut i: usize = 0;
    while i < list.len()
        invariant
            i <= list.len(),
            forall|j: int| 0 <= j < i ==> !contains(#[trigger] strings_of(list@)[j], s@),
        decreases list.len() - i,
    {
        let c = chars_of(list[i].as_str());
        if contains_chars(&c, s) {
            assert(contains(strings_of(list@)[i as int], s@));
            return true;
        }
        i = i + 1;
    }
    false
}

fn push_reason(v: &mut Vec<String>, r: &str)
    ensures
        strings_of(final(v)@) == strings_of(old(v)@).push(r@),
{
    let s = r.to_owned();
    proof {
        lemma_strings_of_push(v@, s);
    }
    v.push(s);
}

/// Matches an amendment event (promulgation date, law number, title, the
/// amended law's title; each possibly unknown) with one gazette issue: the
/// date must equal the issue's date, the law number and the title must be
/// among the issue's, and the amended law's title must occur in one of the
/// issue's titles.
pub fn match_event(
    event_promulgation_date: Option<&str>,
    event_law_num: Option<&str>,
    event_title: Option<&str>,
    target_law_title: Option<&str>,
    issue: &KanpoIssue,
) -> (r: MatchResult)
    ensures
        ({
            let m = matches_of(
                opt_chars(event_promulgation_date),
                opt_chars(event_law_num),
                opt_chars(event_title),
                opt_chars(target_law_title),
                *issue,
            );
            &&& r.confidence_pct == score_spec(m.0, m.1, m.2, m.3)
            &&& strings_of(r.match_reasons@) == reasons_of(m)
        }),
{
    let pd_match = match opt_str_view(event_promulgation_date) {
        Some(d) => crate::text::chars_eq(&d, &chars_of(issue.promulgation_date.as_str())),
        None => false,
    };
    let ln_match = match opt_str_view(event_law_num) {
        Some(n) => is_listed(&issue.law_nums, &n),
        None => false,
    };
    let title_match = match opt_str_view(event_title) {
        Some(t) => is_listed(&issue.titles, &t),
        None => false,
    };
    let target_match = match opt_str_view(target_law_title) {
        Some(t) => any_holds(&issue.titles, &t),
        None => false,
    };
    let mut reasons: Vec<String> = Vec::new();
    let ghost r0 = strings_of(reasons@);
    assert(r0 =~= Seq::<Seq<char>>::empty());
    if pd_match {
        push_reason(&mut reasons, "promulgation_date");
    }
    if ln_match {
        push_reason(&mut reasons, "law_num");
    }
    if title_match {
        push_reason(&mut reasons, "title");
    }
    if target_match {
        push_reason(&mut reasons, "target_law");
    }
    let ghost m = (pd_match, ln_match, title_match, target_match);
    assert(strings_of(reasons@) =~= reasons_of(m));
    MatchResult { confidence_pct: score(pd_match, ln_match, title_match, target_match), match_reasons: reasons }
}

// ---------------------------------------------------------------------------
// The best issue for an event
// ---------------------------------------------------------------------------

/// The best match of an event (date and law number) among the issues of
/// `dates` taken in order: the first with the highest positive score, with
/// its score, the date it was listed under and its reasons.
pub open spec fn best_match_run(
    pd: Option<Seq<char>>,
    ln: Option<Seq<char>>,
    flat: Seq<(Seq<char>, KanpoIssue)>,
) -> Option<(u32, Seq<char>, Seq<Seq<char>>)>
    decreases flat.len(),
{
    if flat.len() == 0 {
        None
    } else {
        let prev = best_match_run(pd, ln, flat.drop_last());
        let (date, issue) = flat.last();
        let m = matches_of(pd, ln, None, None, issue);
        let c = score_spec(m.0, m.1, m.2, m.3);
        if c > 0 && (prev is None || c > prev.unwrap().0) {
            Some((c, date, reasons_of(m)))
        } else {
            prev
        }
    }
}

/// The issues of a list of dates, each with its date, in order.
pub open spec fn flat_issues(dates: Seq<KanpoDate>) -> Seq<(Seq<char>, KanpoIssue)>
    decreases dates.len(),
{
    if dates.len() == 0 {
        Seq::empty()
    } else {
        flat_issues(dates.drop_last()) + Seq::new(
            dates.last().issues@.len(),
            |i: int| (dates.last().date@, dates.last().issues@[i]),
        )
    }
}

/// The best gazette issue for an amendment event with promulgation date
/// `pd` and law number `ln`, among the issues of `dates` in order: the
/// first one with the highest positive score; with that score, the date
/// it is listed under and the reasons.
pub fn best_match(pd: Option<&str>, ln: Option<&str>, dates: &Vec<KanpoDate>) -> (r: Option<(u32, String, Vec<String>)>)
    ensures
        match (r, best_match_run(opt_chars(pd), opt_chars(ln), flat_issues(dates@))) {
            (Some((c, d, rs)), Some((c2, d2, rs2))) => c == c2 && d@ == d2 && strings_of(rs@) == rs2,
            (None, None) => true,
            _ => false,
        },
{
    let ghost pv = opt_chars(pd);
    let ghost lv = opt_chars(ln);
    let mut best: Option<(u32, String, Vec<String>)> = None;
    let mut k: usize = 0;
    assert(flat_issues(dates@.take(0)) =~= Seq::<(Seq<char>, KanpoIssue)>::empty());
    while k < dates.len()
        invariant
            k <= dates.len(),
            pv == opt_chars(pd),
            lv == opt_chars(ln),
            match (best, best_match_run(pv, lv, flat_issues(dates@.take(k as int)))) {
                (Some((c, d, rs)), Some((c2, d2, rs2))) => c == c2 && d@ == d2 && strings_of(rs@) == rs2,
                (None, None) => true,
                _ => false,
            },
        decreases dates.len() - k,
    {
        assert(dates@.take(k + 1).drop_last() =~= dates@.take(k as int));
        let ghost base = flat_issues(dates@.take(k as int));
        let kd = &dates[k];
        let ghost row = Seq::new(kd.issues@.len(), |i: int| (kd.date@, kd.issues@[i]));
        assert(flat_issues(dates@.take(k + 1)) == base + row);
        let mut i: usize = 0;
        assert(base + row.take(0) =~= base);
        while i < kd.issues.len()
            invariant
                i <= kd.issues.len(),
                pv == opt_chars(pd),
                lv == opt_chars(ln),
                row == Seq::new(kd.issues@.len(), |i: int| (kd.date@, kd.issues@[i])),
                match (best, best_match_run(pv, lv, base + row.take(i as int))) {
                    (Some((c, d, rs)), Some((c2, d2, rs2))) => c == c2 && d@ == d2 && strings_of(rs@) == rs2,
                    (None, None) => true,
                    _ => false,
                },
            decreases kd.issues.len() - i,
        {
            assert((base + row.take(i + 1)).drop_last() =~= base + row.take(i as int));
            assert((base + row.take(i + 1)).last() == (kd.date@, kd.issues@[i as int]));
            let m = match_event(pd, ln, None, None, &kd.issues[i]);
            let better = m.confidence_pct > 0 && match &best {
                Some(b) => m.confidence_pct > b.0,
                None => true,
            };
            if better {
                best = Some((m.confidence_pct, copy_string(&kd.date), m.match_reasons));
            }
            i = i + 1;
        }
        assert(row.take(kd.issues.len() as int) =~= row);
        k = k + 1;
    }
    assert(dates@.take(dates.len() as int) =~= dates@);
    best
}

/// Whether a match of score `pct` is linked without review.
pub fn auto_linked(pct: u32) -> (b: bool)
    ensures
        b == (pct >= AUTO_LINK_THRESHOLD_PCT),
{
    pct >= AUTO_LINK_THRESHOLD_PCT
}

} // verus!
