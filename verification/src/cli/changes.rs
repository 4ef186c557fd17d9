//! The article-level summary of an update: which articles a revision
//! added, removed or modified, by article id in increasing order.

use vstd::prelude::*;
use crate::law_diff::{articles_equal, articles_equal_spec, last_article_with_id, last_with_id};
use crate::law_normalizer::{article_view, articles_view, Article, ArticleView, LawDocument};
use crate::scan::{chars_lt, lemma_seq_lt_order, seq_lt};
use crate::text::{chars_eq, chars_of, copy_string, strings_of};

verus! {

/// The article ids a revision added, removed and modified.
#[derive(Debug, Clone)]
pub struct ArticleChanges {
    pub added: Vec<String>,
    pub removed: Vec<String>,
    pub modified: Vec<String>,
}

/// `s` is in strictly increasing order (no id twice).
pub open spec fn ascending(s: Seq<Seq<char>>) -> bool {
    forall|i: int, j: int| 0 <= i < j < s.len() ==> seq_lt(#[trigger] s[i], #[trigger] s[j])
}

/// Some article of `arts` has the id `id`.
pub open spec fn has_article(arts: Seq<ArticleView>, id: Seq<char>) -> bool {
    last_article_with_id(arts, id) is Some
}

/// The article `id` is in both revisions and differs (number, caption or
/// paragraphs), comparing the last article with that id of each.
pub open spec fn article_changed(prev: Seq<ArticleView>, cur: Seq<ArticleView>, id: Seq<char>) -> bool {
    match (last_article_with_id(prev, id), last_article_with_id(cur, id)) {
        (Some(p), Some(c)) => !articles_equal_spec(prev[p], cur[c]),
        _ => false,
    }
}

/// `ids` lists, in increasing order, exactly the ids for which `p` holds.
pub open spec fn lists_exactly(ids: Seq<Seq<char>>, p: spec_fn(Seq<char>) -> bool) -> bool {
    &&& ascending(ids)
    &&& forall|id: Seq<char>| #[trigger] ids.contains(id) <==> p(id)
}

/// What `article_changes` reports for revisions `prev` then `cur`.
pub open spec fn changes_of(prev: Seq<ArticleView>, cur: Seq<ArticleView>, c: ArticleChanges) -> bool {
    &&& lists_exactly(strings_of(c.added@), |id: Seq<char>| has_article(cur, id) && !has_article(prev, id))
    &&& lists_exactly(strings_of(c.removed@), |id: Seq<char>| has_article(prev, id) && !has_article(cur, id))
    &&& lists_exactly(strings_of(c.modified@), |id: Seq<char>| article_changed(prev, cur, id))
}

proof fn lemma_has_article(arts: Seq<ArticleView>, id: Seq<char>)
    ensures
        has_article(arts, id) <==> exists|j: int| 0 <= j < arts.len() && (#[trigger] arts[j]).0 == id,
        last_article_with_id(arts, id) matches Some(i) ==> 0 <= i < arts.len() && arts[i].0 == id,
    decreases arts.len(),
{
    if arts.len() > 0 {
        lemma_has_article(arts.drop_last(), id);
        if arts.last().0 != id {
            if exists|j: int| 0 <= j < arts.len() && (#[trigger] arts[j]).0 == id {
                let j = choose|j: int| 0 <= j < arts.len() && (#[trigger] arts[j]).0 == id;
                assert(j < arts.len() - 1);
                assert(arts.drop_last()[j] == arts[j]);
            }
            if exists|j: int| 0 <= j < arts.drop_last().len() && (#[trigger] arts.drop_last()[j]).0 == id {
                let j = choose|j: int| 0 <= j < arts.drop_last().len() && (#[trigger] arts.drop_last()[j]).0 == id;
                assert(arts[j] == arts.drop_last()[j]);
            }
        }
    }
}

/// Adds `id` to the increasing list `out` where it is missing.
fn insert_sorted(out: &mut Vec<String>, id: &String)
    requires
        ascending(strings_of(old(out)@)),
    ensures
        ascending(strings_of(final(out)@)),
        forall|x: Seq<char>| #[trigger] strings_of(final(out)@).contains(x) <==> (strings_of(old(out)@).contains(x) || x == id@),
{
    let ghost o = strings_of(out@);
    let c = chars_of(id.as_str());
    let mut k: usize = 0;
    while k < out.len()
        invariant
            k <= out.len(),
            o == strings_of(out@),
            c@ == id@,
            ascending(o),
            forall|j: int| 0 <= j < k ==> seq_lt(#[trigger] o[j], id@),
        ensures
            k < out.len() ==> !seq_lt(o[k as int], id@),
        decreases out.len() - k,
    {
        assert(o[k as int] == out@[k as int]@);
        if !chars_lt(&chars_of(out[k].as_str()), &c) {
            break;
        }
        assert(o[k as int] == out@[k as int]@);
        k = k + 1;
    }
    if k < out.len() && out[k] == *id {
        proof {
            assert(o[k as int] == id@);
            assert forall|x: Seq<char>| #[trigger] o.contains(x) <==> (o.contains(x) || x == id@) by {
                if x == id@ {
                    assert(o[k as int] == x);
                }
            }
        }
        return;
    }
    proof {
        if k < out.len() {
            assert(o[k as int] == out@[k as int]@);
            assert(!seq_lt(o[k as int], id@));
            lemma_seq_lt_order(o[k as int], id@, id@);
            assert(seq_lt(id@, o[k as int]));
        }
    }
    out.insert(k, id.clone());
    proof {
        let n = strings_of(out@);
        assert(n =~= o.insert(k as int, id@));
        assert forall|i: int, j: int| 0 <= i < j < n.len() implies seq_lt(#[trigger] n[i], #[trigger] n[j]) by {
            if j < k {
                assert(n[i] == o[i] && n[j] == o[j]);
            } else if j == k {
                assert(n[i] == o[i]);
            } else if i == k {
                assert(n[j] == o[j - 1]);
                if j - 1 > k {
                    lemma_seq_lt_order(id@, o[k as int], o[j - 1]);
                }
            } else if i < k {
                assert(n[i] == o[i] && n[j] == o[j - 1]);
                lemma_seq_lt_order(o[i], id@, o[j - 1]);
                if j - 1 >= k {
                    if j - 1 > k {
                        lemma_seq_lt_order(id@, o[k as int], o[j - 1]);
                    }
                }
            } else {
                assert(n[i] == o[i - 1] && n[j] == o[j - 1]);
            }
        }
        assert forall|x: Seq<char>| #[trigger] n.contains(x) <==> (o.contains(x) || x == id@) by {
            if n.contains(x) {
                let q = choose|q: int| 0 <= q < n.len() && n[q] == x;
                if q < k {
                    assert(o[q] == x);
                } else if q > k {
                    assert(o[q - 1] == x);
                }
            }
            if o.contains(x) {
                let q = choose|q: int| 0 <= q < o.len() && o[q] == x;
                if q < k {
                    assert(n[q] == x);
                } else {
                    assert(n[q + 1] == x);
                }
            }
            if x == id@ {
                assert(n[k as int] == x);
            }
        }
    }
}

/// The distinct article ids of `arts`, in increasing order.
fn sorted_ids(arts: &Vec<Article>) -> (ids: Vec<String>)
    ensures
        ascending(strings_of(ids@)),
        forall|x: Seq<char>| #[trigger] strings_of(ids@).contains(x) <==> has_article(articles_view(arts@), x),
{
    let ghost av = articles_view(arts@);
    let mut out: Vec<String> = Vec::new();
    let mut i: usize = 0;
    while i < arts.len()
        invariant
            i <= arts.len(),
            av == articles_view(arts@),
            ascending(strings_of(out@)),
            forall|x: Seq<char>| #[trigger] strings_of(out@).contains(x) <==> exists|j: int| 0 <= j < i && (#[trigger] av[j]).0 == x,
        decreases arts.len() - i,
    {
        let ghost before = strings_of(out@);
        insert_sorted(&mut out, &arts[i].article_id);
        proof {
            assert(av[i as int].0 == arts@[i as int].article_id@);
            assert forall|x: Seq<char>| #[trigger] strings_of(out@).contains(x) <==> exists|j: int| 0 <= j < i + 1 && (#[trigger] av[j]).0 == x by {
                if strings_of(out@).contains(x) && x != av[i as int].0 {
                    assert(before.contains(x));
                }
                if exists|j: int| 0 <= j < i + 1 && (#[trigger] av[j]).0 == x {
                    let j = choose|j: int| 0 <= j < i + 1 && (#[trigger] av[j]).0 == x;
                    if j < i {
                        assert(before.contains(x));
                    }
                }
            }
        }
        i = i + 1;
    }
    proof {
        assert forall|x: Seq<char>| #[trigger] strings_of(out@).contains(x) <==> has_article(av, x) by {
            lemma_has_article(av, x);
        }
    }
    out
}

/// Appends `x` to an increasing list whose elements are all below it.
fn push_ascending(v: &mut Vec<String>, x: String)
    requires
        ascending(strings_of(old(v)@)),
        forall|j: int| 0 <= j < old(v)@.len() ==> seq_lt(#[trigger] strings_of(old(v)@)[j], x@),
    ensures
        strings_of(final(v)@) == strings_of(old(v)@).push(x@),
        ascending(strings_of(final(v)@)),
{
    proof {
        crate::text::lemma_strings_of_push(v@, x);
    }
    v.push(x);
}

/// The article-level changes from revision `prev` to revision `cur`: the
/// ids only `cur` has, the ids only `prev` has, and the ids whose article
/// differs, each list in increasing order (where an id occurs twice, its
/// last article counts).
pub fn article_changes(prev: &LawDocument, cur: &LawDocument) -> (c: ArticleChanges)
    ensures
        changes_of(articles_view(prev.articles@), articles_view(cur.articles@), c),
{
    let ghost pv = articles_view(prev.articles@);
    let ghost cv = articles_view(cur.articles@);
    let cur_ids = sorted_ids(&cur.articles);
    let prev_ids = sorted_ids(&prev.articles);
    let ghost ci = strings_of(cur_ids@);
    let ghost pi = strings_of(prev_ids@);
    let mut added: Vec<String> = Vec::new();
    let mut modified: Vec<String> = Vec::new();
    let mut k: usize = 0;
    while k < cur_ids.len()
        invariant
            k <= cur_ids.len(),
            ci == strings_of(cur_ids@),
            pv == articles_view(prev.articles@),
            cv == articles_view(cur.articles@),
            ascending(ci),
            forall|x: Seq<char>| #[trigger] ci.contains(x) <==> has_article(cv, x),
            ascending(strings_of(added@)),
            ascending(strings_of(modified@)),
            forall|a: int| 0 <= a < added@.len() ==> exists|j: int| 0 <= j < k && ci[j] == #[trigger] strings_of(added@)[a],
            forall|a: int| 0 <= a < modified@.len() ==> exists|j: int| 0 <= j < k && ci[j] == #[trigger] strings_of(modified@)[a],
            forall|x: Seq<char>| #[trigger] strings_of(added@).contains(x) <==> (exists|j: int| 0 <= j < k && #[trigger] ci[j] == x) && !has_article(pv, x),
            forall|x: Seq<char>| #[trigger] strings_of(modified@).contains(x) <==> (exists|j: int| 0 <= j < k && #[trigger] ci[j] == x) && article_changed(pv, cv, x),
        decreases cur_ids.len() - k,
    {
        let id = &cur_ids[k];
        let ghost x = id@;
        assert(ci[k as int] == x);
        assert(ci.contains(x));
        proof {
            lemma_has_article(pv, x);
            lemma_has_article(cv, x);
            assert forall|a: int| 0 <= a < added@.len() implies seq_lt(#[trigger] strings_of(added@)[a], x) by {
                let j = choose|j: int| 0 <= j < k && ci[j] == strings_of(added@)[a];
            }
            assert forall|a: int| 0 <= a < modified@.len() implies seq_lt(#[trigger] strings_of(modified@)[a], x) by {
                let j = choose|j: int| 0 <= j < k && ci[j] == strings_of(modified@)[a];
            }
        }
        let ghost a0 = strings_of(added@);
        let ghost m0 = strings_of(modified@);
        match last_with_id(&prev.articles, id) {
            None => {
                push_ascending(&mut added, copy_string(id));
                assert(strings_of(added@) == a0.push(x));
                assert(strings_of(modified@) == m0);
            },
            Some(p) => {
                match last_with_id(&cur.articles, id) {
                    Some(q) => {
                        if !articles_equal(&prev.articles[p], &cur.articles[q]) {
                            push_ascending(&mut modified, copy_string(id));
                            assert(strings_of(modified@) == m0.push(x));
                        }
                    },
                    None => {},
                }
                assert(strings_of(added@) == a0);
            },
        }
        proof {
            assert forall|a: int| 0 <= a < added@.len() implies exists|j: int| 0 <= j < k + 1 && ci[j] == #[trigger] strings_of(added@)[a] by {
                if a < a0.len() {
                    assert(strings_of(added@)[a] == a0[a]);
                    let j = choose|j: int| 0 <= j < k && ci[j] == a0[a];
                } else {
                    assert(ci[k as int] == strings_of(added@)[a]);
                }
            }
            assert forall|a: int| 0 <= a < modified@.len() implies exists|j: int| 0 <= j < k + 1 && ci[j] == #[trigger] strings_of(modified@)[a] by {
                if a < m0.len() {
                    assert(strings_of(modified@)[a] == m0[a]);
                    let j = choose|j: int| 0 <= j < k && ci[j] == m0[a];
                } else {
                    assert(ci[k as int] == strings_of(modified@)[a]);
                }
            }
            assert forall|y: Seq<char>| #[trigger] strings_of(added@).contains(y) <==> (exists|j: int| 0 <= j < k + 1 && #[trigger] ci[j] == y) && !has_article(pv, y) by {
                if strings_of(added@).contains(y) {
                    let q = choose|q: int| 0 <= q < strings_of(added@).len() && strings_of(added@)[q] == y;
                    if q < a0.len() {
                        assert(a0[q] == y);
                        assert(a0.contains(y));
                        let j = choose|j: int| 0 <= j < k && #[trigger] ci[j] == y;
                    } else {
                        assert(ci[k as int] == y);
                    }
                }
                if (exists|j: int| 0 <= j < k + 1 && #[trigger] ci[j] == y) && !has_article(pv, y) {
                    let j = choose|j: int| 0 <= j < k + 1 && #[trigger] ci[j] == y;
                    if j < k {
                        assert(a0.contains(y));
                        let q = choose|q: int| 0 <= q < a0.len() && a0[q] == y;
                        assert(strings_of(added@)[q] == y);
                    } else {
                        assert(y == x);
                        assert(strings_of(added@)[strings_of(added@).len() - 1] == y);
                    }
                }
            }
            assert forall|y: Seq<char>| #[trigger] strings_of(modified@).contains(y) <==> (exists|j: int| 0 <= j < k + 1 && #[trigger] ci[j] == y) && article_changed(pv, cv, y) by {
                if strings_of(modified@).contains(y) {
                    let q = choose|q: int| 0 <= q < strings_of(modified@).len() && strings_of(modified@)[q] == y;
                    if q < m0.len() {
                        assert(m0[q] == y);
                        assert(m0.contains(y));
                        let j = choose|j: int| 0 <= j < k && #[trigger] ci[j] == y;
                    } else {
                        assert(ci[k as int] == y);
                    }
                }
                if (exists|j: int| 0 <= j < k + 1 && #[trigger] ci[j] == y) && article_changed(pv, cv, y) {
                    let j = choose|j: int| 0 <= j < k + 1 && #[trigger] ci[j] == y;
                    if j < k {
                        assert(m0.contains(y));
                        let q = choose|q: int| 0 <= q < m0.len() && m0[q] == y;
                        assert(strings_of(modified@)[q] == y);
                    } else {
                        assert(y == x);
                        assert(strings_of(modified@)[strings_of(modified@).len() - 1] == y);
                    }
                }
            }
        }
        k = k + 1;
    }
    let mut removed: Vec<String> = Vec::new();
    let mut r: usize = 0;
    while r < prev_ids.len()
        invariant
            r <= prev_ids.len(),
            pi == strings_of(prev_ids@),
            pv == articles_view(prev.articles@),
            cv == articles_view(cur.articles@),
            ascending(pi),
            forall|x: Seq<char>| #[trigger] pi.contains(x) <==> has_article(pv, x),
            ascending(strings_of(removed@)),
            forall|a: int| 0 <= a < removed@.len() ==> exists|j: int| 0 <= j < r && pi[j] == #[trigger] strings_of(removed@)[a],
            forall|x: Seq<char>| #[trigger] strings_of(removed@).contains(x) <==> (exists|j: int| 0 <= j < r && #[trigger] pi[j] == x) && !has_article(cv, x),
        decreases prev_ids.len() - r,
    {
        let id = &prev_ids[r];
        let ghost x = id@;
        assert(pi[r as int] == x);
        proof {
            assert forall|a: int| 0 <= a < removed@.len() implies seq_lt(#[trigger] strings_of(removed@)[a], x) by {
                let j = choose|j: int| 0 <= j < r && pi[j] == strings_of(removed@)[a];
            }
        }
        let ghost r0 = strings_of(removed@);
        match last_with_id(&cur.articles, id) {
            None => {
                push_ascending(&mut removed, copy_string(id));
                assert(strings_of(removed@) == r0.push(x));
            },
            Some(_) => {
                assert(strings_of(removed@) == r0);
            },
        }
        proof {
            assert forall|a: int| 0 <= a < removed@.len() implies exists|j: int| 0 <= j < r + 1 && pi[j] == #[trigger] strings_of(removed@)[a] by {
                if a < r0.len() {
                    assert(strings_of(removed@)[a] == r0[a]);
                    let j = choose|j: int| 0 <= j < r && pi[j] == r0[a];
                } else {
                    assert(pi[r as int] == strings_of(removed@)[a]);
                }
            }
            assert forall|y: Seq<char>| #[trigger] strings_of(removed@).contains(y) <==> (exists|j: int| 0 <= j < r + 1 && #[trigger] pi[j] == y) && !has_article(cv, y) by {
                if strings_of(removed@).contains(y) {
                    let q = choose|q: int| 0 <= q < strings_of(removed@).len() && strings_of(removed@)[q] == y;
                    if q < r0.len() {
                        assert(r0[q] == y);
                        assert(r0.contains(y));
                        let j = choose|j: int| 0 <= j < r && #[trigger] pi[j] == y;
                    } else {
                        assert(pi[r as int] == y);
                    }
                }
                if (exists|j: int| 0 <= j < r + 1 && #[trigger] pi[j] == y) && !has_article(cv, y) {
                    let j = choose|j: int| 0 <= j < r + 1 && #[trigger] pi[j] == y;
                    if j < r {
                        assert(r0.contains(y));
                        let q = choose|q: int| 0 <= q < r0.len() && r0[q] == y;
                        assert(strings_of(removed@)[q] == y);
                    } else {
                        assert(y == x);
                        assert(strings_of(removed@)[strings_of(removed@).len() - 1] == y);
                    }
                }
            }
        }
        r = r + 1;
    }
    let c = ArticleChanges { added, removed, modified };
    proof {
        assert forall|y: Seq<char>| #[trigger] strings_of(c.added@).contains(y) <==> (has_article(cv, y) && !has_article(pv, y)) by {
            if strings_of(c.added@).contains(y) {
                let j = choose|j: int| 0 <= j < cur_ids.len() && #[trigger] ci[j] == y;
                assert(ci.contains(y));
            }
            if has_article(cv, y) {
                assert(ci.contains(y));
                let j = choose|j: int| 0 <= j < ci.len() && ci[j] == y;
            }
        }
        assert forall|y: Seq<char>| #[trigger] strings_of(c.modified@).contains(y) <==> article_changed(pv, cv, y) by {
            if article_changed(pv, cv, y) {
                assert(has_article(cv, y));
                assert(ci.contains(y));
                let j = choose|j: int| 0 <= j < ci.len() && ci[j] == y;
            }
            if strings_of(c.modified@).contains(y) {
                let j = choose|j: int| 0 <= j < cur_ids.len() && #[trigger] ci[j] == y;
            }
        }
        assert forall|y: Seq<char>| #[trigger] strings_of(c.removed@).contains(y) <==> (has_article(pv, y) && !has_article(cv, y)) by {
            if strings_of(c.removed@).contains(y) {
                let j = choose|j: int| 0 <= j < prev_ids.len() && #[trigger] pi[j] == y;
                assert(pi.contains(y));
            }
            if has_article(pv, y) {
                assert(pi.contains(y));
                let j = choose|j: int| 0 <= j < pi.len() && pi[j] == y;
            }
        }
    }
    c
}

/// How an update list describes a revision of a law: `added` for the
/// law's first revision, `modified` for any later one.
pub fn change_type(first_revision: Option<&str>, revision_id: &str) -> (t: &'static str)
    ensures
        t@ == (if (first_revision matches Some(f) && f@ == revision_id@) { "added"@ } else { "modified"@ }),
{
    let first = match first_revision {
        Some(f) => chars_eq(&chars_of(f), &chars_of(revision_id)),
        None => false,
    };
    if first {
        "added"
    } else {
        "modified"
    }
}

} // verus!
