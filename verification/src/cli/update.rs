//! The decisions of an update run: whether the published tree is rebuilt,
//! which snapshot dates are requested, and what the state records.

use vstd::prelude::*;
use crate::cli::state::LatestState;
use crate::text::{chars_of, string_of, strings_of, trim, trim_chars};

verus! {

/// What an update run does with the published tree after fetching.
#[derive(Debug, Clone, PartialEq, Eq)]
pub enum Rebuild {
    /// Rebuild it from the cache.
    FromCache,
    /// The cache holds no revisions but a complete tree exists: keep it.
    KeepExisting,
    /// Nothing new and the tree is complete: leave it.
    Unchanged,
    /// The cache holds no revisions and there is no complete tree.
    Impossible,
}

/// The tree changes where a rebuild is forced, new XML arrived, or the
/// tree is incomplete; it is then rebuilt where the cache has revisions.
pub open spec fn rebuild_spec(force: bool, new_xmls: usize, public_complete: bool, cache_has_revisions: bool) -> Rebuild {
    if force || new_xmls > 0 || !public_complete {
        if cache_has_revisions {
            Rebuild::FromCache
        } else if public_complete {
            Rebuild::KeepExisting
        } else {
            Rebuild::Impossible
        }
    } else {
        Rebuild::Unchanged
    }
}

/// What to do with the published tree after a fetch that brought
/// `new_xmls` new files.
pub fn rebuild_decision(force: bool, new_xmls: usize, public_complete: bool, cache_has_revisions: bool) -> (r: Rebuild)
    ensures
        r == rebuild_spec(force, new_xmls, public_complete, cache_has_revisions),
{
    if force || new_xmls > 0 || !public_complete {
        if cache_has_revisions {
            Rebuild::FromCache
        } else if public_complete {
            Rebuild::KeepExisting
        } else {
            Rebuild::Impossible
        }
    } else {
        Rebuild::Unchanged
    }
}

/// Records a finished run in the state: the last date tried becomes the
/// last successful update date (where any date was tried), the run time,
/// and `ok` or `partial` as the status; the rest is kept.
pub fn record_run(state: &mut LatestState, dates: &Vec<String>, had_errors: bool, now: String)
    ensures
        dates@.len() > 0 ==> (final(state).latest_successful_update_date matches Some(d) && d@ == dates@.last()@),
        dates@.len() == 0 ==> final(state).latest_successful_update_date == old(state).latest_successful_update_date,
        final(state).last_run_at == Some(now),
        final(state).last_run_status matches Some(s) && s@ == (if had_errors { "partial"@ } else { "ok"@ }),
        final(state).version == old(state).version,
        final(state).law_count == old(state).law_count,
{
    if dates.len() > 0 {
        state.latest_successful_update_date = Some(dates[dates.len() - 1].clone());
    }
    state.last_run_at = Some(now);
    state.last_run_status = Some(if had_errors { "partial".to_owned() } else { "ok".to_owned() });
}

/// `s` split at every `,`: always at least one (possibly empty) part.
pub open spec fn split_commas(s: Seq<char>) -> Seq<Seq<char>>
    decreases s.len(),
{
    if s.len() == 0 {
        seq![Seq::<char>::empty()]
    } else {
        let p = split_commas(s.drop_last());
        if s.last() == ',' {
            p.push(Seq::<char>::empty())
        } else {
            p.update(p.len() - 1, p.last().push(s.last()))
        }
    }
}

/// The trimmed parts that are not empty, in order.
pub open spec fn nonempty_trimmed(parts: Seq<Seq<char>>) -> Seq<Seq<char>>
    decreases parts.len(),
{
    if parts.len() == 0 {
        Seq::empty()
    } else {
        let rest = nonempty_trimmed(parts.drop_last());
        if trim(parts.last()).len() > 0 {
            rest.push(trim(parts.last()))
        } else {
            rest
        }
    }
}

/// The snapshot dates of a comma-separated list (such as the value of
/// `LAWPUB_SNAPSHOT_DATES`): each item trimmed, empty items dropped.
pub fn snapshot_dates(raw: &str) -> (out: Vec<String>)
    ensures
        strings_of(out@) == nonempty_trimmed(split_commas(raw@)),
{
    let s = chars_of(raw);
    let mut out: Vec<String> = Vec::new();
    let mut cur: Vec<char> = Vec::new();
    let ghost mut done: Seq<Seq<char>> = Seq::empty();
    let mut i: usize = 0;
    while i < s.len()
        invariant
            i <= s.len(),
            s@ == raw@,
            split_commas(s@.take(i as int)) == done.push(cur@),
            strings_of(out@) == nonempty_trimmed(done),
        decreases s.len() - i,
    {
        let c = s[i];
        assert(s@.take(i + 1).drop_last() =~= s@.take(i as int));
        assert(s@.take(i + 1).last() == c);
        if c == ',' {
            let t = trim_chars(&cur);
            proof {
                assert(done.push(cur@).drop_last() =~= done);
            }
            if t.len() > 0 {
                let st = string_of(&t);
                proof {
                    crate::text::lemma_strings_of_push(out@, st);
                }
                out.push(st);
            }
            proof {
                done = done.push(cur@);
            }
            cur = Vec::new();
            assert(split_commas(s@.take(i + 1)) =~= done.push(cur@));
        } else {
            cur.push(c);
            assert(split_commas(s@.take(i + 1)) =~= done.push(cur@));
        }
        i = i + 1;
    }
    assert(s@.take(s.len() as int) =~= s@);
    let t = trim_chars(&cur);
    proof {
        assert(split_commas(s@) == done.push(cur@));
        assert(done.push(cur@).drop_last() =~= done);
    }
    if t.len() > 0 {
        let st = string_of(&t);
        proof {
            crate::text::lemma_strings_of_push(out@, st);
        }
        out.push(st);
    }
    out
}

} // verus!
