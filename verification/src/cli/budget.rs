//! Fetching the tracked fiscal statistics and pruning the cache of tables
//! no longer tracked.
use vstd::prelude::*;
use crate::error::ProviderError;
use crate::estat::{fiscal_stat, fiscal_stats, EstatProvider, MockProvider, StatDataset, FISCAL_STATS_COUNT};
use crate::text::{append_chars, chars_eq, chars_of, string_of, strings_of};

verus! {

/// The message of a failed fetch of the `i`-th tracked table, whose own
/// error says `inner`.
pub open spec fn fetch_failure_message(i: int, inner: Seq<char>) -> Seq<char> {
    "fetch e-Stat dataset "@ + fiscal_stat(i).0 + " ("@ + fiscal_stat(i).1 + "): "@ + inner
}

/// The error reported when fetching the `i`-th tracked table failed with
/// `e`: which table it was, then what the source said.
pub fn fetch_failure(i: usize, e: &ProviderError) -> (r: ProviderError)
    requires
        i < FISCAL_STATS_COUNT,
    ensures
        r matches ProviderError::Source(m) && m@ == fetch_failure_message(i as int, e.message_spec()),
{
    let stats = fiscal_stats();
    let (id, title) = stats[i];
    let mut m = chars_of("fetch e-Stat dataset ");
    append_chars(&mut m, &chars_of(id));
    append_chars(&mut m, &chars_of(" ("));
    append_chars(&mut m, &chars_of(title));
    append_chars(&mut m, &chars_of("): "));
    let inner = e.message();
    append_chars(&mut m, &chars_of(inner.as_str()));
    ProviderError::Source(string_of(&m))
}

/// `r` is a result that fetching the `i`-th tracked table from `provider`
/// can give: a call of `fetch_stats` with that table's id and title.
pub open spec fn fetch_result<P: EstatProvider>(provider: &P, i: int, r: Result<StatDataset, ProviderError>) -> bool {
    exists|id: &str, t: &str|
        id@ == fiscal_stat(i).0 && t@ == fiscal_stat(i).1 && #[trigger] call_ensures(P::fetch_stats, (provider, id, t), r)
}

/// The fetch of the `i`-th tracked table from `provider` can succeed.
pub open spec fn fetch_can_succeed<P: EstatProvider>(provider: &P, i: int) -> bool {
    exists|d: StatDataset| #[trigger] fetch_result(provider, i, Ok(d))
}

/// Fetches every tracked fiscal statistics table, in order, stopping at
/// the first failure (so that a partial set never replaces the cache).
/// Whether each fetch succeeds is the provider's.  On success every
/// dataset is what the fetch of its table gave, in table order; on a
/// failure of the `i`-th table the earlier fetches succeeded, and the
/// error names that table and carries the error its fetch gave.
pub fn run_fetch<P: EstatProvider>(provider: &P) -> (r: Result<Vec<StatDataset>, ProviderError>)
    ensures
        r matches Ok(ds) ==> {
            &&& ds.len() == FISCAL_STATS_COUNT
            &&& forall|i: int| 0 <= i < FISCAL_STATS_COUNT ==> fetch_result(provider, i, Ok(#[trigger] ds[i]))
            &&& forall|i: int| 0 <= i < FISCAL_STATS_COUNT ==> (#[trigger] ds[i]).stats_data_id@ == fiscal_stat(i).0 && ds[i].title@ == fiscal_stat(i).1
        },
        r matches Err(e) ==> exists|i: int, e0: ProviderError| {
            &&& 0 <= i < FISCAL_STATS_COUNT
            &&& #[trigger] fetch_result(provider, i, Err(e0))
            &&& forall|k: int| 0 <= k < i ==> #[trigger] fetch_can_succeed(provider, k)
            &&& e matches ProviderError::Source(m) && m@ == fetch_failure_message(i, e0.message_spec())
        },
{
    let stats = fiscal_stats();
    let mut out: Vec<StatDataset> = Vec::new();
    let mut i: usize = 0;
    while i < stats.len()
        invariant
            i <= stats.len() == FISCAL_STATS_COUNT,
            out.len() == i,
            forall|k: int| 0 <= k < FISCAL_STATS_COUNT ==> ((#[trigger] stats@[k]).0@, stats@[k].1@) == fiscal_stat(k),
            forall|k: int| 0 <= k < i ==> (#[trigger] out@[k]).stats_data_id@ == fiscal_stat(k).0 && out@[k].title@ == fiscal_stat(k).1,
            forall|k: int| 0 <= k < i ==> fetch_result(provider, k, Ok(#[trigger] out@[k])),
        decreases stats.len() - i,
    {
        let (id, title) = stats[i];
        let res = provider.fetch_stats(id, title);
        assert(call_ensures(P::fetch_stats, (provider, id, title), res));
        assert(fetch_result(provider, i as int, res));
        match res {
            Ok(d) => {
                let ghost before = out@;
                out.push(d);
                assert forall|k: int| 0 <= k < i + 1 implies fetch_result(provider, k, Ok(#[trigger] out@[k])) by {
                    if k < i {
                        assert(out@[k] == before[k]);
                    }
                }
            },
            Err(e) => {
                let f = fetch_failure(i, &e);
                assert forall|k: int| 0 <= k < i implies #[trigger] fetch_can_succeed(provider, k) by {
                    assert(fetch_result(provider, k, Ok(out@[k])));
                }
                return Err(f);
            },
        }
        i = i + 1;
    }
    Ok(out)
}

/// The bundled source never fails a fetch, so fetching the tracked tables
/// from it (`run_fetch(&MockProvider)`) succeeds: no error result is one
/// its fetch can give.
pub proof fn lemma_mock_fetch_never_fails(p: MockProvider, i: int, e: ProviderError)
    ensures
        !fetch_result(&p, i, Err(e)),
{
    if fetch_result(&p, i, Err(e)) {
        let (id, t) = choose|id: &str, t: &str|
            id@ == fiscal_stat(i).0 && t@ == fiscal_stat(i).1 && #[trigger] call_ensures(
                MockProvider::fetch_stats,
                (&p, id, t),
                Err(e),
            );
        assert(call_ensures(MockProvider::fetch_stats, (&p, id, t), Err::<StatDataset, ProviderError>(e)));
    }
}

/// `stem` is the id of a tracked table.
pub open spec fn is_tracked_id(stem: Seq<char>) -> bool {
    exists|i: int| 0 <= i < FISCAL_STATS_COUNT && (#[trigger] fiscal_stat(i)).0 == stem
}

/// The stems of cached dataset files that no tracked table owns, in order.
pub open spec fn stale_spec(stems: Seq<Seq<char>>) -> Seq<Seq<char>>
    decreases stems.len(),
{
    if stems.len() == 0 {
        Seq::empty()
    } else if is_tracked_id(stems.last()) {
        stale_spec(stems.drop_last())
    } else {
        stale_spec(stems.drop_last()).push(stems.last())
    }
}

/// The cached dataset files (by file stem) to remove after a successful
/// fetch: those whose stem is not the id of a tracked table.
pub fn stale_stems(stems: &Vec<String>) -> (out: Vec<String>)
    ensures
        strings_of(out@) == stale_spec(strings_of(stems@)),
{
    let stats = fiscal_stats();
    let ghost ss = strings_of(stems@);
    let mut out: Vec<String> = Vec::new();
    let mut i: usize = 0;
    while i < stems.len()
        invariant
            i <= stems.len(),
            ss == strings_of(stems@),
            stats.len() == FISCAL_STATS_COUNT,
            forall|k: int| 0 <= k < FISCAL_STATS_COUNT ==> ((#[trigger] stats@[k]).0@, stats@[k].1@) == fiscal_stat(k),
            strings_of(out@) == stale_spec(ss.take(i as int)),
        decreases stems.len() - i,
    {
        let s = chars_of(stems[i].as_str());
        assert(ss.take(i + 1).drop_last() =~= ss.take(i as int));
        assert(ss.take(i + 1).last() == s@);
        let mut found = false;
        let mut k: usize = 0;
        while k < stats.len()
            invariant
                k <= stats.len() == FISCAL_STATS_COUNT,
                forall|q: int| 0 <= q < FISCAL_STATS_COUNT ==> ((#[trigger] stats@[q]).0@, stats@[q].1@) == fiscal_stat(q),
                found == exists|q: int| 0 <= q < k && (#[trigger] fiscal_stat(q)).0 == s@,
            decreases stats.len() - k,
        {
            let id = chars_of(stats[k].0);
            assert(fiscal_stat(k as int).0 == id@);
            if chars_eq(&id, &s) {
                found = true;
            }
            k = k + 1;
        }
        if !found {
            let ghost before = out@;
            out.push(stems[i].clone());
            proof {
                crate::text::lemma_strings_of_push(before, stems@[i as int]);
            }
        }
        i = i + 1;
    }
    assert(ss.take(stems.len() as int) =~= ss);
    out
}

} // verus!
