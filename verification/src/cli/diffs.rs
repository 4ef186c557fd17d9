//! Which revisions of a law are compared, and where the comparisons and
//! revision bodies are published.
//!
//! The revisions with a body are put in order of their effective dates
//! (revisions without one last, among themselves by id), and each is
//! compared with the next.
use vstd::prelude::*;
use super::snapshots::{versions_view, VersionEntry, VersionView};
use crate::linking::{keys_view, sort_order, sorted_order, SortKey};
use crate::text::{append_chars, chars_of, copy_string, string_of};

verus! {

/// The positions of the revisions with a body, in list order.
pub open spec fn bodied(vs: Seq<VersionView>, n: int) -> Seq<usize>
    decreases n,
{
    if n <= 0 {
        Seq::empty()
    } else if vs[n - 1].3 {
        bodied(vs, n - 1).push((n - 1) as usize)
    } else {
        bodied(vs, n - 1)
    }
}

/// The order key of a revision: by effective date, earliest first;
/// revisions without one after all others, by id.
pub open spec fn revision_order_key(v: VersionView) -> SortKey {
    match v.1 {
        Some(d) => (1u64, Seq::empty(), d),
        None => (0u64, Seq::empty(), v.0),
    }
}

/// The keys of the revisions with a body.
pub open spec fn bodied_keys(vs: Seq<VersionView>, b: Seq<usize>) -> Seq<SortKey> {
    Seq::new(b.len(), |i: int| revision_order_key(vs[b[i] as int]))
}

/// `pairs` compares each revision with a body with the next one, in
/// effective-date order.
pub open spec fn diff_pairs_of(vs: Seq<VersionView>, pairs: Seq<(usize, usize)>) -> bool {
    let b = bodied(vs, vs.len() as int);
    exists|order: Seq<usize>|
        #[trigger] sorted_order(bodied_keys(vs, b), order) && pairs == Seq::new(
            if b.len() == 0 { 0nat } else { (b.len() - 1) as nat },
            |k: int| (b[order[k] as int], b[order[k + 1] as int]),
        )
}

/// The pairs of revisions (as positions in `versions`) whose comparison is
/// published: the revisions with a body in effective-date order, each
/// with the next.
pub fn diff_pairs(versions: &Vec<VersionEntry>) -> (pairs: Vec<(usize, usize)>)
    ensures
        diff_pairs_of(versions_view(versions@), pairs@),
{
    let ghost vv = versions_view(versions@);
    let mut b: Vec<usize> = Vec::new();
    let mut i: usize = 0;
    while i < versions.len()
        invariant
            i <= versions.len(),
            vv == versions_view(versions@),
            b@ == bodied(vv, i as int),
            forall|k: int| 0 <= k < b.len() ==> (#[trigger] b@[k]) < i,
        decreases versions.len() - i,
    {
        if versions[i].body_available {
            b.push(i);
        }
        i = i + 1;
    }
    let mut keys: Vec<(u64, String, String)> = Vec::new();
    let mut k: usize = 0;
    while k < b.len()
        invariant
            k <= b.len(),
            vv == versions_view(versions@),
            b@ == bodied(vv, versions.len() as int),
            forall|q: int| 0 <= q < b.len() ==> (#[trigger] b@[q]) < versions.len(),
            keys_view(keys@) =~= Seq::new(k as nat, |q: int| revision_order_key(vv[b@[q] as int])),
        decreases b.len() - k,
    {
        let ghost before = keys_view(keys@);
        let v = &versions[b[k]];
        match &v.effective_date {
            Some(d) => keys.push((1u64, string_of(&Vec::new()), copy_string(d))),
            None => keys.push((0u64, string_of(&Vec::new()), copy_string(&v.revision_id))),
        }
        assert(keys_view(keys@) =~= before.push(revision_order_key(vv[b@[k as int] as int])));
        k = k + 1;
    }
    let order = sort_order(&keys);
    let mut pairs: Vec<(usize, usize)> = Vec::new();
    let n = if b.len() == 0 {
        0
    } else {
        b.len() - 1
    };
    let mut j: usize = 0;
    while j < n
        invariant
            j <= n,
            n == (if b.len() == 0 { 0 } else { b.len() - 1 }),
            order.len() == b.len(),
            vv == versions_view(versions@),
            b@ == bodied(vv, versions.len() as int),
            forall|q: int| 0 <= q < order.len() ==> (#[trigger] order@[q]) < b.len(),
            pairs@ =~= Seq::new(j as nat, |q: int| (b@[order@[q] as int], b@[order@[q + 1] as int])),
        decreases n - j,
    {
        pairs.push((b[order[j]], b[order[j + 1]]));
        j = j + 1;
    }
    assert(bodied_keys(vv, b@) =~= keys_view(keys@));
    assert(sorted_order(bodied_keys(vv, b@), order@));
    assert(vv.len() == versions.len());
    assert(sorted_order(bodied_keys(vv, bodied(vv, vv.len() as int)), order@));
    assert(pairs@ =~= Seq::new(
        if b@.len() == 0 { 0nat } else { (b@.len() - 1) as nat },
        |q: int| (b@[order@[q] as int], b@[order@[q + 1] as int]),
    ));
    pairs
}

/// The file name of the comparison of two revisions.
pub fn diff_file_name(from_revision: &str, to_revision: &str) -> (s: String)
    ensures
        s@ == from_revision@ + ".."@ + to_revision@ + ".json"@,
{
    let mut v = chars_of(from_revision);
    append_chars(&mut v, &chars_of(".."));
    append_chars(&mut v, &chars_of(to_revision));
    append_chars(&mut v, &chars_of(".json"));
    string_of(&v)
}

/// The published path of a comparison file of a law.
pub fn diff_path(law_id: &str, file_name: &str) -> (s: String)
    ensures
        s@ == "laws/"@ + law_id@ + "/diff/"@ + file_name@,
{
    let mut v = chars_of("laws/");
    append_chars(&mut v, &chars_of(law_id));
    append_chars(&mut v, &chars_of("/diff/"));
    append_chars(&mut v, &chars_of(file_name));
    string_of(&v)
}

/// The published path of a revision body of a law.
pub fn revision_path(law_id: &str, revision_id: &str) -> (s: String)
    ensures
        s@ == "laws/"@ + law_id@ + "/revisions/"@ + revision_id@ + ".json"@,
{
    let mut v = chars_of("laws/");
    append_chars(&mut v, &chars_of(law_id));
    append_chars(&mut v, &chars_of("/revisions/"));
    append_chars(&mut v, &chars_of(revision_id));
    append_chars(&mut v, &chars_of(".json"));
    string_of(&v)
}

/// What a snapshot points to as the current body: the revision's body
/// where it is available.
pub fn snapshot_current(law_id: &str, v: &VersionEntry) -> (r: Option<String>)
    ensures
        v.body_available ==> (r matches Some(s) && s@ == "laws/"@ + law_id@ + "/revisions/"@ + v.revision_id@ + ".json"@),
        !v.body_available ==> r is None,
{
    if v.body_available {
        Some(revision_path(law_id, v.revision_id.as_str()))
    } else {
        None
    }
}

} // verus!
