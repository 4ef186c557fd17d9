//! Point-in-time snapshots: which revision of a law was in force on a date.
//!
//! Each law lists its revisions with an effective date and a promulgation
//! date.  The snapshot for a date names the latest revision in force on
//! that date; with `include_unenforced` a revision counts from its
//! promulgation (falling back to its effective date).
use vstd::prelude::*;
use crate::scan::{chars_lt, lemma_seq_lt_order, seq_lt};
use crate::text::{chars_of, copy_opt, opt_view};

verus! {

/// One revision of a law as its version list shows it.
#[derive(Debug, Clone)]
pub struct VersionEntry {
    pub revision_id: String,
    pub effective_date: Option<String>,
    pub promulgation_date: Option<String>,
    pub body_available: bool,
}

/// Revision id, effective date, promulgation date, body availability.
pub type VersionView = (Seq<char>, Option<Seq<char>>, Option<Seq<char>>, bool);

impl View for VersionEntry {
    type V = VersionView;

    open spec fn view(&self) -> VersionView {
        (self.revision_id@, opt_view(self.effective_date), opt_view(self.promulgation_date), self.body_available)
    }
}

/// The views of a version list.
pub open spec fn versions_view(vs: Seq<VersionEntry>) -> Seq<VersionView> {
    Seq::new(vs.len(), |i: int| vs[i]@)
}

/// The date from which a revision counts: its effective date, or with
/// `include_unenforced` its promulgation date (else its effective date).
pub open spec fn version_key(v: VersionView, include_unenforced: bool) -> Option<Seq<char>> {
    if include_unenforced {
        match v.2 {
            Some(p) => Some(p),
            None => v.1,
        }
    } else {
        v.1
    }
}

/// A revision counts on `as_of`: its date is at most `as_of` (as text).
pub open spec fn in_force(v: VersionView, as_of: Seq<char>, include_unenforced: bool) -> bool {
    match version_key(v, include_unenforced) {
        Some(k) => !seq_lt(as_of, k),
        None => false,
    }
}

/// The revision chosen among the first `n`: a revision in force replaces
/// the choice so far when its date is strictly later.
pub open spec fn resolve_upto(vs: Seq<VersionView>, as_of: Seq<char>, inc: bool, n: nat) -> Option<int>
    decreases n,
{
    if n == 0 {
        None
    } else {
        let best = resolve_upto(vs, as_of, inc, (n - 1) as nat);
        let i = n - 1;
        if in_force(vs[i], as_of, inc) {
            match best {
                None => Some(i),
                Some(b) => if seq_lt(version_key(vs[b], inc).unwrap(), version_key(vs[i], inc).unwrap()) {
                    Some(i)
                } else {
                    best
                },
            }
        } else {
            best
        }
    }
}

/// The index of the revision in force on `as_of`.
pub open spec fn resolve_spec(vs: Seq<VersionView>, as_of: Seq<char>, inc: bool) -> Option<int> {
    resolve_upto(vs, as_of, inc, vs.len())
}

/// The latest revision in force on `as_of` (`YYYY-MM-DD`, compared as
/// text); among revisions of the same date the first listed.  `None` when
/// no revision is in force yet.
pub fn resolve(versions: &Vec<VersionEntry>, as_of: &str, include_unenforced: bool) -> (r: Option<VersionEntry>)
    ensures
        match resolve_spec(versions_view(versions@), as_of@, include_unenforced) {
            Some(i) => r matches Some(v) && v@ == versions@[i]@,
            None => r is None,
        },
{
    let ghost vs = versions_view(versions@);
    let a = chars_of(as_of);
    let mut best: Option<usize> = None;
    let mut best_key: Vec<char> = Vec::new();
    let mut i: usize = 0;
    while i < versions.len()
        invariant
            i <= versions.len(),
            vs == versions_view(versions@),
            a@ == as_of@,
            match resolve_upto(vs, as_of@, include_unenforced, i as nat) {
                Some(b) => best == Some(b as usize) && 0 <= b < i && version_key(vs[b], include_unenforced) == Some(best_key@),
                None => best is None,
            },
        decreases versions.len() - i,
    {
        let v = &versions[i];
        assert(vs[i as int] == v@);
        let key: Option<&String> = if include_unenforced {
            match &v.promulgation_date {
                Some(p) => Some(p),
                None => v.effective_date.as_ref(),
            }
        } else {
            v.effective_date.as_ref()
        };
        match key {
            Some(k) => {
                let kc = chars_of(k.as_str());
                assert(version_key(vs[i as int], include_unenforced) == Some(kc@));
                if !chars_lt(&a, &kc) {
                    let replace = match best {
                        None => true,
                        Some(_) => chars_lt(&best_key, &kc),
                    };
                    if replace {
                        best = Some(i);
                        best_key = kc;
                    }
                }
            },
            None => {},
        }
        i = i + 1;
    }
    assert(vs.len() == versions.len());
    match best {
        Some(b) => {
            let v = &versions[b];
            Some(VersionEntry {
                revision_id: v.revision_id.clone(),
                effective_date: copy_opt(&v.effective_date),
                promulgation_date: copy_opt(&v.promulgation_date),
                body_available: v.body_available,
            })
        },
        None => None,
    }
}

/// What `resolve` chooses is the latest revision in force: it is in
/// force, no revision in force has a later date, and every revision listed
/// before it that is in force has an earlier date; when it chooses none,
/// no revision is in force.
pub proof fn lemma_resolve_is_latest(vs: Seq<VersionView>, as_of: Seq<char>, inc: bool)
    ensures
        match resolve_spec(vs, as_of, inc) {
            Some(i) => {
                &&& 0 <= i < vs.len()
                &&& in_force(vs[i], as_of, inc)
                &&& forall|j: int| 0 <= j < vs.len() && in_force(vs[j], as_of, inc) ==> !seq_lt(
                    version_key(vs[i], inc).unwrap(),
                    #[trigger] version_key(vs[j], inc).unwrap(),
                )
                &&& forall|j: int| 0 <= j < i && in_force(vs[j], as_of, inc) ==> seq_lt(
                    #[trigger] version_key(vs[j], inc).unwrap(),
                    version_key(vs[i], inc).unwrap(),
                )
            },
            None => forall|j: int| 0 <= j < vs.len() ==> !in_force(#[trigger] vs[j], as_of, inc),
        },
{
    lemma_resolve_upto(vs, as_of, inc, vs.len());
}

proof fn lemma_resolve_upto(vs: Seq<VersionView>, as_of: Seq<char>, inc: bool, n: nat)
    requires
        n <= vs.len(),
    ensures
        match resolve_upto(vs, as_of, inc, n) {
            Some(i) => {
                &&& 0 <= i < n
                &&& in_force(vs[i], as_of, inc)
                &&& forall|j: int| 0 <= j < n && in_force(vs[j], as_of, inc) ==> !seq_lt(
                    version_key(vs[i], inc).unwrap(),
                    #[trigger] version_key(vs[j], inc).unwrap(),
                )
                &&& forall|j: int| 0 <= j < i && in_force(vs[j], as_of, inc) ==> seq_lt(
                    #[trigger] version_key(vs[j], inc).unwrap(),
                    version_key(vs[i], inc).unwrap(),
                )
            },
            None => forall|j: int| 0 <= j < n ==> !in_force(#[trigger] vs[j], as_of, inc),
        },
    decreases n,
{
    if n > 0 {
        lemma_resolve_upto(vs, as_of, inc, (n - 1) as nat);
        let i = n - 1;
        let best = resolve_upto(vs, as_of, inc, (n - 1) as nat);
        if in_force(vs[i], as_of, inc) {
            match best {
                None => {
                    assert forall|j: int| 0 <= j < n && in_force(vs[j], as_of, inc) implies !seq_lt(
                        version_key(vs[i], inc).unwrap(),
                        #[trigger] version_key(vs[j], inc).unwrap(),
                    ) by {
                        lemma_seq_lt_order(version_key(vs[i], inc).unwrap(), version_key(vs[j], inc).unwrap(), version_key(vs[j], inc).unwrap());
                    }
                },
                Some(b) => {
                    let kb = version_key(vs[b], inc).unwrap();
                    let ki = version_key(vs[i], inc).unwrap();
                    if seq_lt(kb, ki) {
                        assert forall|j: int| 0 <= j < n && in_force(vs[j], as_of, inc) implies !seq_lt(
                            ki,
                            #[trigger] version_key(vs[j], inc).unwrap(),
                        ) by {
                            let kj = version_key(vs[j], inc).unwrap();
                            lemma_seq_lt_order(ki, kj, kb);
                            lemma_seq_lt_order(kj, kb, ki);
                            lemma_seq_lt_order(ki, kj, kj);
                            lemma_seq_lt_order(kb, ki, kj);
                        }
                        assert forall|j: int| 0 <= j < i && in_force(vs[j], as_of, inc) implies seq_lt(
                            #[trigger] version_key(vs[j], inc).unwrap(),
                            ki,
                        ) by {
                            let kj = version_key(vs[j], inc).unwrap();
                            lemma_seq_lt_order(kj, kb, ki);
                            lemma_seq_lt_order(kb, kj, kj);
                            if kj != kb {
                                lemma_seq_lt_order(kj, kb, kb);
                            }
                        }
                    } else {
                        assert forall|j: int| 0 <= j < n && in_force(vs[j], as_of, inc) implies !seq_lt(
                            kb,
                            #[trigger] version_key(vs[j], inc).unwrap(),
                        ) by {
                        }
                    }
                },
            }
        }
    }
}

} // verus!
