//! Comparison tables (新旧対照表): locating the 「改正後」/「改正前」 labels.
use crate::text::{find_from, occurs_at};
use vstd::prelude::*;

verus! {

/// The first start index of `pat` as a contiguous run in `chars`; `None` for
/// an empty pattern or when it does not occur.
pub fn find_run(chars: &[char], pat: &[char]) -> (r: Option<usize>)
    ensures
        pat@.len() == 0 ==> r is None,
        pat@.len() > 0 ==> match r {
            Some(i) => occurs_at(chars@, pat@, i as int) && forall|j: int|
                0 <= j < i ==> !#[trigger] occurs_at(chars@, pat@, j),
            None => forall|j: int| !#[trigger] occurs_at(chars@, pat@, j),
        },
{
    if pat.len() == 0 || chars.len() < pat.len() {
        return None;
    }
    let r = find_from(chars, pat, 0);
    proof {
        if r is None {
            assert forall|j: int| !#[trigger] occurs_at(chars@, pat@, j) by {
                if j < 0 {
                }
            }
        }
    }
    r
}

} // verus!
