//! Naming of cached revisions.

use vstd::prelude::*;
use crate::text::{chars_of, copy_range, string_of};

verus! {

/// Number of leading hash digits that name a revision.
pub const REVISION_ID_LEN: usize = 12;

/// The id of the revision whose body hashes to `sha`: its first twelve
/// characters (all of it, where it is shorter).
pub fn revision_id_from_sha(sha: &str) -> (id: String)
    ensures
        sha@.len() >= REVISION_ID_LEN ==> id@ == sha@.take(REVISION_ID_LEN as int),
        sha@.len() < REVISION_ID_LEN ==> id@ == sha@,
{
    let cs = chars_of(sha);
    let n: usize = if cs.len() < REVISION_ID_LEN { cs.len() } else { REVISION_ID_LEN };
    let out = copy_range(&cs, 0, n);
    proof {
        if cs@.len() < REVISION_ID_LEN {
            assert(out@ =~= sha@);
        }
    }
    string_of(&out)
}

} // verus!
