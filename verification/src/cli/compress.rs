//! Which published files are compressed.

use vstd::prelude::*;
use crate::text::{chars_of, copy_range, rfind_char, starts_with, starts_with_chars, chars_eq, last_index_of};

verus! {

/// The extension of a file name as `std::path::Path::extension` reads it:
/// what follows the last `.`, unless there is none or the only one leads
/// the name.
pub open spec fn extension_of(name: Seq<char>) -> Option<Seq<char>> {
    if exists|k: int| #[trigger] last_index_of(name, '.', k) && k > 0 {
        let k = choose|k: int| #[trigger] last_index_of(name, '.', k) && k > 0;
        Some(name.subrange(k + 1, name.len() as int))
    } else {
        None
    }
}

/// A file named `name` is compressed: a `.json` or `.ndjson` file, but no
/// `search.db` file (which is read by ranges).
pub open spec fn compress_target_spec(name: Seq<char>) -> bool {
    &&& !starts_with(name, "search.db"@)
    &&& (extension_of(name) == Some("json"@) || extension_of(name) == Some("ndjson"@))
}

proof fn lemma_last_dot_unique(s: Seq<char>, i: int, j: int)
    requires
        last_index_of(s, '.', i),
        last_index_of(s, '.', j),
    ensures
        i == j,
{
}

/// The extension of the file named `file_name`, as characters.
pub fn extension_exec(file_name: &str) -> (r: Option<Vec<char>>)
    ensures
        match r {
            Some(e) => extension_of(file_name@) == Some(e@),
            None => extension_of(file_name@) is None,
        },
{
    let cs = chars_of(file_name);
    match rfind_char(&cs, '.') {
        None => {
            proof {
                assert forall|k: int| !(#[trigger] last_index_of(file_name@, '.', k) && k > 0) by {}
            }
            None
        },
        Some(k) => {
            if k == 0 {
                proof {
                    assert forall|j: int| !(#[trigger] last_index_of(file_name@, '.', j) && j > 0) by {
                        if last_index_of(file_name@, '.', j) {
                            lemma_last_dot_unique(file_name@, j, 0);
                        }
                    }
                }
                return None;
            }
            assert(cs@ == file_name@);
            assert(k < cs.len());
            let ext = copy_range(&cs, k + 1, cs.len());
            proof {
                assert(last_index_of(file_name@, '.', k as int) && k > 0);
                let c = choose|j: int| #[trigger] last_index_of(file_name@, '.', j) && j > 0;
                lemma_last_dot_unique(file_name@, c, k as int);
            }
            Some(ext)
        },
    }
}

/// Whether the file named `file_name` is to be compressed.
pub fn is_compress_target(file_name: &str) -> (b: bool)
    ensures
        b == compress_target_spec(file_name@),
{
    proof {
        reveal_strlit("search.db");
        reveal_strlit("json");
        reveal_strlit("ndjson");
    }
    if starts_with_chars(&chars_of(file_name), &chars_of("search.db")) {
        return false;
    }
    match extension_exec(file_name) {
        None => false,
        Some(ext) => chars_eq(&ext, &chars_of("json")) || chars_eq(&ext, &chars_of("ndjson")),
    }
}

} // verus!
