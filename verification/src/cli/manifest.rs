//! The manifest of the published tree: the media type of each file, and
//! what a validation reports for a file whose content differs.

use vstd::prelude::*;
use crate::cli::compress::{extension_of, extension_exec};
use crate::gian::lists::{ascii_lower, ascii_lower_exec};
use crate::num::{dec, u64_to_chars};
use crate::text::{append_chars, chars_eq, chars_of, string_of, strings_of};

verus! {

/// The media type the manifest gives a file with extension `ext` (any
/// letter case).
pub open spec fn content_type_for(ext: Seq<char>) -> Seq<char> {
    let e = ascii_lower(ext);
    if e == "json"@ {
        "application/json"@
    } else if e == "ndjson"@ {
        "application/x-ndjson"@
    } else if e == "xml"@ {
        "application/xml"@
    } else if e == "txt"@ {
        "text/plain"@
    } else if e == "db"@ || e == "sqlite"@ || e == "sqlite3"@ {
        "application/vnd.sqlite3"@
    } else {
        "application/octet-stream"@
    }
}

/// The media type of the file named `file_name`, by its extension (none
/// counting as an empty one).
pub fn content_type_of(file_name: &str) -> (t: &'static str)
    ensures
        t@ == content_type_for(
            match extension_of(file_name@) {
                Some(e) => e,
                None => Seq::empty(),
            },
        ),
{
    let ext = match extension_exec(file_name) {
        Some(e) => e,
        None => Vec::new(),
    };
    let e = ascii_lower_exec(&ext);
    proof {
        reveal_strlit("json");
        reveal_strlit("ndjson");
        reveal_strlit("xml");
        reveal_strlit("txt");
        reveal_strlit("db");
        reveal_strlit("sqlite");
        reveal_strlit("sqlite3");
    }
    if chars_eq(&e, &chars_of("json")) {
        "application/json"
    } else if chars_eq(&e, &chars_of("ndjson")) {
        "application/x-ndjson"
    } else if chars_eq(&e, &chars_of("xml")) {
        "application/xml"
    } else if chars_eq(&e, &chars_of("txt")) {
        "text/plain"
    } else if chars_eq(&e, &chars_of("db")) || chars_eq(&e, &chars_of("sqlite")) || chars_eq(&e, &chars_of("sqlite3")) {
        "application/vnd.sqlite3"
    } else {
        "application/octet-stream"
    }
}

/// The message for a file whose hash differs from the manifest's.
pub open spec fn sha_mismatch(path: Seq<char>, listed: Seq<char>, actual: Seq<char>) -> Seq<char> {
    path + ": sha256 mismatch (manifest="@ + listed + ", actual="@ + actual + ")"@
}

/// The message for a file whose size differs from the manifest's.
pub open spec fn size_mismatch(path: Seq<char>, listed: u64, actual: u64) -> Seq<char> {
    path + ": size mismatch (manifest="@ + dec(listed as nat) + ", actual="@ + dec(actual as nat) + ")"@
}

/// What validation reports for one manifest entry: a hash mismatch, then
/// a size mismatch, each where it occurs.
pub open spec fn entry_errors_spec(path: Seq<char>, listed_sha: Seq<char>, listed_bytes: u64, actual_sha: Seq<char>, actual_bytes: u64) -> Seq<Seq<char>> {
    (if listed_sha != actual_sha { seq![sha_mismatch(path, listed_sha, actual_sha)] } else { Seq::empty() })
        + (if listed_bytes != actual_bytes { seq![size_mismatch(path, listed_bytes, actual_bytes)] } else { Seq::empty() })
}

/// The errors for the manifest entry `path`, listed with `listed_sha` and
/// `listed_bytes`, whose file hashes to `actual_sha` and has
/// `actual_bytes` bytes.
pub fn entry_errors(path: &str, listed_sha: &str, listed_bytes: u64, actual_sha: &str, actual_bytes: u64) -> (out: Vec<String>)
    ensures
        strings_of(out@) == entry_errors_spec(path@, listed_sha@, listed_bytes, actual_sha@, actual_bytes),
{
    let mut out: Vec<String> = Vec::new();
    let ls = chars_of(listed_sha);
    let as_ = chars_of(actual_sha);
    if !chars_eq(&ls, &as_) {
        let mut m = chars_of(path);
        append_chars(&mut m, &chars_of(": sha256 mismatch (manifest="));
        append_chars(&mut m, &ls);
        append_chars(&mut m, &chars_of(", actual="));
        append_chars(&mut m, &as_);
        append_chars(&mut m, &chars_of(")"));
        out.push(string_of(&m));
    }
    let ghost first = strings_of(out@);
    if listed_bytes != actual_bytes {
        let mut m = chars_of(path);
        append_chars(&mut m, &chars_of(": size mismatch (manifest="));
        append_chars(&mut m, &u64_to_chars(listed_bytes));
        append_chars(&mut m, &chars_of(", actual="));
        append_chars(&mut m, &u64_to_chars(actual_bytes));
        append_chars(&mut m, &chars_of(")"));
        let s = string_of(&m);
        proof {
            crate::text::lemma_strings_of_push(out@, s);
        }
        out.push(s);
    }
    assert(strings_of(out@) =~= entry_errors_spec(path@, listed_sha@, listed_bytes, actual_sha@, actual_bytes));
    out
}

} // verus!
