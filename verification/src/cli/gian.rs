//! The published bill and resolution indexes: which bills a resolution
//! concerns, and the order of the index entries.
use vstd::prelude::*;
use crate::json::{json_at, json_u64, str_at, str_field, str_field_or_empty, JsonValue};
use crate::linking::{keys_view, or_empty, sort_order, sorted_order, SortKey};
use crate::text::{chars_of, contains, contains_chars, is_whitespace, is_ws, string_of};

verus! {

/// A title reduced to what identifies it: whitespace and the separators
/// ・、，, dropped.
pub open spec fn title_key(s: Seq<char>) -> Seq<char>
    decreases s.len(),
{
    if s.len() == 0 {
        Seq::empty()
    } else {
        let prev = title_key(s.drop_last());
        let c = s.last();
        if is_ws(c) || c == '・' || c == '、' || c == '，' || c == ',' {
            prev
        } else {
            prev.push(c)
        }
    }
}

/// `title_key` of a string.
pub fn normalize_title(value: &str) -> (out: String)
    ensures
        out@ == title_key(value@),
{
    let s = chars_of(value);
    let mut out: Vec<char> = Vec::new();
    let mut i: usize = 0;
    while i < s.len()
        invariant
            i <= s.len(),
            out@ == title_key(s@.take(i as int)),
        decreases s.len() - i,
    {
        assert(s@.take(i + 1).drop_last() =~= s@.take(i as int));
        let c = s[i];
        if !(is_whitespace(c) || c == '・' || c == '、' || c == '，' || c == ',') {
            out.push(c);
        }
        i = i + 1;
    }
    assert(s@.take(s.len() as int) =~= s@);
    string_of(&out)
}

/// The session of a bill entry, when it is a non-negative integer.
pub open spec fn bill_session(b: JsonValue) -> Option<u64> {
    json_u64(json_at(b, "session"@))
}

/// The title key of a bill entry.
pub open spec fn bill_key(b: JsonValue) -> Seq<char> {
    title_key(or_empty(str_at(b, "title"@)))
}

/// A bill that a resolution of session `rs` on the subject with key `sk`
/// may concern: submitted in that session or before, with a title that
/// the subject names.
pub open spec fn bill_candidate(b: JsonValue, rs: u64, sk: Seq<char>) -> bool {
    &&& bill_session(b) is Some
    &&& bill_session(b).unwrap() <= rs
    &&& bill_key(b).len() > 0
    &&& contains(sk, bill_key(b))
}

/// Bill `i` is a candidate of the latest session among the candidates
/// with its title.
pub open spec fn bill_related(bills: Seq<JsonValue>, rs: u64, sk: Seq<char>, i: int) -> bool {
    &&& bill_candidate(bills[i], rs, sk)
    &&& forall|j: int|
        0 <= j < bills.len() && bill_candidate(#[trigger] bills[j], rs, sk) && bill_key(bills[j]) == bill_key(bills[i])
            ==> bill_session(bills[j]).unwrap() <= bill_session(bills[i]).unwrap()
}

/// The related bills among the first `n`, in order.
pub open spec fn related_upto(bills: Seq<JsonValue>, rs: u64, sk: Seq<char>, n: int) -> Seq<usize>
    decreases n,
{
    if n <= 0 {
        Seq::empty()
    } else {
        let prev = related_upto(bills, rs, sk, n - 1);
        if bill_related(bills, rs, sk, n - 1) {
            prev.push((n - 1) as usize)
        } else {
            prev
        }
    }
}

fn bill_key_exec(b: &JsonValue) -> (k: Vec<char>)
    ensures
        k@ == bill_key(*b),
{
    let t = str_field_or_empty(b, "title");
    chars_of(normalize_title(t.as_str()).as_str())
}

fn bill_session_exec(b: &JsonValue) -> (r: Option<u64>)
    ensures
        r == bill_session(*b),
{
    match b.get("session") {
        Some(v) => v.as_u64(),
        None => None,
    }
}

fn is_candidate(b: &JsonValue, rs: u64, sk: &[char]) -> (r: bool)
    ensures
        r == bill_candidate(*b, rs, sk@),
{
    match bill_session_exec(b) {
        Some(s) => {
            if s > rs {
                return false;
            }
            let k = bill_key_exec(b);
            k.len() > 0 && contains_chars(sk, &k)
        },
        None => false,
    }
}

/// The bills that a supplementary resolution of session
/// `resolution_session` on `subject` concerns, as positions in `bills`:
/// bills submitted in that session or before whose title (whitespace and
/// separators ignored) the subject names, and among those with the same
/// title only the ones of the latest session, so that a bill carried over
/// to a later session is found there.
pub fn related_bills_for_resolution(resolution_session: u64, subject: &str, bills: &Vec<JsonValue>) -> (out: Vec<usize>)
    ensures
        out@ == related_upto(bills@, resolution_session, title_key(subject@), bills.len() as int),
{
    let sk = chars_of(normalize_title(subject).as_str());
    let mut out: Vec<usize> = Vec::new();
    let mut i: usize = 0;
    while i < bills.len()
        invariant
            i <= bills.len(),
            sk@ == title_key(subject@),
            out@ == related_upto(bills@, resolution_session, sk@, i as int),
        decreases bills.len() - i,
    {
        if is_candidate(&bills[i], resolution_session, &sk) {
            let key = bill_key_exec(&bills[i]);
            let si = match bill_session_exec(&bills[i]) {
                Some(s) => s,
                None => 0,
            };
            let mut latest = true;
            let mut j: usize = 0;
            while j < bills.len()
                invariant
                    j <= bills.len(),
                    key@ == bill_key(bills@[i as int]),
                    bill_candidate(bills@[i as int], resolution_session, sk@),
                    si == bill_session(bills@[i as int]).unwrap(),
                    latest == forall|q: int|
                        0 <= q < j && bill_candidate(#[trigger] bills@[q], resolution_session, sk@) && bill_key(bills@[q])
                            == bill_key(bills@[i as int]) ==> bill_session(bills@[q]).unwrap() <= si,
                decreases bills.len() - j,
            {
                if is_candidate(&bills[j], resolution_session, &sk) {
                    let kj = bill_key_exec(&bills[j]);
                    if crate::text::chars_eq(&kj, &key) {
                        let sj = match bill_session_exec(&bills[j]) {
                            Some(s) => s,
                            None => 0,
                        };
                        if sj > si {
                            latest = false;
                        }
                    }
                }
                proof {
                    if !latest {
                        assert(!(forall|q: int|
                            0 <= q < j + 1 && bill_candidate(#[trigger] bills@[q], resolution_session, sk@) && bill_key(bills@[q])
                                == bill_key(bills@[i as int]) ==> bill_session(bills@[q]).unwrap() <= si));
                    }
                }
                j = j + 1;
            }
            if latest {
                out.push(i);
            }
        }
        i = i + 1;
    }
    out
}

// ---------------------------------------------------------------------------
// Index order
// ---------------------------------------------------------------------------

/// The sort key of a bill entry of a session index: by number, smallest
/// first (entries without one first).
pub open spec fn number_key(b: JsonValue) -> SortKey {
    (0u64, Seq::empty(), or_empty(str_at(b, "number"@)))
}

/// The sort key of a bill entry of the overall index: by session, latest
/// first (entries without one last).
pub open spec fn session_key(b: JsonValue) -> SortKey {
    (
        match json_u64(json_at(b, "session"@)) {
            Some(s) => s,
            None => 0u64,
        },
        Seq::empty(),
        Seq::empty(),
    )
}

/// The sort key of a resolution entry: by date, latest first, entries
/// without a date last.
pub open spec fn resolution_date_key(r: JsonValue) -> SortKey {
    match str_at(r, "resolution_date"@) {
        Some(d) => (1u64, d, Seq::empty()),
        None => (0u64, Seq::empty(), Seq::empty()),
    }
}

/// The entries of a session's bill index in order of their numbers.
pub fn order_by_number(entries: &Vec<JsonValue>) -> (order: Vec<usize>)
    ensures
        sorted_order(Seq::new(entries.len() as nat, |i: int| number_key(entries@[i])), order@),
{
    let mut keys: Vec<(u64, String, String)> = Vec::new();
    let mut i: usize = 0;
    while i < entries.len()
        invariant
            i <= entries.len(),
            keys_view(keys@) =~= Seq::new(i as nat, |k: int| number_key(entries@[k])),
        decreases entries.len() - i,
    {
        let ghost before = keys_view(keys@);
        let n = str_field_or_empty(&entries[i], "number");
        keys.push((0u64, string_of(&Vec::new()), n));
        assert(keys_view(keys@) =~= before.push(number_key(entries@[i as int])));
        i = i + 1;
    }
    sort_order(&keys)
}

/// The entries of the overall bill index, latest session first.
pub fn order_by_session(entries: &Vec<JsonValue>) -> (order: Vec<usize>)
    ensures
        sorted_order(Seq::new(entries.len() as nat, |i: int| session_key(entries@[i])), order@),
{
    let mut keys: Vec<(u64, String, String)> = Vec::new();
    let mut i: usize = 0;
    while i < entries.len()
        invariant
            i <= entries.len(),
            keys_view(keys@) =~= Seq::new(i as nat, |k: int| session_key(entries@[k])),
        decreases entries.len() - i,
    {
        let ghost before = keys_view(keys@);
        let s = match bill_session_exec(&entries[i]) {
            Some(s) => s,
            None => 0,
        };
        keys.push((s, string_of(&Vec::new()), string_of(&Vec::new())));
        assert(keys_view(keys@) =~= before.push(session_key(entries@[i as int])));
        i = i + 1;
    }
    sort_order(&keys)
}

/// Resolution entries, latest resolution date first, undated ones last.
pub fn order_by_resolution_date(entries: &Vec<JsonValue>) -> (order: Vec<usize>)
    ensures
        sorted_order(Seq::new(entries.len() as nat, |i: int| resolution_date_key(entries@[i])), order@),
{
    let mut keys: Vec<(u64, String, String)> = Vec::new();
    let mut i: usize = 0;
    while i < entries.len()
        invariant
            i <= entries.len(),
            keys_view(keys@) =~= Seq::new(i as nat, |k: int| resolution_date_key(entries@[k])),
        decreases entries.len() - i,
    {
        let ghost before = keys_view(keys@);
        match str_field(&entries[i], "resolution_date") {
            Some(d) => keys.push((1u64, d, string_of(&Vec::new()))),
            None => keys.push((0u64, string_of(&Vec::new()), string_of(&Vec::new()))),
        }
        assert(keys_view(keys@) =~= before.push(resolution_date_key(entries@[i as int])));
        i = i + 1;
    }
    sort_order(&keys)
}

} // verus!
