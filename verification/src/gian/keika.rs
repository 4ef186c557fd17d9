//! The progress page of a bill (`keika/{ID}.htm`) read into a `Bill`.
//!
//! The page is a table of item names (KOMOKU) and contents (NAIYO).  Values
//! such as 「令和 8年 6月12日 ／ 政治改革に関する特別」 pair a date with a
//! committee or an outcome, split at the full-width slash.
use vstd::prelude::*;
use super::dates::{wareki_overflows, wareki_overflows_exec, wareki_to_iso_chars, wareki_to_iso_spec};
use super::model::{Bill, BillMeta, BillSource, KeyValue};
use crate::num::{parse_u32, parse_u32_spec};
use crate::scan::{
    ascii_digits, ascii_digits_exec, before_char, before_char_exec, chars_lt, second_part,
    second_part_exec, seq_lt,
};
use crate::text::{
    chars_eq, chars_of, copy_opt, is_ascii_digit, opt_view, string_of, strings_of, trim,
    trim_chars,
};

verus! {

/// The full-width slash that separates the parts of a progress value.
pub open spec fn slash() -> char {
    '／'
}

/// The date part of `v`: what comes before the first slash, trimmed.
pub open spec fn before_slash_spec(v: Seq<char>) -> Seq<char> {
    trim(before_char(v, slash()))
}

/// The part after the first slash (up to a second one), trimmed, when not
/// empty.
pub open spec fn after_slash_spec(v: Seq<char>) -> Option<Seq<char>> {
    match second_part(v, slash()) {
        Some(p) => if trim(p).len() > 0 { Some(trim(p)) } else { None },
        None => None,
    }
}

/// The part of a 「日付／委員会」 value before the slash, trimmed.
pub fn before_slash_chars(v: &[char]) -> (out: Vec<char>)
    ensures
        out@ == before_slash_spec(v@),
{
    let head = before_char_exec(v, '／');
    trim_chars(&head)
}

/// The part of a 「日付／委員会」 value after the slash, trimmed, if not empty.
pub fn after_slash_chars(v: &[char]) -> (out: Option<String>)
    ensures
        opt_view(out) == after_slash_spec(v@),
{
    match second_part_exec(v, '／') {
        Some(p) => {
            let t = trim_chars(&p);
            if t.len() > 0 {
                Some(string_of(&t))
            } else {
                None
            }
        },
        None => None,
    }
}

/// The rows of a progress page as (item, content) pairs.
pub open spec fn kv_pairs(fields: Seq<KeyValue>) -> Seq<(Seq<char>, Seq<char>)> {
    Seq::new(fields.len(), |i: int| (fields[i].key@, fields[i].value@))
}

/// The content of the first row named `key`.
pub open spec fn first_value(pairs: Seq<(Seq<char>, Seq<char>)>, key: Seq<char>) -> Option<Seq<char>>
    decreases pairs.len(),
{
    if pairs.len() == 0 {
        None
    } else if pairs[0].0 == key {
        Some(pairs[0].1)
    } else {
        first_value(pairs.drop_first(), key)
    }
}

/// The content of the first row named `key`, unless it is empty.
pub open spec fn get_nonempty(pairs: Seq<(Seq<char>, Seq<char>)>, key: Seq<char>) -> Option<Seq<char>> {
    match first_value(pairs, key) {
        Some(v) => if v.len() > 0 { Some(v) } else { None },
        None => None,
    }
}

/// Index of the first row named `key`.
fn find_row(fields: &Vec<KeyValue>, key: &[char]) -> (r: Option<usize>)
    ensures
        match r {
            Some(i) => i < fields.len() && first_value(kv_pairs(fields@), key@) == Some(fields@[i as int].value@),
            None => first_value(kv_pairs(fields@), key@) is None,
        },
{
    let mut i: usize = 0;
    assert(kv_pairs(fields@).skip(0) =~= kv_pairs(fields@));
    while i < fields.len()
        invariant
            i <= fields.len(),
            first_value(kv_pairs(fields@), key@) == first_value(kv_pairs(fields@).skip(i as int), key@),
        decreases fields.len() - i,
    {
        let ghost rest = kv_pairs(fields@).skip(i as int);
        assert(rest[0] == (fields@[i as int].key@, fields@[i as int].value@));
        assert(rest.drop_first() =~= kv_pairs(fields@).skip(i + 1));
        let k = chars_of(fields[i].key.as_str());
        if chars_eq(&k, key) {
            return Some(i);
        }
        i = i + 1;
    }
    assert(kv_pairs(fields@).skip(i as int).len() == 0);
    None
}

/// The rows that `latest_event` considers, most significant first.
pub open spec fn candidate(i: int) -> (Seq<char>, Seq<char>) {
    if i == 0 {
        ("公布年月日／法律番号"@, "公布"@)
    } else if i == 1 {
        ("衆議院審議終了年月日／衆議院審議結果"@, "審議終了(衆)"@)
    } else if i == 2 {
        ("参議院審議終了年月日／参議院審議結果"@, "審議終了(参)"@)
    } else if i == 3 {
        ("衆議院付託年月日／衆議院付託委員会"@, "委員会付託(衆)"@)
    } else if i == 4 {
        ("参議院付託年月日／参議院付託委員会"@, "委員会付託(参)"@)
    } else if i == 5 {
        ("衆議院議案受理年月日"@, "受理(衆)"@)
    } else {
        ("参議院議案受理年月日"@, "受理(参)"@)
    }
}

/// Number of rows `latest_event` considers.
pub const CANDIDATE_COUNT: usize = 7;

fn candidate_exec(i: usize) -> (r: (&'static str, &'static str))
    requires
        i < CANDIDATE_COUNT,
    ensures
        (r.0@, r.1@) == candidate(i as int),
{
    if i == 0 {
        ("公布年月日／法律番号", "公布")
    } else if i == 1 {
        ("衆議院審議終了年月日／衆議院審議結果", "審議終了(衆)")
    } else if i == 2 {
        ("参議院審議終了年月日／参議院審議結果", "審議終了(参)")
    } else if i == 3 {
        ("衆議院付託年月日／衆議院付託委員会", "委員会付託(衆)")
    } else if i == 4 {
        ("参議院付託年月日／参議院付託委員会", "委員会付託(参)")
    } else if i == 5 {
        ("衆議院議案受理年月日", "受理(衆)")
    } else {
        ("参議院議案受理年月日", "受理(参)")
    }
}

/// The ISO date of candidate row `i`, if the row exists and its date reads.
pub open spec fn candidate_date(pairs: Seq<(Seq<char>, Seq<char>)>, i: int) -> Option<Seq<char>> {
    match first_value(pairs, candidate(i).0) {
        Some(raw) => wareki_to_iso_spec(before_slash_spec(raw)),
        None => None,
    }
}

/// The date of candidate row `i` does not overflow when read.
pub open spec fn candidate_reads(pairs: Seq<(Seq<char>, Seq<char>)>, i: int) -> bool {
    match first_value(pairs, candidate(i).0) {
        Some(raw) => !wareki_overflows(before_slash_spec(raw)),
        None => true,
    }
}

/// Every candidate row's date can be read.
pub open spec fn candidates_read(pairs: Seq<(Seq<char>, Seq<char>)>) -> bool {
    forall|i: int| 0 <= i < CANDIDATE_COUNT ==> #[trigger] candidate_reads(pairs, i)
}

/// The latest step among the first `n` candidates: a later date replaces
/// the best so far, an equal one does not.
pub open spec fn latest_upto(pairs: Seq<(Seq<char>, Seq<char>)>, n: nat) -> Option<(Seq<char>, Seq<char>)>
    decreases n,
{
    if n == 0 {
        None
    } else {
        let best = latest_upto(pairs, (n - 1) as nat);
        match candidate_date(pairs, n - 1) {
            None => best,
            Some(iso) => match best {
                None => Some((iso, candidate(n - 1).1)),
                Some((d, l)) => if seq_lt(d, iso) {
                    Some((iso, candidate(n - 1).1))
                } else {
                    best
                },
            },
        }
    }
}

/// The date and label of the latest step of a bill.
pub open spec fn latest_event_spec(pairs: Seq<(Seq<char>, Seq<char>)>) -> Option<(Seq<char>, Seq<char>)> {
    latest_upto(pairs, CANDIDATE_COUNT as nat)
}

/// The newest of promulgation, end of deliberation, referral and receipt
/// (each house), as an ISO date and its label; the earlier row in
/// `candidate` order wins a tie.
pub fn latest_event(fields: &Vec<KeyValue>) -> (r: (Option<String>, Option<String>))
    requires
        candidates_read(kv_pairs(fields@)),
    ensures
        match latest_event_spec(kv_pairs(fields@)) {
            Some((d, l)) => opt_view(r.0) == Some(d) && opt_view(r.1) == Some(l),
            None => r.0 is None && r.1 is None,
        },
{
    let ghost pairs = kv_pairs(fields@);
    let mut best: Option<(Vec<char>, &'static str)> = None;
    let mut i: usize = 0;
    while i < CANDIDATE_COUNT
        invariant
            i <= CANDIDATE_COUNT,
            pairs == kv_pairs(fields@),
            candidates_read(pairs),
            match latest_upto(pairs, i as nat) {
                Some((d, l)) => best matches Some((bd, bl)) && bd@ == d && bl@ == l,
                None => best is None,
            },
        decreases CANDIDATE_COUNT - i,
    {
        let (key, label) = candidate_exec(i);
        let kc = chars_of(key);
        assert(candidate_reads(pairs, i as int));
        match find_row(fields, &kc) {
            Some(k) => {
                let raw = chars_of(fields[k].value.as_str());
                let date = before_slash_chars(&raw);
                match wareki_to_iso_chars(&date) {
                    Some(iso) => {
                        let isoc = chars_of(iso.as_str());
                        let replace = match &best {
                            None => true,
                            Some((d, _)) => chars_lt(d, &isoc),
                        };
                        if replace {
                            best = Some((isoc, label));
                        }
                    },
                    None => {},
                }
            },
            None => {},
        }
        i = i + 1;
    }
    match best {
        Some((d, l)) => (Some(string_of(&d)), Some(l.to_owned())),
        None => (None, None),
    }
}

/// The rows of a progress page from its item and content cells: paired in
/// order (the shorter list decides), rows with an empty item dropped.
pub open spec fn cell_pairs(keys: Seq<Seq<char>>, vals: Seq<Seq<char>>, n: nat) -> Seq<(Seq<char>, Seq<char>)>
    decreases n,
{
    if n == 0 {
        Seq::empty()
    } else {
        let f = cell_pairs(keys, vals, (n - 1) as nat);
        if keys[n - 1].len() > 0 {
            f.push((keys[n - 1], vals[n - 1]))
        } else {
            f
        }
    }
}

/// The rows of a page whose item cells read `keys` and content cells `vals`.
pub open spec fn page_rows(keys: Seq<Seq<char>>, vals: Seq<Seq<char>>) -> Seq<(Seq<char>, Seq<char>)> {
    cell_pairs(keys, vals, if keys.len() <= vals.len() { keys.len() } else { vals.len() })
}

/// `get(a).and_then(after_slash).or_else(|| get(b).and_then(after_slash))`.
pub open spec fn slash_value_either(pairs: Seq<(Seq<char>, Seq<char>)>, a: Seq<char>, b: Seq<char>) -> Option<Seq<char>> {
    let first = match get_nonempty(pairs, a) {
        Some(v) => after_slash_spec(v),
        None => None,
    };
    match first {
        Some(x) => Some(x),
        None => match get_nonempty(pairs, b) {
            Some(v) => after_slash_spec(v),
            None => None,
        },
    }
}

/// The session a progress page states, else `fallback`.
pub open spec fn page_session(pairs: Seq<(Seq<char>, Seq<char>)>, fallback: u32) -> u32 {
    match get_nonempty(pairs, "議案提出回次"@) {
        Some(v) => match parse_u32_spec(ascii_digits(v)) {
            Some(n) => n,
            None => fallback,
        },
        None => fallback,
    }
}

/// The bill that a progress page with rows `pairs` describes.
pub open spec fn keika_bill(
    b: Bill,
    pairs: Seq<(Seq<char>, Seq<char>)>,
    meta: BillMeta,
    fetched_at: Seq<char>,
) -> bool {
    let kofu = get_nonempty(pairs, "公布年月日／法律番号"@);
    &&& b.schema_version == 1
    &&& b.bill_id@ == meta.bill_id@
    &&& kv_pairs(b.fields@) == pairs
    &&& b.session == page_session(pairs, meta.session)
    &&& opt_view(b.bill_type) == get_nonempty(pairs, "議案種類"@)
    &&& opt_view(b.number) == get_nonempty(pairs, "議案番号"@)
    &&& b.title@ == match get_nonempty(pairs, "議案件名"@) {
        Some(t) => t,
        None => meta.title@,
    }
    &&& opt_view(b.submitter) == get_nonempty(pairs, "議案提出者"@)
    &&& opt_view(b.parties) == get_nonempty(pairs, "議案提出会派"@)
    &&& opt_view(b.committee) == slash_value_either(
        pairs,
        "衆議院付託年月日／衆議院付託委員会"@,
        "参議院付託年月日／参議院付託委員会"@,
    )
    &&& opt_view(b.result) == slash_value_either(
        pairs,
        "衆議院審議終了年月日／衆議院審議結果"@,
        "参議院審議終了年月日／参議院審議結果"@,
    )
    &&& opt_view(b.promulgation_date) == match kofu {
        Some(v) => if before_slash_spec(v).len() > 0 { Some(before_slash_spec(v)) } else { None },
        None => None,
    }
    &&& opt_view(b.law_num) == match kofu {
        Some(v) => after_slash_spec(v),
        None => None,
    }
    &&& match latest_event_spec(pairs) {
        Some((d, l)) => opt_view(b.latest_date) == Some(d) && opt_view(b.latest_event) == Some(l),
        None => b.latest_date is None && b.latest_event is None,
    }
    &&& opt_view(b.status) == opt_view(meta.status)
    &&& b.documents.len() == 0
    &&& b.source.provider@ == "shugiin"@
    &&& b.source.fetched_at@ == fetched_at
    &&& b.source.detail_url@ == meta.keika_url@
}

/// `get(key)`: the first row named `key`, its content if not empty.
fn get_nonempty_exec(fields: &Vec<KeyValue>, key: &str) -> (r: Option<String>)
    ensures
        opt_view(r) == get_nonempty(kv_pairs(fields@), key@),
{
    let kc = chars_of(key);
    match find_row(fields, &kc) {
        Some(i) => {
            if fields[i].value.as_str().is_empty() {
                None
            } else {
                Some(fields[i].value.clone())
            }
        },
        None => None,
    }
}

fn slash_value_either_exec(fields: &Vec<KeyValue>, a: &str, b: &str) -> (r: Option<String>)
    ensures
        opt_view(r) == slash_value_either(kv_pairs(fields@), a@, b@),
{
    let first = match get_nonempty_exec(fields, a) {
        Some(v) => {
            let c = chars_of(v.as_str());
            after_slash_chars(&c)
        },
        None => None,
    };
    match first {
        Some(x) => Some(x),
        None => match get_nonempty_exec(fields, b) {
            Some(v) => {
                let c = chars_of(v.as_str());
                after_slash_chars(&c)
            },
            None => None,
        },
    }
}

/// The fields of a bill from the cells of its progress page: `keys` are
/// the item cells and `vals` the content cells, each already
/// whitespace-normalized, in document order.  The page's session (digits
/// of 「議案提出回次」) and title override the list's; committee and outcome
/// prefer the House of Representatives; the latest step is
/// `latest_event`'s.
pub fn keika_from_cells(keys: &Vec<String>, vals: &Vec<String>, meta: &BillMeta, fetched_at: &str) -> (b: Bill)
    requires
        candidates_read(page_rows(strings_of(keys@), strings_of(vals@))),
    ensures
        keika_bill(b, page_rows(strings_of(keys@), strings_of(vals@)), *meta, fetched_at@),
{
    let n = if keys.len() <= vals.len() { keys.len() } else { vals.len() };
    let ghost ks = strings_of(keys@);
    let ghost vs = strings_of(vals@);
    let mut fields: Vec<KeyValue> = Vec::new();
    let mut i: usize = 0;
    while i < n
        invariant
            i <= n,
            n <= keys.len(),
            n <= vals.len(),
            ks == strings_of(keys@),
            vs == strings_of(vals@),
            kv_pairs(fields@) == cell_pairs(ks, vs, i as nat),
        decreases n - i,
    {
        if !keys[i].as_str().is_empty() {
            let ghost before = fields@;
            fields.push(KeyValue { key: keys[i].clone(), value: vals[i].clone() });
            assert(kv_pairs(fields@) =~= kv_pairs(before).push((ks[i as int], vs[i as int])));
        }
        i = i + 1;
    }
    let ghost pairs = page_rows(ks, vs);
    assert(kv_pairs(fields@) == pairs);
    let bill_type = get_nonempty_exec(&fields, "議案種類");
    let number = get_nonempty_exec(&fields, "議案番号");
    let session = match get_nonempty_exec(&fields, "議案提出回次") {
        Some(v) => {
            let c = chars_of(v.as_str());
            let d = ascii_digits_exec(&c);
            match parse_u32(&d) {
                Some(s) => s,
                None => meta.session,
            }
        },
        None => meta.session,
    };
    let title = match get_nonempty_exec(&fields, "議案件名") {
        Some(t) => t,
        None => meta.title.clone(),
    };
    let submitter = get_nonempty_exec(&fields, "議案提出者");
    let parties = get_nonempty_exec(&fields, "議案提出会派");
    let committee = slash_value_either_exec(
        &fields,
        "衆議院付託年月日／衆議院付託委員会",
        "参議院付託年月日／参議院付託委員会",
    );
    let result = slash_value_either_exec(
        &fields,
        "衆議院審議終了年月日／衆議院審議結果",
        "参議院審議終了年月日／参議院審議結果",
    );
    let kofu = get_nonempty_exec(&fields, "公布年月日／法律番号");
    let (promulgation_date, law_num) = match kofu {
        Some(v) => {
            let c = chars_of(v.as_str());
            let d = before_slash_chars(&c);
            let pd = if d.len() > 0 { Some(string_of(&d)) } else { None };
            (pd, after_slash_chars(&c))
        },
        None => (None, None),
    };
    let (latest_date, latest_ev) = latest_event(&fields);
    Bill {
        schema_version: 1,
        bill_id: meta.bill_id.clone(),
        session,
        bill_type,
        number,
        title,
        submitter,
        parties,
        committee,
        result,
        promulgation_date,
        law_num,
        latest_date,
        latest_event: latest_ev,
        status: copy_opt(&meta.status),
        fields,
        documents: Vec::new(),
        source: BillSource {
            provider: "shugiin".to_owned(),
            fetched_at: fetched_at.to_owned(),
            detail_url: meta.keika_url.clone(),
        },
    }
}

/// Whether `keika_from_cells` can read every candidate date of these cells.
pub fn cells_readable(keys: &Vec<String>, vals: &Vec<String>) -> (ok: bool)
    ensures
        ok == candidates_read(page_rows(strings_of(keys@), strings_of(vals@))),
{
    let n = if keys.len() <= vals.len() { keys.len() } else { vals.len() };
    let ghost ks = strings_of(keys@);
    let ghost vs = strings_of(vals@);
    let mut fields: Vec<KeyValue> = Vec::new();
    let mut i: usize = 0;
    while i < n
        invariant
            i <= n,
            n <= keys.len(),
            n <= vals.len(),
            ks == strings_of(keys@),
            vs == strings_of(vals@),
            kv_pairs(fields@) == cell_pairs(ks, vs, i as nat),
        decreases n - i,
    {
        if !keys[i].as_str().is_empty() {
            let ghost before = fields@;
            fields.push(KeyValue { key: keys[i].clone(), value: vals[i].clone() });
            assert(kv_pairs(fields@) =~= kv_pairs(before).push((ks[i as int], vs[i as int])));
        }
        i = i + 1;
    }
    let ghost pairs = page_rows(ks, vs);
    assert(kv_pairs(fields@) == pairs);
    let mut k: usize = 0;
    while k < CANDIDATE_COUNT
        invariant
            k <= CANDIDATE_COUNT,
            pairs == kv_pairs(fields@),
            pairs == page_rows(strings_of(keys@), strings_of(vals@)),
            forall|j: int| 0 <= j < k ==> #[trigger] candidate_reads(pairs, j),
        decreases CANDIDATE_COUNT - k,
    {
        let (key, _) = candidate_exec(k);
        let kc = chars_of(key);
        match find_row(&fields, &kc) {
            Some(r) => {
                let raw = chars_of(fields[r].value.as_str());
                let date = before_slash_chars(&raw);
                if wareki_overflows_exec(&date) {
                    assert(!candidate_reads(pairs, k as int));
                    return false;
                }
            },
            None => {},
        }
        k = k + 1;
    }
    true
}

/// The date part of a 「日付／委員会」 value: before the slash, trimmed.
pub fn before_slash(v: &str) -> (out: String)
    ensures
        out@ == before_slash_spec(v@),
{
    let c = chars_of(v);
    let b = before_slash_chars(&c);
    string_of(&b)
}

/// The part of a 「日付／委員会」 value after the slash, trimmed, if not empty.
pub fn after_slash(v: &str) -> (out: Option<String>)
    ensures
        opt_view(out) == after_slash_spec(v@),
{
    let c = chars_of(v);
    after_slash_chars(&c)
}

} // verus!
