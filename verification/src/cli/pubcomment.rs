//! Decisions of the public-comment fetch: which listings to read, which
//! listed cases are new, which cached cases are stale, and where an
//! attachment is cached.

use vstd::prelude::*;
use crate::law_xml::{sha256_hex, sha256_hex_of};
use vstd::string::StringSliceAdditionalSpecFns;
use crate::json::{str_at, str_field_or_empty, JsonValue};
use crate::linking::{keys_view, or_empty, sort_order, sorted_order, SortKey};
use crate::text::{chars_eq, chars_of, copy_range, string_of, strings_of};

verus! {

/// The listing modes for a status: `open` reads the cases open for
/// comment (mode 0), `both` reads both, anything else the closed cases
/// with published results (mode 1).
pub open spec fn modes_spec(status: Seq<char>) -> Seq<u8> {
    if status == "open"@ {
        seq![0u8]
    } else if status == "both"@ {
        seq![0u8, 1u8]
    } else {
        seq![1u8]
    }
}

/// The listing modes to read for `status`.
pub fn modes_for(status: &str) -> (out: Vec<u8>)
    ensures
        out@ == modes_spec(status@),
{
    let s = chars_of(status);
    proof {
        reveal_strlit("open");
        reveal_strlit("both");
    }
    if chars_eq(&s, &chars_of("open")) {
        vec![0u8]
    } else if chars_eq(&s, &chars_of("both")) {
        vec![0u8, 1u8]
    } else {
        vec![1u8]
    }
}

/// The case at position `i` is new: neither seen before nor listed
/// earlier.
pub open spec fn is_fresh(ids: Seq<Seq<char>>, seen: Seq<Seq<char>>, i: int) -> bool {
    &&& !seen.contains(ids[i])
    &&& forall|j: int| 0 <= j < i ==> ids[j] != ids[i]
}

/// The positions among the first `n` listed cases that are new, in order.
pub open spec fn fresh_positions(ids: Seq<Seq<char>>, seen: Seq<Seq<char>>, n: int) -> Seq<usize>
    decreases n,
{
    if n <= 0 {
        Seq::empty()
    } else if is_fresh(ids, seen, n - 1) {
        fresh_positions(ids, seen, n - 1).push((n - 1) as usize)
    } else {
        fresh_positions(ids, seen, n - 1)
    }
}

/// The ids at the positions `ps`.
pub open spec fn ids_at(ids: Seq<Seq<char>>, ps: Seq<usize>) -> Seq<Seq<char>> {
    Seq::new(ps.len(), |k: int| ids[ps[k] as int])
}

fn contains_string(v: &Vec<String>, s: &str) -> (b: bool)
    ensures
        b == strings_of(v@).contains(s@),
{
    let cs = chars_of(s);
    let mut i: usize = 0;
    while i < v.len()
        invariant
            i <= v.len(),
            cs@ == s@,
            forall|j: int| 0 <= j < i ==> v@[j]@ != s@,
        decreases v.len() - i,
    {
        if chars_eq(&chars_of(v[i].as_str()), &cs) {
            assert(strings_of(v@)[i as int] == s@);
            return true;
        }
        i = i + 1;
    }
    proof {
        if strings_of(v@).contains(s@) {
            let j = choose|j: int| 0 <= j < strings_of(v@).len() && strings_of(v@)[j] == s@;
            assert(v@[j]@ == s@);
        }
    }
    false
}

/// The listed cases (by id, as positions in `ids`) that are new: a
/// listing may repeat a page, so cases already in `seen` or listed
/// earlier are dropped; the new ids are added to `seen`.
pub fn retain_unseen_cases(ids: &Vec<String>, seen: &mut Vec<String>) -> (out: Vec<usize>)
    ensures
        out@ == fresh_positions(strings_of(ids@), strings_of(old(seen)@), ids@.len() as int),
        strings_of(final(seen)@) == strings_of(old(seen)@) + ids_at(strings_of(ids@), out@),
        forall|j: int| 0 <= j < ids@.len() ==> strings_of(final(seen)@).contains(#[trigger] ids@[j]@),
{
    let ghost ids_v = strings_of(ids@);
    let ghost seen0 = strings_of(seen@);
    let mut out: Vec<usize> = Vec::new();
    let mut i: usize = 0;
    while i < ids.len()
        invariant
            i <= ids.len(),
            ids_v == strings_of(ids@),
            out@ == fresh_positions(ids_v, seen0, i as int),
            strings_of(seen@) == seen0 + ids_at(ids_v, out@),
            forall|k: int| 0 <= k < out@.len() ==> out@[k] < i,
            forall|j: int| 0 <= j < i ==> strings_of(seen@).contains(#[trigger] ids_v[j]),
            forall|x: Seq<char>| strings_of(seen@).contains(x) ==> seen0.contains(x) || exists|j: int| 0 <= j < i && ids_v[j] == x,
        decreases ids.len() - i,
    {
        let ghost before = strings_of(seen@);
        let present = contains_string(seen, ids[i].as_str());
        assert(ids_v[i as int] == ids@[i as int]@);
        if !present {
            proof {
                assert(!seen0.contains(ids_v[i as int])) by {
                    if seen0.contains(ids_v[i as int]) {
                        let k = choose|k: int| 0 <= k < seen0.len() && seen0[k] == ids_v[i as int];
                        assert(before[k] == seen0[k]);
                    }
                }
                assert forall|j: int| 0 <= j < i implies ids_v[j] != ids_v[i as int] by {
                    assert(before.contains(ids_v[j]));
                }
                assert(is_fresh(ids_v, seen0, i as int));
            }
            let id = ids[i].clone();
            assert(id@ == ids_v[i as int]);
            seen.push(id);
            out.push(i);
            proof {
                crate::text::lemma_strings_of_push(old(seen)@, id);
                assert(ids_at(ids_v, out@) =~= ids_at(ids_v, out@.drop_last()).push(ids_v[i as int]));
                assert(strings_of(seen@) =~= before.push(ids_v[i as int]));
                assert(strings_of(seen@) =~= seen0 + ids_at(ids_v, out@));
                assert forall|x: Seq<char>| strings_of(seen@).contains(x) implies seen0.contains(x) || exists|j: int| 0 <= j < i + 1 && ids_v[j] == x by {
                    let k = choose|k: int| 0 <= k < strings_of(seen@).len() && strings_of(seen@)[k] == x;
                    if k < before.len() {
                        assert(before.contains(x));
                    }
                }
                assert forall|j: int| 0 <= j < i + 1 implies strings_of(seen@).contains(#[trigger] ids_v[j]) by {
                    if j < i {
                        let k = choose|k: int| 0 <= k < before.len() && before[k] == ids_v[j];
                        assert(strings_of(seen@)[k] == ids_v[j]);
                    } else {
                        assert(strings_of(seen@)[before.len() as int] == ids_v[j]);
                    }
                }
            }
        } else {
            proof {
                assert(!is_fresh(ids_v, seen0, i as int)) by {
                    let x = ids_v[i as int];
                    assert(before.contains(x));
                    if !seen0.contains(x) {
                        let j = choose|j: int| 0 <= j < i && ids_v[j] == x;
                        assert(ids_v[j] == ids_v[i as int]);
                    }
                }
            }
        }
        i = i + 1;
    }
    assert forall|j: int| 0 <= j < ids@.len() implies strings_of(seen@).contains(#[trigger] ids@[j]@) by {
        assert(ids_v[j] == ids@[j]@);
    }
    out
}

/// A listing whose ids have all been seen yields no new case: so a page
/// that the source repeats, read again after it was read once, is
/// recognised as exhausted.
pub proof fn lemma_repeated_listing_is_exhausted(ids: Seq<Seq<char>>, seen: Seq<Seq<char>>)
    requires
        forall|j: int| 0 <= j < ids.len() ==> seen.contains(#[trigger] ids[j]),
    ensures
        fresh_positions(ids, seen, ids.len() as int) == Seq::<usize>::empty(),
{
    lemma_none_fresh(ids, seen, ids.len() as int);
}

proof fn lemma_none_fresh(ids: Seq<Seq<char>>, seen: Seq<Seq<char>>, n: int)
    requires
        0 <= n <= ids.len(),
        forall|j: int| 0 <= j < ids.len() ==> seen.contains(#[trigger] ids[j]),
    ensures
        fresh_positions(ids, seen, n) == Seq::<usize>::empty(),
    decreases n,
{
    if n > 0 {
        assert(seen.contains(ids[n - 1]));
        lemma_none_fresh(ids, seen, n - 1);
    }
}

/// A cached case is stale where it is still open for comment but no
/// longer listed among the open cases (`active`); closed cases are kept.
pub fn is_stale_open_case(status: &str, case_id: &str, active: &Vec<String>) -> (b: bool)
    ensures
        b == (status@ == "open"@ && !strings_of(active@).contains(case_id@)),
{
    proof {
        reveal_strlit("open");
    }
    chars_eq(&chars_of(status), &chars_of("open")) && !contains_string(active, case_id)
}

/// The cache key of an attachment: the first 24 hex digits of the SHA-256
/// of its URL.
pub fn attachment_cache_key(url: &str) -> (key: String)
    ensures
        key@ == sha256_hex_of(url.spec_bytes()).take(24),
{
    let h = sha256_hex(url.as_bytes());
    let cs = chars_of(h.as_str());
    string_of(&copy_range(&cs, 0, 24))
}

/// What becomes of an attachment listed again: its earlier record is kept
/// where its text came from the reader service, or where its original is
/// archived and was hashed; otherwise it is fetched.
#[derive(Debug, Clone, Copy, PartialEq, Eq)]
pub enum AttachmentPlan {
    /// Keep the earlier text that the reader service extracted.
    ReuseReaderText,
    /// Keep the earlier record of the archived original.
    ReuseArchived,
    /// Fetch the attachment.
    Fetch,
}

/// The earlier record of an attachment, as far as the plan reads it:
/// its extraction method, its extracted text, and whether it was hashed.
pub open spec fn plan_spec(
    previous: Option<(Option<Seq<char>>, Option<Seq<char>>, bool)>,
    raw_archived: bool,
) -> AttachmentPlan {
    match previous {
        Some((method, text, hashed)) => {
            if method == Some("jina-reader"@) && (text matches Some(t) && t.len() > 0) {
                AttachmentPlan::ReuseReaderText
            } else if raw_archived && hashed {
                AttachmentPlan::ReuseArchived
            } else {
                AttachmentPlan::Fetch
            }
        },
        None => AttachmentPlan::Fetch,
    }
}

/// The plan for an attachment whose earlier record (if any) has extraction
/// method `method`, extracted text `text` and a hash where `hashed`, and
/// whose original is archived where `raw_archived`.
pub fn attachment_plan(
    previous: Option<(Option<&str>, Option<&str>, bool)>,
    raw_archived: bool,
) -> (p: AttachmentPlan)
    ensures
        p == plan_spec(
            match previous {
                Some((m, t, h)) => Some((
                    match m { Some(x) => Some(x@), None => None },
                    match t { Some(x) => Some(x@), None => None },
                    h,
                )),
                None => None,
            },
            raw_archived,
        ),
{
    match previous {
        None => AttachmentPlan::Fetch,
        Some((method, text, hashed)) => {
            let reader = match method {
                Some(m) => chars_eq(&chars_of(m), &chars_of("jina-reader")),
                None => false,
            };
            let has_text = match text {
                Some(t) => chars_of(t).len() > 0,
                None => false,
            };
            if reader && has_text {
                AttachmentPlan::ReuseReaderText
            } else if raw_archived && hashed {
                AttachmentPlan::ReuseArchived
            } else {
                AttachmentPlan::Fetch
            }
        },
    }
}

/// Where a case stands in the index: the open cases first, the one that
/// closes soonest first; then the others, the latest result first.
pub open spec fn case_key(c: JsonValue) -> SortKey {
    if str_at(c, "status"@) == Some("open"@) {
        (1u64, Seq::empty(), or_empty(str_at(c, "reception_end"@)))
    } else {
        (0u64, or_empty(str_at(c, "result_published"@)), Seq::empty())
    }
}

/// The order of the public-comment index entries.
pub fn order_cases(entries: &Vec<JsonValue>) -> (order: Vec<usize>)
    ensures
        sorted_order(Seq::new(entries.len() as nat, |i: int| case_key(entries@[i])), order@),
{
    let mut keys: Vec<(u64, String, String)> = Vec::new();
    let mut i: usize = 0;
    while i < entries.len()
        invariant
            i <= entries.len(),
            keys_view(keys@) =~= Seq::new(i as nat, |k: int| case_key(entries@[k])),
        decreases entries.len() - i,
    {
        let ghost before = keys_view(keys@);
        proof {
            reveal_strlit("open");
        }
        let open = match crate::json::str_field(&entries[i], "status") {
            Some(s) => chars_eq(&chars_of(s.as_str()), &chars_of("open")),
            None => false,
        };
        if open {
            keys.push((1u64, string_of(&Vec::new()), str_field_or_empty(&entries[i], "reception_end")));
        } else {
            keys.push((0u64, str_field_or_empty(&entries[i], "result_published"), string_of(&Vec::new())));
        }
        assert(keys_view(keys@) =~= before.push(case_key(entries@[i as int])));
        i = i + 1;
    }
    sort_order(&keys)
}

/// The listing fields of a case that a detail page may lack: ministry,
/// date the result was published, end of reception, category, responsible
/// office, number of opinions, title and status.
#[derive(Debug, Clone)]
pub struct CaseFields {
    pub ministry: Option<String>,
    pub result_published: Option<String>,
    pub reception_end: Option<String>,
    pub category: Option<String>,
    pub responsible_office: Option<String>,
    pub opinion_count: Option<u32>,
    pub title: String,
    pub status: String,
}

/// A detail field, or the listing's where the detail has none.
pub open spec fn or_listed<T>(detail: Option<T>, listed: Option<T>) -> Option<T> {
    match detail {
        Some(x) => Some(x),
        None => listed,
    }
}

/// A text field of the detail, or the listing's where the detail's is
/// empty.
pub open spec fn or_listed_text(detail: Seq<char>, listed: Seq<char>) -> Seq<char> {
    if detail.len() == 0 {
        listed
    } else {
        detail
    }
}

fn fill_opt(detail: &mut Option<String>, listed: &Option<String>)
    ensures
        crate::text::opt_view(*final(detail)) == or_listed(crate::text::opt_view(*old(detail)), crate::text::opt_view(*listed)),
{
    if detail.is_none() {
        *detail = match listed {
            Some(x) => Some(x.clone()),
            None => None,
        };
    }
}

/// Completes a case's detail with its listing: every field the detail
/// lacks (an empty title or status counting as lacking) is taken from the
/// listing; the others are kept.
pub fn fill_from_listing(detail: &mut CaseFields, listed: &CaseFields)
    ensures
        crate::text::opt_view(final(detail).ministry) == or_listed(crate::text::opt_view(old(detail).ministry), crate::text::opt_view(listed.ministry)),
        crate::text::opt_view(final(detail).result_published) == or_listed(crate::text::opt_view(old(detail).result_published), crate::text::opt_view(listed.result_published)),
        crate::text::opt_view(final(detail).reception_end) == or_listed(crate::text::opt_view(old(detail).reception_end), crate::text::opt_view(listed.reception_end)),
        crate::text::opt_view(final(detail).category) == or_listed(crate::text::opt_view(old(detail).category), crate::text::opt_view(listed.category)),
        crate::text::opt_view(final(detail).responsible_office) == or_listed(crate::text::opt_view(old(detail).responsible_office), crate::text::opt_view(listed.responsible_office)),
        final(detail).opinion_count == or_listed(old(detail).opinion_count, listed.opinion_count),
        final(detail).title@ == or_listed_text(old(detail).title@, listed.title@),
        final(detail).status@ == or_listed_text(old(detail).status@, listed.status@),
{
    fill_opt(&mut detail.ministry, &listed.ministry);
    fill_opt(&mut detail.result_published, &listed.result_published);
    fill_opt(&mut detail.reception_end, &listed.reception_end);
    fill_opt(&mut detail.category, &listed.category);
    fill_opt(&mut detail.responsible_office, &listed.responsible_office);
    if detail.opinion_count.is_none() {
        detail.opinion_count = listed.opinion_count;
    }
    if detail.title.as_str().is_empty() {
        detail.title = listed.title.clone();
    }
    if detail.status.as_str().is_empty() {
        detail.status = listed.status.clone();
    }
}

/// The record of one attachment of a case.
#[derive(Debug, Clone)]
pub struct AttachmentRecord {
    pub name: String,
    pub url: String,
    pub media_type: Option<String>,
    pub filename: Option<String>,
    pub sha256: Option<String>,
    pub bytes: Option<u64>,
    pub extracted_text: Option<String>,
    pub extraction_method: Option<String>,
    pub extraction_error: Option<String>,
    pub fetched_at: Option<String>,
}

/// Records what a text-extraction service (`method`) returned for an
/// attachment, given as `text`: the text trimmed, with no hash or size,
/// since it is not the original; an empty text is recorded as an
/// extraction error and nothing else changes.
pub fn apply_reader_text(
    att: &mut AttachmentRecord,
    method: &str,
    text: &str,
    media_type: Option<String>,
    filename: Option<String>,
    fetched_at: String,
)
    ensures
        crate::text::trim(text@).len() == 0 ==> {
            &&& crate::text::opt_view(final(att).extraction_error) == Some(method@ + " returned empty text"@)
            &&& final(att).name == old(att).name && final(att).url == old(att).url
            &&& final(att).media_type == old(att).media_type && final(att).filename == old(att).filename
            &&& final(att).sha256 == old(att).sha256 && final(att).bytes == old(att).bytes
            &&& final(att).extracted_text == old(att).extracted_text
            &&& final(att).extraction_method == old(att).extraction_method
            &&& final(att).fetched_at == old(att).fetched_at
        },
        crate::text::trim(text@).len() > 0 ==> {
            &&& final(att).name == old(att).name && final(att).url == old(att).url
            &&& final(att).media_type == media_type && final(att).filename == filename
            &&& final(att).sha256 is None && final(att).bytes is None
            &&& crate::text::opt_view(final(att).extracted_text) == Some(crate::text::trim(text@))
            &&& crate::text::opt_view(final(att).extraction_method) == Some(method@)
            &&& final(att).extraction_error is None
            &&& crate::text::opt_view(final(att).fetched_at) == Some(fetched_at@)
        },
{
    let t = crate::text::trim_chars(&chars_of(text));
    if t.len() == 0 {
        let mut m = chars_of(method);
        crate::text::append_chars(&mut m, &chars_of(" returned empty text"));
        att.extraction_error = Some(string_of(&m));
        return;
    }
    att.media_type = media_type;
    att.filename = filename;
    att.sha256 = None;
    att.bytes = None;
    att.extracted_text = Some(string_of(&t));
    att.extraction_method = Some(method.to_owned());
    att.extraction_error = None;
    att.fetched_at = Some(fetched_at);
}

/// Records a fetched original of an attachment (archived by the caller):
/// its media type, file name, SHA-256, size and fetch time.
pub fn apply_fetched_file(
    att: &mut AttachmentRecord,
    bytes: &[u8],
    media_type: Option<String>,
    filename: Option<String>,
    fetched_at: String,
)
    ensures
        final(att).name == old(att).name && final(att).url == old(att).url,
        final(att).media_type == media_type && final(att).filename == filename,
        crate::text::opt_view(final(att).sha256) == Some(sha256_hex_of(bytes@)),
        final(att).bytes == Some(bytes@.len() as u64),
        final(att).extracted_text == old(att).extracted_text,
        final(att).extraction_method == old(att).extraction_method,
        final(att).extraction_error == old(att).extraction_error,
        crate::text::opt_view(final(att).fetched_at) == Some(fetched_at@),
{
    att.media_type = media_type;
    att.filename = filename;
    att.sha256 = Some(sha256_hex(bytes));
    att.bytes = Some(bytes.len() as u64);
    att.fetched_at = Some(fetched_at);
}

} // verus!
