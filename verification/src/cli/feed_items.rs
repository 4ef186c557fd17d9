//! The items of the feed, read from the published artifacts: the daily
//! update lists of laws, the public-comment index, the gazette indexes and
//! the bill index.
use vstd::prelude::*;
use crate::cli::calendar::{day_forms, day_number_of, midnight_rfc822, ymd_day_number};
use crate::cli::feeds::parses_ymd;
use super::feeds::{
    date_cuts_ordered, date_readable, kind_label, kind_label_spec, normalize_date, normalize_date_spec, parses_as_ymd,
    xml_escape, xml_escape_spec, FeedItem, MAX_ITEMS,
};
use crate::linking::{keys_view, sort_order, sorted_order, SortKey};
use crate::json::{json_array, json_at, str_at, str_field, str_field_or_empty, JsonValue};
use crate::linking::{items_of, or_empty};
use crate::text::{append_chars, chars_eq, chars_of, copy_opt, copy_string, join, opt_view, string_of};

verus! {

/// `v[key].as_array()`, or an empty list.
fn items_at<'a>(v: &'a JsonValue, key: &str) -> (r: Vec<&'a JsonValue>)
    ensures
        r@.len() == items_of(json_at(*v, key@)).len(),
        forall|i: int| 0 <= i < r@.len() ==> *r@[i] == items_of(json_at(*v, key@))[i],
{
    let mut out: Vec<&JsonValue> = Vec::new();
    match v.get(key) {
        Some(x) => match x.as_array() {
            Some(items) => {
                let mut i: usize = 0;
                while i < items.len()
                    invariant
                        i <= items.len(),
                        json_array(*x) == Some(items@),
                        json_at(*v, key@) == *x,
                        out@.len() == i,
                        forall|j: int| 0 <= j < i ==> *out@[j] == items@[j],
                    decreases items.len() - i,
                {
                    out.push(&items[i]);
                    i = i + 1;
                }
            },
            None => {},
        },
        None => {},
    }
    out
}

fn concat(a: &str, b: &str) -> (s: String)
    ensures
        s@ == a@ + b@,
{
    let mut v = chars_of(a);
    let w = chars_of(b);
    append_chars(&mut v, &w);
    string_of(&v)
}

fn is_empty_str(s: &String) -> (b: bool)
    ensures
        b == (s@.len() == 0),
{
    chars_of(s.as_str()).len() == 0
}

// ---------------------------------------------------------------------------
// Laws
// ---------------------------------------------------------------------------

/// The summary of a law's change: 新規, 改正, 廃止 for the known kinds.
pub open spec fn change_summary(c: Seq<char>) -> Seq<char> {
    if c == "added"@ {
        "新規"@
    } else if c == "amended"@ {
        "改正"@
    } else if c == "repealed"@ {
        "廃止"@
    } else {
        c
    }
}

/// A law of an update list with an id and a title.
pub open spec fn law_listed(l: JsonValue) -> bool {
    or_empty(str_at(l, "law_id"@)).len() > 0 && or_empty(str_at(l, "title"@)).len() > 0
}

/// The entries of a list that `ok` keeps, in order.
pub open spec fn kept(xs: Seq<JsonValue>, ok: spec_fn(JsonValue) -> bool) -> Seq<JsonValue>
    decreases xs.len(),
{
    if xs.len() == 0 {
        Seq::empty()
    } else if ok(xs.last()) {
        kept(xs.drop_last(), ok).push(xs.last())
    } else {
        kept(xs.drop_last(), ok)
    }
}

/// `it` is the feed item of the law `l` updated on `date`.
pub open spec fn law_item_of(it: FeedItem, date: Seq<char>, l: JsonValue) -> bool {
    let id = or_empty(str_at(l, "law_id"@));
    &&& it.kind@ == "law"@
    &&& it.date@ == date
    &&& it.title@ == or_empty(str_at(l, "title"@))
    &&& it.href@ == "/laws/"@ + id
    &&& it.internal
    &&& opt_view(it.law_id) == Some(id)
    &&& it.law_title is None
    &&& it.ministry is None
    &&& opt_view(it.summary) == Some(change_summary(or_empty(str_at(l, "change_type"@))))
}

fn change_summary_exec(c: &String) -> (s: String)
    ensures
        s@ == change_summary(c@),
{
    let cc = chars_of(c.as_str());
    if chars_eq(&cc, &chars_of("added")) {
        "新規".to_owned()
    } else if chars_eq(&cc, &chars_of("amended")) {
        "改正".to_owned()
    } else if chars_eq(&cc, &chars_of("repealed")) {
        "廃止".to_owned()
    } else {
        copy_string(c)
    }
}

/// The feed items of the update list `updates` of `date`: one per updated
/// law (`updated_laws`) with an id and a title, in order.
pub fn law_feed_items(date: &str, updates: &JsonValue) -> (out: Vec<FeedItem>)
    ensures
        out.len() == kept(items_of(json_at(*updates, "updated_laws"@)), |l: JsonValue| law_listed(l)).len(),
        forall|i: int|
            0 <= i < out.len() ==> law_item_of(
                #[trigger] out@[i],
                date@,
                kept(items_of(json_at(*updates, "updated_laws"@)), |l: JsonValue| law_listed(l))[i],
            ),
{
    let laws = items_at(updates, "updated_laws");
    let ghost lv = items_of(json_at(*updates, "updated_laws"@));
    let ghost ok = |l: JsonValue| law_listed(l);
    let mut out: Vec<FeedItem> = Vec::new();
    let mut i: usize = 0;
    assert(lv.take(0) =~= Seq::<JsonValue>::empty());
    while i < laws.len()
        invariant
            i <= laws.len(),
            laws@.len() == lv.len(),
            forall|j: int| 0 <= j < laws@.len() ==> *laws@[j] == lv[j],
            ok == |l: JsonValue| law_listed(l),
            out.len() == kept(lv.take(i as int), ok).len(),
            forall|j: int| 0 <= j < out.len() ==> law_item_of(#[trigger] out@[j], date@, kept(lv.take(i as int), ok)[j]),
        decreases laws.len() - i,
    {
        assert(lv.take(i + 1).drop_last() =~= lv.take(i as int));
        assert(lv.take(i + 1).last() == lv[i as int]);
        let l = laws[i];
        let id = str_field_or_empty(l, "law_id");
        let title = str_field_or_empty(l, "title");
        if !is_empty_str(&id) && !is_empty_str(&title) {
            let change = str_field_or_empty(l, "change_type");
            let it = FeedItem {
                kind: "law".to_owned(),
                date: date.to_owned(),
                title,
                href: concat("/laws/", id.as_str()),
                internal: true,
                law_id: Some(id),
                law_title: None,
                ministry: None,
                summary: Some(change_summary_exec(&change)),
            };
            out.push(it);
        }
        i = i + 1;
    }
    assert(lv.take(laws.len() as int) =~= lv);
    out
}

// ---------------------------------------------------------------------------
// Public comments
// ---------------------------------------------------------------------------

/// A case of the public-comment index with an id and a title.
pub open spec fn case_listed(c: JsonValue) -> bool {
    or_empty(str_at(c, "case_id"@)).len() > 0 && or_empty(str_at(c, "title"@)).len() > 0
}

/// `it` is the feed item of the case `c`: dated by its result
/// publication, summarized by its related law.
pub open spec fn case_item_of(it: FeedItem, c: JsonValue) -> bool {
    &&& it.kind@ == "pubcomment"@
    &&& it.date@ == or_empty(str_at(c, "result_published"@))
    &&& it.title@ == or_empty(str_at(c, "title"@))
    &&& it.href@ == "/pubcomment/"@ + or_empty(str_at(c, "case_id"@))
    &&& it.internal
    &&& it.law_id is None
    &&& it.law_title is None
    &&& opt_view(it.ministry) == str_at(c, "ministry"@)
    &&& opt_view(it.summary) == match str_at(c, "related_law_name"@) {
        Some(r) => Some("関連: "@ + r),
        None => None,
    }
}

/// The feed items of the public-comment index: one per case (`cases`)
/// with an id and a title, in order.
pub fn pubcomment_feed_items(index: &JsonValue) -> (out: Vec<FeedItem>)
    ensures
        out.len() == kept(items_of(json_at(*index, "cases"@)), |c: JsonValue| case_listed(c)).len(),
        forall|i: int|
            0 <= i < out.len() ==> case_item_of(
                #[trigger] out@[i],
                kept(items_of(json_at(*index, "cases"@)), |c: JsonValue| case_listed(c))[i],
            ),
{
    let cases = items_at(index, "cases");
    let ghost cv = items_of(json_at(*index, "cases"@));
    let ghost ok = |c: JsonValue| case_listed(c);
    let mut out: Vec<FeedItem> = Vec::new();
    let mut i: usize = 0;
    assert(cv.take(0) =~= Seq::<JsonValue>::empty());
    while i < cases.len()
        invariant
            i <= cases.len(),
            cases@.len() == cv.len(),
            forall|j: int| 0 <= j < cases@.len() ==> *cases@[j] == cv[j],
            ok == |c: JsonValue| case_listed(c),
            out.len() == kept(cv.take(i as int), ok).len(),
            forall|j: int| 0 <= j < out.len() ==> case_item_of(#[trigger] out@[j], kept(cv.take(i as int), ok)[j]),
        decreases cases.len() - i,
    {
        assert(cv.take(i + 1).drop_last() =~= cv.take(i as int));
        assert(cv.take(i + 1).last() == cv[i as int]);
        let c = cases[i];
        let id = str_field_or_empty(c, "case_id");
        let title = str_field_or_empty(c, "title");
        if !is_empty_str(&id) && !is_empty_str(&title) {
            let summary = match str_field(c, "related_law_name") {
                Some(r) => Some(concat("関連: ", r.as_str())),
                None => None,
            };
            let it = FeedItem {
                kind: "pubcomment".to_owned(),
                date: str_field_or_empty(c, "result_published"),
                title,
                href: concat("/pubcomment/", id.as_str()),
                internal: true,
                law_id: None,
                law_title: None,
                ministry: str_field(c, "ministry"),
                summary,
            };
            out.push(it);
        }
        i = i + 1;
    }
    assert(cv.take(cases.len() as int) =~= cv);
    out
}

// ---------------------------------------------------------------------------
// Gazette
// ---------------------------------------------------------------------------

/// A gazette item that carries amendment text, a title and a PDF.
pub open spec fn amend_listed(it: JsonValue) -> bool {
    &&& str_at(it, "amend_text"@) is Some
    &&& str_at(it, "amend_text"@).unwrap().len() > 0
    &&& or_empty(str_at(it, "title"@)).len() > 0
    &&& or_empty(str_at(it, "pdf_url"@)).len() > 0
}

/// The amendment items of the issues, issue by issue.
pub open spec fn amend_items(issues: Seq<JsonValue>) -> Seq<JsonValue>
    decreases issues.len(),
{
    if issues.len() == 0 {
        Seq::empty()
    } else {
        amend_items(issues.drop_last()) + kept(
            items_of(json_at(issues.last(), "items"@)),
            |it: JsonValue| amend_listed(it),
        )
    }
}

/// The first law an item is linked to, if any.
pub open spec fn first_linked_law(it: JsonValue) -> Option<JsonValue> {
    match json_array(json_at(it, "linked_laws"@)) {
        Some(ls) => if ls.len() > 0 {
            Some(ls[0])
        } else {
            None
        },
        None => None,
    }
}

/// `f` is the feed item of the gazette item `it` of `date`.
pub open spec fn kanpo_item_of(f: FeedItem, date: Seq<char>, it: JsonValue) -> bool {
    &&& f.kind@ == "kanpo"@
    &&& f.date@ == date
    &&& f.title@ == or_empty(str_at(it, "title"@))
    &&& f.href@ == or_empty(str_at(it, "pdf_url"@))
    &&& !f.internal
    &&& opt_view(f.law_id) == match first_linked_law(it) {
        Some(l) => str_at(l, "law_id"@),
        None => None,
    }
    &&& opt_view(f.law_title) == match first_linked_law(it) {
        Some(l) => str_at(l, "title"@),
        None => None,
    }
    &&& opt_view(f.ministry) == str_at(it, "agency_hint"@)
    &&& opt_view(f.summary) == Some("官報"@)
}

fn first_linked_law_exec(it: &JsonValue) -> (r: Option<&JsonValue>)
    ensures
        match first_linked_law(*it) {
            Some(l) => r matches Some(x) && *x == l,
            None => r is None,
        },
{
    match it.get("linked_laws") {
        Some(v) => match v.as_array() {
            Some(ls) => if ls.len() > 0 {
                Some(&ls[0])
            } else {
                None
            },
            None => None,
        },
        None => None,
    }
}

fn kanpo_items_of_issue(date: &String, issue: &JsonValue, out: &mut Vec<FeedItem>)
    ensures
        final(out).len() == old(out).len() + kept(items_of(json_at(*issue, "items"@)), |it: JsonValue| amend_listed(it)).len(),
        forall|j: int| 0 <= j < old(out).len() ==> #[trigger] final(out)@[j] == old(out)@[j],
        forall|j: int|
            old(out).len() <= j < final(out).len() ==> kanpo_item_of(
                #[trigger] final(out)@[j],
                date@,
                kept(items_of(json_at(*issue, "items"@)), |it: JsonValue| amend_listed(it))[j - old(out).len()],
            ),
{
    let its = items_at(issue, "items");
    let ghost iv = items_of(json_at(*issue, "items"@));
    let ghost ok = |it: JsonValue| amend_listed(it);
    let ghost start = old(out)@;
    let mut i: usize = 0;
    assert(iv.take(0) =~= Seq::<JsonValue>::empty());
    while i < its.len()
        invariant
            i <= its.len(),
            its@.len() == iv.len(),
            forall|j: int| 0 <= j < its@.len() ==> *its@[j] == iv[j],
            ok == |it: JsonValue| amend_listed(it),
            start == old(out)@,
            out.len() == start.len() + kept(iv.take(i as int), ok).len(),
            forall|j: int| 0 <= j < start.len() ==> #[trigger] out@[j] == start[j],
            forall|j: int|
                start.len() <= j < out.len() ==> kanpo_item_of(#[trigger] out@[j], date@, kept(iv.take(i as int), ok)[j - start.len()]),
        decreases its.len() - i,
    {
        assert(iv.take(i + 1).drop_last() =~= iv.take(i as int));
        assert(iv.take(i + 1).last() == iv[i as int]);
        let it = its[i];
        let has_amend = match str_field(it, "amend_text") {
            Some(t) => !is_empty_str(&t),
            None => false,
        };
        let title = str_field_or_empty(it, "title");
        let pdf = str_field_or_empty(it, "pdf_url");
        if has_amend && !is_empty_str(&title) && !is_empty_str(&pdf) {
            let first = first_linked_law_exec(it);
            let (law_id, law_title) = match first {
                Some(l) => (str_field(l, "law_id"), str_field(l, "title")),
                None => (None, None),
            };
            let f = FeedItem {
                kind: "kanpo".to_owned(),
                date: copy_string(date),
                title,
                href: pdf,
                internal: false,
                law_id,
                law_title,
                ministry: str_field(it, "agency_hint"),
                summary: Some("官報".to_owned()),
            };
            out.push(f);
        }
        i = i + 1;
    }
    assert(iv.take(its.len() as int) =~= iv);
}

/// The feed items of the gazette index of a date: one per item of its
/// issues that carries amendment text, a title and a PDF, dated by the
/// index's date, linked to the first law the item names.
pub fn kanpo_feed_items(index: &JsonValue) -> (out: Vec<FeedItem>)
    ensures
        out.len() == amend_items(items_of(json_at(*index, "issues"@))).len(),
        forall|i: int|
            0 <= i < out.len() ==> kanpo_item_of(
                #[trigger] out@[i],
                or_empty(str_at(*index, "date"@)),
                amend_items(items_of(json_at(*index, "issues"@)))[i],
            ),
{
    let date = str_field_or_empty(index, "date");
    let issues = items_at(index, "issues");
    let ghost iv = items_of(json_at(*index, "issues"@));
    let mut out: Vec<FeedItem> = Vec::new();
    let mut k: usize = 0;
    assert(iv.take(0) =~= Seq::<JsonValue>::empty());
    while k < issues.len()
        invariant
            k <= issues.len(),
            issues@.len() == iv.len(),
            forall|j: int| 0 <= j < issues@.len() ==> *issues@[j] == iv[j],
            date@ == or_empty(str_at(*index, "date"@)),
            out.len() == amend_items(iv.take(k as int)).len(),
            forall|j: int| 0 <= j < out.len() ==> kanpo_item_of(#[trigger] out@[j], date@, amend_items(iv.take(k as int))[j]),
        decreases issues.len() - k,
    {
        assert(iv.take(k + 1).drop_last() =~= iv.take(k as int));
        assert(iv.take(k + 1).last() == iv[k as int]);
        let ghost before = out@;
        kanpo_items_of_issue(&date, issues[k], &mut out);
        proof {
            let a = amend_items(iv.take(k as int));
            let b = kept(items_of(json_at(iv[k as int], "items"@)), |it: JsonValue| amend_listed(it));
            assert(amend_items(iv.take(k + 1)) == a + b);
            assert forall|j: int| 0 <= j < out.len() implies kanpo_item_of(#[trigger] out@[j], date@, (a + b)[j]) by {
                if j < before.len() {
                    assert(out@[j] == before[j]);
                }
            }
        }
        k = k + 1;
    }
    assert(iv.take(issues.len() as int) =~= iv);
    out
}

// ---------------------------------------------------------------------------
// Bills
// ---------------------------------------------------------------------------

/// A bill of the index with a title, a latest date and a detail page.
pub open spec fn bill_listed(b: JsonValue) -> bool {
    &&& or_empty(str_at(b, "title"@)).len() > 0
    &&& or_empty(str_at(b, "latest_date"@)).len() > 0
    &&& or_empty(str_at(b, "detail_url"@)).len() > 0
}

/// The non-empty texts among the bill's type, latest event and committee.
pub open spec fn bill_summary_parts(b: JsonValue) -> Seq<Seq<char>> {
    let t = str_at(b, "bill_type"@);
    let e = str_at(b, "latest_event"@);
    let c = str_at(b, "committee"@);
    (if t is Some && t.unwrap().len() > 0 { seq![t.unwrap()] } else { Seq::empty() }) + (if e is Some
        && e.unwrap().len() > 0 {
        seq![e.unwrap()]
    } else {
        Seq::empty()
    }) + (if c is Some && c.unwrap().len() > 0 { seq![c.unwrap()] } else { Seq::empty() })
}

/// `it` is the feed item of the bill `b`: dated by its latest step,
/// summarized by type, step and committee.
pub open spec fn bill_item_of(it: FeedItem, b: JsonValue) -> bool {
    &&& it.kind@ == "bill"@
    &&& it.date@ == or_empty(str_at(b, "latest_date"@))
    &&& it.title@ == or_empty(str_at(b, "title"@))
    &&& it.href@ == or_empty(str_at(b, "detail_url"@))
    &&& !it.internal
    &&& it.law_id is None
    &&& it.law_title is None
    &&& it.ministry is None
    &&& opt_view(it.summary) == if bill_summary_parts(b).len() > 0 {
        Some(join(bill_summary_parts(b), " · "@))
    } else {
        None
    }
}

fn push_part(parts: &mut Vec<Vec<char>>, o: &Option<String>)
    ensures
        crate::text::seqs_of(final(parts)@) == crate::text::seqs_of(old(parts)@) + match opt_view(*o) {
            Some(t) => if t.len() > 0 {
                seq![t]
            } else {
                Seq::empty()
            },
            None => Seq::empty(),
        },
{
    let ghost before = crate::text::seqs_of(parts@);
    match o {
        Some(t) => {
            let c = chars_of(t.as_str());
            if c.len() > 0 {
                parts.push(c);
                assert(crate::text::seqs_of(parts@) =~= before + seq![t@]);
            } else {
                assert(crate::text::seqs_of(parts@) =~= before + Seq::<Seq<char>>::empty());
            }
        },
        None => {
            assert(crate::text::seqs_of(parts@) =~= before + Seq::<Seq<char>>::empty());
        },
    }
}

/// The feed items of the bill index: one per bill (`bills`) with a title,
/// a latest date and a detail page, in order.
pub fn gian_feed_items(index: &JsonValue) -> (out: Vec<FeedItem>)
    ensures
        out.len() == kept(items_of(json_at(*index, "bills"@)), |b: JsonValue| bill_listed(b)).len(),
        forall|i: int|
            0 <= i < out.len() ==> bill_item_of(
                #[trigger] out@[i],
                kept(items_of(json_at(*index, "bills"@)), |b: JsonValue| bill_listed(b))[i],
            ),
{
    let bills = items_at(index, "bills");
    let ghost bv = items_of(json_at(*index, "bills"@));
    let ghost ok = |b: JsonValue| bill_listed(b);
    let mut out: Vec<FeedItem> = Vec::new();
    let mut i: usize = 0;
    assert(bv.take(0) =~= Seq::<JsonValue>::empty());
    let sep = chars_of(" · ");
    while i < bills.len()
        invariant
            i <= bills.len(),
            bills@.len() == bv.len(),
            forall|j: int| 0 <= j < bills@.len() ==> *bills@[j] == bv[j],
            ok == |b: JsonValue| bill_listed(b),
            sep@ == " · "@,
            out.len() == kept(bv.take(i as int), ok).len(),
            forall|j: int| 0 <= j < out.len() ==> bill_item_of(#[trigger] out@[j], kept(bv.take(i as int), ok)[j]),
        decreases bills.len() - i,
    {
        assert(bv.take(i + 1).drop_last() =~= bv.take(i as int));
        assert(bv.take(i + 1).last() == bv[i as int]);
        let b = bills[i];
        let title = str_field_or_empty(b, "title");
        let date = str_field_or_empty(b, "latest_date");
        let detail = str_field_or_empty(b, "detail_url");
        if !is_empty_str(&title) && !is_empty_str(&date) && !is_empty_str(&detail) {
            let mut parts: Vec<Vec<char>> = Vec::new();
            assert(crate::text::seqs_of(parts@) =~= Seq::<Seq<char>>::empty());
            push_part(&mut parts, &str_field(b, "bill_type"));
            push_part(&mut parts, &str_field(b, "latest_event"));
            push_part(&mut parts, &str_field(b, "committee"));
            assert(crate::text::seqs_of(parts@) =~= bill_summary_parts(*b));
            let summary = if parts.len() > 0 {
                Some(string_of(&crate::text::join_chars(&parts, &sep)))
            } else {
                None
            };
            let it = FeedItem {
                kind: "bill".to_owned(),
                date,
                title,
                href: detail,
                internal: false,
                law_id: None,
                law_title: None,
                ministry: None,
                summary,
            };
            out.push(it);
        }
        i = i + 1;
    }
    assert(bv.take(bills.len() as int) =~= bv);
    out
}

// ---------------------------------------------------------------------------
// The newest dates
// ---------------------------------------------------------------------------

/// The positions of the names that count: all, or those that read as a
/// `YYYY-MM-DD` date.
pub open spec fn counted_names(names: Seq<Seq<char>>, dated_only: bool, n: int) -> Seq<usize>
    decreases n,
{
    if n <= 0 {
        Seq::empty()
    } else if !dated_only || parses_as_ymd(names[n - 1]) {
        counted_names(names, dated_only, n - 1).push((n - 1) as usize)
    } else {
        counted_names(names, dated_only, n - 1)
    }
}

/// The sort key of a name in newest-first order.
pub open spec fn name_key(name: Seq<char>) -> SortKey {
    (0u64, name, Seq::empty())
}

/// The sort keys of the counted names.
pub open spec fn names_keys(names: Seq<Seq<char>>, cands: Seq<usize>) -> Seq<SortKey> {
    Seq::new(cands.len(), |i: int| name_key(names[cands[i] as int]))
}

/// `out` is the newest `max` of the counted names: the counted names in
/// newest-first order (ties in their order), cut after `max`.
pub open spec fn newest_names(names: Seq<Seq<char>>, dated_only: bool, max: usize, out: Seq<usize>) -> bool {
    let cands = counted_names(names, dated_only, names.len() as int);
    exists|order: Seq<usize>|
        #[trigger] sorted_order(names_keys(names, cands), order) && out
            == Seq::new(
            if order.len() <= max { order.len() } else { max as nat },
            |i: int| cands[order[i] as int],
        )
}

/// The newest `max` of the daily files or directories named `names`
/// (newest-first by name; with `dated_only`, only the names that read as
/// `YYYY-MM-DD`), as positions in `names`.
pub fn newest_dates(names: &Vec<String>, dated_only: bool, max: usize) -> (out: Vec<usize>)
    ensures
        newest_names(crate::text::strings_of(names@), dated_only, max, out@),
{
    let ghost nv = crate::text::strings_of(names@);
    let mut cands: Vec<usize> = Vec::new();
    let mut i: usize = 0;
    while i < names.len()
        invariant
            i <= names.len(),
            nv == crate::text::strings_of(names@),
            cands@ == counted_names(nv, dated_only, i as int),
            forall|k: int| 0 <= k < cands.len() ==> (#[trigger] cands@[k]) < i,
        decreases names.len() - i,
    {
        if !dated_only || parses_ymd(names[i].as_str()) {
            cands.push(i);
        }
        i = i + 1;
    }
    let mut keys: Vec<(u64, String, String)> = Vec::new();
    let mut k: usize = 0;
    while k < cands.len()
        invariant
            k <= cands.len(),
            nv == crate::text::strings_of(names@),
            forall|q: int| 0 <= q < cands.len() ==> (#[trigger] cands@[q]) < names.len(),
            cands@ == counted_names(nv, dated_only, names.len() as int),
            keys_view(keys@) =~= Seq::new(k as nat, |q: int| name_key(nv[cands@[q] as int])),
        decreases cands.len() - k,
    {
        let ghost before = keys_view(keys@);
        keys.push((0u64, copy_string(&names[cands[k]]), string_of(&Vec::new())));
        assert(keys_view(keys@) =~= before.push(name_key(nv[cands@[k as int] as int])));
        k = k + 1;
    }
    let order = sort_order(&keys);
    let n = if order.len() <= max {
        order.len()
    } else {
        max
    };
    let mut out: Vec<usize> = Vec::new();
    let mut j: usize = 0;
    while j < n
        invariant
            j <= n,
            n <= order.len(),
            order.len() == cands.len(),
            forall|q: int| 0 <= q < order.len() ==> (#[trigger] order@[q]) < cands.len(),
            cands@ == counted_names(nv, dated_only, names.len() as int),
            out@ =~= Seq::new(j as nat, |q: int| cands@[order@[q] as int]),
        decreases n - j,
    {
        out.push(cands[order[j]]);
        j = j + 1;
    }
    assert(names_keys(nv, cands@) =~= keys_view(keys@));
    assert(sorted_order(names_keys(nv, cands@), order@));
    assert(out@ =~= Seq::new(
        if order@.len() <= max { order@.len() } else { max as nat },
        |q: int| cands@[order@[q] as int],
    ));
    assert(sorted_order(names_keys(nv, counted_names(nv, dated_only, nv.len() as int)), order@));
    out
}

// ---------------------------------------------------------------------------
// The feed
// ---------------------------------------------------------------------------

/// `a` is `b` with its date replaced by `date`.
pub open spec fn redated(a: FeedItem, b: FeedItem, date: Seq<char>) -> bool {
    &&& a.kind@ == b.kind@
    &&& a.date@ == date
    &&& a.title@ == b.title@
    &&& a.href@ == b.href@
    &&& a.internal == b.internal
    &&& opt_view(a.law_id) == opt_view(b.law_id)
    &&& opt_view(a.law_title) == opt_view(b.law_title)
    &&& opt_view(a.ministry) == opt_view(b.ministry)
    &&& opt_view(a.summary) == opt_view(b.summary)
}

/// The sort key of an item: by its ISO date, latest first, then by kind.
pub open spec fn feed_key(it: FeedItem) -> SortKey {
    (0u64, normalize_date_spec(it.date@), it.kind@)
}

/// Every date of the items can be read without a cut out of order.
pub open spec fn feed_dates_readable(items: Seq<FeedItem>) -> bool {
    forall|i: int| 0 <= i < items.len() ==> date_cuts_ordered((#[trigger] items[i]).date@)
}

/// The sort keys of the items.
pub open spec fn feed_keys(items: Seq<FeedItem>) -> Seq<SortKey> {
    Seq::new(items.len(), |i: int| feed_key(items[i]))
}

/// `out` is the feed of `items`: dates in ISO form, latest first, then by
/// kind, items of equal date and kind in their order, at most
/// `MAX_ITEMS`.
pub open spec fn feed_of(items: Seq<FeedItem>, out: Seq<FeedItem>) -> bool {
    exists|order: Seq<usize>|
        #[trigger] sorted_order(feed_keys(items), order) && out.len() == (if order.len()
            <= MAX_ITEMS {
            order.len()
        } else {
            MAX_ITEMS as nat
        }) && forall|j: int|
            0 <= j < out.len() ==> redated(
                #[trigger] out[j],
                items[order[j] as int],
                normalize_date_spec(items[order[j] as int].date@),
            )
}

fn redate(it: &FeedItem) -> (r: FeedItem)
    requires
        date_cuts_ordered(it.date@),
    ensures
        redated(r, *it, normalize_date_spec(it.date@)),
{
    FeedItem {
        kind: copy_string(&it.kind),
        date: normalize_date(it.date.as_str()),
        title: copy_string(&it.title),
        href: copy_string(&it.href),
        internal: it.internal,
        law_id: copy_opt(&it.law_id),
        law_title: copy_opt(&it.law_title),
        ministry: copy_opt(&it.ministry),
        summary: copy_opt(&it.summary),
    }
}

/// Puts the collected items in feed order: each date in ISO form, the
/// latest first, items of one date by kind, keeping the order of equal
/// ones, and keeps the first `MAX_ITEMS`.
pub fn finish_feed(items: &Vec<FeedItem>) -> (out: Vec<FeedItem>)
    requires
        feed_dates_readable(items@),
    ensures
        feed_of(items@, out@),
{
    let mut keys: Vec<(u64, String, String)> = Vec::new();
    let mut dated: Vec<FeedItem> = Vec::new();
    let mut i: usize = 0;
    while i < items.len()
        invariant
            i <= items.len(),
            feed_dates_readable(items@),
            keys_view(keys@) =~= Seq::new(i as nat, |q: int| feed_key(items@[q])),
            dated.len() == i,
            forall|q: int| 0 <= q < i ==> redated(#[trigger] dated@[q], items@[q], normalize_date_spec(items@[q].date@)),
        decreases items.len() - i,
    {
        assert(date_cuts_ordered(items@[i as int].date@));
        let d = redate(&items[i]);
        let ghost before = keys_view(keys@);
        keys.push((0u64, copy_string(&d.date), copy_string(&d.kind)));
        assert(keys_view(keys@) =~= before.push(feed_key(items@[i as int])));
        dated.push(d);
        i = i + 1;
    }
    let order = sort_order(&keys);
    let n = if order.len() <= MAX_ITEMS {
        order.len()
    } else {
        MAX_ITEMS
    };
    let mut out: Vec<FeedItem> = Vec::new();
    let mut j: usize = 0;
    while j < n
        invariant
            j <= n,
            n <= order.len(),
            order.len() == items.len(),
            dated.len() == items.len(),
            forall|q: int| 0 <= q < order.len() ==> (#[trigger] order@[q]) < items.len(),
            forall|q: int| 0 <= q < items.len() ==> redated(#[trigger] dated@[q], items@[q], normalize_date_spec(items@[q].date@)),
            out.len() == j,
            forall|q: int|
                0 <= q < j ==> redated(
                    #[trigger] out@[q],
                    items@[order@[q] as int],
                    normalize_date_spec(items@[order@[q] as int].date@),
                ),
        decreases n - j,
    {
        let src = &dated[order[j]];
        let c = FeedItem {
            kind: copy_string(&src.kind),
            date: copy_string(&src.date),
            title: copy_string(&src.title),
            href: copy_string(&src.href),
            internal: src.internal,
            law_id: copy_opt(&src.law_id),
            law_title: copy_opt(&src.law_title),
            ministry: copy_opt(&src.ministry),
            summary: copy_opt(&src.summary),
        };
        out.push(c);
        j = j + 1;
    }
    assert(feed_keys(items@) =~= keys_view(keys@));
    assert(sorted_order(feed_keys(items@), order@));
    out
}

/// `finish_feed` where every date of the items can be read; `None` where
/// one holds 年, 月 and 日 out of order.
pub fn finish_feed_checked(items: &Vec<FeedItem>) -> (r: Option<Vec<FeedItem>>)
    ensures
        r is Some <==> feed_dates_readable(items@),
        r matches Some(out) ==> feed_of(items@, out@),
{
    let mut i: usize = 0;
    while i < items.len()
        invariant
            i <= items.len(),
            forall|q: int| 0 <= q < i ==> date_cuts_ordered((#[trigger] items@[q]).date@),
        decreases items.len() - i,
    {
        if !date_readable(items[i].date.as_str()) {
            return None;
        }
        i = i + 1;
    }
    Some(finish_feed(items))
}

// ---------------------------------------------------------------------------
// RSS
// ---------------------------------------------------------------------------

/// The `pubDate` of a date: `chrono`'s `%a, %d %b %Y %H:%M:%S +0000` of its
/// midnight, where it reads as `YYYY-MM-DD`.
#[verifier::opaque]
pub open spec fn rfc822_of(date: Seq<char>) -> Option<Seq<char>> {
    match ymd_day_number(date) {
        Some(n) => match day_forms(n) {
            Some(f) => Some(f.1),
            None => None,
        },
        None => None,
    }
}

/// The `pubDate` of `date`, where it reads as `YYYY-MM-DD`.
fn rfc822(date: &str) -> (r: Option<String>)
    ensures
        opt_view(r) == rfc822_of(date@),
{
    reveal(rfc822_of);
    match day_number_of(date) {
        Some(n) => midnight_rfc822(n),
        None => None,
    }
}

/// The base URL of the site, ending in `/`.
pub open spec fn base_norm(base: Seq<char>) -> Seq<char> {
    if base.len() > 0 && base.last() == '/' {
        base
    } else {
        base + "/"@
    }
}

/// The head of the channel.
pub open spec fn rss_head() -> Seq<char> {
    "<?xml version=\"1.0\" encoding=\"UTF-8\"?>\n<rss version=\"2.0\">\n<channel>\n<title>Lawrenceanum 規制変化フィード</title>\n<description>法令改正・パブリックコメント・官報(改め文)の新着</description>\n"@
}

/// Where an item leads: an app route under the site, or its own URL.
pub open spec fn item_link(it: FeedItem, bn: Seq<char>) -> Seq<char> {
    if it.internal {
        bn + "#"@ + it.href@
    } else {
        it.href@
    }
}

/// The `<item>` of a feed item.
pub open spec fn rss_item(it: FeedItem, bn: Seq<char>) -> Seq<char> {
    "<item>\n"@ + "<title>"@ + xml_escape_spec("["@ + kind_label_spec(it.kind@) + "] "@ + it.title@) + "</title>\n"@
        + "<link>"@ + xml_escape_spec(item_link(it, bn)) + "</link>\n"@ + "<guid isPermaLink=\"false\">"@
        + xml_escape_spec(it.kind@ + ":"@ + it.date@ + ":"@ + it.href@) + "</guid>\n"@ + (match rfc822_of(
        it.date@,
    ) {
        Some(p) => "<pubDate>"@ + p + "</pubDate>\n"@,
        None => Seq::empty(),
    }) + (match opt_view(it.summary) {
        Some(d) => "<description>"@ + xml_escape_spec(d) + "</description>\n"@,
        None => Seq::empty(),
    }) + "</item>\n"@
}

/// The items of the channel.
pub open spec fn rss_items(items: Seq<FeedItem>, bn: Seq<char>) -> Seq<char>
    decreases items.len(),
{
    if items.len() == 0 {
        Seq::empty()
    } else {
        rss_items(items.drop_last(), bn) + rss_item(items.last(), bn)
    }
}

/// The RSS document of the feed for the site at `base`.
pub open spec fn rss_spec(base: Seq<char>, items: Seq<FeedItem>) -> Seq<char> {
    rss_head() + "<link>"@ + xml_escape_spec(base_norm(base)) + "</link>\n"@ + rss_items(items, base_norm(base))
        + "</channel>\n</rss>\n"@
}

fn push_str(v: &mut Vec<char>, s: &str)
    ensures
        final(v)@ == old(v)@ + s@,
{
    let c = chars_of(s);
    append_chars(v, &c);
}

fn rss_item_exec(out: &mut Vec<char>, it: &FeedItem, bn: &String)
    ensures
        final(out)@ == old(out)@ + rss_item(*it, bn@),
{
    let ghost start = out@;
    push_str(out, "<item>\n");
    push_str(out, "<title>");
    let mut t = chars_of("[");
    let kl = kind_label(it.kind.as_str());
    append_chars(&mut t, &chars_of(kl.as_str()));
    append_chars(&mut t, &chars_of("] "));
    append_chars(&mut t, &chars_of(it.title.as_str()));
    push_str(out, xml_escape(string_of(&t).as_str()).as_str());
    push_str(out, "</title>\n");
    push_str(out, "<link>");
    let link = if it.internal {
        let mut l = chars_of(bn.as_str());
        append_chars(&mut l, &chars_of("#"));
        append_chars(&mut l, &chars_of(it.href.as_str()));
        string_of(&l)
    } else {
        copy_string(&it.href)
    };
    push_str(out, xml_escape(link.as_str()).as_str());
    push_str(out, "</link>\n");
    push_str(out, "<guid isPermaLink=\"false\">");
    let mut g = chars_of(it.kind.as_str());
    append_chars(&mut g, &chars_of(":"));
    append_chars(&mut g, &chars_of(it.date.as_str()));
    append_chars(&mut g, &chars_of(":"));
    append_chars(&mut g, &chars_of(it.href.as_str()));
    push_str(out, xml_escape(string_of(&g).as_str()).as_str());
    push_str(out, "</guid>\n");
    let ghost mid = out@;
    match rfc822(it.date.as_str()) {
        Some(p) => {
            push_str(out, "<pubDate>");
            push_str(out, p.as_str());
            push_str(out, "</pubDate>\n");
        },
        None => {},
    }
    match &it.summary {
        Some(d) => {
            push_str(out, "<description>");
            push_str(out, xml_escape(d.as_str()).as_str());
            push_str(out, "</description>\n");
        },
        None => {},
    }
    push_str(out, "</item>\n");
    assert(out@ =~= start + rss_item(*it, bn@));
}

/// The RSS document of the feed `items` for the site at `base` (a `/` is
/// added where it does not end in one): each item with its kind label and
/// title, its link (app routes under the site), a stable guid, its date
/// where it reads as one and its summary, all text escaped.
pub fn rss_text(base: &str, items: &Vec<FeedItem>) -> (s: String)
    ensures
        s@ == rss_spec(base@, items@),
{
    let b = chars_of(base);
    let bn = if b.len() > 0 && b[b.len() - 1] == '/' {
        copy_string(&base.to_owned())
    } else {
        let mut v = chars_of(base);
        append_chars(&mut v, &chars_of("/"));
        string_of(&v)
    };
    assert(bn@ == base_norm(base@));
    let mut out: Vec<char> = Vec::new();
    push_str(&mut out, "<?xml version=\"1.0\" encoding=\"UTF-8\"?>\n<rss version=\"2.0\">\n<channel>\n<title>Lawrenceanum 規制変化フィード</title>\n<description>法令改正・パブリックコメント・官報(改め文)の新着</description>\n");
    push_str(&mut out, "<link>");
    push_str(&mut out, xml_escape(bn.as_str()).as_str());
    push_str(&mut out, "</link>\n");
    let ghost head = out@;
    assert(head =~= rss_head() + "<link>"@ + xml_escape_spec(base_norm(base@)) + "</link>\n"@);
    let mut i: usize = 0;
    while i < items.len()
        invariant
            i <= items.len(),
            bn@ == base_norm(base@),
            out@ == head + rss_items(items@.take(i as int), bn@),
        decreases items.len() - i,
    {
        assert(items@.take(i + 1).drop_last() =~= items@.take(i as int));
        rss_item_exec(&mut out, &items[i], &bn);
        assert(out@ =~= head + rss_items(items@.take(i + 1), bn@));
        i = i + 1;
    }
    assert(items@.take(items.len() as int) =~= items@);
    push_str(&mut out, "</channel>\n</rss>\n");
    assert(out@ =~= rss_spec(base@, items@));
    string_of(&out)
}

} // verus!
