//! The HTML pages of the bill database, read through `scraper`.
//!
//! `scraper` parses the page and selects elements; what the library does
//! with the selected text (normalizing whitespace, pairing cells,
//! deduplicating lines) is verified here.
use vstd::prelude::*;
use super::keika::{candidates_read, keika_bill, keika_from_cells, cells_readable, page_rows};
use super::model::{Bill, BillMeta};
use crate::error::ProviderError;
use crate::scan::{normalize_ws, normalize_ws_exec};
use crate::text::{chars_eq, chars_of, join, join_lines, nl, seqs_of, string_of, strings_of, lemma_seqs_of_push, lemma_strings_of_push};

verus! {

/// The text content of every element of the HTML document `html` that the
/// CSS selector `css` selects, in document order (what `scraper` yields).
pub uninterp spec fn selected_texts(html: Seq<char>, css: Seq<char>) -> Seq<Seq<char>>;

/// Parses `html` with `scraper::Html::parse_document` and returns the
/// concatenated text nodes of each element that `scraper::Selector` `css`
/// selects, in document order; an unparsable selector selects nothing.
#[verifier::external_body]
pub(crate) fn select_texts(html: &str, css: &str) -> (v: Vec<String>)
    ensures
        strings_of(v@) == selected_texts(html@, css@),
{
    let doc = scraper::Html::parse_document(html);
    match scraper::Selector::parse(css) {
        Ok(sel) => doc.select(&sel).map(|e| e.text().collect::<String>()).collect(),
        Err(_) => Vec::new(),
    }
}

/// Every text of `ts` with its whitespace normalized.
pub open spec fn normalized_all(ts: Seq<Seq<char>>) -> Seq<Seq<char>> {
    Seq::new(ts.len(), |i: int| normalize_ws(ts[i]))
}

/// `split_whitespace().join(" ")` of a string.
pub fn norm(s: &str) -> (out: String)
    ensures
        out@ == normalize_ws(s@),
{
    let c = chars_of(s);
    let n = normalize_ws_exec(&c);
    string_of(&n)
}

/// The normalized text of each selected element.
fn selected_normalized(html: &str, css: &str) -> (v: Vec<String>)
    ensures
        strings_of(v@) == normalized_all(selected_texts(html@, css@)),
{
    let raw = select_texts(html, css);
    let mut out: Vec<String> = Vec::new();
    let mut i: usize = 0;
    while i < raw.len()
        invariant
            i <= raw.len(),
            strings_of(raw@) == selected_texts(html@, css@),
            strings_of(out@) == normalized_all(strings_of(raw@)).take(i as int),
        decreases raw.len() - i,
    {
        let n = norm(raw[i].as_str());
        proof {
            lemma_strings_of_push(out@, n);
        }
        out.push(n);
        assert(normalized_all(strings_of(raw@)).take(i + 1) =~= normalized_all(strings_of(raw@)).take(
            i as int,
        ).push(normalize_ws(raw@[i as int]@)));
        i = i + 1;
    }
    assert(normalized_all(strings_of(raw@)).take(i as int) =~= normalized_all(strings_of(raw@)));
    out
}

/// The selector of the item cells of a progress page.
pub open spec fn komoku_css() -> Seq<char> {
    "td[headers=\"KOMOKU\"]"@
}

/// The selector of the content cells of a progress page.
pub open spec fn naiyo_css() -> Seq<char> {
    "td[headers=\"NAIYO\"]"@
}

/// The rows of the progress page `html`.
pub open spec fn keika_rows(html: Seq<char>) -> Seq<(Seq<char>, Seq<char>)> {
    page_rows(
        normalized_all(selected_texts(html, komoku_css())),
        normalized_all(selected_texts(html, naiyo_css())),
    )
}

/// Reads a progress page (`keika/{ID}.htm`): its KOMOKU and NAIYO cells,
/// whitespace-normalized and paired in document order, become the bill's
/// fields, from which `keika_from_cells` derives the rest.
pub fn parse_keika(html: &str, meta: &BillMeta, fetched_at: &str) -> (r: Result<Bill, ProviderError>)
    requires
        candidates_read(keika_rows(html@)),
    ensures
        r matches Ok(b) && keika_bill(b, keika_rows(html@), *meta, fetched_at@),
{
    let keys = selected_normalized(html, "td[headers=\"KOMOKU\"]");
    let vals = selected_normalized(html, "td[headers=\"NAIYO\"]");
    Ok(keika_from_cells(&keys, &vals, meta, fetched_at))
}

/// `parse_keika` where every date of the page can be read; `None` where an
/// era year is so large that the year does not fit in an `i32`.
pub fn parse_keika_checked(html: &str, meta: &BillMeta, fetched_at: &str) -> (r: Option<Bill>)
    ensures
        candidates_read(keika_rows(html@)) ==> (r matches Some(b) && keika_bill(b, keika_rows(html@), *meta, fetched_at@)),
        !candidates_read(keika_rows(html@)) ==> r is None,
{
    let keys = selected_normalized(html, "td[headers=\"KOMOKU\"]");
    let vals = selected_normalized(html, "td[headers=\"NAIYO\"]");
    if cells_readable(&keys, &vals) {
        Some(keika_from_cells(&keys, &vals, meta, fetched_at))
    } else {
        None
    }
}

/// The lines kept from the texts `ts`: non-empty ones, a line equal to the
/// one kept just before it dropped.
pub open spec fn doc_lines(ts: Seq<Seq<char>>) -> Seq<Seq<char>>
    decreases ts.len(),
{
    if ts.len() == 0 {
        Seq::empty()
    } else {
        let prev = doc_lines(ts.drop_last());
        let t = ts.last();
        if t.len() > 0 && (prev.len() == 0 || prev.last() != t) {
            prev.push(t)
        } else {
            prev
        }
    }
}

/// The selector of the body paragraphs and headings of a document page.
pub open spec fn body_css() -> Seq<char> {
    "#mainlayout p, #mainlayout h1, #mainlayout h2, #mainlayout h3"@
}

/// The body text of a bill document page: the paragraphs and headings of
/// `#mainlayout`, whitespace-normalized, empty and repeated lines dropped,
/// joined by newlines.
pub fn extract_document_text(html: &str) -> (out: String)
    ensures
        out@ == join(doc_lines(normalized_all(selected_texts(html@, body_css()))), nl()),
{
    let texts = selected_normalized(html, "#mainlayout p, #mainlayout h1, #mainlayout h2, #mainlayout h3");
    let ghost ts = strings_of(texts@);
    let mut lines: Vec<Vec<char>> = Vec::new();
    let mut i: usize = 0;
    while i < texts.len()
        invariant
            i <= texts.len(),
            ts == strings_of(texts@),
            seqs_of(lines@) == doc_lines(ts.take(i as int)),
        decreases texts.len() - i,
    {
        let t = chars_of(texts[i].as_str());
        assert(ts.take(i + 1).drop_last() =~= ts.take(i as int));
        assert(ts.take(i + 1).last() == t@);
        let keep = t.len() > 0 && (lines.len() == 0 || !chars_eq(&lines[lines.len() - 1], &t));
        if keep {
            proof {
                lemma_seqs_of_push(lines@, t);
            }
            lines.push(t);
        }
        i = i + 1;
    }
    assert(ts.take(texts.len() as int) =~= ts);
    let joined = join_lines(&lines);
    string_of(&joined)
}

} // verus!
