//! The list pages: the bill list of a session, the document index of a
//! bill, and the House of Councillors' supplementary-resolution index.
//!
//! `scraper` parses a page and selects its elements; `url` resolves a link
//! against the page it stands on.  Which rows and links become records,
//! and how their fields are read, is verified here.
use vstd::prelude::*;
use super::html::{select_texts, selected_texts};
use super::model::{BillDocumentLink, BillMeta, ResolutionMeta};
use super::resolution::{
    extract_session_number, label_readable, label_readable_exec, parse_resolution_label,
    resolution_label_spec, session_number_spec,
};
use crate::error::ProviderError;
use crate::kanpo_client::toc::{anchors, html_anchors, pairs_view};
use crate::num::{dec, u64_to_chars};
use crate::scan::{before_char, before_char_exec, normalize_ws, normalize_ws_exec, rindex_of, rindex_of_char};
use crate::text::{
    append_chars, chars_eq, chars_of, contains, contains_chars, copy_range, ends_with,
    ends_with_chars, opt_view, seqs_of, string_of, strings_of, lemma_seqs_of_push,
};

verus! {

// ---------------------------------------------------------------------------
// Elements and links
// ---------------------------------------------------------------------------

/// An element as the list readers see it: tag name, `href` (empty when the
/// element has none) and its text nodes concatenated.
pub type NodeView = (Seq<char>, Seq<char>, Seq<char>);

/// An element with the elements selected inside it.
pub type GroupView = (NodeView, Seq<NodeView>);

/// For each element of the HTML document `html` that the CSS selector
/// `outer` selects, in document order: the element, and the elements that
/// `inner` selects among its descendants, in document order.
pub uninterp spec fn selected_groups(html: Seq<char>, outer: Seq<char>, inner: Seq<char>) -> Seq<GroupView>;

/// The URL that `href` names when it stands on the page at `base`: `None`
/// when `base` is not an absolute URL or `href` cannot be resolved.
pub uninterp spec fn joined_url(base: Seq<char>, href: Seq<char>) -> Option<Seq<char>>;

/// `base` parses as an absolute URL.
pub uninterp spec fn url_parses(base: Seq<char>) -> bool;

/// An element read from a page.
pub struct HtmlNode {
    pub name: String,
    pub href: String,
    pub text: String,
}

pub open spec fn node_view(n: HtmlNode) -> NodeView {
    (n.name@, n.href@, n.text@)
}

pub open spec fn nodes_view(v: Seq<HtmlNode>) -> Seq<NodeView> {
    Seq::new(v.len(), |i: int| node_view(v[i]))
}

pub open spec fn groups_view(v: Seq<(HtmlNode, Vec<HtmlNode>)>) -> Seq<GroupView> {
    Seq::new(v.len(), |i: int| (node_view(v[i].0), nodes_view(v[i].1@)))
}

/// Parses `html` with `scraper::Html::parse_document`; for each element that
/// `scraper::Selector` `outer` selects, returns its local name, `href`
/// attribute (empty when absent) and text nodes concatenated, with the same
/// for each element that `inner` selects inside it.  An unparsable selector
/// selects nothing.
#[verifier::external_body]
fn select_groups(html: &str, outer: &str, inner: &str) -> (v: Vec<(HtmlNode, Vec<HtmlNode>)>)
    ensures
        groups_view(v@) == selected_groups(html@, outer@, inner@),
{
    let doc = scraper::Html::parse_document(html);
    let (Ok(o), Ok(i)) = (scraper::Selector::parse(outer), scraper::Selector::parse(inner)) else {
        return Vec::new();
    };
    let node = |e: scraper::ElementRef| HtmlNode {
        name: e.value().name().to_string(),
        href: e.value().attr("href").unwrap_or("").to_string(),
        text: e.text().collect(),
    };
    doc.select(&o).map(|e| (node(e), e.select(&i).map(node).collect())).collect()
}

/// Resolves `href` against `base` with `url::Url::parse` and `Url::join`;
/// `None` when either fails.
#[verifier::external_body]
fn join_url(base: &str, href: &str) -> (r: Option<String>)
    ensures
        opt_view(r) == joined_url(base@, href@),
{
    match url::Url::parse(base) {
        Ok(b) => match b.join(href) {
            Ok(u) => Some(u.to_string()),
            Err(_) => None,
        },
        Err(_) => None,
    }
}

/// Whether `url::Url::parse` accepts `base`.
#[verifier::external_body]
fn parses_as_url(base: &str) -> (b: bool)
    ensures
        b == url_parses(base@),
{
    url::Url::parse(base).is_ok()
}

fn is_named(n: &HtmlNode, name: &str) -> (b: bool)
    ensures
        b == (n.name@ == name@),
{
    let a = chars_of(n.name.as_str());
    let b = chars_of(name);
    chars_eq(&a, &b)
}

fn concat(a: &str, b: &str) -> (s: String)
    ensures
        s@ == a@ + b@,
{
    let mut v = chars_of(a);
    let w = chars_of(b);
    append_chars(&mut v, &w);
    string_of(&v)
}

/// `seen` holds `x`.
fn holds(seen: &Vec<Vec<char>>, x: &[char]) -> (b: bool)
    ensures
        b == seqs_of(seen@).contains(x@),
{
    let mut i: usize = 0;
    while i < seen.len()
        invariant
            i <= seen.len(),
            forall|j: int| 0 <= j < i ==> seen@[j]@ != x@,
        decreases seen.len() - i,
    {
        if chars_eq(&seen[i], x) {
            assert(seqs_of(seen@)[i as int] == x@);
            return true;
        }
        i = i + 1;
    }
    proof {
        if seqs_of(seen@).contains(x@) {
            let j = choose|j: int| 0 <= j < seqs_of(seen@).len() && seqs_of(seen@)[j] == x@;
            assert(seen@[j]@ == x@);
        }
    }
    false
}

// ---------------------------------------------------------------------------
// Paths
// ---------------------------------------------------------------------------

/// `s.rsplit('/').next()`: what follows the last `/`, or all of `s`.
pub open spec fn last_segment(s: Seq<char>) -> Seq<char> {
    match rindex_of(s, '/') {
        Some(k) => s.skip(k + 1),
        None => s,
    }
}

fn last_segment_exec(s: &[char]) -> (out: Vec<char>)
    ensures
        out@ == last_segment(s@),
{
    match rindex_of_char(s, '/') {
        Some(k) => {
            let v = copy_range(s, k + 1, s.len());
            assert(v@ =~= s@.skip(k + 1));
            v
        },
        None => copy_range(s, 0, s.len()),
    }
}

/// `s.trim_end_matches(".htm")`: every trailing `.htm` removed.
pub open spec fn trim_htm(s: Seq<char>) -> Seq<char>
    decreases s.len(),
{
    if s.len() >= 4 && ends_with(s, ".htm"@) {
        trim_htm(s.take(s.len() - 4))
    } else {
        s
    }
}

fn trim_htm_exec(s: &[char]) -> (out: Vec<char>)
    ensures
        out@ == trim_htm(s@),
{
    let htm = chars_of(".htm");
    let mut n: usize = s.len();
    assert(s@.take(n as int) =~= s@);
    loop
        invariant
            n <= s.len(),
            htm@ == ".htm"@,
            trim_htm(s@) == trim_htm(s@.take(n as int)),
        decreases n,
    {
        let cur = copy_range(s, 0, n);
        assert(cur@ =~= s@.take(n as int));
        if n >= 4 && ends_with_chars(&cur, &htm) {
            assert(s@.take(n as int).take(n - 4) =~= s@.take(n - 4));
            n = n - 4;
        } else {
            return cur;
        }
    }
}

// ---------------------------------------------------------------------------
// The bill list
// ---------------------------------------------------------------------------

/// A listed bill: id, session, title, state, progress page, text index.
pub type BillMetaView = (Seq<char>, u32, Seq<char>, Option<Seq<char>>, Seq<char>, Option<Seq<char>>);

pub open spec fn bill_meta_view(m: BillMeta) -> BillMetaView {
    (m.bill_id@, m.session, m.title@, opt_view(m.status), m.keika_url@, opt_view(m.honbun_url))
}

pub open spec fn bill_metas_view(v: Seq<BillMeta>) -> Seq<BillMetaView> {
    Seq::new(v.len(), |i: int| bill_meta_view(v[i]))
}

/// The `href` of the first link of a row, from position `i` on, that points
/// to a progress page (`keika/`).
pub open spec fn keika_href(items: Seq<NodeView>, i: int) -> Option<Seq<char>>
    decreases items.len() - i,
{
    if i < 0 || i >= items.len() {
        None
    } else if items[i].0 == "a"@ && contains(items[i].1, "keika/"@) {
        Some(items[i].1)
    } else {
        keika_href(items, i + 1)
    }
}

/// The first link of a row, from position `i` on, that points to a text
/// index (`honbun/`) and resolves against `menu`, resolved.
pub open spec fn honbun_url(items: Seq<NodeView>, menu: Seq<char>, i: int) -> Option<Seq<char>>
    decreases items.len() - i,
{
    if i < 0 || i >= items.len() {
        None
    } else if items[i].0 == "a"@ && contains(items[i].1, "honbun/"@) && joined_url(
        menu,
        items[i].1,
    ) is Some {
        joined_url(menu, items[i].1)
    } else {
        honbun_url(items, menu, i + 1)
    }
}

/// The texts of the cells of a row, whitespace-normalized, without empty
/// cells and without the cells that only hold the 経過 / 本文 links.
pub open spec fn row_cells(items: Seq<NodeView>) -> Seq<Seq<char>>
    decreases items.len(),
{
    if items.len() == 0 {
        Seq::empty()
    } else {
        let prev = row_cells(items.drop_last());
        let it = items.last();
        let t = normalize_ws(it.2);
        if it.0 == "td"@ && t.len() > 0 && t != "経過"@ && t != "本文"@ {
            prev.push(t)
        } else {
            prev
        }
    }
}

/// Reading the rows of a bill list: the ids seen so far and the bills.
/// A row counts when it links a progress page whose file stem is new and
/// when it has a title cell; its id is taken as seen even without a title.
pub open spec fn bill_rows(rows: Seq<GroupView>, session: u32, base: Seq<char>) -> (Seq<Seq<char>>, Seq<BillMetaView>)
    decreases rows.len(),
{
    if rows.len() == 0 {
        (Seq::empty(), Seq::empty())
    } else {
        let (seen, bills) = bill_rows(rows.drop_last(), session, base);
        let items = rows.last().1;
        match keika_href(items, 0) {
            None => (seen, bills),
            Some(href) => {
                let file = last_segment(href);
                let id = trim_htm(file);
                if id.len() == 0 || seen.contains(id) {
                    (seen, bills)
                } else {
                    let cells = row_cells(items);
                    if cells.len() == 0 {
                        (seen.push(id), bills)
                    } else {
                        (
                            seen.push(id),
                            bills.push(
                                (
                                    id,
                                    session,
                                    cells[0],
                                    if cells.len() > 1 { Some(cells[1]) } else { None },
                                    base + "/keika/"@ + file,
                                    honbun_url(items, base + "/menu.htm"@, 0),
                                ),
                            ),
                        )
                    }
                }
            },
        }
    }
}

/// The bills that the list page `html` of session `session` shows.
pub open spec fn bill_list_spec(html: Seq<char>, session: u32, base: Seq<char>) -> Seq<BillMetaView> {
    bill_rows(selected_groups(html, "tr"@, "a, td"@), session, base).1
}

fn keika_href_exec(items: &Vec<HtmlNode>) -> (r: Option<Vec<char>>)
    ensures
        match r {
            Some(h) => keika_href(nodes_view(items@), 0) == Some(h@),
            None => keika_href(nodes_view(items@), 0) is None,
        },
{
    let pat = chars_of("keika/");
    let mut i: usize = 0;
    while i < items.len()
        invariant
            i <= items.len(),
            pat@ == "keika/"@,
            keika_href(nodes_view(items@), 0) == keika_href(nodes_view(items@), i as int),
        decreases items.len() - i,
    {
        let h = chars_of(items[i].href.as_str());
        if is_named(&items[i], "a") && contains_chars(&h, &pat) {
            return Some(h);
        }
        i = i + 1;
    }
    None
}

fn honbun_url_exec(items: &Vec<HtmlNode>, menu: &str) -> (r: Option<String>)
    ensures
        opt_view(r) == honbun_url(nodes_view(items@), menu@, 0),
{
    let pat = chars_of("honbun/");
    let mut i: usize = 0;
    while i < items.len()
        invariant
            i <= items.len(),
            pat@ == "honbun/"@,
            honbun_url(nodes_view(items@), menu@, 0) == honbun_url(nodes_view(items@), menu@, i as int),
        decreases items.len() - i,
    {
        let h = chars_of(items[i].href.as_str());
        if is_named(&items[i], "a") && contains_chars(&h, &pat) {
            let j = join_url(menu, items[i].href.as_str());
            if j.is_some() {
                return j;
            }
        }
        i = i + 1;
    }
    None
}

fn row_cells_exec(items: &Vec<HtmlNode>) -> (out: Vec<Vec<char>>)
    ensures
        seqs_of(out@) == row_cells(nodes_view(items@)),
{
    let keika = chars_of("経過");
    let honbun = chars_of("本文");
    let mut out: Vec<Vec<char>> = Vec::new();
    let mut i: usize = 0;
    while i < items.len()
        invariant
            i <= items.len(),
            keika@ == "経過"@,
            honbun@ == "本文"@,
            seqs_of(out@) == row_cells(nodes_view(items@).take(i as int)),
        decreases items.len() - i,
    {
        assert(nodes_view(items@).take(i + 1).drop_last() =~= nodes_view(items@).take(i as int));
        let raw = chars_of(items[i].text.as_str());
        let t = normalize_ws_exec(&raw);
        if is_named(&items[i], "td") && t.len() > 0 && !chars_eq(&t, &keika) && !chars_eq(&t, &honbun) {
            proof {
                lemma_seqs_of_push(out@, t);
            }
            out.push(t);
        }
        i = i + 1;
    }
    assert(nodes_view(items@).take(items.len() as int) =~= nodes_view(items@));
    out
}

/// Reads the bill list of a session (`menu.htm` / `kaiji{N}.htm`): each
/// table row that links a progress page `keika/{ID}.htm` gives a bill with
/// that id, the first remaining cell as title and the second as state, the
/// progress page under `base` and the row's text index, if any; a repeated
/// id is read once.
pub fn parse_bill_list(html: &str, session: u32, base: &str) -> (r: Result<Vec<BillMeta>, ProviderError>)
    ensures
        r matches Ok(v) && bill_metas_view(v@) == bill_list_spec(html@, session, base@),
{
    let rows = select_groups(html, "tr", "a, td");
    let menu = concat(base, "/menu.htm");
    let mut seen: Vec<Vec<char>> = Vec::new();
    let mut bills: Vec<BillMeta> = Vec::new();
    let mut i: usize = 0;
    while i < rows.len()
        invariant
            i <= rows.len(),
            menu@ == base@ + "/menu.htm"@,
            groups_view(rows@) == selected_groups(html@, "tr"@, "a, td"@),
            (seqs_of(seen@), bill_metas_view(bills@)) == bill_rows(groups_view(rows@).take(i as int), session, base@),
        decreases rows.len() - i,
    {
        let ghost g = groups_view(rows@);
        assert(g.take(i + 1).drop_last() =~= g.take(i as int));
        assert(g.take(i + 1).last() == g[i as int]);
        let items = &rows[i].1;
        match keika_href_exec(items) {
            None => {},
            Some(href) => {
                let file = last_segment_exec(&href);
                let id = trim_htm_exec(&file);
                if id.len() > 0 && !holds(&seen, &id) {
                    let cells = row_cells_exec(items);
                    proof {
                        lemma_seqs_of_push(seen@, id);
                    }
                    let idc = copy_range(&id, 0, id.len());
                    assert(idc@ =~= id@);
                    seen.push(idc);
                    if cells.len() > 0 {
                        let mut ku = chars_of(base);
                        let k = chars_of("/keika/");
                        append_chars(&mut ku, &k);
                        append_chars(&mut ku, &file);
                        let status = if cells.len() > 1 {
                            Some(string_of(&cells[1]))
                        } else {
                            None
                        };
                        let m = BillMeta {
                            bill_id: string_of(&id),
                            session,
                            title: string_of(&cells[0]),
                            status,
                            keika_url: string_of(&ku),
                            honbun_url: honbun_url_exec(items, menu.as_str()),
                        };
                        bills.push(m);
                        assert(bill_metas_view(bills@) =~= bill_metas_view(bills@.drop_last()).push(
                            bill_meta_view(m),
                        ));
                    }
                }
            },
        }
        i = i + 1;
    }
    assert(groups_view(rows@).take(rows.len() as int) =~= groups_view(rows@));
    Ok(bills)
}

// ---------------------------------------------------------------------------
// Lower case
// ---------------------------------------------------------------------------

/// `char::to_ascii_lowercase`.
pub open spec fn lower_char(c: char) -> char {
    if 'A' <= c && c <= 'Z' {
        ((c as u32) + 32) as char
    } else {
        c
    }
}

/// `str::to_ascii_lowercase`.
pub open spec fn ascii_lower(s: Seq<char>) -> Seq<char> {
    Seq::new(s.len(), |i: int| lower_char(s[i]))
}

pub(crate) fn ascii_lower_exec(s: &[char]) -> (out: Vec<char>)
    ensures
        out@ == ascii_lower(s@),
{
    let mut out: Vec<char> = Vec::new();
    let mut i: usize = 0;
    while i < s.len()
        invariant
            i <= s.len(),
            out@ == ascii_lower(s@).take(i as int),
        decreases s.len() - i,
    {
        let c = s[i];
        let l = if 'A' <= c && c <= 'Z' {
            let b: u8 = c as u8;
            (b + 32) as char
        } else {
            c
        };
        out.push(l);
        assert(out@ =~= ascii_lower(s@).take(i + 1));
        i = i + 1;
    }
    assert(ascii_lower(s@).take(s.len() as int) =~= ascii_lower(s@));
    out
}

// ---------------------------------------------------------------------------
// The document index of a bill
// ---------------------------------------------------------------------------

/// A document link: kind, label, URL.
pub type DocLinkView = (Seq<char>, Seq<char>, Seq<char>);

pub open spec fn doc_link_view(l: BillDocumentLink) -> DocLinkView {
    (l.kind@, l.label@, l.url@)
}

pub open spec fn doc_links_view(v: Seq<BillDocumentLink>) -> Seq<DocLinkView> {
    Seq::new(v.len(), |i: int| doc_link_view(v[i]))
}

/// The kind of document a link points to, by its path: bill text
/// (`/houan/`), outline (`/youkou/`) or amendment (`/syuuseian/`,
/// `/shuseian/`), letter case ignored.
pub open spec fn doc_kind(href: Seq<char>) -> Option<Seq<char>> {
    let lower = ascii_lower(href);
    if contains(lower, "/houan/"@) {
        Some("bill_text"@)
    } else if contains(lower, "/youkou/"@) {
        Some("outline"@)
    } else if contains(lower, "/syuuseian/"@) || contains(lower, "/shuseian/"@) {
        Some("amendment"@)
    } else {
        None
    }
}

/// Reading the links of a document index in order: the URLs seen and the
/// links kept, or the message of the first link that cannot be resolved.
pub open spec fn doc_links_run(links: Seq<(Seq<char>, Seq<char>)>, base: Seq<char>) -> Result<(Seq<Seq<char>>, Seq<DocLinkView>), Seq<char>>
    decreases links.len(),
{
    if links.len() == 0 {
        Ok((Seq::empty(), Seq::empty()))
    } else {
        match doc_links_run(links.drop_last(), base) {
            Err(m) => Err(m),
            Ok((seen, kept)) => {
                let (href, text) = links.last();
                match doc_kind(href) {
                    None => Ok((seen, kept)),
                    Some(kind) => match joined_url(base, href) {
                        None => Err("resolve bill document URL "@ + href),
                        Some(url) => if seen.contains(url) {
                            Ok((seen, kept))
                        } else {
                            let label = normalize_ws(text);
                            Ok(
                                (
                                    seen.push(url),
                                    kept.push((kind, if label.len() == 0 { kind } else { label }, url)),
                                ),
                            )
                        },
                    },
                }
            },
        }
    }
}

/// The document links of the index page `html` at `index_url`, or the
/// message of the failure.
pub open spec fn doc_index_spec(html: Seq<char>, index_url: Seq<char>) -> Result<Seq<DocLinkView>, Seq<char>> {
    if !url_parses(index_url) {
        Err("parse bill document index URL"@)
    } else {
        match doc_links_run(anchors(html), index_url) {
            Ok((_, kept)) => Ok(kept),
            Err(m) => Err(m),
        }
    }
}

/// A failure stays the outcome however many links follow.
proof fn lemma_doc_error_stays(links: Seq<(Seq<char>, Seq<char>)>, n: int, base: Seq<char>)
    requires
        0 <= n <= links.len(),
        doc_links_run(links.take(n), base) is Err,
    ensures
        doc_links_run(links.take(links.len() as int), base) == doc_links_run(links.take(n), base),
    decreases links.len() - n,
{
    if n < links.len() {
        assert(links.take(n + 1).drop_last() =~= links.take(n));
        lemma_doc_error_stays(links, n + 1, base);
    }
}

fn doc_kind_exec(href: &[char]) -> (r: Option<&'static str>)
    ensures
        match r {
            Some(k) => doc_kind(href@) == Some(k@),
            None => doc_kind(href@) is None,
        },
{
    let lower = ascii_lower_exec(href);
    let houan = chars_of("/houan/");
    let youkou = chars_of("/youkou/");
    let syuusei = chars_of("/syuuseian/");
    let shusei = chars_of("/shuseian/");
    if contains_chars(&lower, &houan) {
        Some("bill_text")
    } else if contains_chars(&lower, &youkou) {
        Some("outline")
    } else if contains_chars(&lower, &syuusei) || contains_chars(&lower, &shusei) {
        Some("amendment")
    } else {
        None
    }
}

/// Lists the bill texts, outlines and amendments that the document index
/// `html` (at `index_url`) links, in page order, each URL once: the link's
/// kind, its text (the kind where it has none) and its URL resolved
/// against the page.  Fails when `index_url` or a kept link cannot be
/// resolved.
pub fn parse_document_index(html: &str, index_url: &str) -> (r: Result<Vec<BillDocumentLink>, ProviderError>)
    ensures
        match (r, doc_index_spec(html@, index_url@)) {
            (Ok(v), Ok(s)) => doc_links_view(v@) == s,
            (Err(e), Err(m)) => e matches ProviderError::Source(msg) && msg@ == m,
            _ => false,
        },
{
    if !parses_as_url(index_url) {
        return Err(ProviderError::Source("parse bill document index URL".to_string()));
    }
    let links = html_anchors(html);
    let mut seen: Vec<Vec<char>> = Vec::new();
    let mut kept: Vec<BillDocumentLink> = Vec::new();
    let mut i: usize = 0;
    assert(pairs_view(links@).take(0) =~= Seq::<(Seq<char>, Seq<char>)>::empty());
    assert(seqs_of(seen@) =~= Seq::<Seq<char>>::empty());
    assert(doc_links_view(kept@) =~= Seq::<DocLinkView>::empty());
    while i < links.len()
        invariant
            i <= links.len(),
            url_parses(index_url@),
            pairs_view(links@) == anchors(html@),
            doc_links_run(pairs_view(links@).take(i as int), index_url@) == Ok::<(Seq<Seq<char>>, Seq<DocLinkView>), Seq<char>>((seqs_of(seen@), doc_links_view(kept@))),
        decreases links.len() - i,
    {
        let ghost lv = pairs_view(links@);
        assert(lv.take(i + 1).drop_last() =~= lv.take(i as int));
        assert(lv.take(i + 1).last() == lv[i as int]);
        let href = chars_of(links[i].0.as_str());
        assert(lv[i as int] == (href@, links@[i as int].1@));
        assert(doc_links_run(lv.take(i + 1), index_url@) == match doc_links_run(lv.take(i as int), index_url@) {
            Err(m) => Err(m),
            Ok((seen, kept)) => {
                let (href, text) = lv[i as int];
                match doc_kind(href) {
                    None => Ok((seen, kept)),
                    Some(kind) => match joined_url(index_url@, href) {
                        None => Err("resolve bill document URL "@ + href),
                        Some(url) => if seen.contains(url) {
                            Ok((seen, kept))
                        } else {
                            let label = normalize_ws(text);
                            Ok((seen.push(url), kept.push((kind, if label.len() == 0 { kind } else { label }, url))))
                        },
                    },
                }
            },
        });
        match doc_kind_exec(&href) {
            None => {},
            Some(kind) => {
                match join_url(index_url, links[i].0.as_str()) {
                    None => {
                        let mut m = chars_of("resolve bill document URL ");
                        append_chars(&mut m, &href);
                        proof {
                            lemma_doc_error_stays(lv, i + 1, index_url@);
                            assert(lv.take(links.len() as int) =~= lv);
                        }
                        return Err(ProviderError::Source(string_of(&m)));
                    },
                    Some(url) => {
                        let u = chars_of(url.as_str());
                        if !holds(&seen, &u) {
                            proof {
                                lemma_seqs_of_push(seen@, u);
                            }
                            seen.push(u);
                            let raw = chars_of(links[i].1.as_str());
                            let label = normalize_ws_exec(&raw);
                            let l = BillDocumentLink {
                                kind: kind.to_owned(),
                                label: if label.len() == 0 {
                                    kind.to_owned()
                                } else {
                                    string_of(&label)
                                },
                                url,
                            };
                            let ghost old_kept = doc_links_view(kept@);
                            kept.push(l);
                            assert(doc_links_view(kept@) =~= old_kept.push(doc_link_view(l)));
                            assert(doc_link_view(l) == (kind@, if label@.len() == 0 { kind@ } else { label@ }, url@));
                            assert(doc_links_run(lv.take(i + 1), index_url@) == Ok::<(Seq<Seq<char>>, Seq<DocLinkView>), Seq<char>>((seqs_of(seen@), doc_links_view(kept@))));
                        } else {
                            assert(doc_links_run(lv.take(i + 1), index_url@) == Ok::<(Seq<Seq<char>>, Seq<DocLinkView>), Seq<char>>((seqs_of(seen@), doc_links_view(kept@))));
                        }
                    },
                }
            },
        }
        i = i + 1;
    }
    assert(pairs_view(links@).take(links.len() as int) =~= pairs_view(links@));
    Ok(kept)
}

// ---------------------------------------------------------------------------
// The supplementary-resolution index
// ---------------------------------------------------------------------------

/// A listed resolution: id, session, chamber, committee, title, subject,
/// date, document URL.
pub type ResMetaView = (Seq<char>, u32, Seq<char>, Seq<char>, Seq<char>, Seq<char>, Option<Seq<char>>, Seq<char>);

pub open spec fn res_meta_view(m: ResolutionMeta) -> ResMetaView {
    (
        m.resolution_id@,
        m.session,
        m.chamber@,
        m.committee@,
        m.title@,
        m.subject@,
        opt_view(m.resolution_date),
        m.source_url@,
    )
}

pub open spec fn res_metas_view(v: Seq<ResolutionMeta>) -> Seq<ResMetaView> {
    Seq::new(v.len(), |i: int| res_meta_view(v[i]))
}

/// The session number of the first heading, from position `i` on, that
/// names one.
pub open spec fn first_session(titles: Seq<Seq<char>>, i: int) -> Option<u32>
    decreases titles.len() - i,
{
    if i < 0 || i >= titles.len() {
        None
    } else {
        match session_number_spec(normalize_ws(titles[i])) {
            Some(n) => Some(n),
            None => first_session(titles, i + 1),
        }
    }
}

/// The file name of a link without directory and extension.
pub open spec fn file_stem(href: Seq<char>) -> Seq<char> {
    before_char(last_segment(href), '.')
}

/// The resolution id of a document of session `session`.
pub open spec fn resolution_id(session: u32, stem: Seq<char>) -> Seq<char> {
    "sangiin-"@ + dec(session as nat) + "-"@ + stem
}

/// Reading one link under the heading `committee`, with the URLs `seen`
/// and the resolutions `out` so far.  Only PDF links count; a link that
/// cannot be resolved fails the page; a URL already seen is skipped; the
/// link text gives title, subject and date.  `None` where the text holds a
/// date whose year does not fit an `i32`.
pub open spec fn res_link_step(
    seen: Seq<Seq<char>>,
    out: Seq<ResMetaView>,
    a: NodeView,
    committee: Seq<char>,
    session: u32,
    base: Seq<char>,
) -> Option<Result<(Seq<Seq<char>>, Seq<ResMetaView>), Seq<char>>> {
    let href = a.1;
    if !contains(ascii_lower(href), ".pdf"@) {
        Some(Ok((seen, out)))
    } else {
        match joined_url(base, href) {
            None => Some(Err("resolve resolution URL "@ + href)),
            Some(url) => if seen.contains(url) {
                Some(Ok((seen, out)))
            } else if !label_readable(normalize_ws(a.2)) {
                None
            } else {
                let (title, subject, date) = resolution_label_spec(normalize_ws(a.2));
                let stem = file_stem(href);
                if title.len() == 0 || stem.len() == 0 {
                    Some(Ok((seen.push(url), out)))
                } else {
                    Some(
                        Ok(
                            (
                                seen.push(url),
                                out.push(
                                    (
                                        resolution_id(session, stem),
                                        session,
                                        "参議院"@,
                                        committee,
                                        title,
                                        subject,
                                        date,
                                        url,
                                    ),
                                ),
                            ),
                        ),
                    )
                }
            },
        }
    }
}

/// Reading the links of one list under `committee` in order.
pub open spec fn res_links_run(
    seen: Seq<Seq<char>>,
    out: Seq<ResMetaView>,
    links: Seq<NodeView>,
    committee: Seq<char>,
    session: u32,
    base: Seq<char>,
) -> Option<Result<(Seq<Seq<char>>, Seq<ResMetaView>), Seq<char>>>
    decreases links.len(),
{
    if links.len() == 0 {
        Some(Ok((seen, out)))
    } else {
        match res_links_run(seen, out, links.drop_last(), committee, session, base) {
            Some(Ok((s, o))) => res_link_step(s, o, links.last(), committee, session, base),
            other => other,
        }
    }
}

/// Reading the headings and lists of the index in order: the committee of
/// the last heading, the URLs seen and the resolutions.  Lists before the
/// first heading are passed over.
pub open spec fn res_groups_run(groups: Seq<GroupView>, session: u32, base: Seq<char>) -> Option<Result<(Seq<char>, Seq<Seq<char>>, Seq<ResMetaView>), Seq<char>>>
    decreases groups.len(),
{
    if groups.len() == 0 {
        Some(Ok((Seq::empty(), Seq::empty(), Seq::empty())))
    } else {
        match res_groups_run(groups.drop_last(), session, base) {
            Some(Ok((committee, seen, out))) => {
                let g = groups.last();
                if g.0.0 == "h3"@ {
                    Some(Ok((normalize_ws(g.0.2), seen, out)))
                } else if committee.len() == 0 {
                    Some(Ok((committee, seen, out)))
                } else {
                    match res_links_run(seen, out, g.1, committee, session, base) {
                        Some(Ok((s2, o2))) => Some(Ok((committee, s2, o2))),
                        Some(Err(m)) => Some(Err(m)),
                        None => None,
                    }
                }
            },
            other => other,
        }
    }
}

/// The selector of the committee headings and link lists.
pub open spec fn resolution_css() -> Seq<char> {
    "h3, ul.exp_list_icn02"@
}

/// The selector of the page headings that name the session.
pub open spec fn session_css() -> Seq<char> {
    "h2.title_text, title"@
}

/// What reading the index page `html` at `index_url` for session
/// `requested` (0: the session the page names) gives: the resolutions or
/// the message of the failure; `None` where a link text holds a date whose
/// year does not fit an `i32`.
pub open spec fn resolution_outcome(html: Seq<char>, requested: u32, index_url: Seq<char>) -> Option<Result<Seq<ResMetaView>, Seq<char>>> {
    if !url_parses(index_url) {
        Some(Err("parse resolution index URL"@))
    } else {
        let session = if requested == 0 {
            first_session(selected_texts(html, session_css()), 0)
        } else {
            Some(requested)
        };
        match session {
            None => Some(Err("current resolution page does not contain a Diet session number"@)),
            Some(s) => match res_groups_run(selected_groups(html, resolution_css(), "a"@), s, index_url) {
                Some(Ok((_, _, out))) => Some(Ok(out)),
                Some(Err(m)) => Some(Err(m)),
                None => None,
            },
        }
    }
}

/// The outcome of a list stays once a link fails or cannot be read.
proof fn lemma_links_stop(
    seen: Seq<Seq<char>>,
    out: Seq<ResMetaView>,
    links: Seq<NodeView>,
    n: int,
    committee: Seq<char>,
    session: u32,
    base: Seq<char>,
)
    requires
        0 <= n <= links.len(),
        !(res_links_run(seen, out, links.take(n), committee, session, base) is Some
            && res_links_run(seen, out, links.take(n), committee, session, base)->0 is Ok),
    ensures
        res_links_run(seen, out, links.take(links.len() as int), committee, session, base)
            == res_links_run(seen, out, links.take(n), committee, session, base),
    decreases links.len() - n,
{
    if n < links.len() {
        assert(links.take(n + 1).drop_last() =~= links.take(n));
        lemma_links_stop(seen, out, links, n + 1, committee, session, base);
    }
}

/// The outcome of the page stays once a list fails or cannot be read.
proof fn lemma_groups_stop(groups: Seq<GroupView>, n: int, session: u32, base: Seq<char>)
    requires
        0 <= n <= groups.len(),
        !(res_groups_run(groups.take(n), session, base) is Some && res_groups_run(
            groups.take(n),
            session,
            base,
        )->0 is Ok),
    ensures
        res_groups_run(groups.take(groups.len() as int), session, base) == res_groups_run(
            groups.take(n),
            session,
            base,
        ),
    decreases groups.len() - n,
{
    if n < groups.len() {
        assert(groups.take(n + 1).drop_last() =~= groups.take(n));
        lemma_groups_stop(groups, n + 1, session, base);
    }
}

fn session_from_titles(html: &str) -> (r: Option<u32>)
    ensures
        r == first_session(selected_texts(html@, session_css()), 0),
{
    let titles = select_texts(html, "h2.title_text, title");
    let mut i: usize = 0;
    while i < titles.len()
        invariant
            i <= titles.len(),
            strings_of(titles@) == selected_texts(html@, session_css()),
            first_session(strings_of(titles@), 0) == first_session(strings_of(titles@), i as int),
        decreases titles.len() - i,
    {
        let t = chars_of(titles[i].as_str());
        let n = normalize_ws_exec(&t);
        let ns = string_of(&n);
        match extract_session_number(ns.as_str()) {
            Some(k) => {
                return Some(k);
            },
            None => {},
        }
        i = i + 1;
    }
    None
}

/// The id of a resolution document.
fn resolution_id_exec(session: u32, stem: &[char]) -> (s: String)
    ensures
        s@ == resolution_id(session, stem@),
{
    let mut v = chars_of("sangiin-");
    let n = u64_to_chars(session as u64);
    append_chars(&mut v, &n);
    let d = chars_of("-");
    append_chars(&mut v, &d);
    append_chars(&mut v, stem);
    string_of(&v)
}

/// Reads the links of one list under `committee` into `seen` and `out`.
fn res_links_exec(
    links: &Vec<HtmlNode>,
    committee: &[char],
    session: u32,
    base: &str,
    seen: &mut Vec<Vec<char>>,
    out: &mut Vec<ResolutionMeta>,
) -> (r: Option<Result<(), ProviderError>>)
    ensures
        match (r, res_links_run(seqs_of(old(seen)@), res_metas_view(old(out)@), nodes_view(links@), committee@, session, base@)) {
            (Some(Ok(())), Some(Ok((s, o)))) => seqs_of(final(seen)@) == s && res_metas_view(final(out)@) == o,
            (Some(Err(e)), Some(Err(m))) => e matches ProviderError::Source(msg) && msg@ == m,
            (None, None) => true,
            _ => false,
        },
{
    let ghost s0 = seqs_of(seen@);
    let ghost o0 = res_metas_view(out@);
    let ghost lv = nodes_view(links@);
    let pdf = chars_of(".pdf");
    let mut i: usize = 0;
    assert(lv.take(0) =~= Seq::<NodeView>::empty());
    while i < links.len()
        invariant
            i <= links.len(),
            pdf@ == ".pdf"@,
            lv == nodes_view(links@),
            s0 == seqs_of(old(seen)@),
            o0 == res_metas_view(old(out)@),
            res_links_run(s0, o0, lv.take(i as int), committee@, session, base@)
                == Some(Ok::<(Seq<Seq<char>>, Seq<ResMetaView>), Seq<char>>((seqs_of(seen@), res_metas_view(out@)))),
        decreases links.len() - i,
    {
        assert(lv.take(i + 1).drop_last() =~= lv.take(i as int));
        assert(lv.take(i + 1).last() == lv[i as int]);
        let href = chars_of(links[i].href.as_str());
        let lower = ascii_lower_exec(&href);
        if contains_chars(&lower, &pdf) {
            match join_url(base, links[i].href.as_str()) {
                None => {
                    let mut m = chars_of("resolve resolution URL ");
                    append_chars(&mut m, &href);
                    proof {
                        assert(lv[i as int].1 == href@);
                        assert(res_link_step(seqs_of(seen@), res_metas_view(out@), lv[i as int], committee@, session, base@)
                            == Some(Err::<(Seq<Seq<char>>, Seq<ResMetaView>), Seq<char>>(m@)));
                        assert(res_links_run(s0, o0, lv.take(i + 1), committee@, session, base@)
                            == Some(Err::<(Seq<Seq<char>>, Seq<ResMetaView>), Seq<char>>(m@)));
                        lemma_links_stop(s0, o0, lv, i + 1, committee@, session, base@);
                        assert(lv.take(links.len() as int) =~= lv);
                    }
                    return Some(Err(ProviderError::Source(string_of(&m))));
                },
                Some(url) => {
                    let u = chars_of(url.as_str());
                    if !holds(seen, &u) {
                        let raw = chars_of(links[i].text.as_str());
                        let label = string_of(&normalize_ws_exec(&raw));
                        if !label_readable_exec(label.as_str()) {
                            proof {
                                lemma_links_stop(s0, o0, lv, i + 1, committee@, session, base@);
                                assert(lv.take(links.len() as int) =~= lv);
                            }
                            return None;
                        }
                        proof {
                            lemma_seqs_of_push(seen@, u);
                        }
                        seen.push(u);
                        let (title, subject, date) = parse_resolution_label(label.as_str());
                        let seg = last_segment_exec(&href);
                        let stem = before_char_exec(&seg, '.');
                        if chars_of(title.as_str()).len() > 0 && stem.len() > 0 {
                            let m = ResolutionMeta {
                                resolution_id: resolution_id_exec(session, &stem),
                                session,
                                chamber: "参議院".to_owned(),
                                committee: string_of(committee),
                                title,
                                subject,
                                resolution_date: date,
                                source_url: url,
                            };
                            let ghost old_out = res_metas_view(out@);
                            out.push(m);
                            assert(res_metas_view(out@) =~= old_out.push(res_meta_view(m)));
                        }
                    }
                },
            }
        }
        i = i + 1;
    }
    assert(lv.take(links.len() as int) =~= lv);
    Some(Ok(()))
}

/// Reads the index page `html` at `index_url` for session `requested`
/// (0: the session the page names), or `None` where a link text holds a
/// date whose year does not fit an `i32`.
fn resolution_run(html: &str, requested: u32, index_url: &str) -> (r: Option<Result<Vec<ResolutionMeta>, ProviderError>>)
    ensures
        match (r, resolution_outcome(html@, requested, index_url@)) {
            (Some(Ok(v)), Some(Ok(s))) => res_metas_view(v@) == s,
            (Some(Err(e)), Some(Err(m))) => e matches ProviderError::Source(msg) && msg@ == m,
            (None, None) => true,
            _ => false,
        },
{
    if !parses_as_url(index_url) {
        return Some(Err(ProviderError::Source("parse resolution index URL".to_owned())));
    }
    let session = if requested == 0 {
        match session_from_titles(html) {
            Some(n) => n,
            None => {
                return Some(
                    Err(
                        ProviderError::Source(
                            "current resolution page does not contain a Diet session number".to_owned(),
                        ),
                    ),
                );
            },
        }
    } else {
        requested
    };
    let groups = select_groups(html, "h3, ul.exp_list_icn02", "a");
    let ghost gv = groups_view(groups@);
    let mut committee: Vec<char> = Vec::new();
    let mut seen: Vec<Vec<char>> = Vec::new();
    let mut out: Vec<ResolutionMeta> = Vec::new();
    let mut i: usize = 0;
    assert(gv.take(0) =~= Seq::<GroupView>::empty());
    assert(seqs_of(seen@) =~= Seq::<Seq<char>>::empty());
    assert(res_metas_view(out@) =~= Seq::<ResMetaView>::empty());
    assert(committee@ =~= Seq::<char>::empty());
    while i < groups.len()
        invariant
            i <= groups.len(),
            gv == groups_view(groups@),
            gv == selected_groups(html@, resolution_css(), "a"@),
            url_parses(index_url@),
            (if requested == 0 {
                first_session(selected_texts(html@, session_css()), 0)
            } else {
                Some(requested)
            }) == Some(session),
            res_groups_run(gv.take(i as int), session, index_url@) == Some(
                Ok::<(Seq<char>, Seq<Seq<char>>, Seq<ResMetaView>), Seq<char>>((committee@, seqs_of(seen@), res_metas_view(out@))),
            ),
        decreases groups.len() - i,
    {
        assert(gv.take(i + 1).drop_last() =~= gv.take(i as int));
        assert(gv.take(i + 1).last() == gv[i as int]);
        if is_named(&groups[i].0, "h3") {
            let t = chars_of(groups[i].0.text.as_str());
            committee = normalize_ws_exec(&t);
        } else if committee.len() > 0 {
            match res_links_exec(&groups[i].1, &committee, session, index_url, &mut seen, &mut out) {
                Some(Ok(())) => {},
                Some(Err(e)) => {
                    proof {
                        lemma_groups_stop(gv, i + 1, session, index_url@);
                        assert(gv.take(groups.len() as int) =~= gv);
                    }
                    return Some(Err(e));
                },
                None => {
                    proof {
                        lemma_groups_stop(gv, i + 1, session, index_url@);
                        assert(gv.take(groups.len() as int) =~= gv);
                    }
                    return None;
                },
            }
        }
        i = i + 1;
    }
    assert(gv.take(groups.len() as int) =~= gv);
    Some(Ok(out))
}

/// Reads the House of Councillors' supplementary-resolution index: each
/// PDF link under a committee heading (`h3`) gives a resolution of that
/// committee, its title, subject and date read from the link text, its
/// URL resolved against `index_url` and its id from the session and the
/// file name; a URL is read once.  With `requested` 0 the session is the
/// one the page heading names.  Fails when `index_url` or a PDF link
/// cannot be resolved, or when the session cannot be found.
pub fn parse_resolution_list(html: &str, requested: u32, index_url: &str) -> (r: Result<Vec<ResolutionMeta>, ProviderError>)
    requires
        resolution_outcome(html@, requested, index_url@) is Some,
    ensures
        match (r, resolution_outcome(html@, requested, index_url@)) {
            (Ok(v), Some(Ok(s))) => res_metas_view(v@) == s,
            (Err(e), Some(Err(m))) => e matches ProviderError::Source(msg) && msg@ == m,
            _ => false,
        },
{
    match resolution_run(html, requested, index_url) {
        Some(r) => r,
        None => Err(ProviderError::Source("unreadable resolution date".to_owned())),
    }
}

/// `parse_resolution_list` where every date read from the page fits;
/// `None` where a link text holds a date whose year does not fit an `i32`.
pub fn parse_resolution_list_checked(html: &str, requested: u32, index_url: &str) -> (r: Option<Result<Vec<ResolutionMeta>, ProviderError>>)
    ensures
        match (r, resolution_outcome(html@, requested, index_url@)) {
            (Some(Ok(v)), Some(Ok(s))) => res_metas_view(v@) == s,
            (Some(Err(e)), Some(Err(m))) => e matches ProviderError::Source(msg) && msg@ == m,
            (None, None) => true,
            _ => false,
        },
{
    if resolution_run(html, requested, index_url).is_none() {
        None
    } else {
        Some(parse_resolution_list(html, requested, index_url))
    }
}

} // verus!
