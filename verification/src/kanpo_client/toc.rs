//! The table of contents of a gazette day, read into issues and items.
//!
//! The page lists, in document order, an issue heading (「本紙 第1726号」,
//! 「号外 第131号」, ...) followed by the item links of that issue.  The
//! links are taken from the page by `scraper`; grouping them into issues is
//! verified here.
use vstd::prelude::*;
use super::http::{
    issue_heading_spec, item_link_spec, item_link_view, parse_issue_heading, parse_item_link,
    ItemLinkView,
};
use super::model::{KanpoIssue, KanpoItem};
use crate::scan::{before_char, before_char_exec, normalize_ws, normalize_ws_exec};
use crate::text::{append_chars, chars_eq, chars_of, string_of, strings_of, lemma_strings_of_push};

verus! {

/// The `href` (empty when absent) and the concatenated text of every `<a>`
/// element of the HTML document `html`, in document order.
pub uninterp spec fn anchors(html: Seq<char>) -> Seq<(Seq<char>, Seq<char>)>;

/// The views of a list of (href, text) pairs.
pub open spec fn pairs_view(v: Seq<(String, String)>) -> Seq<(Seq<char>, Seq<char>)> {
    Seq::new(v.len(), |i: int| (v[i].0@, v[i].1@))
}

/// Parses `html` with `scraper::Html::parse_document` and returns, for each
/// element selected by `a`, its `href` attribute (empty when absent) and
/// its text nodes concatenated, in document order.
#[verifier::external_body]
pub(crate) fn html_anchors(html: &str) -> (v: Vec<(String, String)>)
    ensures
        pairs_view(v@) == anchors(html@),
{
    let doc = scraper::Html::parse_document(html);
    match scraper::Selector::parse("a") {
        Ok(sel) => doc.select(&sel).map(
            |a| (a.value().attr("href").unwrap_or("").to_string(), a.text().collect::<String>()),
        ).collect(),
        Err(_) => Vec::new(),
    }
}

/// An issue: type, number, PDF directory URL, date, item titles, items.
pub type IssueView = (Seq<char>, Seq<char>, Seq<char>, Seq<char>, Seq<Seq<char>>, Seq<ItemLinkView>);

/// The view of an issue.
pub open spec fn issue_view(i: KanpoIssue) -> IssueView {
    (
        i.issue_type@,
        i.issue_no@,
        i.pdf_url@,
        i.promulgation_date@,
        strings_of(i.titles@),
        Seq::new(i.items@.len(), |k: int| item_link_view(i.items@[k])),
    )
}

/// The fields that the table of contents does not fill are empty.
pub open spec fn issue_plain(i: KanpoIssue) -> bool {
    &&& i.sha256 is None
    &&& i.law_nums.len() == 0
    &&& i.page_count is None
    &&& forall|k: int| 0 <= k < i.items.len() ==> {
        &&& (#[trigger] i.items@[k]).sha256 is None
        &&& i.items@[k].amend_text is None
        &&& i.items@[k].amend_format is None
        &&& i.items@[k].amend_document is None
    }
}

/// An item with this page and title is already listed.
pub open spec fn listed(items: Seq<ItemLinkView>, it: ItemLinkView) -> bool {
    exists|j: int| 0 <= j < items.len() && (#[trigger] items[j]).1 == it.1 && items[j].0 == it.0
}

/// The issues finished so far and the one being filled.
pub type TocState = (Seq<IssueView>, Option<IssueView>);

/// The state after one link.
pub open spec fn toc_step(
    st: TocState,
    base: Seq<char>,
    compact: Seq<char>,
    date: Seq<char>,
    link: (Seq<char>, Seq<char>),
) -> TocState {
    let (done, cur) = st;
    let href = link.0;
    let text = normalize_ws(link.1);
    match issue_heading_spec(text) {
        Some((k, n)) => (
            match cur {
                Some(c) => done.push(c),
                None => done,
            },
            Some((k, n, Seq::empty(), date, Seq::empty(), Seq::empty())),
        ),
        None => match item_link_spec(base, compact, href, text) {
            None => st,
            Some(item) => match cur {
                None => st,
                Some(c) => {
                    let pdf = if c.2.len() == 0 {
                        base + "/"@ + compact + "/"@ + before_char(href, '/') + "/"@
                    } else {
                        c.2
                    };
                    if listed(c.5, item) {
                        (done, Some((c.0, c.1, pdf, c.3, c.4, c.5)))
                    } else {
                        (done, Some((c.0, c.1, pdf, c.3, c.4.push(item.0), c.5.push(item))))
                    }
                },
            },
        },
    }
}

/// The state after the links.
pub open spec fn toc_run(
    links: Seq<(Seq<char>, Seq<char>)>,
    base: Seq<char>,
    compact: Seq<char>,
    date: Seq<char>,
) -> TocState
    decreases links.len(),
{
    if links.len() == 0 {
        (Seq::empty(), None)
    } else {
        toc_step(toc_run(links.drop_last(), base, compact, date), base, compact, date, links.last())
    }
}

/// The issues of a table of contents with these links.
pub open spec fn toc_issues(
    links: Seq<(Seq<char>, Seq<char>)>,
    base: Seq<char>,
    compact: Seq<char>,
    date: Seq<char>,
) -> Seq<IssueView> {
    let (done, cur) = toc_run(links, base, compact, date);
    match cur {
        Some(c) => done.push(c),
        None => done,
    }
}

/// The views of a list of issues.
pub open spec fn issues_view(v: Seq<KanpoIssue>) -> Seq<IssueView> {
    Seq::new(v.len(), |i: int| issue_view(v[i]))
}

/// Whether `items` already holds an item with this page and title.
fn is_listed(items: &Vec<KanpoItem>, page: u32, title: &String) -> (r: bool)
    ensures
        r == listed(Seq::new(items@.len(), |k: int| item_link_view(items@[k])), (title@, page, Seq::empty(), None)),
{
    let ghost views = Seq::new(items@.len(), |k: int| item_link_view(items@[k]));
    let tc = chars_of(title.as_str());
    let mut j: usize = 0;
    while j < items.len()
        invariant
            j <= items.len(),
            tc@ == title@,
            views == Seq::new(items@.len(), |k: int| item_link_view(items@[k])),
            forall|k: int| 0 <= k < j ==> !((#[trigger] views[k]).1 == page && views[k].0 == title@),
        decreases items.len() - j,
    {
        let ic = chars_of(items[j].title.as_str());
        assert(views[j as int] == item_link_view(items@[j as int]));
        if items[j].page == page && chars_eq(&ic, &tc) {
            return true;
        }
        j = j + 1;
    }
    false
}

/// Groups the links of a day's table of contents into issues: a heading
/// starts a new issue dated `date`; an item link of the date `compact`
/// joins the current issue (which takes its PDF directory from the first
/// such link) unless an item with the same page and title is already
/// there.  Links before the first heading are ignored.
pub fn toc_from_links(base_url: &str, compact: &str, date: &str, links: &Vec<(String, String)>) -> (out: Vec<KanpoIssue>)
    ensures
        issues_view(out@) == toc_issues(pairs_view(links@), base_url@, compact@, date@),
        forall|i: int| 0 <= i < out.len() ==> issue_plain(#[trigger] out@[i]),
{
    let ghost ls = pairs_view(links@);
    let mut done: Vec<KanpoIssue> = Vec::new();
    let mut cur: Option<KanpoIssue> = None;
    let mut i: usize = 0;
    while i < links.len()
        invariant
            i <= links.len(),
            ls == pairs_view(links@),
            toc_run(ls.take(i as int), base_url@, compact@, date@) == (issues_view(done@), match cur {
                Some(c) => Some(issue_view(c)),
                None => None,
            }),
            forall|k: int| 0 <= k < done.len() ==> issue_plain(#[trigger] done@[k]),
            cur matches Some(c) ==> issue_plain(c),
        decreases links.len() - i,
    {
        assert(ls.take(i + 1).drop_last() =~= ls.take(i as int));
        assert(ls.take(i + 1).last() == ls[i as int]);
        let href = &links[i].0;
        let raw = chars_of(links[i].1.as_str());
        let text = normalize_ws_exec(&raw);
        let ts = string_of(&text);
        match parse_issue_heading(ts.as_str()) {
            Some((issue_type, issue_no)) => {
                match cur {
                    Some(c) => {
                        let ghost before = done@;
                        done.push(c);
                        assert(issues_view(done@) =~= issues_view(before).push(issue_view(c)));
                    },
                    None => {},
                }
                let fresh = KanpoIssue {
                    issue_type,
                    issue_no,
                    pdf_url: String::new(),
                    sha256: None,
                    promulgation_date: date.to_owned(),
                    law_nums: Vec::new(),
                    titles: Vec::new(),
                    items: Vec::new(),
                    page_count: None,
                };
                assert(issue_view(fresh).4 =~= Seq::<Seq<char>>::empty());
                assert(issue_view(fresh).5 =~= Seq::<ItemLinkView>::empty());
                cur = Some(fresh);
            },
            None => {
                match parse_item_link(base_url, compact, href.as_str(), ts.as_str()) {
                    None => {},
                    Some(item) => {
                        match cur {
                            None => {},
                            Some(ref mut c) => {
                                let ghost c0 = issue_view(*c);
                                if c.pdf_url.as_str().is_empty() {
                                    let hc = chars_of(href.as_str());
                                    let dir = before_char_exec(&hc, '/');
                                    let mut u = chars_of(base_url);
                                    let sl = chars_of("/");
                                    append_chars(&mut u, &sl);
                                    let cc = chars_of(compact);
                                    append_chars(&mut u, &cc);
                                    append_chars(&mut u, &sl);
                                    append_chars(&mut u, &dir);
                                    append_chars(&mut u, &sl);
                                    c.pdf_url = string_of(&u);
                                }
                                let ghost iv = item_link_view(item);
                                let dup = is_listed(&c.items, item.page, &item.title);
                                proof {
                                    if dup != listed(c0.5, iv) {
                                        let views = Seq::new(c.items@.len(), |k: int| item_link_view(c.items@[k]));
                                        assert(views == c0.5);
                                        if dup {
                                            let j = choose|j: int| 0 <= j < views.len() && (#[trigger] views[j]).1 == iv.1 && views[j].0 == iv.0;
                                            assert(listed(c0.5, iv));
                                        } else {
                                            let j = choose|j: int| 0 <= j < c0.5.len() && (#[trigger] c0.5[j]).1 == iv.1 && c0.5[j].0 == iv.0;
                                            assert(listed(views, (item.title@, item.page, Seq::empty(), None)));
                                        }
                                    }
                                }
                                if !dup {
                                    let ghost before_titles = c.titles@;
                                    let ghost before_items = c.items@;
                                    let t = item.title.clone();
                                    c.titles.push(t);
                                    c.items.push(item);
                                    proof {
                                        lemma_strings_of_push(before_titles, t);
                                        assert(Seq::new(c.items@.len(), |k: int| item_link_view(c.items@[k])) =~= Seq::new(
                                            before_items.len(),
                                            |k: int| item_link_view(before_items[k]),
                                        ).push(iv));
                                    }
                                }
                            },
                        }
                    },
                }
            },
        }
        i = i + 1;
    }
    assert(ls.take(links.len() as int) =~= ls);
    match cur {
        Some(c) => {
            let ghost before = done@;
            done.push(c);
            assert(issues_view(done@) =~= issues_view(before).push(issue_view(c)));
        },
        None => {},
    }
    done
}

/// Reads a day's table of contents page `html` into its issues and items
/// (see `toc_from_links`).
pub fn parse_toc(base_url: &str, compact: &str, date: &str, html: &str) -> (out: Vec<KanpoIssue>)
    ensures
        issues_view(out@) == toc_issues(anchors(html@), base_url@, compact@, date@),
        forall|i: int| 0 <= i < out.len() ==> issue_plain(#[trigger] out@[i]),
{
    let links = html_anchors(html);
    toc_from_links(base_url, compact, date, &links)
}

} // verus!
