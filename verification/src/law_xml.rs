//! LawXML read into the stable document model.
//!
//! The reader walks the XML events once.  `MainProvision` articles become
//! the document's articles (`art_{Num}`); each `SupplProvision` becomes a
//! supplementary provision whose articles get ids in their own scope
//! (`suppl{n}_art_{Num}`); articles under appendix tables and the table of
//! contents are dropped.  Paragraph text joins the sentences (and item
//! sentences, prefixed by the item number) line by line.  A law without any
//! article keeps its top-level paragraphs as one `art_preamble` article.
use vstd::prelude::*;
use crate::error::ProviderError;
use crate::gian::dates::signed_pad4;
use crate::law_normalizer::{
    article_view, articles_view, era_start, era_start_year, paras_view, Article, ArticleView,
    LawDocument, ParaView, Paragraph, SourceMeta, SupplProvision, SCHEMA_VERSION,
};
use crate::num::{dec, parse_i32, parse_i32_spec, parse_u32, parse_u32_spec, u64_padded, u64_to_chars, zero_pad};
use crate::text::{
    append_chars, chars_eq, chars_of, copy_opt, opt_view, string_of, trim, trim_chars, is_blank,
    is_blank_chars,
};
use crate::xml::{read_xml_events, xml_events, XmlEvent};

verus! {

/// Where an article met now belongs.
#[derive(Clone, Copy, PartialEq, Eq, Structural)]
pub enum Scope {
    /// Outside any provision.
    Root,
    /// The main provision.
    Main,
    /// The supplementary provision with this running number.
    Suppl(u32),
    /// An appendix or the table of contents: not published.
    Other,
}

/// A supplementary provision: number, amending law, label, articles.
pub type SupplView = (u32, Option<Seq<char>>, Option<Seq<char>>, Seq<ArticleView>);

/// The view of a supplementary provision.
pub open spec fn suppl_view(s: SupplProvision) -> SupplView {
    (s.index, opt_view(s.amend_law_num), opt_view(s.label), articles_view(s.articles@))
}

/// The views of a list of supplementary provisions.
pub open spec fn suppls_view(v: Seq<SupplProvision>) -> Seq<SupplView> {
    Seq::new(v.len(), |i: int| suppl_view(v[i]))
}

/// The reading state.
pub struct LawState {
    pub law_num: Option<Seq<char>>,
    pub title: Option<Seq<char>>,
    pub prom: Option<Seq<char>>,
    pub articles: Seq<ArticleView>,
    pub suppls: Seq<SupplView>,
    pub count: u32,
    pub cur_art: Option<ArticleView>,
    pub cur_para: Option<ParaView>,
    pub item_num: Option<Seq<char>>,
    pub orphans: Seq<ParaView>,
    pub text: Seq<char>,
    pub scopes: Seq<Scope>,
}

/// The state before the first event.
pub open spec fn law_init() -> LawState {
    LawState {
        law_num: None,
        title: None,
        prom: None,
        articles: Seq::empty(),
        suppls: Seq::empty(),
        count: 0,
        cur_art: None,
        cur_para: None,
        item_num: None,
        orphans: Seq::empty(),
        text: Seq::empty(),
        scopes: seq![Scope::Root],
    }
}

/// The innermost scope.
pub open spec fn top_scope(scopes: Seq<Scope>) -> Scope {
    if scopes.len() > 0 {
        scopes.last()
    } else {
        Scope::Root
    }
}

/// The attributes of a tag: key and value (when valid UTF-8).
pub type AttrsView = Seq<(Seq<char>, Option<Seq<char>>)>;

/// The views of an attribute list.
pub open spec fn attrs_view(v: Seq<(String, Option<String>)>) -> AttrsView {
    Seq::new(v.len(), |i: int| (v[i].0@, opt_view(v[i].1)))
}

/// The value of the first attribute named `key`.
pub open spec fn attr_value(attrs: AttrsView, key: Seq<char>) -> Option<Seq<char>>
    decreases attrs.len(),
{
    if attrs.len() == 0 {
        None
    } else if attrs[0].0 == key {
        attrs[0].1
    } else {
        attr_value(attrs.drop_first(), key)
    }
}

/// Era, year, month and day from the attributes of `<Law>`, later
/// attributes overriding earlier ones; `None` if any attribute value is
/// not valid UTF-8.
pub open spec fn law_attr_scan(attrs: AttrsView) -> Option<(Option<Seq<char>>, Option<i32>, Option<u32>, Option<u32>)>
    decreases attrs.len(),
{
    if attrs.len() == 0 {
        Some((None, None, None, None))
    } else {
        match law_attr_scan(attrs.drop_last()) {
            None => None,
            Some((e, y, m, d)) => match attrs.last().1 {
                None => None,
                Some(v) => {
                    let k = attrs.last().0;
                    if k == "Era"@ {
                        Some((Some(v), y, m, d))
                    } else if k == "Year"@ {
                        Some((e, parse_i32_spec(v), m, d))
                    } else if k == "PromulgateMonth"@ {
                        Some((e, y, parse_u32_spec(v), d))
                    } else if k == "PromulgateDay"@ {
                        Some((e, y, m, parse_u32_spec(v)))
                    } else {
                        Some((e, y, m, d))
                    }
                },
            },
        }
    }
}

/// First year of the era, era year, month and day, when all are present.
pub open spec fn prom_parts(attrs: AttrsView) -> Option<(int, i32, u32, u32)> {
    match law_attr_scan(attrs) {
        Some((Some(e), Some(y), Some(m), Some(d))) => match era_start(e) {
            Some(s) => Some((s, y, m, d)),
            None => None,
        },
        _ => None,
    }
}

/// The western year sum overflows an `i32`.
pub open spec fn prom_overflows(attrs: AttrsView) -> bool {
    match prom_parts(attrs) {
        Some((s, y, _, _)) => s + y > i32::MAX,
        None => false,
    }
}

/// `<Law Era="Meiji" Year="29" PromulgateMonth="04" PromulgateDay="27">` →
/// `1896-04-27`.
pub open spec fn prom_from_attrs(attrs: AttrsView) -> Option<Seq<char>> {
    match prom_parts(attrs) {
        Some((s, y, m, d)) => Some(
            signed_pad4(s + y - 1) + seq!['-'] + zero_pad(dec(m as nat), 2) + seq!['-'] + zero_pad(
                dec(d as nat),
                2,
            ),
        ),
        None => None,
    }
}

/// Appendix and table-of-contents blocks, whose articles are not published.
pub open spec fn is_other_block(name: Seq<char>) -> bool {
    name == "AppdxTable"@ || name == "AppdxNote"@ || name == "AppdxStyle"@ || name == "AppdxFig"@
        || name == "AppdxFormat"@ || name == "Appdx"@ || name == "TOC"@
}

/// The elements that hold a line of paragraph text.
pub open spec fn is_sentence(name: Seq<char>) -> bool {
    name == "ParagraphSentence"@ || name == "Sentence"@ || is_item_sentence(name)
}

/// The sentences of items, prefixed by the item number.
pub open spec fn is_item_sentence(name: Seq<char>) -> bool {
    name == "ItemSentence"@ || name == "Subitem1Sentence"@ || name == "Subitem2Sentence"@
}

/// The id of an article opened in scope `scope`.
pub open spec fn article_id(st: LawState, num: Option<Seq<char>>) -> Seq<char> {
    match top_scope(st.scopes) {
        Scope::Main | Scope::Root => "art_"@ + match num {
            Some(n) => n,
            None => dec((st.articles.len() + 1) as nat),
        },
        Scope::Suppl(idx) => "suppl"@ + dec(idx as nat) + "_art_"@ + match num {
            Some(n) => n,
            None => dec(
                (if st.suppls.len() > 0 { st.suppls.last().3.len() + 1 } else { 1 }) as nat,
            ),
        },
        Scope::Other => "ignored_"@ + dec((st.articles.len() + 1) as nat),
    }
}

/// The state after an opening tag; `None` where reading it would overflow
/// a counter (a year beyond `i32`, or more than `u32::MAX` supplementary
/// provisions).
pub open spec fn law_start(st: LawState, name: Seq<char>, attrs: AttrsView) -> Option<LawState> {
    let law_tag = name == "Law"@ && st.prom is None;
    if law_tag && prom_overflows(attrs) {
        None
    } else {
        let st1 = if law_tag && prom_from_attrs(attrs) is Some {
            LawState { prom: prom_from_attrs(attrs), ..st }
        } else {
            st
        };
        let st2 = if name == "MainProvision"@ {
            Some(LawState { scopes: st1.scopes.push(Scope::Main), ..st1 })
        } else if name == "SupplProvision"@ {
            if st1.count == u32::MAX {
                None
            } else {
                let c = (st1.count + 1) as u32;
                Some(
                    LawState {
                        count: c,
                        suppls: st1.suppls.push((c, attr_value(attrs, "AmendLawNum"@), None, Seq::empty())),
                        scopes: st1.scopes.push(Scope::Suppl(c)),
                        ..st1
                    },
                )
            }
        } else if name == "Article"@ {
            Some(
                LawState {
                    cur_art: Some((article_id(st1, attr_value(attrs, "Num"@)), Seq::empty(), None, Seq::empty())),
                    ..st1
                },
            )
        } else if name == "Paragraph"@ {
            Some(LawState { cur_para: Some((None, Seq::empty())), ..st1 })
        } else if name == "Item"@ {
            Some(LawState { item_num: attr_value(attrs, "Num"@), ..st1 })
        } else if is_other_block(name) {
            Some(LawState { scopes: st1.scopes.push(Scope::Other), ..st1 })
        } else {
            Some(st1)
        };
        match st2 {
            Some(s) => Some(LawState { text: Seq::empty(), ..s }),
            None => None,
        }
    }
}

/// A paragraph's text with one more sentence line.
pub open spec fn add_sentence(text: Seq<char>, name: Seq<char>, item: Option<Seq<char>>, val: Seq<char>) -> Seq<char> {
    (if text.len() > 0 { text.push('\n') } else { text }) + (if is_item_sentence(name) && item is Some {
        item.unwrap().push(' ')
    } else {
        Seq::empty()
    }) + val
}

/// An article closed in the main provision gets `art_{n}` if it has no id.
pub open spec fn with_id(a: ArticleView, n: nat) -> ArticleView {
    if a.0.len() == 0 {
        ("art_"@ + dec(n), a.1, a.2, a.3)
    } else {
        a
    }
}

/// The state after a closing tag.
pub open spec fn law_end(st0: LawState, name: Seq<char>) -> LawState {
    let val = trim(st0.text);
    let st = LawState { text: Seq::empty(), ..st0 };
    if name == "LawNum"@ {
        LawState { law_num: Some(val), ..st }
    } else if name == "LawTitle"@ {
        LawState { title: Some(val), ..st }
    } else if name == "PromulgationDate"@ {
        LawState { prom: Some(val), ..st }
    } else if name == "SupplProvisionLabel"@ {
        if st.suppls.len() > 0 && val.len() > 0 {
            let l = st.suppls.last();
            LawState { suppls: st.suppls.drop_last().push((l.0, l.1, Some(val), l.3)), ..st }
        } else {
            st
        }
    } else if name == "ArticleTitle"@ {
        match st.cur_art {
            Some(a) => LawState { cur_art: Some((a.0, val, a.2, a.3)), ..st },
            None => st,
        }
    } else if name == "ArticleCaption"@ {
        match st.cur_art {
            Some(a) => if val.len() > 0 {
                LawState { cur_art: Some((a.0, a.1, Some(val), a.3)), ..st }
            } else {
                st
            },
            None => st,
        }
    } else if name == "ParagraphNum"@ {
        match st.cur_para {
            Some(p) => if val.len() > 0 {
                LawState { cur_para: Some((Some(val), p.1)), ..st }
            } else {
                st
            },
            None => st,
        }
    } else if is_sentence(name) {
        match st.cur_para {
            Some(p) => if val.len() > 0 {
                LawState { cur_para: Some((p.0, add_sentence(p.1, name, st.item_num, val))), ..st }
            } else {
                st
            },
            None => st,
        }
    } else if name == "Item"@ {
        LawState { item_num: None, ..st }
    } else if name == "Paragraph"@ {
        match st.cur_para {
            Some(p) => {
                let st1 = LawState { cur_para: None, ..st };
                match st1.cur_art {
                    Some(a) => LawState { cur_art: Some((a.0, a.1, a.2, a.3.push(p))), ..st1 },
                    None => if !crate::text::is_blank(p.1) && (top_scope(st1.scopes) == Scope::Main
                        || top_scope(st1.scopes) == Scope::Root) {
                        LawState { orphans: st1.orphans.push(p), ..st1 }
                    } else {
                        st1
                    },
                }
            },
            None => st,
        }
    } else if name == "Article"@ {
        match st.cur_art {
            Some(a) => {
                let st1 = LawState { cur_art: None, ..st };
                match top_scope(st1.scopes) {
                    Scope::Main | Scope::Root => LawState {
                        articles: st1.articles.push(with_id(a, (st1.articles.len() + 1) as nat)),
                        ..st1
                    },
                    Scope::Suppl(_) => if st1.suppls.len() > 0 {
                        let l = st1.suppls.last();
                        LawState {
                            suppls: st1.suppls.drop_last().push(
                                (l.0, l.1, l.2, l.3.push(with_id(a, (l.3.len() + 1) as nat))),
                            ),
                            ..st1
                        }
                    } else {
                        st1
                    },
                    Scope::Other => st1,
                }
            },
            None => st,
        }
    } else if name == "MainProvision"@ || name == "SupplProvision"@ || is_other_block(name) {
        if st.scopes.len() > 1 {
            LawState { scopes: st.scopes.drop_last(), ..st }
        } else {
            st
        }
    } else {
        st
    }
}

/// The state after one event that is neither the end nor an error;
/// `None` where the reading overflows.
pub open spec fn law_step(st: LawState, e: XmlEvent) -> Option<LawState> {
    match e {
        XmlEvent::Start(name, attrs) => law_start(st, name@, attrs_view(attrs@)),
        XmlEvent::Text(t) => Some(LawState { text: st.text + t@, ..st }),
        XmlEvent::End(name) => Some(law_end(st, name@)),
        _ => Some(st),
    }
}

/// The state after the events before the first end or error (`None` once
/// the reading overflowed), and the message of that error if it is one.
pub open spec fn law_run(evs: Seq<XmlEvent>) -> (Option<LawState>, Option<Option<Seq<char>>>)
    decreases evs.len(),
{
    if evs.len() == 0 {
        (Some(law_init()), None)
    } else {
        let (st, stop) = law_run(evs.drop_last());
        if stop is Some {
            (st, stop)
        } else {
            match st {
                None => (None, None),
                Some(s) => match evs.last() {
                    XmlEvent::Eof => (st, Some(None)),
                    XmlEvent::Error(m) => (st, Some(Some(m@))),
                    e => (law_step(s, e), None),
                },
            }
        }
    }
}

/// The articles of the finished document: the preamble article made of
/// the top-level paragraphs when the law has no article.
pub open spec fn final_articles(st: LawState) -> Seq<ArticleView> {
    if st.articles.len() == 0 && st.orphans.len() > 0 {
        seq![("art_preamble"@, "本則"@, None, st.orphans)]
    } else {
        st.articles
    }
}

/// `doc` is the document read into state `st`.
pub open spec fn law_doc(doc: LawDocument, st: LawState, law_id: Seq<char>, sha: Seq<char>, fetched_at: Seq<char>) -> bool {
    &&& doc.schema_version == SCHEMA_VERSION
    &&& doc.law_id@ == law_id
    &&& opt_view(doc.law_num) == st.law_num
    &&& doc.title@ == match st.title {
        Some(t) => t,
        None => law_id,
    }
    &&& doc.revision_id is None
    &&& opt_view(doc.promulgation_date) == st.prom
    &&& doc.effective_date is None
    &&& doc.status@ == "current"@
    &&& articles_view(doc.articles@) == final_articles(st)
    &&& suppls_view(doc.suppl_provisions@) == st.suppls
    &&& doc.source.provider@ == "egov"@
    &&& opt_view(doc.source.raw_xml_sha256) == Some(sha)
    &&& doc.source.fetched_at@ == fetched_at
}

// ---------------------------------------------------------------------------
// Reading
// ---------------------------------------------------------------------------

/// The sizes that grow by at most one per event stay below `n`.
pub open spec fn bounded(st: LawState, n: nat) -> bool {
    &&& st.articles.len() <= n
    &&& st.suppls.len() <= n
    &&& forall|k: int| 0 <= k < st.suppls.len() ==> (#[trigger] st.suppls[k]).3.len() <= n
}

/// One step grows the bounded sizes by at most one.
proof fn lemma_step_bounded(st: LawState, e: XmlEvent, n: nat)
    requires
        bounded(st, n),
        law_step(st, e) is Some,
    ensures
        bounded(law_step(st, e).unwrap(), n + 1),
{
    let s2 = law_step(st, e).unwrap();
    assert forall|k: int| 0 <= k < s2.suppls.len() implies (#[trigger] s2.suppls[k]).3.len() <= n + 1 by {
        if k < st.suppls.len() {
            assert(st.suppls[k].3.len() <= n);
        }
    }
}

/// The reading state, executable.
struct LawBuilder {
    law_num: Option<String>,
    title: Option<String>,
    prom: Option<String>,
    articles: Vec<Article>,
    suppls: Vec<SupplProvision>,
    count: u32,
    cur_art: Option<Article>,
    cur_para: Option<Paragraph>,
    item_num: Option<String>,
    orphans: Vec<Paragraph>,
    text: Vec<char>,
    scopes: Vec<Scope>,
}

impl View for LawBuilder {
    type V = LawState;

    closed spec fn view(&self) -> LawState {
        LawState {
            law_num: opt_view(self.law_num),
            title: opt_view(self.title),
            prom: opt_view(self.prom),
            articles: articles_view(self.articles@),
            suppls: suppls_view(self.suppls@),
            count: self.count,
            cur_art: match self.cur_art {
                Some(a) => Some(article_view(a)),
                None => None,
            },
            cur_para: match self.cur_para {
                Some(p) => Some(p@),
                None => None,
            },
            item_num: opt_view(self.item_num),
            orphans: paras_view(self.orphans@),
            text: self.text@,
            scopes: self.scopes@,
        }
    }
}

fn name_is(name: &[char], lit: &str) -> (r: bool)
    ensures
        r == (name@ == lit@),
{
    let l = chars_of(lit);
    chars_eq(name, &l)
}

fn is_other_block_exec(name: &[char]) -> (r: bool)
    ensures
        r == is_other_block(name@),
{
    name_is(name, "AppdxTable") || name_is(name, "AppdxNote") || name_is(name, "AppdxStyle")
        || name_is(name, "AppdxFig") || name_is(name, "AppdxFormat") || name_is(name, "Appdx")
        || name_is(name, "TOC")
}

fn is_item_sentence_exec(name: &[char]) -> (r: bool)
    ensures
        r == is_item_sentence(name@),
{
    name_is(name, "ItemSentence") || name_is(name, "Subitem1Sentence") || name_is(name, "Subitem2Sentence")
}

/// The value of the first attribute named `key`.
fn attr_value_exec(attrs: &Vec<(String, Option<String>)>, key: &str) -> (r: Option<String>)
    ensures
        opt_view(r) == attr_value(attrs_view(attrs@), key@),
{
    let k = chars_of(key);
    let ghost av = attrs_view(attrs@);
    let mut i: usize = 0;
    assert(av.skip(0) =~= av);
    while i < attrs.len()
        invariant
            i <= attrs.len(),
            av == attrs_view(attrs@),
            k@ == key@,
            attr_value(av, key@) == attr_value(av.skip(i as int), key@),
        decreases attrs.len() - i,
    {
        let ghost rest = av.skip(i as int);
        assert(rest[0] == (attrs@[i as int].0@, opt_view(attrs@[i as int].1)));
        assert(rest.drop_first() =~= av.skip(i + 1));
        let ak = chars_of(attrs[i].0.as_str());
        if chars_eq(&ak, &k) {
            return copy_opt(&attrs[i].1);
        }
        i = i + 1;
    }
    None
}

/// The promulgation date that the attributes of `<Law>` give, computed
/// where the year sum does not overflow.
fn prom_from_attrs_exec(attrs: &Vec<(String, Option<String>)>) -> (r: Option<String>)
    requires
        !prom_overflows(attrs_view(attrs@)),
    ensures
        opt_view(r) == prom_from_attrs(attrs_view(attrs@)),
{
    let ghost av = attrs_view(attrs@);
    let mut era: Option<String> = None;
    let mut year: Option<i32> = None;
    let mut month: Option<u32> = None;
    let mut day: Option<u32> = None;
    let mut i: usize = 0;
    while i < attrs.len()
        invariant
            i <= attrs.len(),
            av == attrs_view(attrs@),
            law_attr_scan(av.take(i as int)) == Some((opt_view(era), year, month, day)),
        decreases attrs.len() - i,
    {
        assert(av.take(i + 1).drop_last() =~= av.take(i as int));
        assert(av.take(i + 1).last() == (attrs@[i as int].0@, opt_view(attrs@[i as int].1)));
        let v = match &attrs[i].1 {
            Some(v) => v,
            None => {
                proof {
                    lemma_scan_stops(av, i as int + 1);
                }
                return None;
            },
        };
        let k = chars_of(attrs[i].0.as_str());
        let vc = chars_of(v.as_str());
        if name_is(&k, "Era") {
            era = Some(v.clone());
        } else if name_is(&k, "Year") {
            year = parse_i32(&vc);
        } else if name_is(&k, "PromulgateMonth") {
            month = parse_u32(&vc);
        } else if name_is(&k, "PromulgateDay") {
            day = parse_u32(&vc);
        }
        i = i + 1;
    }
    assert(av.take(attrs.len() as int) =~= av);
    let e = match era {
        Some(e) => e,
        None => return None,
    };
    let start = match era_start_year(e.as_str()) {
        Some(s) => s,
        None => return None,
    };
    let y = match year {
        Some(y) => y,
        None => return None,
    };
    let m = match month {
        Some(m) => m,
        None => return None,
    };
    let d = match day {
        Some(d) => d,
        None => return None,
    };
    let yv: i64 = (start as i64) + (y as i64) - 1;
    let mut out = if yv >= 0 {
        u64_padded(yv as u64, 4)
    } else {
        let mag = u64_padded((-yv) as u64, 3);
        let mut o: Vec<char> = Vec::new();
        o.push('-');
        append_chars(&mut o, &mag);
        assert(o@ =~= seq!['-'] + mag@);
        o
    };
    out.push('-');
    let mm = u64_padded(m as u64, 2);
    append_chars(&mut out, &mm);
    out.push('-');
    let dd = u64_padded(d as u64, 2);
    append_chars(&mut out, &dd);
    Some(string_of(&out))
}

/// Once an attribute value is not UTF-8 the scan stays `None`.
proof fn lemma_scan_stops(av: AttrsView, k: int)
    requires
        0 < k <= av.len(),
        law_attr_scan(av.take(k)) is None,
    ensures
        law_attr_scan(av) is None,
    decreases av.len() - k,
{
    if k < av.len() {
        assert(av.take(k + 1).drop_last() =~= av.take(k));
        lemma_scan_stops(av, k + 1);
    } else {
        assert(av.take(k) =~= av);
    }
}

/// Whether `prom_overflows` holds, computed.
fn prom_overflows_exec(attrs: &Vec<(String, Option<String>)>) -> (r: bool)
    ensures
        r == prom_overflows(attrs_view(attrs@)),
{
    let ghost av = attrs_view(attrs@);
    let mut era: Option<String> = None;
    let mut year: Option<i32> = None;
    let mut month: Option<u32> = None;
    let mut day: Option<u32> = None;
    let mut i: usize = 0;
    while i < attrs.len()
        invariant
            i <= attrs.len(),
            av == attrs_view(attrs@),
            law_attr_scan(av.take(i as int)) == Some((opt_view(era), year, month, day)),
        decreases attrs.len() - i,
    {
        assert(av.take(i + 1).drop_last() =~= av.take(i as int));
        assert(av.take(i + 1).last() == (attrs@[i as int].0@, opt_view(attrs@[i as int].1)));
        let v = match &attrs[i].1 {
            Some(v) => v,
            None => {
                proof {
                    lemma_scan_stops(av, i as int + 1);
                }
                return false;
            },
        };
        let k = chars_of(attrs[i].0.as_str());
        let vc = chars_of(v.as_str());
        if name_is(&k, "Era") {
            era = Some(v.clone());
        } else if name_is(&k, "Year") {
            year = parse_i32(&vc);
        } else if name_is(&k, "PromulgateMonth") {
            month = parse_u32(&vc);
        } else if name_is(&k, "PromulgateDay") {
            day = parse_u32(&vc);
        }
        i = i + 1;
    }
    assert(av.take(attrs.len() as int) =~= av);
    match (era, year, month, day) {
        (Some(e), Some(y), Some(_), Some(_)) => match era_start_year(e.as_str()) {
            Some(s) => (s as i64) + (y as i64) > 2147483647,
            None => false,
        },
        _ => false,
    }
}

/// The innermost scope, computed.
fn top_scope_exec(scopes: &Vec<Scope>) -> (s: Scope)
    ensures
        s == top_scope(scopes@),
{
    if scopes.len() > 0 {
        scopes[scopes.len() - 1]
    } else {
        Scope::Root
    }
}

/// `prefix` followed by `n` in decimal, as characters.
fn with_number(prefix: &str, n: u64) -> (out: Vec<char>)
    ensures
        out@ == prefix@ + dec(n as nat),
{
    let mut v = chars_of(prefix);
    let d = u64_to_chars(n);
    append_chars(&mut v, &d);
    v
}

impl LawBuilder {
    fn new() -> (b: Self)
        ensures
            b@ == law_init(),
    {
        let mut scopes: Vec<Scope> = Vec::new();
        scopes.push(Scope::Root);
        let b = LawBuilder {
            law_num: None,
            title: None,
            prom: None,
            articles: Vec::new(),
            suppls: Vec::new(),
            count: 0,
            cur_art: None,
            cur_para: None,
            item_num: None,
            orphans: Vec::new(),
            text: Vec::new(),
            scopes,
        };
        assert(b@.articles =~= Seq::<ArticleView>::empty());
        assert(b@.suppls =~= Seq::<SupplView>::empty());
        assert(b@.orphans =~= Seq::<ParaView>::empty());
        assert(b@.scopes =~= seq![Scope::Root]);
        b
    }

    /// The id of an article opened now.
    fn article_id_exec(&self, num: Option<String>) -> (id: Vec<char>)
        requires
            self.articles.len() < usize::MAX,
            self.suppls.len() > 0 ==> self.suppls@.last().articles.len() < usize::MAX,
        ensures
            id@ == article_id(self@, opt_view(num)),
    {
        match top_scope_exec(&self.scopes) {
            Scope::Main | Scope::Root => {
                let mut v = chars_of("art_");
                let tail = match num {
                    Some(n) => chars_of(n.as_str()),
                    None => u64_to_chars((self.articles.len() as u64) + 1),
                };
                append_chars(&mut v, &tail);
                v
            },
            Scope::Suppl(idx) => {
                let mut v = with_number("suppl", idx as u64);
                let mid = chars_of("_art_");
                append_chars(&mut v, &mid);
                let tail = match num {
                    Some(n) => chars_of(n.as_str()),
                    None => {
                        let k: u64 = if self.suppls.len() > 0 {
                            (self.suppls[self.suppls.len() - 1].articles.len() as u64) + 1
                        } else {
                            1
                        };
                        proof {
                            if self.suppls.len() > 0 {
                                assert(self@.suppls.last() == suppl_view(self.suppls@.last()));
                            }
                        }
                        u64_to_chars(k)
                    },
                };
                append_chars(&mut v, &tail);
                v
            },
            Scope::Other => with_number("ignored_", (self.articles.len() as u64) + 1),
        }
    }

    /// Handles an opening tag; `false` where the reading overflows.
    fn on_start(&mut self, name: &String, attrs: &Vec<(String, Option<String>)>) -> (ok: bool)
        requires
            old(self).articles.len() < usize::MAX,
            old(self).suppls.len() > 0 ==> old(self).suppls@.last().articles.len() < usize::MAX,
        ensures
            ok == law_start(old(self)@, name@, attrs_view(attrs@)) is Some,
            ok ==> final(self)@ == law_start(old(self)@, name@, attrs_view(attrs@)).unwrap(),
    {
        let n = chars_of(name.as_str());
        let ghost av = attrs_view(attrs@);
        let law_tag = name_is(&n, "Law") && self.prom.is_none();
        if law_tag {
            if prom_overflows_exec(attrs) {
                return false;
            }
            match prom_from_attrs_exec(attrs) {
                Some(d) => {
                    self.prom = Some(d);
                },
                None => {},
            }
        }
        let ghost st1 = self@;
        if name_is(&n, "MainProvision") {
            self.scopes.push(Scope::Main);
        } else if name_is(&n, "SupplProvision") {
            if self.count == 4294967295 {
                return false;
            }
            self.count = self.count + 1;
            let amend = attr_value_exec(attrs, "AmendLawNum");
            let sp = SupplProvision { index: self.count, amend_law_num: amend, label: None, articles: Vec::new() };
            assert(articles_view(sp.articles@) =~= Seq::<ArticleView>::empty());
            let ghost before = self.suppls@;
            self.suppls.push(sp);
            assert(suppls_view(self.suppls@) =~= suppls_view(before).push(suppl_view(sp)));
            self.scopes.push(Scope::Suppl(self.count));
        } else if name_is(&n, "Article") {
            let num = attr_value_exec(attrs, "Num");
            let id = self.article_id_exec(num);
            let a = Article { article_id: string_of(&id), article_no: String::new(), caption: None, paragraphs: Vec::new() };
            assert(paras_view(a.paragraphs@) =~= Seq::<ParaView>::empty());
            self.cur_art = Some(a);
        } else if name_is(&n, "Paragraph") {
            self.cur_para = Some(Paragraph { paragraph_no: None, text: String::new() });
        } else if name_is(&n, "Item") {
            self.item_num = attr_value_exec(attrs, "Num");
        } else if is_other_block_exec(&n) {
            self.scopes.push(Scope::Other);
        }
        self.text = Vec::new();
        proof {
            let expected = law_start(old(self)@, name@, av).unwrap();
            assert(self@.scopes =~= expected.scopes);
            assert(self@.suppls =~= expected.suppls);
            assert(self@.text =~= expected.text);
            assert(self@ == expected);
        }
        true
    }

    /// Handles character data.
    fn on_text(&mut self, t: &String)
        ensures
            final(self)@ == (LawState { text: old(self)@.text + t@, ..old(self)@ }),
    {
        let tc = chars_of(t.as_str());
        append_chars(&mut self.text, &tc);
    }
}

impl LawBuilder {
    /// Handles a closing tag.
    #[verifier::rlimit(40)]
    fn on_end(&mut self, name: &String)
        requires
            old(self).articles.len() < usize::MAX,
            old(self).suppls.len() > 0 ==> old(self).suppls@.last().articles.len() < usize::MAX,
        ensures
            final(self)@ == law_end(old(self)@, name@),
    {
        let n = chars_of(name.as_str());
        let tv = trim_chars(&self.text);
        self.text = Vec::new();
        let ghost st = self@;
        let ghost val = tv@;
        if name_is(&n, "LawNum") {
            self.law_num = Some(string_of(&tv));
        } else if name_is(&n, "LawTitle") {
            self.title = Some(string_of(&tv));
        } else if name_is(&n, "PromulgationDate") {
            self.prom = Some(string_of(&tv));
        } else if name_is(&n, "SupplProvisionLabel") {
            if self.suppls.len() > 0 && tv.len() > 0 {
                let ghost before = self.suppls@;
                let mut sp = self.suppls.pop().unwrap();
                assert(self.suppls@ =~= before.drop_last());
                sp.label = Some(string_of(&tv));
                self.suppls.push(sp);
                assert(suppls_view(self.suppls@) =~= suppls_view(before).drop_last().push(suppl_view(sp)));
            }
        } else if name_is(&n, "ArticleTitle") {
            match self.cur_art.take() {
                Some(mut a) => {
                    a.article_no = string_of(&tv);
                    self.cur_art = Some(a);
                },
                None => {},
            }
        } else if name_is(&n, "ArticleCaption") {
            match self.cur_art.take() {
                Some(mut a) => {
                    if tv.len() > 0 {
                        a.caption = Some(string_of(&tv));
                    }
                    self.cur_art = Some(a);
                },
                None => {},
            }
        } else if name_is(&n, "ParagraphNum") {
            match self.cur_para.take() {
                Some(mut p) => {
                    if tv.len() > 0 {
                        p.paragraph_no = Some(string_of(&tv));
                    }
                    self.cur_para = Some(p);
                },
                None => {},
            }
        } else if name_is(&n, "ParagraphSentence") || name_is(&n, "Sentence") || is_item_sentence_exec(&n) {
            match self.cur_para.take() {
                Some(mut p) => {
                    if tv.len() > 0 {
                        let mut t = chars_of(p.text.as_str());
                        if t.len() > 0 {
                            t.push('\n');
                        }
                        let ghost head = t@;
                        if is_item_sentence_exec(&n) {
                            match &self.item_num {
                                Some(num) => {
                                    let nc = chars_of(num.as_str());
                                    append_chars(&mut t, &nc);
                                    t.push(' ');
                                    assert(t@ =~= head + nc@.push(' '));
                                },
                                None => {
                                    assert(t@ =~= head + Seq::<char>::empty());
                                },
                            }
                        } else {
                            assert(t@ =~= head + Seq::<char>::empty());
                        }
                        append_chars(&mut t, &tv);
                        p.text = string_of(&t);
                    }
                    self.cur_para = Some(p);
                },
                None => {},
            }
        } else if name_is(&n, "Item") {
            self.item_num = None;
        } else if name_is(&n, "Paragraph") {
            match self.cur_para.take() {
                Some(p) => {
                    match self.cur_art.take() {
                        Some(mut a) => {
                            let ghost before = a.paragraphs@;
                            a.paragraphs.push(p);
                            assert(paras_view(a.paragraphs@) =~= paras_view(before).push(p@));
                            self.cur_art = Some(a);
                        },
                        None => {
                            let pc = chars_of(p.text.as_str());
                            let top = top_scope_exec(&self.scopes);
                            let keep = !is_blank_chars(&pc) && (top == Scope::Main || top == Scope::Root);
                            if keep {
                                let ghost before = self.orphans@;
                                self.orphans.push(p);
                                assert(paras_view(self.orphans@) =~= paras_view(before).push(p@));
                            }
                        },
                    }
                },
                None => {},
            }
        } else if name_is(&n, "Article") {
            match self.cur_art.take() {
                Some(mut a) => {
                    match top_scope_exec(&self.scopes) {
                        Scope::Main | Scope::Root => {
                            if a.article_id.as_str().is_empty() {
                                let id = with_number("art_", (self.articles.len() as u64) + 1);
                                a.article_id = string_of(&id);
                            }
                            let ghost before = self.articles@;
                            self.articles.push(a);
                            assert(articles_view(self.articles@) =~= articles_view(before).push(article_view(a)));
                        },
                        Scope::Suppl(_) => {
                            if self.suppls.len() > 0 {
                                let ghost before = self.suppls@;
                                let mut sp = self.suppls.pop().unwrap();
                                assert(self.suppls@ =~= before.drop_last());
                                assert(st.suppls.last() == suppl_view(sp));
                                if a.article_id.as_str().is_empty() {
                                    let id = with_number("art_", (sp.articles.len() as u64) + 1);
                                    a.article_id = string_of(&id);
                                }
                                let ghost before_arts = sp.articles@;
                                sp.articles.push(a);
                                assert(articles_view(sp.articles@) =~= articles_view(before_arts).push(article_view(a)));
                                self.suppls.push(sp);
                                assert(suppls_view(self.suppls@) =~= suppls_view(before).drop_last().push(suppl_view(sp)));
                            }
                        },
                        Scope::Other => {},
                    }
                },
                None => {},
            }
        } else if name_is(&n, "MainProvision") || name_is(&n, "SupplProvision") || is_other_block_exec(&n) {
            if self.scopes.len() > 1 {
                self.scopes.pop();
            }
        }
        proof {
            let expected = law_end(old(self)@, name@);
            assert(self@.scopes =~= expected.scopes);
            assert(self@.suppls =~= expected.suppls);
            assert(self@.articles =~= expected.articles);
            assert(self@.orphans =~= expected.orphans);
            assert(self@ == expected);
        }
    }
}

impl LawBuilder {
    /// The document read, with the given provenance.
    fn finish(self, law_id: &str, sha: &str, fetched_at: &str) -> (doc: LawDocument)
        ensures
            law_doc(doc, self@, law_id@, sha@, fetched_at@),
    {
        let ghost st = self@;
        let mut articles = self.articles;
        if articles.len() == 0 && self.orphans.len() > 0 {
            let pre = Article {
                article_id: "art_preamble".to_owned(),
                article_no: "本則".to_owned(),
                caption: None,
                paragraphs: self.orphans,
            };
            articles.push(pre);
            assert(articles_view(articles@) =~= seq![("art_preamble"@, "本則"@, None, st.orphans)]);
        }
        let title = match self.title {
            Some(t) => t,
            None => law_id.to_owned(),
        };
        LawDocument {
            schema_version: SCHEMA_VERSION,
            law_id: law_id.to_owned(),
            law_num: self.law_num,
            title,
            revision_id: None,
            promulgation_date: self.prom,
            effective_date: None,
            status: "current".to_owned(),
            articles,
            suppl_provisions: self.suppls,
            source: SourceMeta {
                provider: "egov".to_owned(),
                raw_xml_sha256: Some(sha.to_owned()),
                fetched_at: fetched_at.to_owned(),
            },
        }
    }
}

/// Once the reading has stopped or overflowed, later events change nothing.
proof fn lemma_law_run_stops(evs: Seq<XmlEvent>, k: int)
    requires
        0 <= k <= evs.len(),
        law_run(evs.take(k)).1 is Some || law_run(evs.take(k)).0 is None,
    ensures
        law_run(evs) == law_run(evs.take(k)),
    decreases evs.len() - k,
{
    if k < evs.len() {
        assert(evs.take(k + 1).drop_last() =~= evs.take(k));
        lemma_law_run_stops(evs, k + 1);
    } else {
        assert(evs.take(k) =~= evs);
    }
}

/// Reads the events; `None` exactly where the reading overflows.
fn run_law_events(evs: &Vec<XmlEvent>, law_id: &str, sha: &str, fetched_at: &str) -> (r: Option<Result<LawDocument, ProviderError>>)
    ensures
        match law_run(evs@) {
            (None, _) => r is None,
            (Some(_), Some(Some(m))) => r matches Some(Err(ProviderError::Xml(em))) && em@ == m,
            (Some(st), _) => r matches Some(Ok(doc)) && law_doc(doc, st, law_id@, sha@, fetched_at@),
        },
{
    let mut b = LawBuilder::new();
    let mut i: usize = 0;
    while i < evs.len()
        invariant
            i <= evs.len(),
            law_run(evs@.take(i as int)).1 is None,
            law_run(evs@.take(i as int)).0 == Some(b@),
            bounded(b@, i as nat),
        decreases evs.len() - i,
    {
        assert(evs@.take(i + 1).drop_last() =~= evs@.take(i as int));
        assert(evs@.take(i + 1).last() == evs@[i as int]);
        proof {
            if b@.suppls.len() > 0 {
                assert(b@.suppls.last() == suppl_view(b.suppls@.last()));
                assert(b@.suppls[b@.suppls.len() - 1].3.len() <= i);
            }
        }
        match &evs[i] {
            XmlEvent::Eof => {
                proof {
                    lemma_law_run_stops(evs@, i + 1);
                }
                return Some(Ok(b.finish(law_id, sha, fetched_at)));
            },
            XmlEvent::Error(m) => {
                proof {
                    lemma_law_run_stops(evs@, i + 1);
                }
                return Some(Err(ProviderError::Xml(m.clone())));
            },
            XmlEvent::Start(name, attrs) => {
                let ghost before = b@;
                if !b.on_start(name, attrs) {
                    proof {
                        lemma_law_run_stops(evs@, i + 1);
                    }
                    return None;
                }
                proof {
                    lemma_step_bounded(before, evs@[i as int], i as nat);
                }
            },
            XmlEvent::Text(t) => {
                let ghost before = b@;
                b.on_text(t);
                proof {
                    lemma_step_bounded(before, evs@[i as int], i as nat);
                }
            },
            XmlEvent::End(name) => {
                let ghost before = b@;
                b.on_end(name);
                proof {
                    lemma_step_bounded(before, evs@[i as int], i as nat);
                }
            },
            XmlEvent::CData(_) | XmlEvent::Other => {
                proof {
                    lemma_step_bounded(b@, evs@[i as int], i as nat);
                }
            },
        }
        i = i + 1;
    }
    assert(evs@.take(evs.len() as int) =~= evs@);
    Some(Ok(b.finish(law_id, sha, fetched_at)))
}

/// The document of a LawXML file given as its reader events, with the
/// given law id (the title when the XML names none), SHA-256 of the raw
/// XML and fetch time; the reader's error if there is one before the end.
pub fn law_from_events(evs: &Vec<XmlEvent>, law_id: &str, sha: &str, fetched_at: &str) -> (r: Result<LawDocument, ProviderError>)
    requires
        law_run(evs@).0 is Some,
    ensures
        match law_run(evs@) {
            (Some(_), Some(Some(m))) => r matches Err(ProviderError::Xml(em)) && em@ == m,
            (Some(st), _) => r matches Ok(doc) && law_doc(doc, st, law_id@, sha@, fetched_at@),
            (None, _) => false,
        },
{
    match run_law_events(evs, law_id, sha, fetched_at) {
        Some(r) => r,
        None => {
            assert(false);
            Err(ProviderError::NotImplemented)
        },
    }
}

/// The SHA-256 digest of `bytes` as lowercase hex.
pub uninterp spec fn sha256_hex_of(bytes: Seq<u8>) -> Seq<char>;

/// `hex::encode` of `sha2::Sha256` over `bytes`: a function of the bytes,
/// 64 lowercase hexadecimal digits.
#[verifier::external_body]
pub fn sha256_hex(bytes: &[u8]) -> (s: String)
    ensures
        s@ == sha256_hex_of(bytes@),
        s@.len() == 64,
        forall|i: int| 0 <= i < 64 ==> ('0' <= #[trigger] s@[i] <= '9' || 'a' <= s@[i] <= 'f'),
{
    hex::encode(<sha2::Sha256 as sha2::Digest>::digest(bytes))
}

/// The current time in RFC 3339 (`chrono::Utc::now().to_rfc3339()`).
#[verifier::external_body]
fn now_rfc3339() -> String {
    chrono::Utc::now().to_rfc3339()
}

/// Reads a LawXML file (also inside e-Gov's `DataRoot` envelope) into the
/// document of law `law_id`, stamped with the SHA-256 of the raw XML and
/// the current time: what `law_from_events` gives for the reader events of
/// the bytes, `xml_events(xml)`.  A reading that would overflow (a year
/// beyond `i32`, more than `u32::MAX` supplementary provisions) is reported
/// as a `Source` error.
pub fn parse_law_xml(xml: &[u8], law_id: &str) -> (r: Result<LawDocument, ProviderError>)
    ensures
        match law_run(xml_events(xml@)) {
            (None, _) => r matches Err(ProviderError::Source(m)) && m@ == "the XML overflows the reader's counters"@,
            (Some(_), Some(Some(m))) => r matches Err(ProviderError::Xml(em)) && em@ == m,
            (Some(st), _) => r matches Ok(doc) && law_doc(doc, st, law_id@, sha256_hex_of(xml@), doc.source.fetched_at@),
        },
{
    let sha = sha256_hex(xml);
    let evs = read_xml_events(xml);
    let now = now_rfc3339();
    match run_law_events(&evs, law_id, sha.as_str(), now.as_str()) {
        Some(r) => r,
        None => Err(ProviderError::Source("the XML overflows the reader's counters".to_owned())),
    }
}

} // verus!
