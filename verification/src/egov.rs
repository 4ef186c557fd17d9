//! e-Gov law data: what a fetch delivers, the data-source interface, and the
//! built-in sample source.
//!
//! A fetch for a date yields an `UpdateBatch`: the raw LawXML of each law
//! that changed, with the URL it came from.  `MockProvider` serves five
//! bundled sample laws, so that the pipeline can run without the network.
use vstd::prelude::*;
use crate::error::ProviderError;
use vstd::string::StringSliceAdditionalSpecFns;
use crate::text::{append_chars, chars_of, copy_range, string_of};
use crate::num::{dec, u64_to_chars};
use crate::scan::{chars_lt, lemma_seq_lt_order, seq_lt};
use crate::text::{chars_eq, lemma_strings_of_push, strings_of, trim, trim_chars};
use crate::xml::{read_xml_events, xml_events, XmlEvent};

verus! {

/// The raw LawXML of one law and where it was fetched from.
#[derive(Debug, Clone)]
pub struct FetchedLaw {
    pub law_id: String,
    pub xml: Vec<u8>,
    pub source_url: String,
}

/// The laws fetched for one update date (or one bulk category).
#[derive(Debug, Clone)]
pub struct UpdateBatch {
    pub date: String,
    pub laws: Vec<FetchedLaw>,
}

/// A source of e-Gov law data.
pub trait EgovProvider {
    /// The laws updated on `date` (`YYYY-MM-DD`).
    fn fetch_update(&self, date: &str) -> Result<UpdateBatch, ProviderError>;

    /// Every law of an e-Gov category (1 = constitution and acts, ...), at
    /// most `limit` of them.  A source that cannot list a whole category
    /// keeps this default, which reports `NotImplemented`.
    fn fetch_bulk(&self, category: u32, limit: Option<usize>) -> (r: Result<UpdateBatch, ProviderError>)
        default_ensures
            r matches Err(ProviderError::NotImplemented),
    {
        Err(ProviderError::NotImplemented)
    }
}

/// The bundled source: the same five sample laws for every request.
pub struct MockProvider;

/// Number of bundled sample laws.
pub const SAMPLE_COUNT: usize = 5;

/// The law id of the `i`-th bundled sample.
pub open spec fn sample_id(i: int) -> Seq<char> {
    if i == 0 {
        "129AC0000000089"@
    } else if i == 1 {
        "140AC0000000045"@
    } else if i == 2 {
        "322AC0000000049"@
    } else if i == 3 {
        "417AC0000000086"@
    } else {
        "321CONSTITUTION"@
    }
}

/// The LawXML bytes of the `i`-th bundled sample.
pub open spec fn sample_xml(i: int) -> Seq<u8> {
    if i == 0 {
        SAMPLE_MINPO.spec_bytes()
    } else if i == 1 {
        SAMPLE_KEIHO.spec_bytes()
    } else if i == 2 {
        SAMPLE_ROKIHO.spec_bytes()
    } else if i == 3 {
        SAMPLE_KAISHA.spec_bytes()
    } else {
        SAMPLE_CONSTITUTION.spec_bytes()
    }
}

/// The URL a daily mock fetch reports for sample `id`.
pub open spec fn update_url(date: Seq<char>, id: Seq<char>) -> Seq<char> {
    "mock://egov/"@ + date + "/"@ + id + ".xml"@
}

/// The URL a bulk mock fetch reports for sample `id`.
pub open spec fn bulk_url(category: u32, id: Seq<char>) -> Seq<char> {
    "mock://egov/bulk/cat"@ + dec(category as nat) + "/"@ + id + ".xml"@
}

/// The date label of a bulk fetch.
pub open spec fn bulk_label(category: u32) -> Seq<char> {
    "bulk-cat"@ + dec(category as nat)
}

fn sample_id_exec(i: usize) -> (s: &'static str)
    requires
        i < SAMPLE_COUNT,
    ensures
        s@ == sample_id(i as int),
{
    if i == 0 {
        "129AC0000000089"
    } else if i == 1 {
        "140AC0000000045"
    } else if i == 2 {
        "322AC0000000049"
    } else if i == 3 {
        "417AC0000000086"
    } else {
        "321CONSTITUTION"
    }
}

fn sample_xml_exec(i: usize) -> (x: Vec<u8>)
    requires
        i < SAMPLE_COUNT,
    ensures
        x@ == sample_xml(i as int),
{
    let s = if i == 0 {
        SAMPLE_MINPO
    } else if i == 1 {
        SAMPLE_KEIHO
    } else if i == 2 {
        SAMPLE_ROKIHO
    } else if i == 3 {
        SAMPLE_KAISHA
    } else {
        SAMPLE_CONSTITUTION
    };
    vstd::slice::slice_to_vec(s.as_bytes())
}

/// `prefix + id + ".xml"` as a `String`.
fn sample_url(prefix: &Vec<char>, id: &str) -> (u: String)
    ensures
        u@ == prefix@ + id@ + ".xml"@,
{
    let mut v = prefix.clone();
    let idv = chars_of(id);
    append_chars(&mut v, &idv);
    let ext = chars_of(".xml");
    append_chars(&mut v, &ext);
    string_of(&v)
}

/// The first `n` samples, each under `prefix + id + ".xml"`.
fn sample_laws(prefix: &Vec<char>, n: usize) -> (laws: Vec<FetchedLaw>)
    requires
        n <= SAMPLE_COUNT,
    ensures
        laws.len() == n,
        forall|i: int| 0 <= i < n ==> {
            &&& (#[trigger] laws[i]).law_id@ == sample_id(i)
            &&& laws[i].xml@ == sample_xml(i)
            &&& laws[i].source_url@ == prefix@ + sample_id(i) + ".xml"@
        },
{
    let mut laws: Vec<FetchedLaw> = Vec::new();
    let mut i: usize = 0;
    while i < n
        invariant
            i <= n <= SAMPLE_COUNT,
            laws.len() == i,
            forall|k: int| 0 <= k < i ==> {
                &&& (#[trigger] laws[k]).law_id@ == sample_id(k)
                &&& laws[k].xml@ == sample_xml(k)
                &&& laws[k].source_url@ == prefix@ + sample_id(k) + ".xml"@
            },
        decreases n - i,
    {
        let id = sample_id_exec(i);
        let law = FetchedLaw {
            law_id: id.to_owned(),
            xml: sample_xml_exec(i),
            source_url: sample_url(prefix, id),
        };
        laws.push(law);
        i = i + 1;
    }
    laws
}

impl EgovProvider for MockProvider {
    /// The five samples, each under `mock://egov/{date}/{id}.xml`.
    fn fetch_update(&self, date: &str) -> (r: Result<UpdateBatch, ProviderError>)
        ensures
            r matches Ok(b) && {
                &&& b.date@ == date@
                &&& b.laws.len() == SAMPLE_COUNT
                &&& forall|i: int| 0 <= i < SAMPLE_COUNT ==> {
                    &&& (#[trigger] b.laws[i]).law_id@ == sample_id(i)
                    &&& b.laws[i].xml@ == sample_xml(i)
                    &&& b.laws[i].source_url@ == update_url(date@, sample_id(i))
                }
            },
    {
        let mut prefix = chars_of("mock://egov/");
        let dv = chars_of(date);
        append_chars(&mut prefix, &dv);
        let slash = chars_of("/");
        append_chars(&mut prefix, &slash);
        let laws = sample_laws(&prefix, SAMPLE_COUNT);
        assert forall|i: int| 0 <= i < SAMPLE_COUNT implies
            (#[trigger] laws[i]).source_url@ == update_url(date@, sample_id(i)) by {
            assert(prefix@ + sample_id(i) + ".xml"@ =~= update_url(date@, sample_id(i)));
        }
        Ok(UpdateBatch { date: date.to_owned(), laws })
    }

    /// The samples regardless of `category`, cut to `limit`, each under
    /// `mock://egov/bulk/cat{category}/{id}.xml`, dated `bulk-cat{category}`.
    fn fetch_bulk(&self, category: u32, limit: Option<usize>) -> (r: Result<UpdateBatch, ProviderError>)
        ensures
            r matches Ok(b) && {
                &&& b.date@ == bulk_label(category)
                &&& b.laws.len() == match limit {
                    Some(n) => if n < SAMPLE_COUNT { n } else { SAMPLE_COUNT },
                    None => SAMPLE_COUNT,
                }
                &&& forall|i: int| 0 <= i < b.laws.len() ==> {
                    &&& (#[trigger] b.laws[i]).law_id@ == sample_id(i)
                    &&& b.laws[i].xml@ == sample_xml(i)
                    &&& b.laws[i].source_url@ == bulk_url(category, sample_id(i))
                }
            },
    {
        let cat = u64_to_chars(category as u64);
        let mut prefix = chars_of("mock://egov/bulk/cat");
        append_chars(&mut prefix, &cat);
        let slash = chars_of("/");
        append_chars(&mut prefix, &slash);
        let n = match limit {
            Some(n) => if n < SAMPLE_COUNT { n } else { SAMPLE_COUNT },
            None => SAMPLE_COUNT,
        };
        let laws = sample_laws(&prefix, n);
        assert forall|i: int| 0 <= i < n implies
            (#[trigger] laws[i]).source_url@ == bulk_url(category, sample_id(i)) by {
            assert(prefix@ + sample_id(i) + ".xml"@ =~= bulk_url(category, sample_id(i)));
        }
        let mut label = chars_of("bulk-cat");
        append_chars(&mut label, &cat);
        Ok(UpdateBatch { date: string_of(&label), laws })
    }
}

// ---------------------------------------------------------------------------
// Law lists
// ---------------------------------------------------------------------------

/// Scanning state of a law list: open element names, text since the last
/// tag, the `Result/Code` seen, the law ids seen.
pub type IdScan = (Seq<Seq<char>>, Seq<char>, Option<Seq<char>>, Seq<Seq<char>>);

/// The state after one event other than the end or an error.
pub open spec fn ids_step(st: IdScan, e: XmlEvent) -> IdScan {
    let (path, text, code, ids) = st;
    match e {
        XmlEvent::Start(n, _) => (path.push(n@), Seq::empty(), code, ids),
        XmlEvent::Text(t) => (path, text + t@, code, ids),
        XmlEvent::End(n) => {
            let v = trim(text);
            let code2 = if n@ == "Code"@ && path.contains("Result"@) { Some(v) } else { code };
            let ids2 = if (n@ == "LawId"@ || n@ == "LawID"@) && v.len() > 0 { ids.push(v) } else { ids };
            (if path.len() > 0 { path.drop_last() } else { path }, Seq::empty(), code2, ids2)
        },
        _ => st,
    }
}

/// The state after the events before the first end or error.
pub open spec fn ids_run(evs: Seq<XmlEvent>) -> (IdScan, bool)
    decreases evs.len(),
{
    if evs.len() == 0 {
        ((Seq::empty(), Seq::empty(), None, Seq::empty()), false)
    } else {
        let (st, stopped) = ids_run(evs.drop_last());
        if stopped {
            (st, true)
        } else {
            match evs.last() {
                XmlEvent::Eof => (st, true),
                XmlEvent::Error(_) => (st, true),
                e => (ids_step(st, e), false),
            }
        }
    }
}

/// e-Gov signalled an error: a `Result/Code` other than `0` or empty.
pub open spec fn egov_error(code: Option<Seq<char>>) -> bool {
    code matches Some(c) && c != "0"@ && c.len() != 0
}

/// Every element is before the next one: sorted without repetition.
pub open spec fn strictly_sorted(s: Seq<Seq<char>>) -> bool {
    forall|i: int, j: int| 0 <= i < j < s.len() ==> seq_lt(#[trigger] s[i], #[trigger] s[j])
}

fn name_is(name: &[char], lit: &str) -> (r: bool)
    ensures
        r == (name@ == lit@),
{
    let l = chars_of(lit);
    chars_eq(name, &l)
}

/// Adds `x` to a sorted list of distinct strings, keeping it so.
fn insert_sorted(v: &mut Vec<String>, x: String)
    requires
        strictly_sorted(strings_of(old(v)@)),
    ensures
        strictly_sorted(strings_of(final(v)@)),
        forall|y: Seq<char>| strings_of(final(v)@).contains(y) <==> (strings_of(old(v)@).contains(y) || y == x@),
{
    let xc = chars_of(x.as_str());
    let ghost s0 = strings_of(v@);
    let mut i: usize = 0;
    while i < v.len()
        invariant
            i <= v.len(),
            s0 == strings_of(v@),
            xc@ == x@,
            strictly_sorted(s0),
            forall|k: int| 0 <= k < i ==> seq_lt(#[trigger] s0[k], x@),
        ensures
            i <= v.len(),
            s0 == strings_of(v@),
            forall|k: int| 0 <= k < i ==> seq_lt(#[trigger] s0[k], x@),
            i < v.len() ==> !seq_lt(s0[i as int], x@),
        decreases v.len() - i,
    {
        let vc = chars_of(v[i].as_str());
        assert(s0[i as int] == vc@);
        if !chars_lt(&vc, &xc) {
            break;
        }
        i = i + 1;
    }
    if i < v.len() {
        let vc = chars_of(v[i].as_str());
        if chars_eq(&vc, &xc) {
            assert(s0[i as int] == x@);
            assert(s0.contains(x@));
            return;
        }
    }
    proof {
        if i < s0.len() {
            lemma_seq_lt_order(s0[i as int], x@, x@);
            assert(seq_lt(x@, s0[i as int]));
        }
    }
    v.insert(i, x);
    proof {
        let s1 = strings_of(v@);
        assert(s1 =~= s0.insert(i as int, x@));
        assert forall|a: int, b: int| 0 <= a < b < s1.len() implies seq_lt(#[trigger] s1[a], #[trigger] s1[b]) by {
            if a < i && b == i {
            } else if a < i && b > i {
                assert(s1[b] == s0[b - 1]);
                lemma_seq_lt_order(s0[a], x@, s0[b - 1]);
                if b - 1 > i {
                    lemma_seq_lt_order(x@, s0[i as int], s0[b - 1]);
                }
            } else if a == i {
                assert(s1[b] == s0[b - 1]);
                if b - 1 > i {
                    lemma_seq_lt_order(x@, s0[i as int], s0[b - 1]);
                }
            } else if a > i {
                assert(s1[a] == s0[a - 1]);
                assert(s1[b] == s0[b - 1]);
            } else {
                assert(s1[a] == s0[a]);
                assert(s1[b] == s0[b]);
            }
        }
        assert forall|y: Seq<char>| s1.contains(y) <==> (s0.contains(y) || y == x@) by {
            if s1.contains(y) {
                let k = choose|k: int| 0 <= k < s1.len() && s1[k] == y;
                if k < i {
                    assert(s0[k] == y);
                } else if k > i {
                    assert(s0[k - 1] == y);
                }
            }
            if s0.contains(y) {
                let k = choose|k: int| 0 <= k < s0.len() && s0[k] == y;
                if k < i {
                    assert(s1[k] == y);
                } else {
                    assert(s1[k + 1] == y);
                }
            }
            if y == x@ {
                assert(s1[i as int] == y);
            }
        }
    }
}

/// The law ids of an e-Gov law list given as its reader events (e.g.
/// `<DataRoot><Result><Code>0</Code></Result><ApplData>…<LawId>…</LawId>…`):
/// sorted and without repetition; none when `Result/Code` reports an
/// error.
pub fn law_ids_from_events(evs: &Vec<XmlEvent>) -> (ids: Vec<String>)
    ensures
        egov_error(ids_run(evs@).0.2) ==> ids.len() == 0,
        !egov_error(ids_run(evs@).0.2) ==> {
            &&& strictly_sorted(strings_of(ids@))
            &&& forall|y: Seq<char>| strings_of(ids@).contains(y) <==> ids_run(evs@).0.3.contains(y)
        },
{
    let mut path: Vec<Vec<char>> = Vec::new();
    let mut text: Vec<char> = Vec::new();
    let mut code: Option<Vec<char>> = None;
    let mut found: Vec<String> = Vec::new();
    let mut i: usize = 0;
    assert(evs@.take(0) =~= Seq::<XmlEvent>::empty());
    proof {
        assert(evs@.take(evs.len() as int) =~= evs@);
        assert(crate::text::seqs_of(path@) =~= Seq::<Seq<char>>::empty());
        assert(strings_of(found@) =~= Seq::<Seq<char>>::empty());
    }
    while i < evs.len()
        invariant
            i <= evs.len(),
            evs@.take(evs.len() as int) == evs@,
            !ids_run(evs@.take(i as int)).1,
            ids_run(evs@.take(i as int)).0 == (crate::text::seqs_of(path@), text@, match code {
                Some(c) => Some(c@),
                None => None,
            }, strings_of(found@)),
        ensures
            ids_run(evs@).0 == (crate::text::seqs_of(path@), text@, match code {
                Some(c) => Some(c@),
                None => None,
            }, strings_of(found@)),
        decreases evs.len() - i,
    {
        assert(evs@.take(i + 1).drop_last() =~= evs@.take(i as int));
        assert(evs@.take(i + 1).last() == evs@[i as int]);
        match &evs[i] {
            XmlEvent::Eof | XmlEvent::Error(_) => {
                proof {
                    lemma_ids_run_stops(evs@, i + 1);
                }
                break;
            },
            XmlEvent::Start(n, _) => {
                let nc = chars_of(n.as_str());
                proof {
                    crate::text::lemma_seqs_of_push(path@, nc);
                }
                path.push(nc);
                text = Vec::new();
            },
            XmlEvent::Text(t) => {
                let tc = chars_of(t.as_str());
                append_chars(&mut text, &tc);
            },
            XmlEvent::End(n) => {
                let nc = chars_of(n.as_str());
                let v = trim_chars(&text);
                text = Vec::new();
                if name_is(&nc, "Code") {
                    let mut in_result = false;
                    let mut k: usize = 0;
                    while k < path.len()
                        invariant
                            k <= path.len(),
                            in_result == exists|q: int| 0 <= q < k && (#[trigger] path@[q])@ == "Result"@,
                        decreases path.len() - k,
                    {
                        if name_is(&path[k], "Result") {
                            in_result = true;
                        }
                        k = k + 1;
                    }
                    proof {
                        let ps = crate::text::seqs_of(path@);
                        if in_result {
                            let q = choose|q: int| 0 <= q < path.len() && (#[trigger] path@[q])@ == "Result"@;
                            assert(ps[q] == "Result"@);
                        } else {
                            assert forall|q: int| 0 <= q < ps.len() implies ps[q] != "Result"@ by {
                                assert(ps[q] == path@[q]@);
                            }
                        }
                    }
                    if in_result {
                        code = Some(copy_range(&v, 0, v.len()));
                        assert(v@.take(v.len() as int) =~= v@);
                    }
                }
                if (name_is(&nc, "LawId") || name_is(&nc, "LawID")) && v.len() > 0 {
                    let s = string_of(&v);
                    let ghost before = found@;
                    found.push(s);
                    proof {
                        lemma_strings_of_push(before, s);
                    }
                }
                if path.len() > 0 {
                    let ghost before = path@;
                    path.pop();
                    assert(crate::text::seqs_of(path@) =~= crate::text::seqs_of(before).drop_last());
                }
            },
            XmlEvent::CData(_) | XmlEvent::Other => {},
        }
        i = i + 1;
    }
    let bad = match &code {
        Some(c) => {
            let zero = chars_of("0");
            !(chars_eq(c, &zero) || c.len() == 0)
        },
        None => false,
    };
    if bad {
        return Vec::new();
    }
    let mut out: Vec<String> = Vec::new();
    let mut k: usize = 0;
    while k < found.len()
        invariant
            k <= found.len(),
            strictly_sorted(strings_of(out@)),
            forall|y: Seq<char>| strings_of(out@).contains(y) <==> strings_of(found@).take(k as int).contains(y),
        decreases found.len() - k,
    {
        insert_sorted(&mut out, found[k].clone());
        proof {
            let f = strings_of(found@);
            assert(f.take(k + 1) =~= f.take(k as int).push(f[k as int]));
            assert forall|y: Seq<char>| f.take(k + 1).contains(y) <==> (f.take(k as int).contains(y) || y == f[k as int]) by {
                if f.take(k + 1).contains(y) {
                    let q = choose|q: int| 0 <= q < f.take(k + 1).len() && #[trigger] f.take(k + 1)[q] == y;
                    if q < k {
                        assert(f.take(k as int)[q] == y);
                    }
                }
                if f.take(k as int).contains(y) {
                    let q = choose|q: int| 0 <= q < f.take(k as int).len() && #[trigger] f.take(k as int)[q] == y;
                    assert(f.take(k + 1)[q] == y);
                }
                if y == f[k as int] {
                    assert(f.take(k + 1)[k as int] == y);
                }
            }
        }
        k = k + 1;
    }
    assert(strings_of(found@).take(found.len() as int) =~= strings_of(found@));
    out
}

/// Once the scan has stopped, later events change nothing.
proof fn lemma_ids_run_stops(evs: Seq<XmlEvent>, k: int)
    requires
        0 <= k <= evs.len(),
        ids_run(evs.take(k)).1,
    ensures
        ids_run(evs) == ids_run(evs.take(k)),
    decreases evs.len() - k,
{
    if k < evs.len() {
        assert(evs.take(k + 1).drop_last() =~= evs.take(k));
        lemma_ids_run_stops(evs, k + 1);
    } else {
        assert(evs.take(k) =~= evs);
    }
}

/// `ids` are the law ids that `law_ids_from_events` gives for `evs`.
pub open spec fn law_ids_of_events(evs: Seq<XmlEvent>, ids: Seq<Seq<char>>) -> bool {
    &&& egov_error(ids_run(evs).0.2) ==> ids.len() == 0
    &&& !egov_error(ids_run(evs).0.2) ==> {
        &&& strictly_sorted(ids)
        &&& forall|y: Seq<char>| ids.contains(y) <==> ids_run(evs).0.3.contains(y)
    }
}

/// The law ids of an e-Gov law list (`lawlists` / `updatelawlists`
/// answer), read by `read_xml_events` and `law_ids_from_events`: those
/// that the reader events of the bytes, `xml_events(xml)`, give.
pub fn extract_law_ids(xml: &[u8]) -> (ids: Vec<String>)
    ensures
        strictly_sorted(strings_of(ids@)),
        law_ids_of_events(xml_events(xml@), strings_of(ids@)),
{
    let evs = read_xml_events(xml);
    let ids = law_ids_from_events(&evs);
    proof {
        assert(law_ids_of_events(evs@, strings_of(ids@)));
    }
    ids
}

pub const SAMPLE_MINPO: &'static str = r#"<?xml version="1.0" encoding="UTF-8"?>
<Law>
  <LawNum>明治二十九年法律第八十九号</LawNum>
  <PromulgationDate>1896-04-27</PromulgationDate>
  <LawBody>
    <LawTitle>民法</LawTitle>
    <MainProvision>
      <Article Num="1"><ArticleTitle>第一条</ArticleTitle><ArticleCaption>基本原則</ArticleCaption>
        <Paragraph><ParagraphNum>1</ParagraphNum><ParagraphSentence>私権は、公共の福祉に適合しなければならない。</ParagraphSentence></Paragraph>
        <Paragraph><ParagraphNum>2</ParagraphNum><ParagraphSentence>権利の行使及び義務の履行は、信義に従い誠実に行わなければならない。</ParagraphSentence></Paragraph>
        <Paragraph><ParagraphNum>3</ParagraphNum><ParagraphSentence>権利の濫用は、これを許さない。</ParagraphSentence></Paragraph>
      </Article>
      <Article Num="2"><ArticleTitle>第二条</ArticleTitle><ArticleCaption>解釈の基準</ArticleCaption>
        <Paragraph><ParagraphNum>1</ParagraphNum><ParagraphSentence>この法律は、個人の尊厳と両性の本質的平等を旨として、解釈しなければならない。</ParagraphSentence></Paragraph>
      </Article>
      <Article Num="3"><ArticleTitle>第三条</ArticleTitle><ArticleCaption>権利能力</ArticleCaption>
        <Paragraph><ParagraphNum>1</ParagraphNum><ParagraphSentence>第一条の規定に従い、私権の享有は、出生に始まる。</ParagraphSentence></Paragraph>
        <Paragraph><ParagraphNum>2</ParagraphNum><ParagraphSentence>前条の解釈に基づき、外国人は、法令又は条約の規定により禁止される場合を除き、私権を享有する。</ParagraphSentence></Paragraph>
      </Article>
    </MainProvision>
  </LawBody>
</Law>"#;

pub const SAMPLE_KEIHO: &'static str = r#"<?xml version="1.0" encoding="UTF-8"?>
<Law>
  <LawNum>明治四十年法律第四十五号</LawNum>
  <PromulgationDate>1907-04-24</PromulgationDate>
  <LawBody>
    <LawTitle>刑法</LawTitle>
    <MainProvision>
      <Article Num="1"><ArticleTitle>第一条</ArticleTitle><ArticleCaption>国内犯</ArticleCaption>
        <Paragraph><ParagraphNum>1</ParagraphNum><ParagraphSentence>この法律は、日本国内において罪を犯したすべての者に適用する。</ParagraphSentence></Paragraph>
      </Article>
      <Article Num="2"><ArticleTitle>第二条</ArticleTitle><ArticleCaption>準用</ArticleCaption>
        <Paragraph><ParagraphNum>1</ParagraphNum><ParagraphSentence>不法行為については、民法第三条の規定を参照すること。</ParagraphSentence></Paragraph>
      </Article>
    </MainProvision>
  </LawBody>
</Law>"#;

pub const SAMPLE_ROKIHO: &'static str = r#"<?xml version="1.0" encoding="UTF-8"?>
<Law>
  <LawNum>昭和二十二年法律第四十九号</LawNum>
  <PromulgationDate>1947-04-07</PromulgationDate>
  <LawBody>
    <LawTitle>労働基準法</LawTitle>
    <MainProvision>
      <Article Num="1"><ArticleTitle>第一条</ArticleTitle><ArticleCaption>労働条件の原則</ArticleCaption>
        <Paragraph><ParagraphNum>1</ParagraphNum><ParagraphSentence>労働条件は、労働者が人たるに値する生活を営むための必要を充たすべきものでなければならない。</ParagraphSentence></Paragraph>
      </Article>
    </MainProvision>
  </LawBody>
</Law>"#;

pub const SAMPLE_KAISHA: &'static str = r#"<?xml version="1.0" encoding="UTF-8"?>
<Law>
  <LawNum>平成十七年法律第八十六号</LawNum>
  <PromulgationDate>2005-07-26</PromulgationDate>
  <LawBody>
    <LawTitle>会社法</LawTitle>
    <MainProvision>
      <Article Num="1"><ArticleTitle>第一条</ArticleTitle><ArticleCaption>趣旨</ArticleCaption>
        <Paragraph><ParagraphNum>1</ParagraphNum><ParagraphSentence>会社の設立、組織、運営及び管理については、他の法律に特別の定めがある場合を除くほか、この法律の定めるところによる。</ParagraphSentence></Paragraph>
      </Article>
    </MainProvision>
  </LawBody>
</Law>"#;

pub const SAMPLE_CONSTITUTION: &'static str = r#"<?xml version="1.0" encoding="UTF-8"?>
<Law>
  <LawNum>昭和二十一年憲法</LawNum>
  <PromulgationDate>1946-11-03</PromulgationDate>
  <LawBody>
    <LawTitle>日本国憲法</LawTitle>
    <MainProvision>
      <Article Num="1"><ArticleTitle>第一条</ArticleTitle>
        <Paragraph><ParagraphNum>1</ParagraphNum><ParagraphSentence>天皇は、日本国の象徴であり日本国民統合の象徴であつて、この地位は、主権の存する日本国民の総意に基く。</ParagraphSentence></Paragraph>
      </Article>
    </MainProvision>
  </LawBody>
</Law>"#;

} // verus!
