//! Structured diff between two revisions of a statute, by article and
//! paragraph.
//!
//! Articles are matched by `article_id`; paragraphs by `paragraph_no` when
//! every paragraph of both sides has one, by position otherwise.  The text of a
//! modified paragraph is compared character by character (word by word for
//! paragraphs of more than 50,000 bytes) with `similar`.
use crate::law_normalizer::{
    article_view, articles_view, copy_paragraphs, paras_view, Article, ArticleView, LawDocument,
    ParaView, Paragraph,
};
use crate::text::{copy_opt, copy_string, opt_eq, opt_view};
use similar::{ChangeTag, TextDiff};
use vstd::prelude::*;

verus! {

/// Schema version of [`LawDiff`].
pub const DIFF_SCHEMA_VERSION: u32 = 1;

/// Revision metadata of one side of a diff.
#[derive(Debug, Clone)]
pub struct RevisionRef {
    pub revision_id: Option<String>,
    pub promulgation_date: Option<String>,
    pub effective_date: Option<String>,
}

/// Article counts of a diff.
#[derive(Debug, Clone, Default)]
pub struct DiffSummary {
    pub articles_added: usize,
    pub articles_removed: usize,
    pub articles_modified: usize,
    pub articles_unchanged: usize,
}

/// One operation of a character-level text diff.
#[derive(Debug, Clone)]
pub enum TextOp {
    Equal { text: String },
    Insert { text: String },
    Delete { text: String },
}

/// How a paragraph changed.
#[derive(Debug, Clone)]
pub enum ParagraphDiff {
    Unchanged { paragraph_no: Option<String> },
    Added { paragraph_no: Option<String>, text: String },
    Removed { paragraph_no: Option<String>, text: String },
    Modified { paragraph_no: Option<String>, text_diff: Vec<TextOp> },
}

/// Full content of an added or removed article.
#[derive(Debug, Clone)]
pub struct ArticleSide {
    pub article_no: String,
    pub caption: Option<String>,
    pub paragraphs: Vec<Paragraph>,
}

/// How an article changed.
#[derive(Debug, Clone)]
pub enum ArticleDiff {
    Unchanged { article_id: String },
    Added { article_id: String, to: ArticleSide },
    Removed { article_id: String, from: ArticleSide },
    Modified {
        article_id: String,
        from: ArticleHeader,
        to: ArticleHeader,
        paragraphs: Vec<ParagraphDiff>,
    },
}

/// Number and caption of an article.
#[derive(Debug, Clone)]
pub struct ArticleHeader {
    pub article_no: String,
    pub caption: Option<String>,
}

/// The diff of two revisions of one statute.
#[derive(Debug, Clone)]
pub struct LawDiff {
    pub schema_version: u32,
    pub law_id: String,
    pub from: RevisionRef,
    pub to: RevisionRef,
    pub summary: DiffSummary,
    pub articles: Vec<ArticleDiff>,
}

// ---------------------------------------------------------------------------
// Text diff
// ---------------------------------------------------------------------------

/// Kind of a change in a text diff.
#[derive(Debug, Clone, Copy, PartialEq, Eq)]
pub enum ChangeKind {
    Equal,
    Delete,
    Insert,
}

/// The changes that `similar` reports for a character diff of `old` and `new`
/// (`TextDiff::from_chars(..).iter_all_changes()`), each with its kind and
/// text.
pub uninterp spec fn char_changes(old: Seq<char>, new: Seq<char>) -> Seq<(ChangeKind, Seq<char>)>;

/// The changes that `similar` reports for a word diff of `old` and `new`
/// (`TextDiff::from_words(..).iter_all_changes()`).
pub uninterp spec fn word_changes(old: Seq<char>, new: Seq<char>) -> Seq<(ChangeKind, Seq<char>)>;

/// The kinds and texts of a list of changes.
pub open spec fn changes_view(v: Seq<(ChangeKind, String)>) -> Seq<(ChangeKind, Seq<char>)> {
    Seq::new(v.len(), |i: int| (v[i].0, v[i].1@))
}

/// `similar::TextDiff::from_chars(old, new).iter_all_changes()`, each change
/// as its tag and text.  The contract names the result: it is a function of
/// the two texts (no deadline is configured, so the diff is deterministic).
#[verifier::external_body]
fn similar_char_changes(old: &str, new: &str) -> (out: Vec<(ChangeKind, String)>)
    ensures
        changes_view(out@) == char_changes(old@, new@),
{
    let diff = TextDiff::from_chars(old, new);
    let mut out = Vec::new();
    for change in diff.iter_all_changes() {
        let kind = match change.tag() {
            ChangeTag::Equal => ChangeKind::Equal,
            ChangeTag::Delete => ChangeKind::Delete,
            ChangeTag::Insert => ChangeKind::Insert,
        };
        out.push((kind, change.value().to_string()));
    }
    out
}

/// `similar::TextDiff::from_words(old, new).iter_all_changes()`, each change
/// as its tag and text; the contract names the result.
#[verifier::external_body]
fn similar_word_changes(old: &str, new: &str) -> (out: Vec<(ChangeKind, String)>)
    ensures
        changes_view(out@) == word_changes(old@, new@),
{
    let diff = TextDiff::from_words(old, new);
    let mut out = Vec::new();
    for change in diff.iter_all_changes() {
        let kind = match change.tag() {
            ChangeTag::Equal => ChangeKind::Equal,
            ChangeTag::Delete => ChangeKind::Delete,
            ChangeTag::Insert => ChangeKind::Insert,
        };
        out.push((kind, change.value().to_string()));
    }
    out
}

impl View for TextOp {
    type V = (ChangeKind, Seq<char>);

    open spec fn view(&self) -> (ChangeKind, Seq<char>) {
        match self {
            TextOp::Equal { text } => (ChangeKind::Equal, text@),
            TextOp::Delete { text } => (ChangeKind::Delete, text@),
            TextOp::Insert { text } => (ChangeKind::Insert, text@),
        }
    }
}

/// The views of a list of text operations.
pub open spec fn ops_view(v: Seq<TextOp>) -> Seq<(ChangeKind, Seq<char>)> {
    Seq::new(v.len(), |i: int| v[i]@)
}

/// Consecutive changes of the same kind merged into one.
pub open spec fn merge_ops(cs: Seq<(ChangeKind, Seq<char>)>) -> Seq<(ChangeKind, Seq<char>)>
    decreases cs.len(),
{
    if cs.len() == 0 {
        Seq::empty()
    } else {
        let p = merge_ops(cs.drop_last());
        let c = cs.last();
        if p.len() > 0 && p.last().0 == c.0 {
            p.update(p.len() - 1, (c.0, p.last().1 + c.1))
        } else {
            p.push(c)
        }
    }
}

/// Whether the text diff of `old` and `new` goes by words: when either text
/// is longer than 50,000 bytes in UTF-8 (its `str::len`).
pub open spec fn diff_by_words(old: Seq<char>, new: Seq<char>) -> bool {
    (vstd::utf8::encode_utf8(old).len() as usize) > 50_000 || (vstd::utf8::encode_utf8(
        new,
    ).len() as usize) > 50_000
}

/// The text diff of two paragraph texts.
pub open spec fn text_diff(old: Seq<char>, new: Seq<char>) -> Seq<(ChangeKind, Seq<char>)> {
    if diff_by_words(old, new) {
        merge_ops(word_changes(old, new))
    } else {
        merge_ops(char_changes(old, new))
    }
}

fn make_op(kind: ChangeKind, text: String) -> (op: TextOp)
    ensures
        op@ == (kind, text@),
{
    match kind {
        ChangeKind::Equal => TextOp::Equal { text },
        ChangeKind::Delete => TextOp::Delete { text },
        ChangeKind::Insert => TextOp::Insert { text },
    }
}

/// Appends `op`, merging it into the last operation when both have the same
/// kind.
pub fn merge_push(ops: &mut Vec<TextOp>, op: TextOp)
    ensures
        ops_view(final(ops)@) == ({
            let p = ops_view(old(ops)@);
            if p.len() > 0 && p.last().0 == op@.0 {
                p.update(p.len() - 1, (op@.0, p.last().1 + op@.1))
            } else {
                p.push(op@)
            }
        }),
{
    let ghost p = ops_view(ops@);
    let n = ops.len();
    if n > 0 {
        let last = ops.pop().unwrap();
        let ghost popped = ops@;
        assert(p.drop_last() =~= ops_view(popped));
        match (last, op) {
            (TextOp::Equal { text: a }, TextOp::Equal { text: b }) => {
                let mut a = a;
                a.append(b.as_str());
                ops.push(TextOp::Equal { text: a });
                assert(ops_view(ops@) =~= p.update(p.len() - 1, (ChangeKind::Equal, p.last().1 + b@)));
            },
            (TextOp::Insert { text: a }, TextOp::Insert { text: b }) => {
                let mut a = a;
                a.append(b.as_str());
                ops.push(TextOp::Insert { text: a });
                assert(ops_view(ops@) =~= p.update(p.len() - 1, (ChangeKind::Insert, p.last().1 + b@)));
            },
            (TextOp::Delete { text: a }, TextOp::Delete { text: b }) => {
                let mut a = a;
                a.append(b.as_str());
                ops.push(TextOp::Delete { text: a });
                assert(ops_view(ops@) =~= p.update(p.len() - 1, (ChangeKind::Delete, p.last().1 + b@)));
            },
            (last, op) => {
                let ghost lv = last@;
                let ghost ov = op@;
                ops.push(last);
                ops.push(op);
                assert(ops_view(ops@) =~= p.push(ov));
            },
        }
    } else {
        ops.push(op);
        assert(ops_view(ops@) =~= p.push(op@));
    }
}

/// Character diff of two paragraph texts (word diff for texts of more than
/// 50,000 bytes), with runs of the same kind merged.
pub fn diff_text(from: &str, to: &str) -> (ops: Vec<TextOp>)
    ensures
        ops_view(ops@) == text_diff(from@, to@),
{
    let use_words = from.len() > 50_000 || to.len() > 50_000;
    let changes = if use_words {
        similar_word_changes(from, to)
    } else {
        similar_char_changes(from, to)
    };
    let ghost cs = changes_view(changes@);
    let mut ops: Vec<TextOp> = Vec::new();
    let mut i: usize = 0;
    while i < changes.len()
        invariant
            i <= changes.len(),
            cs == changes_view(changes@),
            ops_view(ops@) == merge_ops(cs.take(i as int)),
        decreases changes.len() - i,
    {
        assert(cs.take(i + 1).drop_last() =~= cs.take(i as int));
        let text = copy_string(&changes[i].1);
        let op = make_op(changes[i].0, text);
        merge_push(&mut ops, op);
        i = i + 1;
    }
    assert(cs.take(changes.len() as int) =~= cs);
    ops
}

// ---------------------------------------------------------------------------
// Paragraphs
// ---------------------------------------------------------------------------


/// The abstract value of a [`ParagraphDiff`].
pub enum ParagraphDiffView {
    Unchanged(Option<Seq<char>>),
    Added(Option<Seq<char>>, Seq<char>),
    Removed(Option<Seq<char>>, Seq<char>),
    Modified(Option<Seq<char>>, Seq<(ChangeKind, Seq<char>)>),
}

impl View for ParagraphDiff {
    type V = ParagraphDiffView;

    open spec fn view(&self) -> ParagraphDiffView {
        match self {
            ParagraphDiff::Unchanged { paragraph_no } => ParagraphDiffView::Unchanged(
                opt_view(*paragraph_no),
            ),
            ParagraphDiff::Added { paragraph_no, text } => ParagraphDiffView::Added(
                opt_view(*paragraph_no),
                text@,
            ),
            ParagraphDiff::Removed { paragraph_no, text } => ParagraphDiffView::Removed(
                opt_view(*paragraph_no),
                text@,
            ),
            ParagraphDiff::Modified { paragraph_no, text_diff } => ParagraphDiffView::Modified(
                opt_view(*paragraph_no),
                ops_view(text_diff@),
            ),
        }
    }
}

/// The views of a list of paragraph diffs.
pub open spec fn pdiffs_view(v: Seq<ParagraphDiff>) -> Seq<ParagraphDiffView> {
    Seq::new(v.len(), |i: int| v[i]@)
}

/// The matching key of a paragraph: its number, or the empty string.
pub open spec fn para_key(p: ParaView) -> Seq<char> {
    match p.0 {
        Some(k) => k,
        None => Seq::empty(),
    }
}

/// Index of the last paragraph with key `k` (the one a map keyed by number
/// keeps).
pub open spec fn last_para_with_key(ps: Seq<ParaView>, k: Seq<char>) -> Option<int>
    decreases ps.len(),
{
    if ps.len() == 0 {
        None
    } else if para_key(ps.last()) == k {
        Some(ps.len() - 1)
    } else {
        last_para_with_key(ps.drop_last(), k)
    }
}

/// Every paragraph has a number.
pub open spec fn all_numbered(ps: Seq<ParaView>) -> bool {
    forall|i: int| 0 <= i < ps.len() ==> (#[trigger] ps[i]).0 is Some
}

/// The diff entry of a new-side paragraph matched by number.
pub open spec fn keyed_entry(from: Seq<ParaView>, tp: ParaView) -> ParagraphDiffView {
    match last_para_with_key(from, para_key(tp)) {
        Some(f) => if from[f].1 == tp.1 {
            ParagraphDiffView::Unchanged(tp.0)
        } else {
            ParagraphDiffView::Modified(tp.0, text_diff(from[f].1, tp.1))
        },
        None => ParagraphDiffView::Added(tp.0, tp.1),
    }
}

/// Old-side paragraphs whose number is absent from the new side, in order.
pub open spec fn removed_keyed(from: Seq<ParaView>, to: Seq<ParaView>) -> Seq<ParagraphDiffView>
    decreases from.len(),
{
    if from.len() == 0 {
        Seq::empty()
    } else {
        let p = removed_keyed(from.drop_last(), to);
        let fp = from.last();
        if last_para_with_key(to, para_key(fp)) is None {
            p.push(ParagraphDiffView::Removed(fp.0, fp.1))
        } else {
            p
        }
    }
}

/// The diff entry at position `i` when paragraphs are matched by position.
pub open spec fn indexed_entry(from: Seq<ParaView>, to: Seq<ParaView>, i: int) -> ParagraphDiffView {
    if i < from.len() && i < to.len() {
        if from[i].1 == to[i].1 && from[i].0 == to[i].0 {
            ParagraphDiffView::Unchanged(to[i].0)
        } else {
            ParagraphDiffView::Modified(to[i].0, text_diff(from[i].1, to[i].1))
        }
    } else if i < to.len() {
        ParagraphDiffView::Added(to[i].0, to[i].1)
    } else {
        ParagraphDiffView::Removed(from[i].0, from[i].1)
    }
}

/// Paragraph diffs: by number when both sides are non-empty and fully
/// numbered (new-side order, then removed old paragraphs), by position
/// otherwise.
pub open spec fn paragraph_diffs(from: Seq<ParaView>, to: Seq<ParaView>) -> Seq<ParagraphDiffView> {
    if all_numbered(from) && all_numbered(to) && from.len() > 0 && to.len() > 0 {
        Seq::new(to.len(), |i: int| keyed_entry(from, to[i])) + removed_keyed(from, to)
    } else {
        let n = if from.len() >= to.len() {
            from.len()
        } else {
            to.len()
        };
        Seq::new(n, |i: int| indexed_entry(from, to, i))
    }
}

fn key_chars(p: &Paragraph) -> (k: Vec<char>)
    ensures
        k@ == para_key(p@),
{
    match &p.paragraph_no {
        Some(s) => crate::text::chars_of(s.as_str()),
        None => Vec::new(),
    }
}

fn last_with_key(ps: &Vec<Paragraph>, k: &[char]) -> (r: Option<usize>)
    ensures
        match r {
            Some(i) => last_para_with_key(paras_view(ps@), k@) == Some(i as int) && i < ps.len(),
            None => last_para_with_key(paras_view(ps@), k@) is None,
        },
{
    let ghost pv = paras_view(ps@);
    let mut n = ps.len();
    assert(pv.take(n as int) =~= pv);
    while n > 0
        invariant
            n <= ps.len(),
            pv == paras_view(ps@),
            last_para_with_key(pv, k@) == last_para_with_key(pv.take(n as int), k@),
        decreases n,
    {
        assert(pv.take(n as int).drop_last() =~= pv.take(n - 1));
        assert(pv.take(n as int).last() == ps@[n - 1]@);
        let pk = key_chars(&ps[n - 1]);
        if crate::text::chars_eq(&pk, k) {
            return Some(n - 1);
        }
        n = n - 1;
    }
    assert(pv.take(0) =~= Seq::<ParaView>::empty());
    None
}

fn all_numbered_exec(ps: &Vec<Paragraph>) -> (b: bool)
    ensures
        b == all_numbered(paras_view(ps@)),
{
    let mut i: usize = 0;
    while i < ps.len()
        invariant
            i <= ps.len(),
            forall|j: int| 0 <= j < i ==> (#[trigger] paras_view(ps@)[j]).0 is Some,
        decreases ps.len() - i,
    {
        if ps[i].paragraph_no.is_none() {
            assert(paras_view(ps@)[i as int].0 is None);
            return false;
        }
        i = i + 1;
    }
    true
}

fn push_pdiff(out: &mut Vec<ParagraphDiff>, d: ParagraphDiff)
    ensures
        pdiffs_view(final(out)@) == pdiffs_view(old(out)@).push(d@),
{
    out.push(d);
    assert(pdiffs_view(out@) =~= pdiffs_view(old(out)@).push(d@));
}

/// Paragraph-level diff of two articles.
pub fn diff_paragraphs(from: &Vec<Paragraph>, to: &Vec<Paragraph>) -> (out: Vec<ParagraphDiff>)
    ensures
        pdiffs_view(out@) == paragraph_diffs(paras_view(from@), paras_view(to@)),
{
    let ghost fv = paras_view(from@);
    let ghost tv = paras_view(to@);
    let mut out: Vec<ParagraphDiff> = Vec::new();
    if all_numbered_exec(from) && all_numbered_exec(to) && from.len() > 0 && to.len() > 0 {
        let ghost first = Seq::new(tv.len(), |i: int| keyed_entry(fv, tv[i]));
        let mut i: usize = 0;
        while i < to.len()
            invariant
                i <= to.len(),
                fv == paras_view(from@),
                tv == paras_view(to@),
                first == Seq::new(tv.len(), |i: int| keyed_entry(fv, tv[i])),
                pdiffs_view(out@) == first.take(i as int),
            decreases to.len() - i,
        {
            let tp = &to[i];
            let k = key_chars(tp);
            let d = match last_with_key(from, &k) {
                Some(f) => {
                    if from[f].text == tp.text {
                        ParagraphDiff::Unchanged { paragraph_no: copy_opt(&tp.paragraph_no) }
                    } else {
                        ParagraphDiff::Modified {
                            paragraph_no: copy_opt(&tp.paragraph_no),
                            text_diff: diff_text(from[f].text.as_str(), tp.text.as_str()),
                        }
                    }
                },
                None => ParagraphDiff::Added {
                    paragraph_no: copy_opt(&tp.paragraph_no),
                    text: copy_string(&tp.text),
                },
            };
            assert(d@ == keyed_entry(fv, tv[i as int]));
            push_pdiff(&mut out, d);
            assert(first.take(i + 1) =~= first.take(i as int).push(first[i as int]));
            i = i + 1;
        }
        assert(first.take(to.len() as int) =~= first);
        let ghost mid = pdiffs_view(out@);
        let mut j: usize = 0;
        while j < from.len()
            invariant
                j <= from.len(),
                fv == paras_view(from@),
                tv == paras_view(to@),
                pdiffs_view(out@) == mid + removed_keyed(fv.take(j as int), tv),
            decreases from.len() - j,
        {
            assert(fv.take(j + 1).drop_last() =~= fv.take(j as int));
            assert(fv.take(j + 1).last() == from@[j as int]@);
            let fp = &from[j];
            let k = key_chars(fp);
            if last_with_key(to, &k).is_none() {
                let d = ParagraphDiff::Removed {
                    paragraph_no: copy_opt(&fp.paragraph_no),
                    text: copy_string(&fp.text),
                };
                push_pdiff(&mut out, d);
            }
            j = j + 1;
        }
        assert(fv.take(from.len() as int) =~= fv);
    } else {
        let n = if from.len() >= to.len() {
            from.len()
        } else {
            to.len()
        };
        let ghost all = Seq::new(n as nat, |i: int| indexed_entry(fv, tv, i));
        let mut i: usize = 0;
        while i < n
            invariant
                i <= n,
                n == if from.len() >= to.len() {
                    from.len()
                } else {
                    to.len()
                },
                fv == paras_view(from@),
                tv == paras_view(to@),
                all == Seq::new(n as nat, |i: int| indexed_entry(fv, tv, i)),
                pdiffs_view(out@) == all.take(i as int),
            decreases n - i,
        {
            let d = if i < from.len() && i < to.len() {
                let fp = &from[i];
                let tp = &to[i];
                if fp.text == tp.text && opt_eq(&fp.paragraph_no, &tp.paragraph_no) {
                    ParagraphDiff::Unchanged { paragraph_no: copy_opt(&tp.paragraph_no) }
                } else {
                    ParagraphDiff::Modified {
                        paragraph_no: copy_opt(&tp.paragraph_no),
                        text_diff: diff_text(fp.text.as_str(), tp.text.as_str()),
                    }
                }
            } else if i < to.len() {
                ParagraphDiff::Added {
                    paragraph_no: copy_opt(&to[i].paragraph_no),
                    text: copy_string(&to[i].text),
                }
            } else {
                ParagraphDiff::Removed {
                    paragraph_no: copy_opt(&from[i].paragraph_no),
                    text: copy_string(&from[i].text),
                }
            };
            assert(d@ == indexed_entry(fv, tv, i as int));
            push_pdiff(&mut out, d);
            assert(all.take(i + 1) =~= all.take(i as int).push(all[i as int]));
            i = i + 1;
        }
        assert(all.take(n as int) =~= all);
    }
    out
}

// ---------------------------------------------------------------------------
// Articles
// ---------------------------------------------------------------------------


/// Number, caption and paragraphs of an article.
pub type SideView = (Seq<char>, Option<Seq<char>>, Seq<ParaView>);

/// Number and caption of an article.
pub type HeaderView = (Seq<char>, Option<Seq<char>>);

/// The abstract value of an [`ArticleDiff`].
pub enum ArticleDiffView {
    Unchanged(Seq<char>),
    Added(Seq<char>, SideView),
    Removed(Seq<char>, SideView),
    Modified(Seq<char>, HeaderView, HeaderView, Seq<ParagraphDiffView>),
}

impl View for ArticleDiff {
    type V = ArticleDiffView;

    open spec fn view(&self) -> ArticleDiffView {
        match self {
            ArticleDiff::Unchanged { article_id } => ArticleDiffView::Unchanged(article_id@),
            ArticleDiff::Added { article_id, to } => ArticleDiffView::Added(
                article_id@,
                (to.article_no@, opt_view(to.caption), paras_view(to.paragraphs@)),
            ),
            ArticleDiff::Removed { article_id, from } => ArticleDiffView::Removed(
                article_id@,
                (from.article_no@, opt_view(from.caption), paras_view(from.paragraphs@)),
            ),
            ArticleDiff::Modified { article_id, from, to, paragraphs } => ArticleDiffView::Modified(
                article_id@,
                (from.article_no@, opt_view(from.caption)),
                (to.article_no@, opt_view(to.caption)),
                pdiffs_view(paragraphs@),
            ),
        }
    }
}

/// The views of a list of article diffs.
pub open spec fn adiffs_view(v: Seq<ArticleDiff>) -> Seq<ArticleDiffView> {
    Seq::new(v.len(), |i: int| v[i]@)
}

/// The side of an article.
pub open spec fn side_of(a: ArticleView) -> SideView {
    (a.1, a.2, a.3)
}

/// Two revisions of an article are equal when number, caption and every
/// paragraph (number and text) agree.
pub open spec fn articles_equal_spec(a: ArticleView, b: ArticleView) -> bool {
    a.1 == b.1 && a.2 == b.2 && a.3 == b.3
}

/// The diff of a changed article.
pub open spec fn modified_entry(f: ArticleView, t: ArticleView) -> ArticleDiffView {
    ArticleDiffView::Modified(t.0, (f.1, f.2), (t.1, t.2), paragraph_diffs(f.3, t.3))
}

/// Index of the last article with id `id` (the one a map keyed by id keeps).
pub open spec fn last_article_with_id(arts: Seq<ArticleView>, id: Seq<char>) -> Option<int>
    decreases arts.len(),
{
    if arts.len() == 0 {
        None
    } else if arts.last().0 == id {
        Some(arts.len() - 1)
    } else {
        last_article_with_id(arts.drop_last(), id)
    }
}

/// What happened to a new-side article.
pub enum Fate {
    Added,
    Modified,
    Unchanged,
}

/// The fate of new-side article `ta`.
pub open spec fn fate_of(from: Seq<ArticleView>, ta: ArticleView) -> Fate {
    match last_article_with_id(from, ta.0) {
        Some(f) => if articles_equal_spec(from[f], ta) {
            Fate::Unchanged
        } else {
            Fate::Modified
        },
        None => Fate::Added,
    }
}

/// The entries of new-side articles, in new-side order; unchanged articles
/// appear only when `inc` holds.
pub open spec fn to_entries(from: Seq<ArticleView>, to: Seq<ArticleView>, inc: bool) -> Seq<ArticleDiffView>
    decreases to.len(),
{
    if to.len() == 0 {
        Seq::empty()
    } else {
        let p = to_entries(from, to.drop_last(), inc);
        let ta = to.last();
        match last_article_with_id(from, ta.0) {
            Some(f) => if articles_equal_spec(from[f], ta) {
                if inc {
                    p.push(ArticleDiffView::Unchanged(ta.0))
                } else {
                    p
                }
            } else {
                p.push(modified_entry(from[f], ta))
            },
            None => p.push(ArticleDiffView::Added(ta.0, side_of(ta))),
        }
    }
}

/// Old-side articles whose id is absent from the new side, in old-side
/// order.
pub open spec fn removed_entries(from: Seq<ArticleView>, to: Seq<ArticleView>) -> Seq<ArticleDiffView>
    decreases from.len(),
{
    if from.len() == 0 {
        Seq::empty()
    } else {
        let p = removed_entries(from.drop_last(), to);
        let fa = from.last();
        if last_article_with_id(to, fa.0) is None {
            p.push(ArticleDiffView::Removed(fa.0, side_of(fa)))
        } else {
            p
        }
    }
}

/// Number of new-side articles with the given fate.
pub open spec fn count_fate(from: Seq<ArticleView>, to: Seq<ArticleView>, fate: Fate) -> nat
    decreases to.len(),
{
    if to.len() == 0 {
        0
    } else {
        count_fate(from, to.drop_last(), fate) + if fate_of(from, to.last()) == fate {
            1nat
        } else {
            0nat
        }
    }
}

/// The article entries of a diff: new-side entries then removed articles.
pub open spec fn article_entries(from: Seq<ArticleView>, to: Seq<ArticleView>, inc: bool) -> Seq<ArticleDiffView> {
    to_entries(from, to, inc) + removed_entries(from, to)
}

/// The views of a revision reference.
pub open spec fn revision_of(d: LawDocument) -> (Option<Seq<char>>, Option<Seq<char>>, Option<Seq<char>>) {
    (opt_view(d.revision_id), opt_view(d.promulgation_date), opt_view(d.effective_date))
}

/// The views of a [`RevisionRef`].
pub open spec fn revision_ref_view(r: RevisionRef) -> (Option<Seq<char>>, Option<Seq<char>>, Option<Seq<char>>) {
    (opt_view(r.revision_id), opt_view(r.promulgation_date), opt_view(r.effective_date))
}

/// The full content of an article.
pub fn article_side(a: &Article) -> (s: ArticleSide)
    ensures
        (s.article_no@, opt_view(s.caption), paras_view(s.paragraphs@)) == side_of(article_view(*a)),
{
    ArticleSide {
        article_no: copy_string(&a.article_no),
        caption: copy_opt(&a.caption),
        paragraphs: copy_paragraphs(&a.paragraphs),
    }
}

/// Whether two revisions of an article are equal (number, caption,
/// paragraph numbers and texts).
pub fn articles_equal(a: &Article, b: &Article) -> (r: bool)
    ensures
        r == articles_equal_spec(article_view(*a), article_view(*b)),
        r <==> (a.article_no@ == b.article_no@ && opt_view(a.caption) == opt_view(b.caption) && paras_view(a.paragraphs@)
            == paras_view(b.paragraphs@)),
{
    if !(a.article_no == b.article_no) || !opt_eq(&a.caption, &b.caption) || a.paragraphs.len()
        != b.paragraphs.len() {
        assert(paras_view(a.paragraphs@).len() == a.paragraphs.len());
        assert(paras_view(b.paragraphs@).len() == b.paragraphs.len());
        return false;
    }
    let ghost pa = paras_view(a.paragraphs@);
    let ghost pb = paras_view(b.paragraphs@);
    let mut i: usize = 0;
    while i < a.paragraphs.len()
        invariant
            i <= a.paragraphs.len() == b.paragraphs.len(),
            pa == paras_view(a.paragraphs@),
            pb == paras_view(b.paragraphs@),
            pa.take(i as int) == pb.take(i as int),
        decreases a.paragraphs.len() - i,
    {
        let p = &a.paragraphs[i];
        let q = &b.paragraphs[i];
        if !(opt_eq(&p.paragraph_no, &q.paragraph_no) && p.text == q.text) {
            assert(pa[i as int] != pb[i as int]);
            return false;
        }
        assert(pa.take(i + 1) =~= pa.take(i as int).push(pa[i as int]));
        assert(pb.take(i + 1) =~= pb.take(i as int).push(pb[i as int]));
        i = i + 1;
    }
    assert(pa.take(a.paragraphs.len() as int) =~= pa);
    assert(pb.take(b.paragraphs.len() as int) =~= pb);
    true
}

/// The diff of an article present in both revisions.
pub fn diff_article(from: &Article, to: &Article) -> (d: ArticleDiff)
    ensures
        d@ == modified_entry(article_view(*from), article_view(*to)),
{
    let paragraphs = diff_paragraphs(&from.paragraphs, &to.paragraphs);
    ArticleDiff::Modified {
        article_id: copy_string(&to.article_id),
        from: ArticleHeader {
            article_no: copy_string(&from.article_no),
            caption: copy_opt(&from.caption),
        },
        to: ArticleHeader { article_no: copy_string(&to.article_no), caption: copy_opt(&to.caption) },
        paragraphs,
    }
}

pub(crate) fn last_with_id(arts: &Vec<Article>, id: &String) -> (r: Option<usize>)
    ensures
        match r {
            Some(i) => last_article_with_id(articles_view(arts@), id@) == Some(i as int) && i
                < arts.len(),
            None => last_article_with_id(articles_view(arts@), id@) is None,
        },
{
    let ghost av = articles_view(arts@);
    let mut n = arts.len();
    assert(av.take(n as int) =~= av);
    while n > 0
        invariant
            n <= arts.len(),
            av == articles_view(arts@),
            last_article_with_id(av, id@) == last_article_with_id(av.take(n as int), id@),
        decreases n,
    {
        assert(av.take(n as int).drop_last() =~= av.take(n - 1));
        assert(av.take(n as int).last() == article_view(arts@[n - 1]));
        if arts[n - 1].article_id == *id {
            return Some(n - 1);
        }
        n = n - 1;
    }
    assert(av.take(0) =~= Seq::<ArticleView>::empty());
    None
}

fn push_adiff(out: &mut Vec<ArticleDiff>, d: ArticleDiff)
    ensures
        adiffs_view(final(out)@) == adiffs_view(old(out)@).push(d@),
{
    out.push(d);
    assert(adiffs_view(out@) =~= adiffs_view(old(out)@).push(d@));
}

/// Compares two revisions of one statute.
///
/// Entries follow the order of the new revision, then the removed articles
/// in the order of the old one.  With `include_unchanged == false`,
/// unchanged articles are left out of `articles` (they are still counted in
/// the summary).
pub fn diff_documents(from: &LawDocument, to: &LawDocument, include_unchanged: bool) -> (d: LawDiff)
    requires
        from.law_id@ == to.law_id@,
    ensures
        d.schema_version == DIFF_SCHEMA_VERSION,
        d.law_id@ == from.law_id@,
        revision_ref_view(d.from) == revision_of(*from),
        revision_ref_view(d.to) == revision_of(*to),
        adiffs_view(d.articles@) == article_entries(
            articles_view(from.articles@),
            articles_view(to.articles@),
            include_unchanged,
        ),
        d.summary.articles_added == count_fate(
            articles_view(from.articles@),
            articles_view(to.articles@),
            Fate::Added,
        ),
        d.summary.articles_modified == count_fate(
            articles_view(from.articles@),
            articles_view(to.articles@),
            Fate::Modified,
        ),
        d.summary.articles_unchanged == count_fate(
            articles_view(from.articles@),
            articles_view(to.articles@),
            Fate::Unchanged,
        ),
        d.summary.articles_removed == removed_entries(
            articles_view(from.articles@),
            articles_view(to.articles@),
        ).len(),
{
    let ghost fv = articles_view(from.articles@);
    let ghost tv = articles_view(to.articles@);
    let mut articles: Vec<ArticleDiff> = Vec::new();
    let mut added: usize = 0;
    let mut modified: usize = 0;
    let mut unchanged: usize = 0;
    let mut removed: usize = 0;
    let mut i: usize = 0;
    while i < to.articles.len()
        invariant
            i <= to.articles.len(),
            fv == articles_view(from.articles@),
            tv == articles_view(to.articles@),
            adiffs_view(articles@) == to_entries(fv, tv.take(i as int), include_unchanged),
            added == count_fate(fv, tv.take(i as int), Fate::Added),
            modified == count_fate(fv, tv.take(i as int), Fate::Modified),
            unchanged == count_fate(fv, tv.take(i as int), Fate::Unchanged),
            added + modified + unchanged == i,
        decreases to.articles.len() - i,
    {
        assert(tv.take(i + 1).drop_last() =~= tv.take(i as int));
        assert(tv.take(i + 1).last() == article_view(to.articles@[i as int]));
        let ta = &to.articles[i];
        match last_with_id(&from.articles, &ta.article_id) {
            Some(f) => {
                if articles_equal(&from.articles[f], ta) {
                    unchanged = unchanged + 1;
                    if include_unchanged {
                        push_adiff(
                            &mut articles,
                            ArticleDiff::Unchanged { article_id: copy_string(&ta.article_id) },
                        );
                    }
                } else {
                    modified = modified + 1;
                    push_adiff(&mut articles, diff_article(&from.articles[f], ta));
                }
            },
            None => {
                added = added + 1;
                let side = article_side(ta);
                push_adiff(
                    &mut articles,
                    ArticleDiff::Added { article_id: copy_string(&ta.article_id), to: side },
                );
            },
        }
        i = i + 1;
    }
    assert(tv.take(to.articles.len() as int) =~= tv);
    let ghost mid = adiffs_view(articles@);
    let mut j: usize = 0;
    assert(removed_entries(fv.take(0), tv) =~= Seq::<ArticleDiffView>::empty());
    while j < from.articles.len()
        invariant
            j <= from.articles.len(),
            fv == articles_view(from.articles@),
            tv == articles_view(to.articles@),
            adiffs_view(articles@) == mid + removed_entries(fv.take(j as int), tv),
            removed == removed_entries(fv.take(j as int), tv).len(),
            removed <= j,
        decreases from.articles.len() - j,
    {
        assert(fv.take(j + 1).drop_last() =~= fv.take(j as int));
        assert(fv.take(j + 1).last() == article_view(from.articles@[j as int]));
        let fa = &from.articles[j];
        if last_with_id(&to.articles, &fa.article_id).is_none() {
            removed = removed + 1;
            let side = article_side(fa);
            push_adiff(
                &mut articles,
                ArticleDiff::Removed { article_id: copy_string(&fa.article_id), from: side },
            );
        }
        j = j + 1;
    }
    assert(fv.take(from.articles.len() as int) =~= fv);
    LawDiff {
        schema_version: DIFF_SCHEMA_VERSION,
        law_id: copy_string(&from.law_id),
        from: RevisionRef {
            revision_id: copy_opt(&from.revision_id),
            promulgation_date: copy_opt(&from.promulgation_date),
            effective_date: copy_opt(&from.effective_date),
        },
        to: RevisionRef {
            revision_id: copy_opt(&to.revision_id),
            promulgation_date: copy_opt(&to.promulgation_date),
            effective_date: copy_opt(&to.effective_date),
        },
        summary: DiffSummary {
            articles_added: added,
            articles_removed: removed,
            articles_modified: modified,
            articles_unchanged: unchanged,
        },
        articles,
    }
}


// ---------------------------------------------------------------------------
// Laws
// ---------------------------------------------------------------------------

/// The texts of a list of changes, concatenated.
pub open spec fn ops_text(cs: Seq<(ChangeKind, Seq<char>)>) -> Seq<char>
    decreases cs.len(),
{
    if cs.len() == 0 {
        Seq::empty()
    } else {
        ops_text(cs.drop_last()) + cs.last().1
    }
}

/// The texts of the changes of one kind, concatenated.
pub open spec fn kind_text(cs: Seq<(ChangeKind, Seq<char>)>, k: ChangeKind) -> Seq<char>
    decreases cs.len(),
{
    if cs.len() == 0 {
        Seq::empty()
    } else {
        kind_text(cs.drop_last(), k) + if cs.last().0 == k { cs.last().1 } else { Seq::empty() }
    }
}

/// Merging the changes of a text diff joins neighbours of the same kind
/// and loses nothing: no two adjacent operations have the same kind, the
/// operations spell the same text in the same order, and the text of each
/// kind (what stays, what goes, what comes) is unchanged.
pub proof fn lemma_merge_ops(cs: Seq<(ChangeKind, Seq<char>)>)
    ensures
        forall|i: int| 0 <= i < merge_ops(cs).len() - 1 ==> (#[trigger] merge_ops(cs)[i]).0 != merge_ops(cs)[i + 1].0,
        ops_text(merge_ops(cs)) == ops_text(cs),
        forall|k: ChangeKind| #[trigger] kind_text(merge_ops(cs), k) == kind_text(cs, k),
    decreases cs.len(),
{
    if cs.len() > 0 {
        lemma_merge_ops(cs.drop_last());
        let p = merge_ops(cs.drop_last());
        let c = cs.last();
        if p.len() > 0 && p.last().0 == c.0 {
            let q = p.update(p.len() - 1, (c.0, p.last().1 + c.1));
            assert(q.drop_last() =~= p.drop_last());
            assert(ops_text(q) =~= ops_text(p) + c.1);
            assert forall|k: ChangeKind| #[trigger] kind_text(q, k) == kind_text(cs, k) by {
                assert(kind_text(q, k) =~= kind_text(p, k) + if c.0 == k { c.1 } else { Seq::empty() });
            }
            assert forall|i: int| 0 <= i < q.len() - 1 implies (#[trigger] q[i]).0 != q[i + 1].0 by {
                assert(q[i] == p[i]);
                if i + 1 < q.len() - 1 {
                    assert(q[i + 1] == p[i + 1]);
                }
            }
        } else {
            let q = p.push(c);
            assert(q.drop_last() =~= p);
            assert(q.last() == c);
            assert(ops_text(q) =~= ops_text(p) + c.1);
            assert forall|k: ChangeKind| #[trigger] kind_text(q, k) == kind_text(cs, k) by {
                assert(kind_text(q, k) =~= kind_text(p, k) + if c.0 == k { c.1 } else { Seq::empty() });
            }
            assert forall|i: int| 0 <= i < q.len() - 1 implies (#[trigger] q[i]).0 != q[i + 1].0 by {
                assert(q[i] == p[i]);
                if i + 1 < q.len() - 1 {
                    assert(q[i + 1] == p[i + 1]);
                }
            }
        }
    }
}

/// Every new-side article is counted once: added, modified and unchanged
/// together are all the articles of the new revision.
pub proof fn lemma_fates_partition(from: Seq<ArticleView>, to: Seq<ArticleView>)
    ensures
        count_fate(from, to, Fate::Added) + count_fate(from, to, Fate::Modified) + count_fate(
            from,
            to,
            Fate::Unchanged,
        ) == to.len(),
    decreases to.len(),
{
    if to.len() > 0 {
        lemma_fates_partition(from, to.drop_last());
    }
}

/// The article ids of a revision are distinct.
pub open spec fn ids_distinct(arts: Seq<ArticleView>) -> bool {
    forall|i: int, j: int| 0 <= i < j < arts.len() ==> (#[trigger] arts[i]).0 != (#[trigger] arts[j]).0
}

proof fn lemma_last_with_own_id(arts: Seq<ArticleView>, i: int)
    requires
        ids_distinct(arts),
        0 <= i < arts.len(),
    ensures
        last_article_with_id(arts, arts[i].0) == Some(i),
    decreases arts.len(),
{
    if i < arts.len() - 1 {
        assert(arts.last().0 != arts[i].0);
        assert(arts.drop_last()[i] == arts[i]);
        assert forall|a: int, b: int| 0 <= a < b < arts.drop_last().len() implies (#[trigger] arts.drop_last()[a]).0 != (#[trigger] arts.drop_last()[b]).0 by {
            assert(arts.drop_last()[a] == arts[a]);
            assert(arts.drop_last()[b] == arts[b]);
        }
        lemma_last_with_own_id(arts.drop_last(), i);
    }
}

proof fn lemma_self_fates(from: Seq<ArticleView>, n: int)
    requires
        ids_distinct(from),
        0 <= n <= from.len(),
    ensures
        count_fate(from, from.take(n), Fate::Unchanged) == n,
        to_entries(from, from.take(n), false) == Seq::<ArticleDiffView>::empty(),
    decreases n,
{
    if n > 0 {
        assert(from.take(n).drop_last() =~= from.take(n - 1));
        assert(from.take(n).last() == from[n - 1]);
        lemma_self_fates(from, n - 1);
        lemma_last_with_own_id(from, n - 1);
    }
}

proof fn lemma_none_removed(from: Seq<ArticleView>, to: Seq<ArticleView>, n: int)
    requires
        0 <= n <= from.len(),
        forall|i: int| 0 <= i < from.len() ==> last_article_with_id(to, (#[trigger] from[i]).0) is Some,
    ensures
        removed_entries(from.take(n), to) == Seq::<ArticleDiffView>::empty(),
    decreases n,
{
    if n > 0 {
        assert(from.take(n).drop_last() =~= from.take(n - 1));
        assert(from.take(n).last() == from[n - 1]);
        lemma_none_removed(from, to, n - 1);
    }
}

/// Comparing a revision whose article ids are distinct with itself finds
/// no change (the counts and entries that `diff_documents` reports of a
/// document against itself): every article is unchanged, none is added,
/// modified or removed, and without the unchanged ones the diff lists no
/// article.
pub proof fn lemma_diff_with_itself(arts: Seq<ArticleView>)
    requires
        ids_distinct(arts),
    ensures
        count_fate(arts, arts, Fate::Unchanged) == arts.len(),
        count_fate(arts, arts, Fate::Added) == 0,
        count_fate(arts, arts, Fate::Modified) == 0,
        removed_entries(arts, arts).len() == 0,
        article_entries(arts, arts, false) == Seq::<ArticleDiffView>::empty(),
{
    lemma_self_fates(arts, arts.len() as int);
    assert(arts.take(arts.len() as int) =~= arts);
    lemma_fates_partition(arts, arts);
    assert forall|i: int| 0 <= i < arts.len() implies last_article_with_id(arts, (#[trigger] arts[i]).0) is Some by {
        lemma_last_with_own_id(arts, i);
    }
    lemma_none_removed(arts, arts, arts.len() as int);
    assert(arts.take(arts.len() as int) =~= arts);
    assert(article_entries(arts, arts, false) =~= Seq::<ArticleDiffView>::empty());
}

/// Diffing a document whose article ids are distinct with itself
/// (`diff_documents(&d, &d, false)`) reports no change: no article entry,
/// every article counted unchanged, none added, modified or removed.
pub proof fn lemma_document_diff_with_itself(d: LawDocument)
    requires
        ids_distinct(articles_view(d.articles@)),
    ensures
        article_entries(articles_view(d.articles@), articles_view(d.articles@), false) == Seq::<ArticleDiffView>::empty(),
        count_fate(articles_view(d.articles@), articles_view(d.articles@), Fate::Unchanged) == d.articles.len(),
        count_fate(articles_view(d.articles@), articles_view(d.articles@), Fate::Added) == 0,
        count_fate(articles_view(d.articles@), articles_view(d.articles@), Fate::Modified) == 0,
        removed_entries(articles_view(d.articles@), articles_view(d.articles@)).len() == 0,
{
    lemma_diff_with_itself(articles_view(d.articles@));
}

/// An article of the new revision counts as unchanged only when the old
/// revision has an article with its id whose number, caption and every
/// paragraph (number and text) are the same.
pub proof fn lemma_unchanged_means_identical(from: Seq<ArticleView>, ta: ArticleView)
    ensures
        fate_of(from, ta) == Fate::Unchanged ==> exists|f: int|
            0 <= f < from.len() && #[trigger] from[f].0 == ta.0 && from[f].1 == ta.1 && from[f].2 == ta.2 && from[f].3 == ta.3,
{
    lemma_last_article_found(from, ta.0);
}

/// An article kept under its id with another number, caption or
/// paragraphs counts as modified: a change of the caption alone is a
/// modification.
pub proof fn lemma_changed_article_is_modified(from: Seq<ArticleView>, ta: ArticleView)
    ensures
        (last_article_with_id(from, ta.0) matches Some(f) && (from[f].1 != ta.1 || from[f].2 != ta.2 || from[f].3 != ta.3))
            ==> fate_of(from, ta) == Fate::Modified,
{
}

proof fn lemma_last_article_found(arts: Seq<ArticleView>, id: Seq<char>)
    ensures
        last_article_with_id(arts, id) matches Some(f) ==> 0 <= f < arts.len() && arts[f].0 == id,
    decreases arts.len(),
{
    if arts.len() > 0 && arts.last().0 != id {
        lemma_last_article_found(arts.drop_last(), id);
        if let Some(f) = last_article_with_id(arts.drop_last(), id) {
            assert(arts.drop_last()[f] == arts[f]);
        }
    }
}

/// The summary counts an article unchanged only when it is identical on
/// both sides: every new-side article whose old counterpart differs in
/// number, caption or paragraphs is counted modified, not unchanged.
pub proof fn lemma_unchanged_count_identical(from: Seq<ArticleView>, to: Seq<ArticleView>)
    ensures
        count_fate(from, to, Fate::Unchanged) <= to.len(),
        (forall|k: int| 0 <= k < to.len() ==> (last_article_with_id(from, (#[trigger] to[k]).0) matches Some(f) && from[f].2
            != to[k].2)) ==> count_fate(from, to, Fate::Unchanged) == 0,
    decreases to.len(),
{
    if to.len() > 0 {
        let p = to.drop_last();
        assert forall|k: int| 0 <= k < p.len() implies p[k] == to[k] by {}
        lemma_unchanged_count_identical(from, p);
        if forall|k: int| 0 <= k < to.len() ==> (last_article_with_id(from, (#[trigger] to[k]).0) matches Some(f) && from[f].2
            != to[k].2) {
            assert(to.last() == to[to.len() - 1]);
            assert forall|k: int| 0 <= k < p.len() implies (last_article_with_id(from, (#[trigger] p[k]).0) matches Some(f) && from[f].2
                != p[k].2) by {
                assert(p[k] == to[k]);
            }
            lemma_changed_article_is_modified(from, to.last());
        }
    }
}

/// A new-side article counts as added exactly when the old revision has
/// no article with its id.
pub proof fn lemma_added_iff_new_id(from: Seq<ArticleView>, ta: ArticleView)
    ensures
        fate_of(from, ta) == Fate::Added <==> forall|f: int| 0 <= f < from.len() ==> (#[trigger] from[f]).0 != ta.0,
    decreases from.len(),
{
    lemma_last_article_found(from, ta.0);
    if from.len() > 0 && from.last().0 != ta.0 {
        lemma_added_iff_new_id(from.drop_last(), ta);
        assert forall|f: int| 0 <= f < from.len() - 1 implies from.drop_last()[f] == from[f] by {}
        if forall|f: int| 0 <= f < from.drop_last().len() ==> (#[trigger] from.drop_last()[f]).0 != ta.0 {
            assert forall|f: int| 0 <= f < from.len() implies (#[trigger] from[f]).0 != ta.0 by {
                if f < from.len() - 1 {
                    assert(from.drop_last()[f] == from[f]);
                }
            }
        }
    }
    if from.len() > 0 && from.last().0 == ta.0 {
        assert(from[from.len() - 1].0 == ta.0);
    }
}

} // verus!
