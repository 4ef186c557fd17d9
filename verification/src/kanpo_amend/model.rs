//! Structured form of an amendment text: paragraphs and old/new table rows.
//!
//! The marker text produced by page reconstruction (「改正後」/「改正前」 heading
//! lines) is turned into a [`Document`] of [`Block`]s, easy to render as HTML or
//! tables, and can be turned back into flat text.
use crate::kanpo_amend::format::{detect_format, format_of};
use crate::text::{
    append_chars, chars_eq, chars_of, copy_lines, copy_range, join, join_lines, lemma_seqs_of_push,
    lines, nl, seqs_of, split_lines, string_of, trim, trim_chars,
};
use crate::text::{
    is_ws, lemma_join_ends, lemma_join_no_cr, lemma_join_split_nl, lemma_split_nl_join, lemma_split_nl_join_all,
    lemma_split_nl_parts, lemma_trim_unchanged, no_cr, split_all, split_nl, strip_cr, trim_end, trim_start,
};
use vstd::prelude::*;

verus! {

/// A piece of text with one style.
#[derive(Debug, Clone, PartialEq, Eq)]
pub struct Run {
    pub text: String,
    /// Whether the text is underlined (傍線).  The page text gives no
    /// underline information, so runs built here never carry it.
    pub underline: bool,
}

/// One block of a document.
#[derive(Debug, Clone, PartialEq, Eq)]
pub enum Block {
    /// Running text (preamble, prose amendment).
    Paragraph { runs: Vec<Run> },
    /// One row of a comparison table: the text after and before amendment.
    Shinkyu { after: Vec<Run>, before: Vec<Run> },
}

/// One amendment text in structured form.
#[derive(Debug, Clone, PartialEq, Eq)]
pub struct Document {
    /// `"prose"`, `"shinkyu"` or `"unknown"`.
    pub format: String,
    /// The blocks in reading order.
    pub blocks: Vec<Block>,
}

/// The abstract value of a block.
pub enum BlockView {
    Paragraph(Seq<(Seq<char>, bool)>),
    Shinkyu(Seq<(Seq<char>, bool)>, Seq<(Seq<char>, bool)>),
}

impl View for Run {
    type V = (Seq<char>, bool);

    open spec fn view(&self) -> (Seq<char>, bool) {
        (self.text@, self.underline)
    }
}

/// The views of a run list.
pub open spec fn runs_view(rs: Seq<Run>) -> Seq<(Seq<char>, bool)> {
    Seq::new(rs.len(), |i: int| rs[i]@)
}

impl View for Block {
    type V = BlockView;

    open spec fn view(&self) -> BlockView {
        match self {
            Block::Paragraph { runs } => BlockView::Paragraph(runs_view(runs@)),
            Block::Shinkyu { after, before } => BlockView::Shinkyu(
                runs_view(after@),
                runs_view(before@),
            ),
        }
    }
}

/// The views of a block list.
pub open spec fn blocks_view(bs: Seq<Block>) -> Seq<BlockView> {
    Seq::new(bs.len(), |i: int| bs[i]@)
}

proof fn lemma_blocks_view_push(bs: Seq<Block>, b: Block)
    ensures
        blocks_view(bs.push(b)) == blocks_view(bs).push(b@),
{
    assert(blocks_view(bs.push(b)) =~= blocks_view(bs).push(b@));
}

impl Run {
    /// A run without underline.
    pub fn plain(text: &str) -> (r: Run)
        ensures
            r.text@ == text@,
            !r.underline,
    {
        Run { text: text.to_owned(), underline: false }
    }
}

/// The runs of one cell: its lines joined by newlines and trimmed, as one
/// plain run, or no run when that is empty.
pub open spec fn cell_model(ls: Seq<Seq<char>>) -> Seq<(Seq<char>, bool)> {
    let t = trim(join(ls, nl()));
    if t.len() == 0 {
        Seq::empty()
    } else {
        seq![(t, false)]
    }
}

/// Folds the lines of one cell into runs.
pub fn cell_runs(ls: &Vec<Vec<char>>) -> (out: Vec<Run>)
    ensures
        runs_view(out@) == cell_model(seqs_of(ls@)),
{
    let j = join_lines(ls);
    let t = trim_chars(&j);
    if t.len() == 0 {
        let out: Vec<Run> = Vec::new();
        assert(runs_view(out@) =~= Seq::<(Seq<char>, bool)>::empty());
        out
    } else {
        let r = Run { text: string_of(&t), underline: false };
        let out = vec![r];
        assert(runs_view(out@) =~= seq![(t@, false)]);
        out
    }
}

/// Index of the first line at or after `from` whose trimmed text is `label`,
/// or the number of lines.
pub open spec fn next_marker(ls: Seq<Seq<char>>, from: int, label: Seq<char>) -> int
    decreases ls.len() - from,
{
    if from >= ls.len() {
        ls.len() as int
    } else if trim(ls[from]) == label {
        from
    } else {
        next_marker(ls, from + 1, label)
    }
}

pub proof fn lemma_next_marker_bounds(ls: Seq<Seq<char>>, from: int, label: Seq<char>)
    requires
        0 <= from,
    ensures
        from <= ls.len() ==> from <= next_marker(ls, from, label) <= ls.len(),
        from > ls.len() ==> next_marker(ls, from, label) == ls.len(),
    decreases ls.len() - from,
{
    if from < ls.len() && trim(ls[from]) != label {
        lemma_next_marker_bounds(ls, from + 1, label);
    }
}

/// The paragraph block of pending lines, if they hold any text.
pub open spec fn para_blocks(para: Seq<Seq<char>>) -> Seq<BlockView> {
    let r = cell_model(para);
    if r.len() == 0 {
        Seq::empty()
    } else {
        seq![BlockView::Paragraph(r)]
    }
}

/// Start of the 「改正前」 cell that follows a heading found at `j`.
pub open spec fn before_start(ls: Seq<Seq<char>>, j: int) -> int {
    if j + 1 < ls.len() {
        j + 1
    } else {
        ls.len() as int
    }
}

/// The blocks of lines `ls[i..]`, with `para` the pending paragraph lines.
///
/// A 「改正後」 heading line opens a table row: the lines up to the next
/// 「改正前」 heading form the after-cell, the lines from there up to the next
/// 「改正後」 heading form the before-cell.  Other lines gather into
/// paragraphs.
pub open spec fn blocks_from(ls: Seq<Seq<char>>, i: int, para: Seq<Seq<char>>) -> Seq<BlockView>
    decreases ls.len() - i,
{
    if i < 0 || i >= ls.len() {
        para_blocks(para)
    } else if trim(ls[i]) == "改正後"@ {
        let j = next_marker(ls, i + 1, "改正前"@);
        let bs = before_start(ls, j);
        let k = next_marker(ls, bs, "改正後"@);
        proof {
            lemma_next_marker_bounds(ls, i + 1, "改正前"@);
            lemma_next_marker_bounds(ls, bs, "改正後"@);
        }
        para_blocks(para) + seq![
            BlockView::Shinkyu(
                cell_model(ls.subrange(i + 1, j)),
                cell_model(ls.subrange(bs, k)),
            ),
        ] + blocks_from(ls, k, Seq::empty())
    } else {
        blocks_from(ls, i + 1, para.push(ls[i]))
    }
}

/// The blocks of a marker text.
pub open spec fn document_blocks(text: Seq<char>) -> Seq<BlockView> {
    blocks_from(lines(text), 0, Seq::empty())
}

fn next_marker_exec(ls: &Vec<Vec<char>>, from: usize, label: &[char]) -> (k: usize)
    requires
        from <= ls.len(),
    ensures
        k == next_marker(seqs_of(ls@), from as int, label@),
        from <= k <= ls.len(),
{
    let ghost lsv = seqs_of(ls@);
    let mut k = from;
    while k < ls.len()
        invariant
            from <= k <= ls.len(),
            lsv == seqs_of(ls@),
            next_marker(lsv, from as int, label@) == next_marker(lsv, k as int, label@),
        decreases ls.len() - k,
    {
        let t = trim_chars(&ls[k]);
        if chars_eq(&t, label) {
            return k;
        }
        k = k + 1;
    }
    k
}

fn flush_para(para: &mut Vec<Vec<char>>, blocks: &mut Vec<Block>)
    ensures
        blocks_view(final(blocks)@) == blocks_view(old(blocks)@) + para_blocks(seqs_of(old(para)@)),
        final(para)@.len() == 0,
{
    let runs = cell_runs(para);
    if runs.len() > 0 {
        let b = Block::Paragraph { runs };
        proof {
            lemma_blocks_view_push(blocks@, b);
        }
        blocks.push(b);
    } else {
        assert(blocks_view(blocks@) + para_blocks(seqs_of(para@)) =~= blocks_view(blocks@));
    }
    *para = Vec::new();
}

impl Document {
    /// Structures a marker text: 「改正後」/「改正前」 heading lines delimit
    /// table rows, other lines gather into paragraphs; the format is that of
    /// [`detect_format`].
    pub fn from_text(text: &str) -> (doc: Document)
        ensures
            doc.format@ == format_of(text@),
            blocks_view(doc.blocks@) == document_blocks(text@),
    {
        let format = detect_format(text);
        let cs = chars_of(text);
        let ls = split_lines(&cs);
        let ghost lsv = seqs_of(ls@);
        let after_label = chars_of("改正後");
        let before_label = chars_of("改正前");
        let mut blocks: Vec<Block> = Vec::new();
        let mut para: Vec<Vec<char>> = Vec::new();
        let mut i: usize = 0;
        assert(blocks_view(blocks@) =~= Seq::<BlockView>::empty());
        assert(seqs_of(para@) =~= Seq::<Seq<char>>::empty());
        assert(Seq::<BlockView>::empty() + blocks_from(lsv, 0, Seq::empty()) =~= blocks_from(
            lsv,
            0,
            Seq::empty(),
        ));
        while i < ls.len()
            invariant
                i <= ls.len(),
                lsv == seqs_of(ls@),
                lsv == lines(cs@),
                cs@ == text@,
                after_label@ == "改正後"@,
                before_label@ == "改正前"@,
                blocks_view(blocks@) + blocks_from(lsv, i as int, seqs_of(para@)) == document_blocks(
                    text@,
                ),
            decreases ls.len() - i,
        {
            let t = trim_chars(&ls[i]);
            if chars_eq(&t, &after_label) {
                let ghost pv = seqs_of(para@);
                let ghost before_blocks = blocks_view(blocks@);
                flush_para(&mut para, &mut blocks);
                let j = next_marker_exec(&ls, i + 1, &before_label);
                let after = cell_runs(&copy_lines(&ls, i + 1, j));
                let bs = if j < ls.len() && j + 1 < ls.len() {
                    j + 1
                } else {
                    ls.len()
                };
                let k = next_marker_exec(&ls, bs, &after_label);
                let before = cell_runs(&copy_lines(&ls, bs, k));
                let b = Block::Shinkyu { after, before };
                proof {
                    lemma_blocks_view_push(blocks@, b);
                    assert(lsv[i as int] == ls@[i as int]@);
                    assert(trim(lsv[i as int]) == "改正後"@);
                    assert(blocks_from(lsv, i as int, pv) == para_blocks(pv) + seq![b@]
                        + blocks_from(lsv, k as int, Seq::empty()));
                    assert(seqs_of(para@) =~= Seq::<Seq<char>>::empty());
                    assert(blocks_view(blocks@).push(b@) + blocks_from(
                        lsv,
                        k as int,
                        seqs_of(para@),
                    ) =~= before_blocks + (para_blocks(pv) + seq![b@] + blocks_from(
                        lsv,
                        k as int,
                        Seq::empty(),
                    )));
                }
                blocks.push(b);
                i = k;
            } else {
                let line = copy_range(&ls[i], 0, ls[i].len());
                assert(line@ =~= ls@[i as int]@);
                proof {
                    lemma_seqs_of_push(para@, line);
                }
                para.push(line);
                i = i + 1;
            }
        }
        flush_para(&mut para, &mut blocks);
        assert(blocks_view(blocks@) =~= document_blocks(text@));
        Document { format, blocks }
    }
}

/// The texts of runs concatenated.
pub open spec fn runs_text(rs: Seq<(Seq<char>, bool)>) -> Seq<char>
    decreases rs.len(),
{
    if rs.len() == 0 {
        Seq::empty()
    } else {
        runs_text(rs.drop_last()) + rs.last().0
    }
}

/// The flat lines of blocks: a paragraph gives its text when not empty, a
/// table row gives 「改正後」, the after text, 「改正前」, the before text.
pub open spec fn text_lines(bs: Seq<BlockView>) -> Seq<Seq<char>>
    decreases bs.len(),
{
    if bs.len() == 0 {
        Seq::empty()
    } else {
        let p = text_lines(bs.drop_last());
        match bs.last() {
            BlockView::Paragraph(runs) => {
                let t = runs_text(runs);
                if t.len() == 0 {
                    p
                } else {
                    p.push(t)
                }
            },
            BlockView::Shinkyu(after, before) => p.push("改正後"@).push(runs_text(after)).push(
                "改正前"@,
            ).push(runs_text(before)),
        }
    }
}

/// The flat text of blocks: their lines joined by newlines and trimmed.
pub open spec fn document_text(bs: Seq<BlockView>) -> Seq<char> {
    trim(join(text_lines(bs), nl()))
}

fn runs_chars(rs: &Vec<Run>) -> (out: Vec<char>)
    ensures
        out@ == runs_text(runs_view(rs@)),
{
    let mut out: Vec<char> = Vec::new();
    let mut i: usize = 0;
    while i < rs.len()
        invariant
            i <= rs.len(),
            out@ == runs_text(runs_view(rs@).take(i as int)),
        decreases rs.len() - i,
    {
        assert(runs_view(rs@).take(i + 1).drop_last() =~= runs_view(rs@).take(i as int));
        let t = chars_of(rs[i].text.as_str());
        append_chars(&mut out, &t);
        i = i + 1;
    }
    assert(runs_view(rs@).take(rs.len() as int) =~= runs_view(rs@));
    out
}

impl Document {
    /// Turns the structured form back into the flat marker text.
    pub fn to_text(&self) -> (out: String)
        ensures
            out@ == document_text(blocks_view(self.blocks@)),
    {
        let ghost bv = blocks_view(self.blocks@);
        let mut out: Vec<Vec<char>> = Vec::new();
        let mut i: usize = 0;
        while i < self.blocks.len()
            invariant
                i <= self.blocks.len(),
                bv == blocks_view(self.blocks@),
                seqs_of(out@) == text_lines(bv.take(i as int)),
            decreases self.blocks.len() - i,
        {
            assert(bv.take(i + 1).drop_last() =~= bv.take(i as int));
            assert(bv.take(i + 1).last() == self.blocks@[i as int]@);
            match &self.blocks[i] {
                Block::Paragraph { runs } => {
                    let t = runs_chars(runs);
                    if t.len() > 0 {
                        proof {
                            lemma_seqs_of_push(out@, t);
                        }
                        out.push(t);
                    }
                },
                Block::Shinkyu { after, before } => {
                    let l1 = chars_of("改正後");
                    let l2 = runs_chars(after);
                    let l3 = chars_of("改正前");
                    let l4 = runs_chars(before);
                    proof {
                        lemma_seqs_of_push(out@, l1);
                        lemma_seqs_of_push(out@.push(l1), l2);
                        lemma_seqs_of_push(out@.push(l1).push(l2), l3);
                        lemma_seqs_of_push(out@.push(l1).push(l2).push(l3), l4);
                    }
                    out.push(l1);
                    out.push(l2);
                    out.push(l3);
                    out.push(l4);
                },
            }
            i = i + 1;
        }
        assert(bv.take(self.blocks.len() as int) =~= bv);
        let j = join_lines(&out);
        let t = trim_chars(&j);
        string_of(&t)
    }
}

// ---------------------------------------------------------------------------
// Back and forth between text and structure
// ---------------------------------------------------------------------------

/// A cell text as `from_text` makes it: not empty, neither starting nor
/// ending with white space, without carriage returns.
pub open spec fn cell_text_ok(t: Seq<char>) -> bool {
    &&& t.len() > 0
    &&& !is_ws(t[0])
    &&& !is_ws(t.last())
    &&& no_cr(t)
}

/// No line of `t`, trimmed, is the heading `stop`.
pub open spec fn lines_avoid(t: Seq<char>, stop: Seq<char>) -> bool {
    forall|q: int| 0 <= q < split_nl(t).len() ==> trim(#[trigger] split_nl(t)[q]) != stop
}

/// An empty cell, or a cell of one plain run whose lines never read as
/// the heading `stop` that ends the cell.
pub open spec fn cell_ok(rs: Seq<(Seq<char>, bool)>, stop: Seq<char>) -> bool {
    rs.len() == 0 || (rs.len() == 1 && !rs[0].1 && cell_text_ok(rs[0].0) && lines_avoid(rs[0].0, stop))
}

/// Blocks as `from_text` makes them of text without carriage returns: at
/// most one paragraph, first, holding text whose lines are no 「改正後」
/// heading, then table rows whose after-cell has no 「改正前」 line and
/// whose before-cell has no 「改正後」 line (either cell may be empty).
pub open spec fn text_blocks(bs: Seq<BlockView>) -> bool {
    forall|q: int|
        0 <= q < bs.len() ==> match #[trigger] bs[q] {
            BlockView::Paragraph(r) => q == 0 && r.len() == 1 && cell_ok(r, "改正後"@),
            BlockView::Shinkyu(a, b) => cell_ok(a, "改正前"@) && cell_ok(b, "改正後"@),
        }
}

/// Whether the blocks open with a paragraph (1) or not (0).
pub open spec fn lead(bs: Seq<BlockView>) -> int {
    if bs.len() > 0 && bs[0] is Paragraph {
        1
    } else {
        0
    }
}

/// The text of a cell of at most one run.
pub open spec fn cell_text(rs: Seq<(Seq<char>, bool)>) -> Seq<char> {
    if rs.len() == 0 {
        Seq::empty()
    } else {
        rs[0].0
    }
}

/// The flat lines of table row `b` start at `at` in `ls`.
pub open spec fn row_at(ls: Seq<Seq<char>>, at: int, b: BlockView) -> bool {
    b matches BlockView::Shinkyu(a, c) && {
        &&& ls[at] == "改正後"@
        &&& ls[at + 1] == cell_text(a)
        &&& ls[at + 2] == "改正前"@
        &&& ls[at + 3] == cell_text(c)
    }
}

/// The lines a block reads back from: a paragraph's lines; for a table
/// row its heading, the after-cell's lines, its other heading and the
/// before-cell's lines.
pub open spec fn block_group(b: BlockView) -> Seq<Seq<char>> {
    match b {
        BlockView::Paragraph(r) => split_nl(runs_text(r)),
        BlockView::Shinkyu(a, c) => seq!["改正後"@] + split_nl(runs_text(a)) + seq!["改正前"@] + split_nl(runs_text(c)),
    }
}

/// The lines of blocks, block by block.
pub open spec fn group_lines(bs: Seq<BlockView>) -> Seq<Seq<char>>
    decreases bs.len(),
{
    if bs.len() == 0 {
        Seq::empty()
    } else {
        block_group(bs[0]) + group_lines(bs.drop_first())
    }
}

proof fn lemma_group_lines_push(bs: Seq<BlockView>, b: BlockView)
    ensures
        group_lines(bs.push(b)) == group_lines(bs) + block_group(b),
    decreases bs.len(),
{
    if bs.len() == 0 {
        assert(bs.push(b).drop_first() =~= Seq::<BlockView>::empty());
        assert(group_lines(Seq::<BlockView>::empty()) == Seq::<Seq<char>>::empty());
        assert(bs.push(b)[0] == b);
        assert(group_lines(bs) == Seq::<Seq<char>>::empty());
        assert(group_lines(bs.push(b)) =~= block_group(b));
    } else {
        lemma_group_lines_push(bs.drop_first(), b);
        assert(bs.push(b).drop_first() =~= bs.drop_first().push(b));
        assert(bs.push(b)[0] == bs[0]);
        assert(group_lines(bs.push(b)) =~= group_lines(bs) + block_group(b));
    }
}

proof fn lemma_one_run(rs: Seq<(Seq<char>, bool)>)
    requires
        rs.len() <= 1,
    ensures
        runs_text(rs) == cell_text(rs),
{
    if rs.len() == 0 {
        return;
    }
    assert(rs.drop_last() =~= Seq::<(Seq<char>, bool)>::empty());
    assert(runs_text(rs.drop_last()) == Seq::<char>::empty());
    assert(rs.last() == rs[0]);
    assert(Seq::<char>::empty() + rs[0].0 =~= rs[0].0);
}

/// A cell whose text `from_text` made reads back as itself.
proof fn lemma_cell_back(rs: Seq<(Seq<char>, bool)>, stop: Seq<char>)
    requires
        cell_ok(rs, stop),
    ensures
        cell_model(split_nl(cell_text(rs))) == rs,
{
    let t = cell_text(rs);
    if rs.len() == 0 {
        assert(split_nl(t) =~= seq![Seq::<char>::empty()]);
        assert(join(split_nl(t), nl()) == Seq::<char>::empty());
        assert(trim(Seq::<char>::empty()) =~= Seq::<char>::empty());
        assert(cell_model(split_nl(t)) =~= rs);
        return;
    }
    lemma_join_split_nl(t);
    lemma_trim_unchanged(t);
    assert(cell_model(split_nl(t)) =~= rs);
}

proof fn lemma_text_blocks_init(bs: Seq<BlockView>)
    requires
        text_blocks(bs),
        bs.len() > 0,
    ensures
        text_blocks(bs.drop_last()),
{
    let init = bs.drop_last();
    assert forall|q: int| 0 <= q < init.len() implies match #[trigger] init[q] {
        BlockView::Paragraph(r) => q == 0 && cell_ok(r, "改正後"@),
        BlockView::Shinkyu(a, b) => cell_ok(a, "改正前"@) && cell_ok(b, "改正後"@),
    } by {
        assert(init[q] == bs[q]);
    }
}

/// The flat lines of the blocks: the paragraph's text, then four texts per
/// table row.
proof fn lemma_text_lines_layout(bs: Seq<BlockView>)
    requires
        text_blocks(bs),
    ensures
        text_lines(bs).len() == lead(bs) + 4 * (bs.len() - lead(bs)),
        lead(bs) == 1 ==> (bs[0] matches BlockView::Paragraph(r) && text_lines(bs)[0] == cell_text(r)),
        forall|q: int| lead(bs) <= q < bs.len() ==> row_at(text_lines(bs), lead(bs) + 4 * (q - lead(bs)), #[trigger] bs[q]),
        split_all(text_lines(bs)) == group_lines(bs),
    decreases bs.len(),
{
    reveal_strlit("改正後");
    reveal_strlit("改正前");
    if bs.len() == 0 {
        assert(split_all(text_lines(bs)) =~= group_lines(bs));
    } else {
        let init = bs.drop_last();
        lemma_text_blocks_init(bs);
        lemma_text_lines_layout(init);
        lemma_group_lines_push(init, bs.last());
        assert(init.push(bs.last()) =~= bs);
        let p = text_lines(init);
        let q0 = bs.len() - 1;
        assert(bs.last() == bs[q0]);
        if bs.len() > 1 {
            assert(init[0] == bs[0]);
            assert(lead(init) == lead(bs));
        }
        match bs.last() {
            BlockView::Paragraph(r) => {
                assert(q0 == 0);
                lemma_one_run(r);
                assert(lead(bs) == 1);
                assert(runs_text(r).len() > 0);
                assert(text_lines(bs) == p.push(cell_text(r)));
                assert(text_lines(bs).drop_last() =~= p);
                assert(text_lines(bs).last() == cell_text(r));
                assert(split_all(text_lines(bs)) == split_all(p) + split_nl(cell_text(r)));
            },
            BlockView::Shinkyu(a, c) => {
                lemma_one_run(a);
                lemma_one_run(c);
                let l = text_lines(bs);
                assert(l == p.push("改正後"@).push(cell_text(a)).push("改正前"@).push(cell_text(c)));
                if bs.len() == 1 {
                    assert(lead(bs) == 0);
                    assert(lead(init) == 0);
                }
                assert(lead(bs) == lead(init));
                assert forall|q: int| lead(bs) <= q < bs.len() implies row_at(l, lead(bs) + 4 * (q - lead(bs)), #[trigger] bs[q]) by {
                    if q < q0 {
                        assert(init[q] == bs[q]);
                        assert(row_at(p, lead(bs) + 4 * (q - lead(bs)), init[q]));
                    }
                }
                if lead(bs) == 1 {
                    assert(l[0] == p[0]);
                }
                lemma_split_nl_join(seq!["改正後"@]);
                lemma_split_nl_join(seq!["改正前"@]);
                assert(join(seq!["改正後"@], nl()) == "改正後"@);
                assert(join(seq!["改正前"@], nl()) == "改正前"@);
                let l1 = p.push("改正後"@);
                let l2 = l1.push(cell_text(a));
                let l3 = l2.push("改正前"@);
                assert(l.drop_last() =~= l3);
                assert(l3.drop_last() =~= l2);
                assert(l2.drop_last() =~= l1);
                assert(l1.drop_last() =~= p);
                assert(split_nl("改正後"@) == seq!["改正後"@]);
                assert(split_nl("改正前"@) == seq!["改正前"@]);
                assert(split_all(l1) == split_all(p) + seq!["改正後"@]);
                assert(split_all(l2) == split_all(l1) + split_nl(cell_text(a)));
                assert(split_all(l3) == split_all(l2) + seq!["改正前"@]);
                assert(split_all(l) == split_all(l3) + split_nl(cell_text(c)));
                assert(block_group(bs.last()) == seq!["改正後"@] + split_nl(cell_text(a)) + seq!["改正前"@] + split_nl(cell_text(c)));
                assert(split_all(l) =~= split_all(p) + block_group(bs.last()));
            },
        }
    }
}

/// Reading lines from `s` stops at the first of them that reads as
/// `lab`, `m` lines on, or at the end.
proof fn lemma_next_marker_skip(ls: Seq<Seq<char>>, s: int, m: int, lab: Seq<char>)
    requires
        0 <= s,
        0 <= m,
        s + m <= ls.len(),
        forall|q: int| 0 <= q < m ==> trim(#[trigger] ls[s + q]) != lab,
        s + m == ls.len() || trim(ls[s + m]) == lab,
    ensures
        next_marker(ls, s, lab) == s + m,
    decreases m,
{
    if m > 0 {
        assert(trim(ls[s + 0]) != lab);
        assert forall|q: int| 0 <= q < m - 1 implies trim(#[trigger] ls[(s + 1) + q]) != lab by {
            assert(trim(ls[s + (q + 1)]) != lab);
        }
        lemma_next_marker_skip(ls, s + 1, m - 1, lab);
    }
}

proof fn lemma_empty_para()
    ensures
        para_blocks(Seq::empty()) == Seq::<BlockView>::empty(),
{
    assert(trim(Seq::<char>::empty()) =~= Seq::<char>::empty());
    assert(cell_model(Seq::<Seq<char>>::empty()) =~= Seq::<(Seq<char>, bool)>::empty());
}

/// The row lines of `rs`, without the final empty line of an empty last
/// before-cell where `cut` (the flat text is trimmed at its end).
pub open spec fn cut_lines(rs: Seq<BlockView>, cut: bool) -> Seq<Seq<char>> {
    if cut {
        group_lines(rs).drop_last()
    } else {
        group_lines(rs)
    }
}

/// The blocks are table rows whose cells `from_text` could have made.
pub open spec fn rows_ok(rs: Seq<BlockView>) -> bool {
    forall|q: int| 0 <= q < rs.len() ==> (#[trigger] rs[q] matches BlockView::Shinkyu(a, c) && cell_ok(a, "改正前"@) && cell_ok(c, "改正後"@))
}

/// The last block is a table row with an empty before-cell.
pub open spec fn ends_empty(rs: Seq<BlockView>) -> bool {
    rs.len() > 0 && (rs.last() matches BlockView::Shinkyu(_, c) && c.len() == 0)
}

proof fn lemma_group_first(rs: Seq<BlockView>)
    requires
        rows_ok(rs),
        rs.len() > 0,
    ensures
        group_lines(rs).len() >= 3,
        group_lines(rs)[0] == "改正後"@,
        ends_empty(rs) ==> group_lines(rs).last() == Seq::<char>::empty(),
    decreases rs.len(),
{
    let r = rs[0];
    assert(rs[0] matches BlockView::Shinkyu(_, _));
    if let BlockView::Shinkyu(a, c) = r {
        lemma_split_nl_parts(runs_text(a));
        lemma_split_nl_parts(runs_text(c));
        let g = block_group(r);
        let rest = rs.drop_first();
        assert(group_lines(rs) == g + group_lines(rest));
        if rest.len() > 0 {
            assert forall|q: int| 0 <= q < rest.len() implies (#[trigger] rest[q] matches BlockView::Shinkyu(a, c) && cell_ok(a, "改正前"@) && cell_ok(c, "改正後"@)) by {
                assert(rest[q] == rs[q + 1]);
            }
            lemma_group_first(rest);
            assert(rest.last() == rs.last());
        } else {
            assert(group_lines(rest) =~= Seq::<Seq<char>>::empty());
            if ends_empty(rs) {
                assert(rs.last() == r);
                lemma_one_run(c);
                assert(split_nl(runs_text(c)) =~= seq![Seq::<char>::empty()]);
                assert(group_lines(rs).last() == Seq::<char>::empty());
            }
        }
    }
}

/// Table rows read back from their lines, whatever lines come before,
/// also when the final empty line of an empty last before-cell is cut.
#[verifier::spinoff_prover]
#[verifier::rlimit(80)]
proof fn lemma_rows_back(pre: Seq<Seq<char>>, rs: Seq<BlockView>, cut: bool)
    requires
        rows_ok(rs),
        cut ==> ends_empty(rs),
    ensures
        blocks_from(pre + cut_lines(rs, cut), pre.len() as int, Seq::empty()) == rs,
    decreases rs.len(),
{
    reveal_strlit("改正後");
    reveal_strlit("改正前");
    lemma_empty_para();
    let ls = pre + cut_lines(rs, cut);
    let i = pre.len() as int;
    if rs.len() == 0 {
        assert(ls =~= pre);
    } else {
        let r = rs[0];
        let rest = rs.drop_first();
        assert forall|q: int| 0 <= q < rest.len() implies (#[trigger] rest[q] matches BlockView::Shinkyu(a, c) && cell_ok(a, "改正前"@) && cell_ok(c, "改正後"@)) by {
            assert(rest[q] == rs[q + 1]);
        }
        assert(rs[0] matches BlockView::Shinkyu(_, _));
        if let BlockView::Shinkyu(a, c) = r {
            lemma_one_run(a);
            lemma_one_run(c);
            let at = split_nl(cell_text(a));
            let ct = split_nl(cell_text(c));
            lemma_split_nl_parts(cell_text(a));
            lemma_split_nl_parts(cell_text(c));
            let g = block_group(r);
            let gl = group_lines(rest);
            assert(g == seq!["改正後"@] + at + seq!["改正前"@] + ct);
            assert(group_lines(rs) == g + gl);
            let last_cut = cut && rest.len() == 0;
            let rl = if rest.len() > 0 { cut_lines(rest, cut) } else { gl };
            if rest.len() > 0 {
                lemma_group_first(rest);
                assert(rest.last() == rs.last());
                if cut {
                    assert((g + gl).drop_last() =~= g + gl.drop_last());
                }
            } else {
                assert(gl =~= Seq::<Seq<char>>::empty());
            }
            // the lines of this row as they stand in `ls`
            let ct2 = if last_cut { Seq::<Seq<char>>::empty() } else { ct };
            if last_cut {
                assert(c.len() == 0);
                assert(ct =~= seq![Seq::<char>::empty()]);
                assert(cut_lines(rs, cut) =~= seq!["改正後"@] + at + seq!["改正前"@]);
            } else {
                assert(cut_lines(rs, cut) =~= g + rl);
            }
            assert(ls =~= pre + (seq!["改正後"@] + at + seq!["改正前"@] + ct2) + rl);
            let j = i + 1 + at.len();
            let k = j + 1 + ct2.len();
            assert(ls.len() == k + rl.len());
            assert(ls[i] == "改正後"@);
            assert(ls[j] == "改正前"@);
            lemma_trim_unchanged("改正後"@);
            lemma_trim_unchanged("改正前"@);
            assert(trim(Seq::<char>::empty()) =~= Seq::<char>::empty());
            assert forall|q: int| 0 <= q < at.len() implies trim(#[trigger] ls[(i + 1) + q]) != "改正前"@ by {
                assert(ls[(i + 1) + q] == at[q]);
                if a.len() == 0 {
                    assert(at[q] == Seq::<char>::empty());
                }
            }
            lemma_next_marker_skip(ls, i + 1, at.len() as int, "改正前"@);
            if rl.len() > 0 {
                assert(ls[k] == rl[0]);
                assert(rl[0] == "改正後"@);
            }
            assert forall|q: int| 0 <= q < ct2.len() implies trim(#[trigger] ls[(j + 1) + q]) != "改正後"@ by {
                assert(ls[(j + 1) + q] == ct2[q]);
                if c.len() == 0 {
                    assert(ct2[q] == Seq::<char>::empty());
                }
            }
            assert(ls.subrange(i + 1, j) =~= at);
            lemma_cell_back(a, "改正前"@);
            if last_cut {
                assert(k == ls.len());
                assert(before_start(ls, j) == ls.len());
                assert(next_marker(ls, ls.len() as int, "改正後"@) == ls.len());
                assert(ls.subrange(ls.len() as int, ls.len() as int) =~= Seq::<Seq<char>>::empty());
                assert(cell_model(Seq::<Seq<char>>::empty()) == c);
                assert(blocks_from(ls, k, Seq::empty()) == Seq::<BlockView>::empty());
                assert(blocks_from(ls, i, Seq::empty()) =~= seq![r]);
                assert(rs =~= seq![r]);
            } else {
                assert(ct.len() >= 1);
                assert(before_start(ls, j) == j + 1);
                lemma_next_marker_skip(ls, j + 1, ct.len() as int, "改正後"@);
                assert(ls.subrange(j + 1, k) =~= ct);
                lemma_cell_back(c, "改正後"@);
                lemma_rows_back(pre + g, rest, cut && rest.len() > 0);
                assert(cut_lines(rest, cut && rest.len() > 0) == rl);
                assert((pre + g) + rl =~= ls);
                assert(blocks_from(ls, i, Seq::empty()) =~= seq![r] + rest);
                assert(rs =~= seq![r] + rest);
            }
        }
    }
}

/// The paragraph's lines gather into one paragraph before the rows.
proof fn lemma_para_back(g: Seq<Seq<char>>, rl: Seq<Seq<char>>, n: int)
    requires
        0 <= n <= g.len(),
        forall|q: int| 0 <= q < g.len() ==> trim(#[trigger] g[q]) != "改正後"@,
        rl.len() > 0 ==> trim(rl[0]) == "改正後"@,
    ensures
        blocks_from(g + rl, n, g.take(n)) == para_blocks(g) + blocks_from(g + rl, g.len() as int, Seq::empty()),
    decreases g.len() - n,
{
    let ls = g + rl;
    lemma_empty_para();
    if n < g.len() {
        assert(ls[n] == g[n]);
        assert(g.take(n).push(ls[n]) =~= g.take(n + 1));
        lemma_para_back(g, rl, n + 1);
    } else {
        assert(g.take(n) =~= g);
        if rl.len() > 0 {
            assert(ls[g.len() as int] == rl[0]);
        }
    }
}

/// The lines of the trimmed flat text of the blocks: their group lines,
/// without the final empty line of an empty last before-cell.
proof fn lemma_flat_lines(bs: Seq<BlockView>)
    requires
        text_blocks(bs),
        bs.len() > 0,
    ensures
        lines(document_text(bs)) == (if ends_empty(bs) { group_lines(bs).drop_last() } else { group_lines(bs) }),
{
    reveal_strlit("改正後");
    reveal_strlit("改正前");
    lemma_text_lines_layout(bs);
    let ls = text_lines(bs);
    let o = lead(bs);
    let n = bs.len() - 1;
    assert(bs.last() == bs[n]);
    // every flat line is a cell text or a heading
    assert forall|k: int| 0 <= k < ls.len() implies no_cr(#[trigger] ls[k]) && (ls[k].len() > 0 ==> !is_ws(ls[k][0]) && !is_ws(ls[k].last())) by {
        if o == 1 && k == 0 {
            if let BlockView::Paragraph(r) = bs[0] {
                assert(ls[0] == cell_text(r));
            }
        } else {
            let q = o + (k - o) / 4;
            assert(o <= q < bs.len());
            assert(row_at(ls, o + 4 * (q - o), bs[q]));
            let m = (k - o) % 4;
            assert(k == o + 4 * (q - o) + m);
            if let BlockView::Shinkyu(a, c) = bs[q] {
                assert(cell_ok(a, "改正前"@) && cell_ok(c, "改正後"@));
                assert(no_cr(Seq::<char>::empty()));
            }
        }
    }
    assert(ls[0].len() > 0) by {
        if o == 1 {
            if let BlockView::Paragraph(r) = bs[0] {
                assert(ls[0] == cell_text(r));
            }
        } else {
            assert(row_at(ls, 0, bs[0]));
        }
    }
    // the last flat line, or the heading before an empty last before-cell
    let e = ends_empty(bs);
    let ls2 = if e { ls.drop_last() } else { ls };
    if e {
        assert(o + 4 * (n - o) + 3 == ls.len() - 1);
        assert(row_at(ls, o + 4 * (n - o), bs[n]));
        assert(ls.last() == Seq::<char>::empty());
        assert(ls2.last() == "改正前"@);
        assert(ls2[0] == ls[0]);
    } else {
        if n >= o {
            assert(row_at(ls, o + 4 * (n - o), bs[n]));
            if let BlockView::Shinkyu(a, c) = bs[n] {
                assert(c.len() == 1);
            }
        } else {
            if let BlockView::Paragraph(r) = bs[0] {
                assert(ls[0] == cell_text(r));
            }
        }
        assert(ls.last().len() > 0);
    }
    assert(ls2.len() > 0);
    assert(ls2.last().len() > 0 && !is_ws(ls2.last().last()));
    assert forall|k: int| 0 <= k < ls2.len() implies no_cr(#[trigger] ls2[k]) by {
        assert(ls2[k] == ls[k]);
    }
    lemma_join_ends(ls2);
    lemma_trim_unchanged(join(ls2, nl()));
    if e {
        let x = join(ls2, nl());
        assert(join(ls, nl()) == x + nl() + Seq::<char>::empty());
        assert(x + nl() + Seq::<char>::empty() =~= x.push('\n'));
        assert(trim_start(x.push('\n')) == x.push('\n'));
        assert(x.push('\n').drop_last() =~= x);
        assert(trim_end(x.push('\n')) == trim_end(x));
        assert(trim_end(x) == x);
        assert(document_text(bs) == x);
        assert(split_all(ls) == split_all(ls2) + split_nl(Seq::<char>::empty()));
        assert(split_nl(Seq::<char>::empty()) =~= seq![Seq::<char>::empty()]);
        assert(split_all(ls2) =~= split_all(ls).drop_last());
    } else {
        assert(document_text(bs) == join(ls2, nl()));
    }
    // its lines are those of the cells and headings
    lemma_split_nl_join_all(ls2);
    lemma_join_no_cr(ls2);
    lemma_split_nl_parts(join(ls2, nl()));
    let sp = split_nl(join(ls2, nl()));
    assert(sp.drop_last().map_values(|l: Seq<char>| strip_cr(l)) =~= sp.drop_last()) by {
        assert forall|q: int| 0 <= q < sp.len() - 1 implies strip_cr(#[trigger] sp[q]) == sp[q] by {
            assert(no_cr(sp[q]));
            if sp[q].len() > 0 {
                assert(sp[q][sp[q].len() - 1] != '\r');
            }
        }
    }
    assert(join(ls2, nl()).last() == ls2.last().last());
    assert(ls2.last().last() != '\n');
    assert(sp.drop_last().push(sp.last()) =~= sp);
}

/// Structuring the flat text of blocks gives them back, for blocks as
/// `from_text` makes them of text without carriage returns (cells of
/// several lines, and empty cells, included): `from_text` of `to_text`
/// restores the blocks.
pub proof fn lemma_text_round_trip(bs: Seq<BlockView>)
    requires
        text_blocks(bs),
    ensures
        document_blocks(document_text(bs)) == bs,
{
    reveal_strlit("改正後");
    reveal_strlit("改正前");
    lemma_empty_para();
    if bs.len() == 0 {
        let ls = text_lines(bs);
        assert(ls =~= Seq::<Seq<char>>::empty());
        assert(join(ls, nl()) =~= Seq::<char>::empty());
        assert(trim(Seq::<char>::empty()) =~= Seq::<char>::empty());
        assert(lines(Seq::<char>::empty()) =~= Seq::<Seq<char>>::empty());
        assert(document_blocks(document_text(bs)) =~= bs);
    } else {
        lemma_flat_lines(bs);
        lemma_text_lines_layout(bs);
        let e = ends_empty(bs);
        if lead(bs) == 0 {
            assert forall|q: int| 0 <= q < bs.len() implies (#[trigger] bs[q] matches BlockView::Shinkyu(a, c) && cell_ok(a, "改正前"@) && cell_ok(c, "改正後"@)) by {
                if q == 0 {
                    assert(!(bs[0] is Paragraph));
                }
            }
            lemma_rows_back(Seq::empty(), bs, e);
            assert(Seq::<Seq<char>>::empty() + cut_lines(bs, e) =~= cut_lines(bs, e));
        } else {
            if let BlockView::Paragraph(r) = bs[0] {
                lemma_one_run(r);
                let g = split_nl(cell_text(r));
                let rest = bs.drop_first();
                assert(group_lines(bs) == g + group_lines(rest));
                assert forall|q: int| 0 <= q < rest.len() implies (#[trigger] rest[q] matches BlockView::Shinkyu(a, c) && cell_ok(a, "改正前"@) && cell_ok(c, "改正後"@)) by {
                    assert(rest[q] == bs[q + 1]);
                    assert(q + 1 != 0);
                }
                let ecut = e && rest.len() > 0;
                if e {
                    assert(rest.len() > 0);
                    assert(rest.last() == bs.last());
                    lemma_group_first(rest);
                    assert((g + group_lines(rest)).drop_last() =~= g + group_lines(rest).drop_last());
                }
                lemma_rows_back(g, rest, ecut);
                let rl = cut_lines(rest, ecut);
                if rl.len() > 0 {
                    lemma_group_first(rest);
                    assert(rl[0] == "改正後"@);
                    lemma_trim_unchanged("改正後"@);
                }
                assert forall|q: int| 0 <= q < g.len() implies trim(#[trigger] g[q]) != "改正後"@ by {}
                lemma_para_back(g, rl, 0);
                assert(g.take(0) =~= Seq::<Seq<char>>::empty());
                lemma_cell_back(r, "改正後"@);
                assert(para_blocks(g) =~= seq![bs[0]]);
                assert(lines(document_text(bs)) == g + rl);
                assert(bs =~= seq![bs[0]] + rest);
            }
        }
    }
}

} // verus!
