//! Splitting one gazette page into its articles (laws, notices).
use crate::text::{
    chars_eq, chars_of, contains, contains_chars, copy_range, join, join_lines, lemma_seqs_of_push,
    lemma_strings_of_push, lines, nl, seqs_of, split_lines, starts_with, starts_with_chars,
    string_of, strings_of, trim, trim_chars, lemma_trim_idempotent,
};
use vstd::prelude::*;

verus! {

/// Category headings of the gazette that start a new article when they stand
/// alone on a line.
pub open spec fn is_section_header(t: Seq<char>) -> bool {
    ||| t == "告示"@
    ||| t == "公告"@
    ||| t == "公示"@
    ||| t == "法規的告示"@
    ||| t == "条約"@
    ||| t == "庁令"@
    ||| t == "訓令"@
    ||| t == "国会事項"@
    ||| t == "官庁報告"@
    ||| t == "皇室事項"@
}

/// A line opens a new article: a 「〇」 heading (ministerial ordinances and
/// notices), a promulgation line (「…をここに公布する」), or a category
/// heading on a line of its own.
pub open spec fn is_article_boundary_spec(line: Seq<char>) -> bool {
    let t = trim(line);
    starts_with(t, "〇"@) || contains(t, "をここに公布する"@) || is_section_header(t)
}

/// The finished articles and the lines of the article being read, after
/// reading `ls`.
pub open spec fn segment_state(ls: Seq<Seq<char>>) -> (Seq<Seq<char>>, Seq<Seq<char>>)
    decreases ls.len(),
{
    if ls.len() == 0 {
        (Seq::empty(), Seq::empty())
    } else {
        let (arts, cur) = segment_state(ls.drop_last());
        let l = ls.last();
        if is_article_boundary_spec(l) && cur.len() > 0 {
            (arts.push(trim(join(cur, nl()))), seq![l])
        } else {
            (arts, cur.push(l))
        }
    }
}

/// The articles of a page: each boundary line starts a new article; every
/// article is its lines joined by newlines and trimmed; a last article that
/// trims to nothing is dropped.
pub open spec fn segments(text: Seq<char>) -> Seq<Seq<char>> {
    let (arts, cur) = segment_state(lines(text));
    if cur.len() > 0 && trim(join(cur, nl())).len() > 0 {
        arts.push(trim(join(cur, nl())))
    } else {
        arts
    }
}

fn is_section_header_exec(t: &[char]) -> (b: bool)
    ensures
        b == is_section_header(t@),
{
    chars_eq(t, &chars_of("告示")) || chars_eq(t, &chars_of("公告")) || chars_eq(t, &chars_of("公示"))
        || chars_eq(t, &chars_of("法規的告示")) || chars_eq(t, &chars_of("条約")) || chars_eq(
        t,
        &chars_of("庁令"),
    ) || chars_eq(t, &chars_of("訓令")) || chars_eq(t, &chars_of("国会事項")) || chars_eq(
        t,
        &chars_of("官庁報告"),
    ) || chars_eq(t, &chars_of("皇室事項"))
}

/// Whether a line opens a new article.
pub fn is_article_boundary(line: &[char]) -> (b: bool)
    ensures
        b == is_article_boundary_spec(line@),
        gazette_heading(trim(line@)) ==> b,
{
    let t = trim_chars(line);
    starts_with_chars(&t, &chars_of("〇")) || contains_chars(&t, &chars_of("をここに公布する"))
        || is_section_header_exec(&t)
}

fn joined_trimmed(cur: &Vec<Vec<char>>) -> (out: String)
    ensures
        out@ == trim(join(seqs_of(cur@), nl())),
{
    let j = join_lines(cur);
    let t = trim_chars(&j);
    string_of(&t)
}

/// Splits one gazette page into articles.
///
/// A page may hold several laws or notices; a new article starts at a 「〇」
/// heading, at a promulgation line (「…をここに公布する」) or at a category
/// heading such as 「告示」 standing alone on its line.
pub fn segment_articles(text: &str) -> (out: Vec<String>)
    ensures
        strings_of(out@) == segments(text@),
{
    let cs = chars_of(text);
    let ls = split_lines(&cs);
    let ghost lsv = seqs_of(ls@);
    let mut articles: Vec<String> = Vec::new();
    let mut cur: Vec<Vec<char>> = Vec::new();
    let mut i: usize = 0;
    while i < ls.len()
        invariant
            i <= ls.len(),
            lsv == seqs_of(ls@),
            segment_state(lsv.take(i as int)) == (strings_of(articles@), seqs_of(cur@)),
        decreases ls.len() - i,
    {
        assert(lsv.take(i + 1).drop_last() =~= lsv.take(i as int));
        assert(lsv.take(i + 1).last() == ls@[i as int]@);
        let b = is_article_boundary(&ls[i]);
        let line = copy_range(&ls[i], 0, ls[i].len());
        assert(line@ =~= ls@[i as int]@);
        if b && cur.len() > 0 {
            let a = joined_trimmed(&cur);
            proof {
                lemma_strings_of_push(articles@, a);
            }
            articles.push(a);
            cur = Vec::new();
            proof {
                lemma_seqs_of_push(cur@, line);
            }
            cur.push(line);
            assert(seqs_of(cur@) =~= seq![ls@[i as int]@]);
        } else {
            proof {
                lemma_seqs_of_push(cur@, line);
            }
            cur.push(line);
        }
        i = i + 1;
    }
    assert(lsv.take(ls.len() as int) =~= lsv);
    if cur.len() > 0 {
        let s = joined_trimmed(&cur);
        if s.as_str().is_empty() == false {
            proof {
                lemma_strings_of_push(articles@, s);
            }
            articles.push(s);
        }
    }
    articles
}

proof fn lemma_state_trimmed(ls: Seq<Seq<char>>)
    ensures
        forall|k: int| 0 <= k < segment_state(ls).0.len() ==> trim(#[trigger] segment_state(ls).0[k]) == segment_state(ls).0[k],
    decreases ls.len(),
{
    if ls.len() > 0 {
        lemma_state_trimmed(ls.drop_last());
        let (arts, cur) = segment_state(ls.drop_last());
        lemma_trim_idempotent(join(cur, nl()));
    }
}

/// Every article of a page is trimmed: no article starts or ends with
/// white space.
pub proof fn lemma_segments_trimmed(text: Seq<char>)
    ensures
        forall|k: int| 0 <= k < segments(text).len() ==> trim(#[trigger] segments(text)[k]) == segments(text)[k],
{
    let (arts, cur) = segment_state(lines(text));
    lemma_state_trimmed(lines(text));
    lemma_trim_idempotent(join(cur, nl()));
}

/// A line that, trimmed, is a category heading of the gazette, a 「〇」
/// heading or a promulgation line.
pub open spec fn gazette_heading(t: Seq<char>) -> bool {
    ||| t == "公告"@
    ||| t == "告示"@
    ||| t == "公示"@
    ||| t == "法規的告示"@
    ||| t == "条約"@
    ||| t == "庁令"@
    ||| t == "訓令"@
    ||| t == "国会事項"@
    ||| t == "官庁報告"@
    ||| t == "皇室事項"@
    ||| starts_with(t, "〇"@)
    ||| contains(t, "をここに公布する"@)
}

/// A heading line starts a new article: the article being read (if any)
/// is finished, and the heading line opens the next one.  So a page
/// 「〇…」 followed by a line 「公告」 splits at 「公告」.
pub proof fn lemma_heading_starts_article(ls: Seq<Seq<char>>, line: Seq<char>)
    requires
        gazette_heading(trim(line)),
    ensures
        is_article_boundary_spec(line),
        segment_state(ls.push(line)).1 == seq![line],
        segment_state(ls).1.len() > 0 ==> segment_state(ls.push(line)).0 == segment_state(ls).0.push(
            trim(join(segment_state(ls).1, nl())),
        ),
        segment_state(ls).1.len() == 0 ==> segment_state(ls.push(line)).0 == segment_state(ls).0,
{
    assert(ls.push(line).drop_last() =~= ls);
    assert(ls.push(line).last() == line);
    if segment_state(ls).1.len() == 0 {
        assert(segment_state(ls).1.push(line) =~= seq![line]);
    }
}

/// Only heading lines start an article: any other line joins the article
/// being read.
pub proof fn lemma_other_line_continues(ls: Seq<Seq<char>>, line: Seq<char>)
    requires
        !gazette_heading(trim(line)),
    ensures
        !is_article_boundary_spec(line),
        segment_state(ls.push(line)) == (segment_state(ls).0, segment_state(ls).1.push(line)),
{
    assert(ls.push(line).drop_last() =~= ls);
    assert(ls.push(line).last() == line);
}

} // verus!
