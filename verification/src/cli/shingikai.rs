//! Council minutes: the file extension under which an attachment is
//! archived.

use vstd::prelude::*;
use crate::cli::extract::{minutes_attachment_kind, minutes_kind_spec, opt_str, ExtractKind};
use crate::gian::lists::{ascii_lower, ascii_lower_exec};
use crate::scan::{words, words_exec};
use crate::text::{
    chars_of, copy_range, join, join_chars, last_index_of, lemma_seqs_of_push, rfind_char, seqs_of, string_of,
    strings_of, trim, trim_chars,
};

verus! {

/// The last segment of the path of `url` as `url::Url` parses it
/// (percent-encoded, possibly empty), or `None` where it does not parse
/// or has no path segments.
pub uninterp spec fn url_last_segment(url: Seq<char>) -> Option<Seq<char>>;

/// `url::Url::parse(url)`, then `path_segments()` and `next_back()`.
#[verifier::external_body]
fn last_path_segment(url: &str) -> (r: Option<String>)
    ensures
        match r {
            Some(s) => url_last_segment(url@) == Some(s@),
            None => url_last_segment(url@) is None,
        },
{
    match url::Url::parse(url) {
        Ok(u) => match u.path_segments() {
            Some(mut segments) => match segments.next_back() {
                Some(s) => Some(s.to_string()),
                None => None,
            },
            None => None,
        },
        Err(_) => None,
    }
}

/// What follows the last `.` of `seg` (`str::rsplit_once('.')`).
pub open spec fn after_last_dot(seg: Seq<char>) -> Option<Seq<char>> {
    if exists|k: int| #[trigger] last_index_of(seg, '.', k) {
        let k = choose|k: int| #[trigger] last_index_of(seg, '.', k);
        Some(seg.subrange(k + 1, seg.len() as int))
    } else {
        None
    }
}

pub open spec fn is_ascii_alnum(c: char) -> bool {
    ('a' <= c && c <= 'z') || ('A' <= c && c <= 'Z') || ('0' <= c && c <= '9')
}

/// The extension an attachment at `url` is archived under: the lower-cased
/// text after the last `.` of the URL's last path segment, where that is
/// non-empty and ASCII letters and digits only, else `bin`.
pub open spec fn source_extension_spec(url: Seq<char>) -> Seq<char> {
    match url_last_segment(url) {
        Some(seg) => match after_last_dot(seg) {
            Some(e) => {
                let l = ascii_lower(e);
                if l.len() > 0 && forall|i: int| 0 <= i < l.len() ==> is_ascii_alnum(#[trigger] l[i]) {
                    l
                } else {
                    "bin"@
                }
            },
            None => "bin"@,
        },
        None => "bin"@,
    }
}

proof fn lemma_last_dot_unique(s: Seq<char>, i: int, j: int)
    requires
        last_index_of(s, '.', i),
        last_index_of(s, '.', j),
    ensures
        i == j,
{
}

/// The file extension of the attachment at `url`.
pub fn source_extension(url: &str) -> (ext: String)
    ensures
        ext@ == source_extension_spec(url@),
{
    proof {
        reveal_strlit("bin");
    }
    let seg = match last_path_segment(url) {
        Some(s) => s,
        None => return "bin".to_owned(),
    };
    let cs = chars_of(seg.as_str());
    let k = match rfind_char(&cs, '.') {
        Some(k) => k,
        None => {
            proof {
                assert forall|j: int| !(#[trigger] last_index_of(seg@, '.', j)) by {}
            }
            return "bin".to_owned();
        },
    };
    proof {
        assert(last_index_of(seg@, '.', k as int));
        let c = choose|j: int| #[trigger] last_index_of(seg@, '.', j);
        lemma_last_dot_unique(seg@, c, k as int);
    }
    assert(k < cs.len());
    let e = copy_range(&cs, k + 1, cs.len());
    assert(after_last_dot(seg@) == Some(e@));
    let l = ascii_lower_exec(&e);
    if l.len() == 0 {
        return "bin".to_owned();
    }
    let mut i: usize = 0;
    while i < l.len()
        invariant
            i <= l.len(),
            l@.len() > 0,
            url_last_segment(url@) == Some(seg@),
            after_last_dot(seg@) == Some(e@),
            l@ == ascii_lower(e@),
            "bin"@ == seq!['b', 'i', 'n'],
            forall|j: int| 0 <= j < i ==> is_ascii_alnum(#[trigger] l@[j]),
        decreases l.len() - i,
    {
        let c = l[i];
        if !(('a' <= c && c <= 'z') || ('A' <= c && c <= 'Z') || ('0' <= c && c <= '9')) {
            assert(!is_ascii_alnum(l@[i as int]));
            return "bin".to_owned();
        }
        i = i + 1;
    }
    string_of(&l)
}

/// The text nodes of the first element of the HTML document `html` that
/// the CSS selector `css` selects, in document order; `None` where none is
/// selected (or the selector does not parse).
pub uninterp spec fn first_element_text_nodes(html: Seq<char>, css: Seq<char>) -> Option<Seq<Seq<char>>>;

/// `scraper::Html::parse_document(html)`, the first element that
/// `scraper::Selector::parse(css)` selects, and its `text()` nodes.
#[verifier::external_body]
fn first_text_nodes(html: &str, css: &str) -> (r: Option<Vec<String>>)
    ensures
        match r {
            Some(v) => first_element_text_nodes(html@, css@) == Some(strings_of(v@)),
            None => first_element_text_nodes(html@, css@) is None,
        },
{
    let doc = scraper::Html::parse_document(html);
    let sel = match scraper::Selector::parse(css) {
        Ok(s) => s,
        Err(_) => return None,
    };
    match doc.select(&sel).next() {
        Some(e) => Some(e.text().map(String::from).collect()),
        None => None,
    }
}

/// The words of all the nodes, in order.
pub open spec fn node_words(nodes: Seq<Seq<char>>) -> Seq<Seq<char>>
    decreases nodes.len(),
{
    if nodes.len() == 0 {
        Seq::empty()
    } else {
        node_words(nodes.drop_last()) + words(nodes.last())
    }
}

/// The visible text of the nodes: their words joined by single spaces.
pub open spec fn visible_text(nodes: Seq<Seq<char>>) -> Seq<char> {
    join(node_words(nodes), seq![' '])
}

fn visible_text_exec(nodes: &Vec<String>) -> (out: Vec<char>)
    ensures
        out@ == visible_text(strings_of(nodes@)),
{
    let mut all: Vec<Vec<char>> = Vec::new();
    let mut i: usize = 0;
    while i < nodes.len()
        invariant
            i <= nodes.len(),
            seqs_of(all@) == node_words(strings_of(nodes@).take(i as int)),
        decreases nodes.len() - i,
    {
        let ws = words_exec(&chars_of(nodes[i].as_str()));
        let ghost before = seqs_of(all@);
        let mut j: usize = 0;
        while j < ws.len()
            invariant
                j <= ws.len(),
                seqs_of(all@) == before + seqs_of(ws@).take(j as int),
            decreases ws.len() - j,
        {
            proof {
                lemma_seqs_of_push(all@, ws@[j as int]);
            }
            all.push(ws[j].clone());
            assert(seqs_of(ws@).take(j + 1) =~= seqs_of(ws@).take(j as int).push(ws@[j as int]@));
            assert(seqs_of(all@) =~= before + seqs_of(ws@).take(j + 1));
            j = j + 1;
        }
        proof {
            let t = strings_of(nodes@).take(i + 1);
            assert(t.drop_last() =~= strings_of(nodes@).take(i as int));
            assert(t.last() == nodes@[i as int]@);
            assert(seqs_of(ws@).take(ws.len() as int) =~= seqs_of(ws@));
        }
        i = i + 1;
    }
    assert(strings_of(nodes@).take(nodes.len() as int) =~= strings_of(nodes@));
    let sep = [' '];
    assert(sep@ =~= seq![' ']);
    join_chars(&all, &sep)
}

/// What the text of an attachment of council minutes is, from its bytes
/// decoded as (lossy) UTF-8.
#[derive(Debug, Clone, PartialEq, Eq)]
pub enum MinutesText {
    /// The text and how it was extracted.
    Extracted(String, String),
    /// A PDF: its text is taken by `pdftotext`.
    NeedsPdf,
    /// No text; the message says why.
    Failed(String),
}

/// Leading byte-order marks removed (`trim_start_matches('\u{feff}')`).
pub open spec fn strip_boms(s: Seq<char>) -> Seq<char>
    decreases s.len(),
{
    if s.len() > 0 && s[0] == '\u{feff}' {
        strip_boms(s.drop_first())
    } else {
        s
    }
}

/// The text of the HTML minutes `html`: the visible text of the element
/// `#content`, else of `body`.
pub open spec fn html_minutes_spec(html: Seq<char>) -> MinutesTextView {
    let nodes = match first_element_text_nodes(html, "#content"@) {
        Some(n) => Some(n),
        None => first_element_text_nodes(html, "body"@),
    };
    match nodes {
        None => MinutesTextView::Failed("HTML attachment has no content"@),
        Some(n) => if visible_text(n).len() == 0 {
            MinutesTextView::Failed("HTML attachment has no visible text"@)
        } else {
            MinutesTextView::Extracted(visible_text(n), "html-visible-text"@)
        },
    }
}

/// `MinutesText` as sequences of characters.
pub enum MinutesTextView {
    Extracted(Seq<char>, Seq<char>),
    NeedsPdf,
    Failed(Seq<char>),
}

impl View for MinutesText {
    type V = MinutesTextView;

    open spec fn view(&self) -> MinutesTextView {
        match self {
            MinutesText::Extracted(t, m) => MinutesTextView::Extracted(t@, m@),
            MinutesText::NeedsPdf => MinutesTextView::NeedsPdf,
            MinutesText::Failed(e) => MinutesTextView::Failed(e@),
        }
    }
}

/// How the text of an attachment of council minutes comes out: HTML by its
/// visible text, text trimmed (and without byte-order marks), PDF through
/// `pdftotext`; anything else has none.
pub open spec fn minutes_text_spec(media: Option<Seq<char>>, decoded: Seq<char>, ext: Seq<char>) -> MinutesTextView {
    match minutes_kind_spec(media, ext) {
        ExtractKind::Html => html_minutes_spec(decoded),
        ExtractKind::Text => {
            let t = trim(strip_boms(decoded));
            if t.len() == 0 {
                MinutesTextView::Failed("text attachment is empty"@)
            } else {
                MinutesTextView::Extracted(t, "utf8-lossy"@)
            }
        },
        ExtractKind::Pdf => MinutesTextView::NeedsPdf,
        ExtractKind::Unsupported => MinutesTextView::Failed("text extraction unsupported; raw attachment archived"@),
    }
}

/// The text of an attachment of council minutes archived with extension
/// `extension`, whose bytes decode (lossily) to `decoded`.
pub fn minutes_text(media_type: Option<&str>, decoded: &str, extension: &str) -> (r: MinutesText)
    ensures
        r@ == minutes_text_spec(opt_str(media_type), decoded@, extension@),
{
    match minutes_attachment_kind(media_type, extension) {
        ExtractKind::Html => {
            let nodes = match first_text_nodes(decoded, "#content") {
                Some(n) => n,
                None => match first_text_nodes(decoded, "body") {
                    Some(n) => n,
                    None => return MinutesText::Failed("HTML attachment has no content".to_owned()),
                },
            };
            let text = visible_text_exec(&nodes);
            if text.len() == 0 {
                MinutesText::Failed("HTML attachment has no visible text".to_owned())
            } else {
                MinutesText::Extracted(string_of(&text), "html-visible-text".to_owned())
            }
        },
        ExtractKind::Text => {
            let cs = chars_of(decoded);
            let mut k: usize = 0;
            assert(cs@.skip(0) =~= cs@);
            while k < cs.len() && cs[k] == '\u{feff}'
                invariant
                    k <= cs.len(),
                    cs@ == decoded@,
                    strip_boms(decoded@) == strip_boms(cs@.skip(k as int)),
                decreases cs.len() - k,
            {
                assert(cs@.skip(k as int).drop_first() =~= cs@.skip(k + 1));
                k = k + 1;
            }
            let t = trim_chars(&copy_range(&cs, k, cs.len()));
            assert(cs@.subrange(k as int, cs.len() as int) =~= cs@.skip(k as int));
            assert(cs@.skip(k as int).len() == 0 || cs@.skip(k as int)[0] != '\u{feff}');
            if t.len() == 0 {
                MinutesText::Failed("text attachment is empty".to_owned())
            } else {
                MinutesText::Extracted(string_of(&t), "utf8-lossy".to_owned())
            }
        },
        ExtractKind::Pdf => MinutesText::NeedsPdf,
        ExtractKind::Unsupported => MinutesText::Failed("text extraction unsupported; raw attachment archived".to_owned()),
    }
}

} // verus!
