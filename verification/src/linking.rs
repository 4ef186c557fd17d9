//! Links between laws and the records that mention them: Diet minutes,
//! public comments, procurement notices and council meetings.
//!
//! Each law gives patterns (its title, the numbers of the laws that
//! amended it); an Aho-Corasick automaton (`aho_corasick`) finds every
//! occurrence of every pattern in a record's text.  Which patterns a law
//! gives, how the occurrences are gathered per law, and what relevance a
//! link gets are verified here.
use vstd::prelude::*;
use crate::error::ProviderError;
use crate::json::{json_array, json_at, str_at, str_field_or_empty, str_field, JsonValue};
use crate::text::{
    append_chars, chars_eq, chars_of, contains, contains_chars, copy_opt, copy_string, join, join_lines, nl,
    opt_view, seqs_of, string_of, strings_of, trim, trim_chars, lemma_seqs_of_push, lemma_strings_of_push,
};
use crate::scan::{seq_lt, chars_lt, lemma_seq_lt_order};

verus! {

#[verifier::external_type_specification]
#[verifier::external_body]
pub struct ExAutomaton(aho_corasick::AhoCorasick);

/// The patterns an automaton was built from, in pattern-id order.
pub uninterp spec fn automaton_patterns(ac: aho_corasick::AhoCorasick) -> Seq<Seq<char>>;

/// The automaton was built with standard match semantics and supports
/// unanchored searches: what `find_overlapping_iter` needs not to panic.
pub uninterp spec fn overlapping_search_ok(ac: aho_corasick::AhoCorasick) -> bool;

/// Builds an automaton with `aho_corasick::AhoCorasick::new` (default
/// configuration: standard match semantics, unanchored search); `None`
/// where the crate reports a build error.
#[verifier::external_body]
fn new_automaton(patterns: &Vec<String>) -> (r: Option<aho_corasick::AhoCorasick>)
    ensures
        r matches Some(ac) ==> automaton_patterns(ac) == strings_of(patterns@) && overlapping_search_ok(ac),
{
    aho_corasick::AhoCorasick::new(patterns).ok()
}

/// The pattern ids of the matches of `ac.find_overlapping_iter(text)`:
/// every occurrence of every pattern at every position of `text`.  So an
/// id is reported exactly for the patterns that occur in `text`.  The
/// crate panics for leftmost match semantics and for automata without
/// unanchored search, which `overlapping_search_ok` rules out.
#[verifier::external_body]
fn overlapping_pattern_ids(ac: &aho_corasick::AhoCorasick, text: &str) -> (ids: Vec<usize>)
    requires
        overlapping_search_ok(*ac),
    ensures
        forall|j: int|
            0 <= j < ids.len() ==> (#[trigger] ids@[j]) < automaton_patterns(*ac).len() && contains(
                text@,
                automaton_patterns(*ac)[ids@[j] as int],
            ),
        forall|k: int|
            0 <= k < automaton_patterns(*ac).len() && contains(text@, #[trigger] automaton_patterns(*ac)[k])
                ==> ids@.contains(k as usize),
{
    ac.find_overlapping_iter(text).map(|m| m.pattern().as_usize()).collect()
}

// ---------------------------------------------------------------------------
// Laws and their patterns
// ---------------------------------------------------------------------------

/// A law as the linker knows it: id, title, and the numbers of the laws
/// that amended it.
pub struct LawEntry {
    pub law_id: String,
    pub title: String,
    pub amending_law_nums: Vec<String>,
}

/// A law: id, title, amending law numbers.
pub type LawEntryView = (Seq<char>, Seq<char>, Seq<Seq<char>>);

pub open spec fn law_entry_view(e: LawEntry) -> LawEntryView {
    (e.law_id@, e.title@, strings_of(e.amending_law_nums@))
}

pub open spec fn law_entries_view(v: Seq<LawEntry>) -> Seq<LawEntryView> {
    Seq::new(v.len(), |i: int| law_entry_view(v[i]))
}

/// What a pattern stands for: the law, the pattern text, and whether it is
/// an amending law number (else a title).
pub struct PatternMeta {
    pub law_id: String,
    pub pattern_text: String,
    pub is_law_num: bool,
}

/// A pattern: law id, text, whether it is an amending law number.
pub type MetaView = (Seq<char>, Seq<char>, bool);

pub open spec fn meta_view(m: PatternMeta) -> MetaView {
    (m.law_id@, m.pattern_text@, m.is_law_num)
}

pub open spec fn metas_view(v: Seq<PatternMeta>) -> Seq<MetaView> {
    Seq::new(v.len(), |i: int| meta_view(v[i]))
}

/// The texts of the patterns.
pub open spec fn meta_texts(ms: Seq<MetaView>) -> Seq<Seq<char>> {
    Seq::new(ms.len(), |i: int| ms[i].1)
}

/// The amending law numbers of a law that are long enough to be patterns
/// (six characters or more).
pub open spec fn num_patterns(id: Seq<char>, nums: Seq<Seq<char>>) -> Seq<MetaView>
    decreases nums.len(),
{
    if nums.len() == 0 {
        Seq::empty()
    } else {
        let prev = num_patterns(id, nums.drop_last());
        if nums.last().len() >= 6 {
            prev.push((id, nums.last(), true))
        } else {
            prev
        }
    }
}

/// The patterns of one law: its title when it has four characters or more
/// (shorter ones, such as 「法」, match too much), then its long enough
/// amending law numbers.
pub open spec fn law_patterns(e: LawEntryView) -> Seq<MetaView> {
    (if e.1.len() >= 4 {
        seq![(e.0, e.1, false)]
    } else {
        Seq::empty()
    }) + num_patterns(e.0, e.2)
}

/// The patterns of all laws, law by law.
pub open spec fn pattern_metas(laws: Seq<LawEntryView>) -> Seq<MetaView>
    decreases laws.len(),
{
    if laws.len() == 0 {
        Seq::empty()
    } else {
        pattern_metas(laws.drop_last()) + law_patterns(laws.last())
    }
}

/// Builds the automaton of the patterns of `laws` and says what each
/// pattern stands for; fails where the automaton cannot be built.
pub fn build_automaton(laws: &Vec<LawEntry>) -> (r: Result<(aho_corasick::AhoCorasick, Vec<PatternMeta>), ProviderError>)
    ensures
        match r {
            Ok((ac, metas)) => metas_view(metas@) == pattern_metas(law_entries_view(laws@))
                && automaton_patterns(ac) == meta_texts(metas_view(metas@)) && overlapping_search_ok(ac),
            Err(e) => e matches ProviderError::Source(m) && m@ == "build aho-corasick automaton"@,
        },
{
    let mut patterns: Vec<String> = Vec::new();
    let mut metas: Vec<PatternMeta> = Vec::new();
    let mut i: usize = 0;
    while i < laws.len()
        invariant
            i <= laws.len(),
            metas_view(metas@) == pattern_metas(law_entries_view(laws@).take(i as int)),
            strings_of(patterns@) == meta_texts(metas_view(metas@)),
        decreases laws.len() - i,
    {
        let ghost lv = law_entries_view(laws@);
        assert(lv.take(i + 1).drop_last() =~= lv.take(i as int));
        assert(lv.take(i + 1).last() == lv[i as int]);
        let law = &laws[i];
        let ghost before = metas_view(metas@);
        let title = chars_of(law.title.as_str());
        if title.len() >= 4 {
            push_pattern(&mut patterns, &mut metas, &law.law_id, &law.title, false);
        }
        assert(metas_view(metas@) == before + (if title@.len() >= 4 {
            seq![(law.law_id@, law.title@, false)]
        } else {
            Seq::<MetaView>::empty()
        }));
        let ghost mid = metas_view(metas@);
        let mut k: usize = 0;
        while k < law.amending_law_nums.len()
            invariant
                k <= law.amending_law_nums.len(),
                metas_view(metas@) == mid + num_patterns(law.law_id@, strings_of(law.amending_law_nums@).take(k as int)),
                strings_of(patterns@) == meta_texts(metas_view(metas@)),
            decreases law.amending_law_nums.len() - k,
        {
            let ghost nv = strings_of(law.amending_law_nums@);
            assert(nv.take(k + 1).drop_last() =~= nv.take(k as int));
            assert(nv.take(k + 1).last() == nv[k as int]);
            let num = chars_of(law.amending_law_nums[k].as_str());
            if num.len() >= 6 {
                push_pattern(&mut patterns, &mut metas, &law.law_id, &law.amending_law_nums[k], true);
            }
            k = k + 1;
        }
        assert(strings_of(law.amending_law_nums@).take(law.amending_law_nums.len() as int)
            =~= strings_of(law.amending_law_nums@));
        assert(metas_view(metas@) =~= before + law_patterns(lv[i as int]));
        i = i + 1;
    }
    assert(law_entries_view(laws@).take(laws.len() as int) =~= law_entries_view(laws@));
    match new_automaton(&patterns) {
        Some(ac) => Ok((ac, metas)),
        None => Err(ProviderError::Source("build aho-corasick automaton".to_owned())),
    }
}

fn push_pattern(
    patterns: &mut Vec<String>,
    metas: &mut Vec<PatternMeta>,
    law_id: &String,
    text: &String,
    is_law_num: bool,
)
    requires
        strings_of(old(patterns)@) == meta_texts(metas_view(old(metas)@)),
    ensures
        metas_view(final(metas)@) == metas_view(old(metas)@).push((law_id@, text@, is_law_num)),
        strings_of(final(patterns)@) == meta_texts(metas_view(final(metas)@)),
{
    let m = PatternMeta { law_id: copy_string(law_id), pattern_text: copy_string(text), is_law_num };
    let ghost old_m = metas_view(metas@);
    metas.push(m);
    assert(metas_view(metas@) =~= old_m.push(meta_view(m)));
    let t = copy_string(text);
    proof {
        lemma_strings_of_push(patterns@, t);
    }
    patterns.push(t);
    assert(strings_of(patterns@) =~= meta_texts(metas_view(metas@)));
}

// ---------------------------------------------------------------------------
// Occurrences gathered per law
// ---------------------------------------------------------------------------

/// The laws a record mentions: for each, the pattern texts found (each
/// once), whether an amending law number was among them, and a mark that
/// the record kind gives (a match in the related-law field of a public
/// comment, a short title found in a council meeting).
pub struct LawHit {
    pub law_id: String,
    pub reasons: Vec<String>,
    pub has_law_num: bool,
    pub marked: bool,
}

/// A law found: id, reasons, amending law number found, mark.
pub type HitView = (Seq<char>, Seq<Seq<char>>, bool, bool);

pub open spec fn hit_view(h: LawHit) -> HitView {
    (h.law_id@, strings_of(h.reasons@), h.has_law_num, h.marked)
}

pub open spec fn hits_view(v: Seq<LawHit>) -> Seq<HitView> {
    Seq::new(v.len(), |i: int| hit_view(v[i]))
}

/// Where the law `id` stands among the hits.
pub open spec fn hit_index(hits: Seq<HitView>, id: Seq<char>) -> Option<int>
    decreases hits.len(),
{
    if hits.len() == 0 {
        None
    } else if hits.last().0 == id {
        Some(hits.len() - 1)
    } else {
        hit_index(hits.drop_last(), id)
    }
}

/// A reason added to a set of reasons kept in the order found.
pub open spec fn add_reason(rs: Seq<Seq<char>>, r: Seq<char>) -> Seq<Seq<char>> {
    if rs.contains(r) {
        rs
    } else {
        rs.push(r)
    }
}

/// One occurrence recorded: the law's entry gets the reason and the
/// flags; a law not yet found gets a new entry at the end.
pub open spec fn add_hit(hits: Seq<HitView>, id: Seq<char>, reason: Seq<char>, law_num: bool, mark: bool) -> Seq<HitView> {
    match hit_index(hits, id) {
        Some(j) => hits.update(
            j,
            (id, add_reason(hits[j].1, reason), hits[j].2 || law_num, hits[j].3 || mark),
        ),
        None => hits.push((id, seq![reason], law_num, mark)),
    }
}

/// The occurrences of the patterns `metas` in `text` recorded, pattern by
/// pattern, with the mark `mark`.
pub open spec fn text_hits(hits: Seq<HitView>, metas: Seq<MetaView>, text: Seq<char>, mark: bool) -> Seq<HitView>
    decreases metas.len(),
{
    if metas.len() == 0 {
        hits
    } else {
        let h = text_hits(hits, metas.drop_last(), text, mark);
        let m = metas.last();
        if contains(text, m.1) {
            add_hit(h, m.0, m.1, m.2, mark)
        } else {
            h
        }
    }
}

fn copy_strings(v: &Vec<String>) -> (out: Vec<String>)
    ensures
        strings_of(out@) == strings_of(v@),
{
    let mut out: Vec<String> = Vec::new();
    let mut i: usize = 0;
    while i < v.len()
        invariant
            i <= v.len(),
            strings_of(out@) == strings_of(v@).take(i as int),
        decreases v.len() - i,
    {
        let s = copy_string(&v[i]);
        proof {
            lemma_strings_of_push(out@, s);
        }
        out.push(s);
        assert(strings_of(v@).take(i + 1) =~= strings_of(v@).take(i as int).push(v@[i as int]@));
        i = i + 1;
    }
    assert(strings_of(v@).take(v.len() as int) =~= strings_of(v@));
    out
}

fn holds_string(v: &Vec<String>, x: &String) -> (b: bool)
    ensures
        b == strings_of(v@).contains(x@),
{
    let mut i: usize = 0;
    while i < v.len()
        invariant
            i <= v.len(),
            forall|j: int| 0 <= j < i ==> v@[j]@ != x@,
        decreases v.len() - i,
    {
        if v[i] == *x {
            assert(strings_of(v@)[i as int] == x@);
            return true;
        }
        i = i + 1;
    }
    proof {
        if strings_of(v@).contains(x@) {
            let j = choose|j: int| 0 <= j < strings_of(v@).len() && strings_of(v@)[j] == x@;
            assert(v@[j]@ == x@);
        }
    }
    false
}

fn find_hit(hits: &Vec<LawHit>, id: &String) -> (r: Option<usize>)
    ensures
        match r {
            Some(j) => hit_index(hits_view(hits@), id@) == Some(j as int) && j < hits.len(),
            None => hit_index(hits_view(hits@), id@) is None,
        },
{
    let mut i: usize = hits.len();
    assert(hits_view(hits@).take(i as int) =~= hits_view(hits@));
    while i > 0
        invariant
            i <= hits.len(),
            hit_index(hits_view(hits@), id@) == hit_index(hits_view(hits@).take(i as int), id@),
        decreases i,
    {
        assert(hits_view(hits@).take(i as int).drop_last() =~= hits_view(hits@).take(i - 1));
        if hits[i - 1].law_id == *id {
            return Some(i - 1);
        }
        i = i - 1;
    }
    None
}

fn add_hit_exec(hits: &mut Vec<LawHit>, id: &String, reason: &String, law_num: bool, mark: bool)
    ensures
        hits_view(final(hits)@) == add_hit(hits_view(old(hits)@), id@, reason@, law_num, mark),
{
    let ghost hv = hits_view(hits@);
    match find_hit(hits, id) {
        Some(j) => {
            let mut rs = copy_strings(&hits[j].reasons);
            if !holds_string(&rs, reason) {
                let r = copy_string(reason);
                proof {
                    lemma_strings_of_push(rs@, r);
                }
                rs.push(r);
            }
            let h = LawHit {
                law_id: copy_string(id),
                reasons: rs,
                has_law_num: hits[j].has_law_num || law_num,
                marked: hits[j].marked || mark,
            };
            hits.set(j, h);
            assert(hits_view(hits@) =~= hv.update(j as int, hit_view(h)));
        },
        None => {
            let mut rs: Vec<String> = Vec::new();
            let r = copy_string(reason);
            rs.push(r);
            assert(strings_of(rs@) =~= seq![reason@]);
            let h = LawHit { law_id: copy_string(id), reasons: rs, has_law_num: law_num, marked: mark };
            hits.push(h);
            assert(hits_view(hits@) =~= hv.push(hit_view(h)));
        },
    }
}

/// For each pattern, whether it occurs in `text`.
fn occurring_patterns(ac: &aho_corasick::AhoCorasick, metas: &Vec<PatternMeta>, text: &str) -> (found: Vec<bool>)
    requires
        automaton_patterns(*ac) == meta_texts(metas_view(metas@)),
        overlapping_search_ok(*ac),
    ensures
        found.len() == metas.len(),
        forall|k: int| 0 <= k < metas.len() ==> found@[k] == contains(text@, #[trigger] metas@[k].pattern_text@),
{
    let ids = overlapping_pattern_ids(ac, text);
    let mut found: Vec<bool> = Vec::new();
    let mut k: usize = 0;
    while k < metas.len()
        invariant
            k <= metas.len(),
            found.len() == k,
            forall|j: int| 0 <= j < k ==> !found@[j],
        decreases metas.len() - k,
    {
        found.push(false);
        k = k + 1;
    }
    let mut i: usize = 0;
    while i < ids.len()
        invariant
            i <= ids.len(),
            found.len() == metas.len(),
            automaton_patterns(*ac) == meta_texts(metas_view(metas@)),
            forall|j: int| 0 <= j < metas.len() && found@[j] ==> contains(text@, metas@[j].pattern_text@),
            forall|j: int| 0 <= j < i ==> found@[ids@[j] as int],
            forall|j: int| 0 <= j < ids.len() ==> (#[trigger] ids@[j]) < automaton_patterns(*ac).len() && contains(
                text@,
                automaton_patterns(*ac)[ids@[j] as int],
            ),
        decreases ids.len() - i,
    {
        let id = ids[i];
        assert(id < metas.len());
        assert(automaton_patterns(*ac)[id as int] == metas@[id as int].pattern_text@);
        found.set(id, true);
        i = i + 1;
    }
    proof {
        assert forall|k: int| 0 <= k < metas.len() implies found@[k] == contains(text@, #[trigger] metas@[k].pattern_text@) by {
            if contains(text@, metas@[k].pattern_text@) {
                assert(automaton_patterns(*ac)[k] == metas@[k].pattern_text@);
                assert(ids@.contains(k as usize));
                let j = choose|j: int| 0 <= j < ids@.len() && ids@[j] == k as usize;
                assert(found@[ids@[j] as int]);
            }
        }
    }
    found
}

/// Records the laws whose patterns occur in `text`, pattern by pattern,
/// with the mark `mark`.
pub fn add_text_hits(
    hits: &mut Vec<LawHit>,
    ac: &aho_corasick::AhoCorasick,
    metas: &Vec<PatternMeta>,
    text: &str,
    mark: bool,
)
    requires
        automaton_patterns(*ac) == meta_texts(metas_view(metas@)),
        overlapping_search_ok(*ac),
    ensures
        hits_view(final(hits)@) == text_hits(hits_view(old(hits)@), metas_view(metas@), text@, mark),
{
    let found = occurring_patterns(ac, metas, text);
    let ghost h0 = hits_view(hits@);
    let mut k: usize = 0;
    while k < metas.len()
        invariant
            k <= metas.len(),
            found.len() == metas.len(),
            forall|j: int| 0 <= j < metas.len() ==> found@[j] == contains(text@, #[trigger] metas@[j].pattern_text@),
            hits_view(hits@) == text_hits(h0, metas_view(metas@).take(k as int), text@, mark),
            h0 == hits_view(old(hits)@),
        decreases metas.len() - k,
    {
        let ghost mv = metas_view(metas@);
        assert(mv.take(k + 1).drop_last() =~= mv.take(k as int));
        assert(mv.take(k + 1).last() == mv[k as int]);
        assert(found@[k as int] == contains(text@, metas@[k as int].pattern_text@));
        if found[k] {
            add_hit_exec(hits, &metas[k].law_id, &metas[k].pattern_text, metas[k].is_law_num, mark);
        }
        k = k + 1;
    }
    assert(metas_view(metas@).take(metas.len() as int) =~= metas_view(metas@));
}

// ---------------------------------------------------------------------------
// Diet minutes
// ---------------------------------------------------------------------------

/// A text field that may be missing: its text, or empty.
pub open spec fn or_empty(o: Option<Seq<char>>) -> Seq<char> {
    match o {
        Some(t) => t,
        None => Seq::empty(),
    }
}

/// `v.as_array()`, with an empty list for anything else.
pub open spec fn items_of(v: JsonValue) -> Seq<JsonValue> {
    match json_array(v) {
        Some(items) => items,
        None => Seq::empty(),
    }
}

/// The `speech` texts of the speeches that have one, in order.
pub open spec fn speech_texts(items: Seq<JsonValue>) -> Seq<Seq<char>>
    decreases items.len(),
{
    if items.len() == 0 {
        Seq::empty()
    } else {
        let prev = speech_texts(items.drop_last());
        match str_at(items.last(), "speech"@) {
            Some(t) => prev.push(t),
            None => prev,
        }
    }
}

/// The speeches of a meeting joined by newlines.
pub open spec fn meeting_text(meeting: JsonValue) -> Seq<char> {
    join(speech_texts(items_of(json_at(meeting, "speeches"@))), nl())
}

/// `text` holds one of `reasons`.
pub open spec fn mentions(text: Seq<char>, reasons: Seq<Seq<char>>) -> bool {
    exists|k: int| 0 <= k < reasons.len() && contains(text, #[trigger] reasons[k])
}

/// The number of speeches whose text (empty where it has none) holds one
/// of `reasons`.
pub open spec fn speech_count(items: Seq<JsonValue>, reasons: Seq<Seq<char>>) -> nat
    decreases items.len(),
{
    if items.len() == 0 {
        0
    } else {
        speech_count(items.drop_last(), reasons) + if mentions(
            or_empty(str_at(items.last(), "speech"@)),
            reasons,
        ) {
            1nat
        } else {
            0nat
        }
    }
}

/// A law mentioned in a meeting's minutes.
pub struct ProceedingLink {
    pub law_id: String,
    pub meeting_id: String,
    pub date: String,
    pub house: String,
    pub committee: Option<String>,
    /// `amendment_debate` where an amending law number was found, else
    /// `reference_only`.
    pub relevance: String,
    pub speech_count_mentioning: usize,
    /// Confidence in hundredths: 92 for a debate on an amendment, 55 for a
    /// reference.
    pub confidence_pct: u32,
    pub match_reasons: Vec<String>,
}

/// `l` is the link that the hit `h` gives for `meeting`.
pub open spec fn proceeding_link_of(l: ProceedingLink, h: HitView, meeting: JsonValue) -> bool {
    &&& l.law_id@ == h.0
    &&& l.meeting_id@ == or_empty(str_at(meeting, "meeting_id"@))
    &&& l.date@ == or_empty(str_at(meeting, "date"@))
    &&& l.house@ == or_empty(str_at(meeting, "house"@))
    &&& opt_view(l.committee) == str_at(meeting, "committee"@)
    &&& l.relevance@ == (if h.2 { "amendment_debate"@ } else { "reference_only"@ })
    &&& l.confidence_pct == (if h.2 { 92u32 } else { 55u32 })
    &&& l.speech_count_mentioning == speech_count(items_of(json_at(meeting, "speeches"@)), h.1)
    &&& strings_of(l.match_reasons@) == h.1
}

/// `v[key].as_array()`, or an empty list.
fn items_at<'a>(v: &'a JsonValue, key: &str) -> (r: Vec<&'a JsonValue>)
    ensures
        r@.len() == items_of(json_at(*v, key@)).len(),
        forall|i: int| 0 <= i < r@.len() ==> *r@[i] == items_of(json_at(*v, key@))[i],
{
    let mut out: Vec<&JsonValue> = Vec::new();
    match v.get(key) {
        Some(x) => match x.as_array() {
            Some(items) => {
                let mut i: usize = 0;
                while i < items.len()
                    invariant
                        i <= items.len(),
                        json_array(*x) == Some(items@),
                        json_at(*v, key@) == *x,
                        out@.len() == i,
                        forall|j: int| 0 <= j < i ==> *out@[j] == items@[j],
                    decreases items.len() - i,
                {
                    out.push(&items[i]);
                    i = i + 1;
                }
            },
            None => {},
        },
        None => {},
    }
    out
}

/// The texts of the speeches that have one.
fn speech_texts_exec(items: &Vec<&JsonValue>) -> (out: Vec<Vec<char>>)
    ensures
        seqs_of(out@) == speech_texts(Seq::new(items@.len(), |i: int| *items@[i])),
{
    let ghost iv = Seq::new(items@.len(), |i: int| *items@[i]);
    let mut out: Vec<Vec<char>> = Vec::new();
    let mut i: usize = 0;
    while i < items.len()
        invariant
            i <= items.len(),
            iv == Seq::new(items@.len(), |i: int| *items@[i]),
            seqs_of(out@) == speech_texts(iv.take(i as int)),
        decreases items.len() - i,
    {
        assert(iv.take(i + 1).drop_last() =~= iv.take(i as int));
        assert(iv.take(i + 1).last() == *items@[i as int]);
        match str_field(items[i], "speech") {
            Some(t) => {
                let c = chars_of(t.as_str());
                proof {
                    lemma_seqs_of_push(out@, c);
                }
                out.push(c);
            },
            None => {},
        }
        i = i + 1;
    }
    assert(iv.take(items.len() as int) =~= iv);
    out
}

/// Whether `text` holds one of `reasons`.
fn mentions_exec(text: &[char], reasons: &Vec<String>) -> (b: bool)
    ensures
        b == mentions(text@, strings_of(reasons@)),
{
    let mut k: usize = 0;
    while k < reasons.len()
        invariant
            k <= reasons.len(),
            forall|j: int| 0 <= j < k ==> !contains(text@, #[trigger] strings_of(reasons@)[j]),
        decreases reasons.len() - k,
    {
        let r = chars_of(reasons[k].as_str());
        if contains_chars(text, &r) {
            assert(contains(text@, strings_of(reasons@)[k as int]));
            return true;
        }
        k = k + 1;
    }
    false
}

fn speech_count_exec(items: &Vec<&JsonValue>, reasons: &Vec<String>) -> (n: usize)
    ensures
        n == speech_count(Seq::new(items@.len(), |i: int| *items@[i]), strings_of(reasons@)),
{
    let ghost iv = Seq::new(items@.len(), |i: int| *items@[i]);
    let mut n: usize = 0;
    let mut i: usize = 0;
    while i < items.len()
        invariant
            i <= items.len(),
            iv == Seq::new(items@.len(), |i: int| *items@[i]),
            n == speech_count(iv.take(i as int), strings_of(reasons@)),
            n <= i,
        decreases items.len() - i,
    {
        assert(iv.take(i + 1).drop_last() =~= iv.take(i as int));
        assert(iv.take(i + 1).last() == *items@[i as int]);
        let t = str_field_or_empty(items[i], "speech");
        let c = chars_of(t.as_str());
        if mentions_exec(&c, reasons) {
            n = n + 1;
        }
        i = i + 1;
    }
    assert(iv.take(items.len() as int) =~= iv);
    n
}

/// The laws that the minutes `meeting` mention: the patterns are sought in
/// the meeting's speeches joined by newlines, and each law found gets the
/// number of speeches that hold one of its reasons, and its relevance.
pub fn proceeding_links(ac: &aho_corasick::AhoCorasick, metas: &Vec<PatternMeta>, meeting: &JsonValue) -> (out: Vec<ProceedingLink>)
    requires
        automaton_patterns(*ac) == meta_texts(metas_view(metas@)),
        overlapping_search_ok(*ac),
    ensures
        out.len() == text_hits(Seq::empty(), metas_view(metas@), meeting_text(*meeting), false).len(),
        forall|i: int|
            0 <= i < out.len() ==> proceeding_link_of(
                #[trigger] out@[i],
                text_hits(Seq::empty(), metas_view(metas@), meeting_text(*meeting), false)[i],
                *meeting,
            ),
{
    let items = items_at(meeting, "speeches");
    assert(Seq::new(items@.len(), |i: int| *items@[i]) =~= items_of(json_at(*meeting, "speeches"@)));
    let texts = speech_texts_exec(&items);
    let full = string_of(&join_lines(&texts));
    let mut hits: Vec<LawHit> = Vec::new();
    assert(hits_view(hits@) =~= Seq::<HitView>::empty());
    add_text_hits(&mut hits, ac, metas, full.as_str(), false);
    let ghost hv = hits_view(hits@);
    let meeting_id = str_field_or_empty(meeting, "meeting_id");
    let date = str_field_or_empty(meeting, "date");
    let house = str_field_or_empty(meeting, "house");
    let committee = str_field(meeting, "committee");
    let mut out: Vec<ProceedingLink> = Vec::new();
    let mut i: usize = 0;
    while i < hits.len()
        invariant
            i <= hits.len(),
            hv == hits_view(hits@),
            hv == text_hits(Seq::empty(), metas_view(metas@), meeting_text(*meeting), false),
            Seq::new(items@.len(), |i: int| *items@[i]) == items_of(json_at(*meeting, "speeches"@)),
            meeting_id@ == or_empty(str_at(*meeting, "meeting_id"@)),
            date@ == or_empty(str_at(*meeting, "date"@)),
            house@ == or_empty(str_at(*meeting, "house"@)),
            opt_view(committee) == str_at(*meeting, "committee"@),
            out.len() == i,
            forall|j: int| 0 <= j < i ==> proceeding_link_of(#[trigger] out@[j], hv[j], *meeting),
        decreases hits.len() - i,
    {
        let h = &hits[i];
        let count = speech_count_exec(&items, &h.reasons);
        let l = ProceedingLink {
            law_id: copy_string(&h.law_id),
            meeting_id: copy_string(&meeting_id),
            date: copy_string(&date),
            house: copy_string(&house),
            committee: copy_opt(&committee),
            relevance: if h.has_law_num {
                "amendment_debate".to_owned()
            } else {
                "reference_only".to_owned()
            },
            speech_count_mentioning: count,
            confidence_pct: if h.has_law_num {
                92
            } else {
                55
            },
            match_reasons: copy_strings(&h.reasons),
        };
        out.push(l);
        i = i + 1;
    }
    out
}

// ---------------------------------------------------------------------------
// Procurement notices
// ---------------------------------------------------------------------------

/// A law cited by a procurement notice.
pub struct ProcurementLink {
    pub law_id: String,
    pub item_id: String,
    pub title: String,
    pub organization: String,
    pub notice_date: String,
    /// `law_cited` where an amending law number was found, else
    /// `reference_only`.
    pub relevance: String,
    /// Confidence in hundredths: 88 for a citation, 50 for a reference.
    pub confidence_pct: u32,
    pub match_reasons: Vec<String>,
}

/// The text of a notice that is searched: title and organization.
pub open spec fn notice_text(doc: JsonValue) -> Seq<char> {
    or_empty(str_at(doc, "title"@)) + nl() + or_empty(str_at(doc, "organization"@))
}

/// `l` is the link that the hit `h` gives for the notice `doc`.
pub open spec fn procurement_link_of(l: ProcurementLink, h: HitView, doc: JsonValue) -> bool {
    &&& l.law_id@ == h.0
    &&& l.item_id@ == or_empty(str_at(doc, "item_id"@))
    &&& l.title@ == or_empty(str_at(doc, "title"@))
    &&& l.organization@ == or_empty(str_at(doc, "organization"@))
    &&& l.notice_date@ == or_empty(str_at(doc, "notice_date"@))
    &&& l.relevance@ == (if h.2 { "law_cited"@ } else { "reference_only"@ })
    &&& l.confidence_pct == (if h.2 { 88u32 } else { 50u32 })
    &&& strings_of(l.match_reasons@) == h.1
}

fn join_nl(a: &String, b: &String) -> (s: String)
    ensures
        s@ == a@ + nl() + b@,
{
    let mut v = chars_of(a.as_str());
    let n = ['\n'];
    append_chars(&mut v, &n);
    let w = chars_of(b.as_str());
    append_chars(&mut v, &w);
    assert(n@ =~= nl());
    string_of(&v)
}

/// The laws that the procurement notice `doc` cites: the patterns are
/// sought in its title and organization.
pub fn procurement_links(ac: &aho_corasick::AhoCorasick, metas: &Vec<PatternMeta>, doc: &JsonValue) -> (out: Vec<ProcurementLink>)
    requires
        automaton_patterns(*ac) == meta_texts(metas_view(metas@)),
        overlapping_search_ok(*ac),
    ensures
        out.len() == text_hits(Seq::empty(), metas_view(metas@), notice_text(*doc), false).len(),
        forall|i: int|
            0 <= i < out.len() ==> procurement_link_of(
                #[trigger] out@[i],
                text_hits(Seq::empty(), metas_view(metas@), notice_text(*doc), false)[i],
                *doc,
            ),
{
    let item_id = str_field_or_empty(doc, "item_id");
    let title = str_field_or_empty(doc, "title");
    let organization = str_field_or_empty(doc, "organization");
    let notice_date = str_field_or_empty(doc, "notice_date");
    let text = join_nl(&title, &organization);
    let mut hits: Vec<LawHit> = Vec::new();
    assert(hits_view(hits@) =~= Seq::<HitView>::empty());
    add_text_hits(&mut hits, ac, metas, text.as_str(), false);
    let ghost hv = hits_view(hits@);
    let mut out: Vec<ProcurementLink> = Vec::new();
    let mut i: usize = 0;
    while i < hits.len()
        invariant
            i <= hits.len(),
            hv == hits_view(hits@),
            hv == text_hits(Seq::empty(), metas_view(metas@), notice_text(*doc), false),
            item_id@ == or_empty(str_at(*doc, "item_id"@)),
            title@ == or_empty(str_at(*doc, "title"@)),
            organization@ == or_empty(str_at(*doc, "organization"@)),
            notice_date@ == or_empty(str_at(*doc, "notice_date"@)),
            out.len() == i,
            forall|j: int| 0 <= j < i ==> procurement_link_of(#[trigger] out@[j], hv[j], *doc),
        decreases hits.len() - i,
    {
        let h = &hits[i];
        let l = ProcurementLink {
            law_id: copy_string(&h.law_id),
            item_id: copy_string(&item_id),
            title: copy_string(&title),
            organization: copy_string(&organization),
            notice_date: copy_string(&notice_date),
            relevance: if h.has_law_num {
                "law_cited".to_owned()
            } else {
                "reference_only".to_owned()
            },
            confidence_pct: if h.has_law_num {
                88
            } else {
                50
            },
            match_reasons: copy_strings(&h.reasons),
        };
        out.push(l);
        i = i + 1;
    }
    out
}

// ---------------------------------------------------------------------------
// Public comments
// ---------------------------------------------------------------------------

/// A law that a public-comment case concerns or mentions.
pub struct PubcommentLink {
    pub law_id: String,
    pub case_id: String,
    pub title: String,
    pub ministry: String,
    pub start_date: String,
    pub end_date: String,
    /// `amendment_comment` where the law was found in the related-law
    /// field or by an amending law number, else `reference_only`.
    pub relevance: String,
    /// Confidence in hundredths: 90 for an amendment comment, 55 for a
    /// reference.
    pub confidence_pct: u32,
    pub match_reasons: Vec<String>,
}

/// The law whose title is exactly `title` (the last one listed, where
/// several share it).
pub open spec fn law_with_title(laws: Seq<LawEntryView>, title: Seq<char>) -> Option<Seq<char>>
    decreases laws.len(),
{
    if laws.len() == 0 {
        None
    } else if laws.last().1 == title {
        Some(laws.last().0)
    } else {
        law_with_title(laws.drop_last(), title)
    }
}

/// One opinion as searched: item, opinion and the ministry's answer,
/// separated by spaces.
pub open spec fn opinion_line(o: JsonValue) -> Seq<char> {
    or_empty(str_at(o, "item"@)) + seq![' '] + or_empty(str_at(o, "opinion"@)) + seq![' '] + or_empty(
        str_at(o, "ministry_response"@),
    )
}

/// The opinions of a case, one line each.
pub open spec fn opinions_text(doc: JsonValue) -> Seq<char> {
    let ops = items_of(json_at(doc, "opinions"@));
    join(Seq::new(ops.len(), |i: int| opinion_line(ops[i])), nl())
}

/// The laws found in the related-law field (marked), then the law whose
/// title is exactly that field (trimmed, marked), then the laws found in
/// the title and the opinions.
pub open spec fn pubcomment_hits(laws: Seq<LawEntryView>, metas: Seq<MetaView>, doc: JsonValue) -> Seq<HitView> {
    let related = or_empty(str_at(doc, "related_law_name"@));
    let h1 = text_hits(Seq::empty(), metas, related, true);
    let rln = trim(related);
    let h2 = if rln.len() > 0 && law_with_title(laws, rln) is Some {
        add_hit(h1, law_with_title(laws, rln).unwrap(), rln, false, true)
    } else {
        h1
    };
    text_hits(h2, metas, or_empty(str_at(doc, "title"@)) + nl() + opinions_text(doc), false)
}

/// `l` is the link that the hit `h` gives for the case `doc`.
pub open spec fn pubcomment_link_of(l: PubcommentLink, h: HitView, doc: JsonValue) -> bool {
    &&& l.law_id@ == h.0
    &&& l.case_id@ == or_empty(str_at(doc, "case_id"@))
    &&& l.title@ == or_empty(str_at(doc, "title"@))
    &&& l.ministry@ == or_empty(str_at(doc, "ministry"@))
    &&& l.start_date@ == or_empty(str_at(doc, "reception_start"@))
    &&& l.end_date@ == or_empty(str_at(doc, "reception_end"@))
    &&& l.relevance@ == (if h.2 || h.3 { "amendment_comment"@ } else { "reference_only"@ })
    &&& l.confidence_pct == (if h.2 || h.3 { 90u32 } else { 55u32 })
    &&& strings_of(l.match_reasons@) == h.1
}

fn law_with_title_exec(laws: &Vec<LawEntry>, title: &[char]) -> (r: Option<usize>)
    ensures
        match r {
            Some(j) => j < laws.len() && law_with_title(law_entries_view(laws@), title@) == Some(laws@[j as int].law_id@),
            None => law_with_title(law_entries_view(laws@), title@) is None,
        },
{
    let mut i: usize = laws.len();
    assert(law_entries_view(laws@).take(i as int) =~= law_entries_view(laws@));
    while i > 0
        invariant
            i <= laws.len(),
            law_with_title(law_entries_view(laws@), title@) == law_with_title(law_entries_view(laws@).take(i as int), title@),
        decreases i,
    {
        assert(law_entries_view(laws@).take(i as int).drop_last() =~= law_entries_view(laws@).take(i - 1));
        let t = chars_of(laws[i - 1].title.as_str());
        if chars_eq(&t, title) {
            return Some(i - 1);
        }
        i = i - 1;
    }
    None
}

fn opinions_text_exec(doc: &JsonValue) -> (s: String)
    ensures
        s@ == opinions_text(*doc),
{
    let ops = items_at(doc, "opinions");
    let ghost ov = items_of(json_at(*doc, "opinions"@));
    let mut lines: Vec<Vec<char>> = Vec::new();
    let mut i: usize = 0;
    while i < ops.len()
        invariant
            i <= ops.len(),
            ops@.len() == ov.len(),
            forall|j: int| 0 <= j < ops@.len() ==> *ops@[j] == ov[j],
            seqs_of(lines@) == Seq::new(ov.len(), |k: int| opinion_line(ov[k])).take(i as int),
        decreases ops.len() - i,
    {
        let mut v = chars_of(str_field_or_empty(ops[i], "item").as_str());
        let sp = [' '];
        append_chars(&mut v, &sp);
        let b = chars_of(str_field_or_empty(ops[i], "opinion").as_str());
        append_chars(&mut v, &b);
        append_chars(&mut v, &sp);
        let c = chars_of(str_field_or_empty(ops[i], "ministry_response").as_str());
        append_chars(&mut v, &c);
        assert(sp@ =~= seq![' ']);
        assert(v@ =~= opinion_line(ov[i as int]));
        proof {
            lemma_seqs_of_push(lines@, v);
        }
        lines.push(v);
        assert(Seq::new(ov.len(), |k: int| opinion_line(ov[k])).take(i + 1) =~= Seq::new(
            ov.len(),
            |k: int| opinion_line(ov[k]),
        ).take(i as int).push(opinion_line(ov[i as int])));
        i = i + 1;
    }
    assert(Seq::new(ov.len(), |k: int| opinion_line(ov[k])).take(ops.len() as int) =~= Seq::new(
        ov.len(),
        |k: int| opinion_line(ov[k]),
    ));
    string_of(&join_lines(&lines))
}

/// The laws that the public-comment case `doc` concerns or mentions: found
/// in its related-law field (or equal to it, for titles too short to be
/// patterns), in its title, or in its opinions and the answers to them.
pub fn pubcomment_links(
    ac: &aho_corasick::AhoCorasick,
    metas: &Vec<PatternMeta>,
    laws: &Vec<LawEntry>,
    doc: &JsonValue,
) -> (out: Vec<PubcommentLink>)
    requires
        automaton_patterns(*ac) == meta_texts(metas_view(metas@)),
        overlapping_search_ok(*ac),
    ensures
        out.len() == pubcomment_hits(law_entries_view(laws@), metas_view(metas@), *doc).len(),
        forall|i: int|
            0 <= i < out.len() ==> pubcomment_link_of(
                #[trigger] out@[i],
                pubcomment_hits(law_entries_view(laws@), metas_view(metas@), *doc)[i],
                *doc,
            ),
{
    let related = str_field_or_empty(doc, "related_law_name");
    let mut hits: Vec<LawHit> = Vec::new();
    assert(hits_view(hits@) =~= Seq::<HitView>::empty());
    add_text_hits(&mut hits, ac, metas, related.as_str(), true);
    let rc = chars_of(related.as_str());
    let rln = trim_chars(&rc);
    if rln.len() > 0 {
        match law_with_title_exec(laws, &rln) {
            Some(j) => {
                let r = string_of(&rln);
                add_hit_exec(&mut hits, &laws[j].law_id, &r, false, true);
            },
            None => {},
        }
    }
    let title = str_field_or_empty(doc, "title");
    let ops = opinions_text_exec(doc);
    let weak = join_nl(&title, &ops);
    add_text_hits(&mut hits, ac, metas, weak.as_str(), false);
    let ghost hv = hits_view(hits@);
    assert(hv == pubcomment_hits(law_entries_view(laws@), metas_view(metas@), *doc));
    let case_id = str_field_or_empty(doc, "case_id");
    let ministry = str_field_or_empty(doc, "ministry");
    let start_date = str_field_or_empty(doc, "reception_start");
    let end_date = str_field_or_empty(doc, "reception_end");
    let mut out: Vec<PubcommentLink> = Vec::new();
    let mut i: usize = 0;
    while i < hits.len()
        invariant
            i <= hits.len(),
            hv == hits_view(hits@),
            case_id@ == or_empty(str_at(*doc, "case_id"@)),
            title@ == or_empty(str_at(*doc, "title"@)),
            ministry@ == or_empty(str_at(*doc, "ministry"@)),
            start_date@ == or_empty(str_at(*doc, "reception_start"@)),
            end_date@ == or_empty(str_at(*doc, "reception_end"@)),
            out.len() == i,
            forall|j: int| 0 <= j < i ==> pubcomment_link_of(#[trigger] out@[j], hv[j], *doc),
        decreases hits.len() - i,
    {
        let h = &hits[i];
        let strong = h.has_law_num || h.marked;
        let l = PubcommentLink {
            law_id: copy_string(&h.law_id),
            case_id: copy_string(&case_id),
            title: copy_string(&title),
            ministry: copy_string(&ministry),
            start_date: copy_string(&start_date),
            end_date: copy_string(&end_date),
            relevance: if strong {
                "amendment_comment".to_owned()
            } else {
                "reference_only".to_owned()
            },
            confidence_pct: if strong {
                90
            } else {
                55
            },
            match_reasons: copy_strings(&h.reasons),
        };
        out.push(l);
        i = i + 1;
    }
    out
}

// ---------------------------------------------------------------------------
// Council meetings
// ---------------------------------------------------------------------------

/// `rs` is in strictly increasing order.
pub open spec fn strictly_sorted(rs: Seq<Seq<char>>) -> bool {
    forall|i: int, j: int| 0 <= i < j < rs.len() ==> seq_lt(#[trigger] rs[i], #[trigger] rs[j])
}

/// `a` and `b` hold the same strings.
pub open spec fn same_strings(a: Seq<Seq<char>>, b: Seq<Seq<char>>) -> bool {
    forall|x: Seq<char>| a.contains(x) <==> b.contains(x)
}

/// The strings of `v` in increasing order, each once.
fn sorted_strings(v: &Vec<String>) -> (out: Vec<String>)
    ensures
        strictly_sorted(strings_of(out@)),
        same_strings(strings_of(out@), strings_of(v@)),
{
    let mut out: Vec<String> = Vec::new();
    let mut i: usize = 0;
    while i < v.len()
        invariant
            i <= v.len(),
            strictly_sorted(strings_of(out@)),
            same_strings(strings_of(out@), strings_of(v@).take(i as int)),
        decreases v.len() - i,
    {
        let ghost prev = strings_of(v@).take(i as int);
        assert(strings_of(v@).take(i + 1) =~= prev.push(v@[i as int]@));
        let r = chars_of(v[i].as_str());
        let mut p: usize = 0;
        loop
            invariant
                p <= out.len(),
                strictly_sorted(strings_of(out@)),
                forall|k: int| 0 <= k < p ==> seq_lt(#[trigger] strings_of(out@)[k], r@),
            ensures
                p <= out.len(),
                forall|k: int| 0 <= k < p ==> seq_lt(#[trigger] strings_of(out@)[k], r@),
                p < out.len() ==> !seq_lt(strings_of(out@)[p as int], r@),
            decreases out.len() - p,
        {
            if p >= out.len() {
                break;
            }
            let o = chars_of(out[p].as_str());
            if !chars_lt(&o, &r) {
                break;
            }
            p = p + 1;
        }
        let dup = p < out.len() && chars_eq(&chars_of(out[p].as_str()), &r);
        if !dup {
            let ghost before = strings_of(out@);
            out.insert(p, string_of(&r));
            assert(strings_of(out@) =~= before.insert(p as int, r@));
            proof {
                assert forall|a: int, b: int| 0 <= a < b < strings_of(out@).len() implies seq_lt(
                    #[trigger] strings_of(out@)[a],
                    #[trigger] strings_of(out@)[b],
                ) by {
                    let s = strings_of(out@);
                    if p < before.len() {
                        lemma_seq_lt_order(r@, before[p as int], before[p as int]);
                    }
                    if a < p && b == p {
                    } else if a == p && b > p {
                        lemma_seq_lt_order(r@, before[p as int], before[b - 1]);
                        if b - 1 > p {
                            assert(seq_lt(before[p as int], before[b - 1]));
                        }
                    } else if a < p && b > p {
                        assert(s[a] == before[a]);
                        assert(s[b] == before[b - 1]);
                        if a < b - 1 {
                            assert(seq_lt(before[a], before[b - 1]));
                        }
                    } else if b < p {
                        assert(s[a] == before[a]);
                        assert(s[b] == before[b]);
                    } else {
                        assert(s[a] == before[a - 1]);
                        assert(s[b] == before[b - 1]);
                    }
                }
                let tk = strings_of(v@).take(i + 1);
                assert(tk =~= prev.push(r@));
                assert forall|x: Seq<char>| strings_of(out@).contains(x) <==> tk.contains(x) by {
                    let s = strings_of(out@);
                    if s.contains(x) {
                        let k = choose|k: int| 0 <= k < s.len() && #[trigger] s[k] == x;
                        if k == p {
                            assert(tk[i as int] == x);
                        } else {
                            if k < p {
                                assert(before[k] == x);
                            } else {
                                assert(before[k - 1] == x);
                            }
                            assert(before.contains(x));
                            assert(prev.contains(x));
                            let j = choose|j: int| 0 <= j < prev.len() && #[trigger] prev[j] == x;
                            assert(tk[j] == x);
                        }
                    }
                    if tk.contains(x) {
                        let j = choose|j: int| 0 <= j < tk.len() && #[trigger] tk[j] == x;
                        if j == i {
                            assert(s[p as int] == x);
                        } else {
                            assert(prev[j] == x);
                            assert(prev.contains(x));
                            assert(before.contains(x));
                            let k = choose|k: int| 0 <= k < before.len() && #[trigger] before[k] == x;
                            if k < p {
                                assert(s[k] == x);
                            } else {
                                assert(s[k + 1] == x);
                            }
                        }
                    }
                }
            }
        } else {
            proof {
                let tk = strings_of(v@).take(i + 1);
                assert(tk =~= prev.push(r@));
                let s = strings_of(out@);
                assert(s[p as int] == r@);
                assert forall|x: Seq<char>| s.contains(x) <==> tk.contains(x) by {
                    if s.contains(x) {
                        assert(prev.contains(x));
                        let j = choose|j: int| 0 <= j < prev.len() && #[trigger] prev[j] == x;
                        assert(tk[j] == x);
                    }
                    if tk.contains(x) {
                        let j = choose|j: int| 0 <= j < tk.len() && #[trigger] tk[j] == x;
                        if j == i {
                            assert(s[p as int] == x);
                        } else {
                            assert(prev[j] == x);
                            assert(prev.contains(x));
                        }
                    }
                }
            }
        }
        i = i + 1;
    }
    assert(strings_of(v@).take(v.len() as int) =~= strings_of(v@));
    out
}

/// A law that a council meeting deals with or mentions.
pub struct CouncilLink {
    pub law_id: String,
    pub minutes_id: String,
    pub title: String,
    pub ministry: String,
    pub committee: String,
    pub date: String,
    /// `law_cited` where an amending law number was found, else
    /// `title_reference` where only a short title was found, else
    /// `deliberation_reference`.
    pub relevance: String,
    /// Confidence in hundredths: 92, 60 and 72 for the three relevances.
    pub confidence_pct: u32,
    /// The reasons in increasing order.
    pub match_reasons: Vec<String>,
}

/// The extracted texts of the attachments that are materials.
pub open spec fn material_texts(atts: Seq<JsonValue>) -> Seq<Seq<char>>
    decreases atts.len(),
{
    if atts.len() == 0 {
        Seq::empty()
    } else {
        let prev = material_texts(atts.drop_last());
        let a = atts.last();
        if str_at(a, "kind"@) == Some("material"@) && str_at(a, "extracted_text"@) is Some {
            prev.push(str_at(a, "extracted_text"@).unwrap())
        } else {
            prev
        }
    }
}

/// The text of a meeting record that is searched: title, agenda, summary,
/// body and minutes, then the materials, one per line.
pub open spec fn council_text(doc: JsonValue) -> Seq<char> {
    join(
        seq![
            or_empty(str_at(doc, "title"@)),
            or_empty(str_at(doc, "agenda"@)),
            or_empty(str_at(doc, "summary"@)),
            or_empty(str_at(doc, "body_text"@)),
            or_empty(str_at(doc, "minutes_text"@)),
        ] + material_texts(items_of(json_at(doc, "attachments"@))),
        nl(),
    )
}

/// A formal title too short to be a pattern but still safe to look for:
/// two or three characters ending in 法 (民法, 刑法, 会社法).
pub open spec fn short_law_title(t: Seq<char>) -> bool {
    2 <= t.len() <= 3 && t.last() == '法'
}

/// The laws with a short title that `text` holds, marked.
pub open spec fn short_title_hits(hits: Seq<HitView>, laws: Seq<LawEntryView>, text: Seq<char>) -> Seq<HitView>
    decreases laws.len(),
{
    if laws.len() == 0 {
        hits
    } else {
        let h = short_title_hits(hits, laws.drop_last(), text);
        let l = laws.last();
        if short_law_title(l.1) && contains(text, l.1) {
            add_hit(h, l.0, l.1, false, true)
        } else {
            h
        }
    }
}

/// The laws found in a meeting record: by the patterns, then by the short
/// titles.
pub open spec fn council_hits(laws: Seq<LawEntryView>, metas: Seq<MetaView>, doc: JsonValue) -> Seq<HitView> {
    short_title_hits(text_hits(Seq::empty(), metas, council_text(doc), false), laws, council_text(doc))
}

/// `l` is the link that the hit `h` gives for the meeting record `doc`.
pub open spec fn council_link_of(l: CouncilLink, h: HitView, doc: JsonValue) -> bool {
    &&& l.law_id@ == h.0
    &&& l.minutes_id@ == or_empty(str_at(doc, "minutes_id"@))
    &&& l.title@ == or_empty(str_at(doc, "title"@))
    &&& l.ministry@ == or_empty(str_at(doc, "ministry"@))
    &&& l.committee@ == or_empty(str_at(doc, "committee"@))
    &&& l.date@ == or_empty(str_at(doc, "date"@))
    &&& l.relevance@ == (if h.2 {
        "law_cited"@
    } else if h.3 {
        "title_reference"@
    } else {
        "deliberation_reference"@
    })
    &&& l.confidence_pct == (if h.2 {
        92u32
    } else if h.3 {
        60u32
    } else {
        72u32
    })
    &&& strictly_sorted(strings_of(l.match_reasons@))
    &&& same_strings(strings_of(l.match_reasons@), h.1)
}

fn council_text_exec(doc: &JsonValue) -> (s: String)
    ensures
        s@ == council_text(*doc),
{
    let mut parts: Vec<Vec<char>> = Vec::new();
    parts.push(chars_of(str_field_or_empty(doc, "title").as_str()));
    parts.push(chars_of(str_field_or_empty(doc, "agenda").as_str()));
    parts.push(chars_of(str_field_or_empty(doc, "summary").as_str()));
    parts.push(chars_of(str_field_or_empty(doc, "body_text").as_str()));
    parts.push(chars_of(str_field_or_empty(doc, "minutes_text").as_str()));
    let ghost head = seq![
        or_empty(str_at(*doc, "title"@)),
        or_empty(str_at(*doc, "agenda"@)),
        or_empty(str_at(*doc, "summary"@)),
        or_empty(str_at(*doc, "body_text"@)),
        or_empty(str_at(*doc, "minutes_text"@)),
    ];
    assert(seqs_of(parts@) =~= head);
    let atts = items_at(doc, "attachments");
    let ghost av = items_of(json_at(*doc, "attachments"@));
    let mut i: usize = 0;
    assert(av.take(0) =~= Seq::<JsonValue>::empty());
    assert(head + material_texts(av.take(0)) =~= head);
    while i < atts.len()
        invariant
            i <= atts.len(),
            atts@.len() == av.len(),
            forall|j: int| 0 <= j < atts@.len() ==> *atts@[j] == av[j],
            seqs_of(parts@) == head + material_texts(av.take(i as int)),
        decreases atts.len() - i,
    {
        assert(av.take(i + 1).drop_last() =~= av.take(i as int));
        assert(av.take(i + 1).last() == av[i as int]);
        let kind = str_field(atts[i], "kind");
        let is_material = match &kind {
            Some(k) => chars_eq(&chars_of(k.as_str()), &chars_of("material")),
            None => false,
        };
        if is_material {
            match str_field(atts[i], "extracted_text") {
                Some(t) => {
                    let c = chars_of(t.as_str());
                    proof {
                        lemma_seqs_of_push(parts@, c);
                    }
                    parts.push(c);
                    assert(head + material_texts(av.take(i + 1)) =~= (head + material_texts(av.take(i as int))).push(c@));
                },
                None => {},
            }
        }
        i = i + 1;
    }
    assert(av.take(atts.len() as int) =~= av);
    string_of(&join_lines(&parts))
}

/// The laws that the council meeting record `doc` deals with or mentions:
/// the patterns are sought in its title, agenda, summary, body, minutes
/// and materials, and short formal titles (民法, 会社法) are looked for
/// too.  A record without a minutes id links nothing.
pub fn council_links(
    ac: &aho_corasick::AhoCorasick,
    metas: &Vec<PatternMeta>,
    laws: &Vec<LawEntry>,
    doc: &JsonValue,
) -> (out: Vec<CouncilLink>)
    requires
        automaton_patterns(*ac) == meta_texts(metas_view(metas@)),
        overlapping_search_ok(*ac),
    ensures
        or_empty(str_at(*doc, "minutes_id"@)).len() == 0 ==> out.len() == 0,
        or_empty(str_at(*doc, "minutes_id"@)).len() > 0 ==> out.len() == council_hits(
            law_entries_view(laws@),
            metas_view(metas@),
            *doc,
        ).len() && forall|i: int|
            0 <= i < out.len() ==> council_link_of(
                #[trigger] out@[i],
                council_hits(law_entries_view(laws@), metas_view(metas@), *doc)[i],
                *doc,
            ),
        or_empty(str_at(*doc, "minutes_id"@)).len() > 0 ==> forall|k: int|
            0 <= k < laws.len() && 2 <= (#[trigger] laws@[k]).title@.len() <= 3 && laws@[k].title@.last() == '法'
                && contains(council_text(*doc), laws@[k].title@) ==> exists|i: int|
                0 <= i < out.len() && out@[i].law_id@ == laws@[k].law_id@,
{
    let minutes_id = str_field_or_empty(doc, "minutes_id");
    let mut out: Vec<CouncilLink> = Vec::new();
    if chars_of(minutes_id.as_str()).len() == 0 {
        return out;
    }
    let text = council_text_exec(doc);
    let tc = chars_of(text.as_str());
    let mut hits: Vec<LawHit> = Vec::new();
    assert(hits_view(hits@) =~= Seq::<HitView>::empty());
    add_text_hits(&mut hits, ac, metas, text.as_str(), false);
    let ghost h1 = hits_view(hits@);
    let mut k: usize = 0;
    while k < laws.len()
        invariant
            k <= laws.len(),
            tc@ == council_text(*doc),
            hits_view(hits@) == short_title_hits(h1, law_entries_view(laws@).take(k as int), council_text(*doc)),
        decreases laws.len() - k,
    {
        let ghost lv = law_entries_view(laws@);
        assert(lv.take(k + 1).drop_last() =~= lv.take(k as int));
        assert(lv.take(k + 1).last() == lv[k as int]);
        let t = chars_of(laws[k].title.as_str());
        if t.len() >= 2 && t.len() <= 3 && t[t.len() - 1] == '法' && contains_chars(&tc, &t) {
            add_hit_exec(&mut hits, &laws[k].law_id, &laws[k].title, false, true);
        }
        k = k + 1;
    }
    assert(law_entries_view(laws@).take(laws.len() as int) =~= law_entries_view(laws@));
    let ghost hv = hits_view(hits@);
    let title = str_field_or_empty(doc, "title");
    let ministry = str_field_or_empty(doc, "ministry");
    let committee = str_field_or_empty(doc, "committee");
    let date = str_field_or_empty(doc, "date");
    let mut i: usize = 0;
    while i < hits.len()
        invariant
            i <= hits.len(),
            hv == hits_view(hits@),
            minutes_id@ == or_empty(str_at(*doc, "minutes_id"@)),
            title@ == or_empty(str_at(*doc, "title"@)),
            ministry@ == or_empty(str_at(*doc, "ministry"@)),
            committee@ == or_empty(str_at(*doc, "committee"@)),
            date@ == or_empty(str_at(*doc, "date"@)),
            out.len() == i,
            forall|j: int| 0 <= j < i ==> council_link_of(#[trigger] out@[j], hv[j], *doc),
            hv == council_hits(law_entries_view(laws@), metas_view(metas@), *doc),
        decreases hits.len() - i,
    {
        let h = &hits[i];
        let (relevance, pct) = if h.has_law_num {
            ("law_cited", 92u32)
        } else if h.marked {
            ("title_reference", 60u32)
        } else {
            ("deliberation_reference", 72u32)
        };
        let l = CouncilLink {
            law_id: copy_string(&h.law_id),
            minutes_id: copy_string(&minutes_id),
            title: copy_string(&title),
            ministry: copy_string(&ministry),
            committee: copy_string(&committee),
            date: copy_string(&date),
            relevance: relevance.to_owned(),
            confidence_pct: pct,
            match_reasons: sorted_strings(&h.reasons),
        };
        out.push(l);
        i = i + 1;
    }
    proof {
        lemma_council_short_titles(law_entries_view(laws@), metas_view(metas@), *doc);
        assert forall|k: int|
            0 <= k < laws.len() && 2 <= (#[trigger] laws@[k]).title@.len() <= 3 && laws@[k].title@.last() == '法'
                && contains(council_text(*doc), laws@[k].title@) implies exists|i: int|
                0 <= i < out.len() && out@[i].law_id@ == laws@[k].law_id@ by {
            let lv = law_entries_view(laws@);
            assert(lv[k] == law_entry_view(laws@[k]));
            let i = choose|i: int| 0 <= i < hv.len() && #[trigger] hv[i].0 == lv[k].0;
            assert(council_link_of(out@[i], hv[i], *doc));
        }
    }
    out
}

/// Whether some hit is for the law `id`.
pub open spec fn has_hit_for(hs: Seq<HitView>, id: Seq<char>) -> bool {
    exists|i: int| 0 <= i < hs.len() && #[trigger] hs[i].0 == id
}

proof fn lemma_add_hit_keeps(hits: Seq<HitView>, id: Seq<char>, r: Seq<char>, n: bool, m: bool)
    ensures
        has_hit_for(add_hit(hits, id, r, n, m), id),
        forall|x: Seq<char>| #[trigger] has_hit_for(hits, x) ==> has_hit_for(add_hit(hits, id, r, n, m), x),
{
    lemma_hit_index(hits, id);
    let a = add_hit(hits, id, r, n, m);
    match hit_index(hits, id) {
        Some(j) => {
            assert(a[j].0 == id);
            assert forall|x: Seq<char>| #[trigger] has_hit_for(hits, x) implies has_hit_for(a, x) by {
                let i = choose|i: int| 0 <= i < hits.len() && #[trigger] hits[i].0 == x;
                assert(a[i].0 == x);
            }
        },
        None => {
            assert(a[hits.len() as int].0 == id);
            assert forall|x: Seq<char>| #[trigger] has_hit_for(hits, x) implies has_hit_for(a, x) by {
                let i = choose|i: int| 0 <= i < hits.len() && #[trigger] hits[i].0 == x;
                assert(a[i].0 == x);
            }
        },
    }
}

proof fn lemma_short_title_found(hits: Seq<HitView>, laws: Seq<LawEntryView>, text: Seq<char>)
    ensures
        forall|k: int|
            0 <= k < laws.len() && 2 <= (#[trigger] laws[k]).1.len() <= 3 && laws[k].1.last() == '法' && contains(text, laws[k].1)
                ==> has_hit_for(short_title_hits(hits, laws, text), laws[k].0),
        forall|x: Seq<char>| #[trigger] has_hit_for(hits, x) ==> has_hit_for(short_title_hits(hits, laws, text), x),
    decreases laws.len(),
{
    if laws.len() > 0 {
        let p = laws.drop_last();
        lemma_short_title_found(hits, p, text);
        let h = short_title_hits(hits, p, text);
        let l = laws.last();
        if short_law_title(l.1) && contains(text, l.1) {
            lemma_add_hit_keeps(h, l.0, l.1, false, true);
        }
        assert forall|k: int|
            0 <= k < laws.len() && 2 <= (#[trigger] laws[k]).1.len() <= 3 && laws[k].1.last() == '法' && contains(text, laws[k].1)
                implies has_hit_for(short_title_hits(hits, laws, text), laws[k].0) by {
            if k < p.len() {
                assert(p[k] == laws[k]);
                assert(has_hit_for(h, p[k].0));
            } else {
                assert(laws[k] == l);
            }
        }
    }
}

/// A council record mentioning a law by a short formal title (two or three
/// characters ending in 法, such as 民法 or 会社法) links that law.
pub proof fn lemma_council_short_titles(laws: Seq<LawEntryView>, metas: Seq<MetaView>, doc: JsonValue)
    ensures
        forall|k: int|
            0 <= k < laws.len() && 2 <= (#[trigger] laws[k]).1.len() <= 3 && laws[k].1.last() == '法'
                && contains(council_text(doc), laws[k].1) ==> exists|i: int|
                0 <= i < council_hits(laws, metas, doc).len() && #[trigger] council_hits(laws, metas, doc)[i].0 == laws[k].0,
{
    lemma_short_title_found(text_hits(Seq::empty(), metas, council_text(doc), false), laws, council_text(doc));
    let hs = council_hits(laws, metas, doc);
    assert forall|k: int|
        0 <= k < laws.len() && 2 <= (#[trigger] laws[k]).1.len() <= 3 && laws[k].1.last() == '法'
            && contains(council_text(doc), laws[k].1) implies exists|i: int|
            0 <= i < hs.len() && #[trigger] hs[i].0 == laws[k].0 by {
        assert(has_hit_for(hs, laws[k].0));
        let i = choose|i: int| 0 <= i < hs.len() && #[trigger] hs[i].0 == laws[k].0;
        assert(hs[i].0 == laws[k].0);
    }
}

// ---------------------------------------------------------------------------
// The law index and the timelines
// ---------------------------------------------------------------------------

/// A law of the index: id, title, path of its timeline.
pub type IndexLawView = (Seq<char>, Seq<char>, Seq<char>);

/// The laws of the index (`laws`) that have an id and a title, with the
/// path of their timeline (empty where none is given).
pub open spec fn index_laws_spec(items: Seq<JsonValue>) -> Seq<IndexLawView>
    decreases items.len(),
{
    if items.len() == 0 {
        Seq::empty()
    } else {
        let prev = index_laws_spec(items.drop_last());
        let l = items.last();
        let id = or_empty(str_at(l, "law_id"@));
        let title = or_empty(str_at(l, "title"@));
        if id.len() == 0 || title.len() == 0 {
            prev
        } else {
            prev.push((id, title, or_empty(str_at(l, "timeline"@))))
        }
    }
}

pub open spec fn triples_view(v: Seq<(String, String, String)>) -> Seq<IndexLawView> {
    Seq::new(v.len(), |i: int| (v[i].0@, v[i].1@, v[i].2@))
}

/// The laws that the law index `index` lists with an id and a title, and
/// the path of each one's timeline.
pub fn index_laws(index: &JsonValue) -> (out: Vec<(String, String, String)>)
    ensures
        triples_view(out@) == index_laws_spec(items_of(json_at(*index, "laws"@))),
{
    let items = items_at(index, "laws");
    let ghost iv = items_of(json_at(*index, "laws"@));
    let mut out: Vec<(String, String, String)> = Vec::new();
    let mut i: usize = 0;
    assert(iv.take(0) =~= Seq::<JsonValue>::empty());
    assert(triples_view(out@) =~= Seq::<IndexLawView>::empty());
    while i < items.len()
        invariant
            i <= items.len(),
            items@.len() == iv.len(),
            forall|j: int| 0 <= j < items@.len() ==> *items@[j] == iv[j],
            triples_view(out@) == index_laws_spec(iv.take(i as int)),
        decreases items.len() - i,
    {
        assert(iv.take(i + 1).drop_last() =~= iv.take(i as int));
        assert(iv.take(i + 1).last() == iv[i as int]);
        let id = str_field_or_empty(items[i], "law_id");
        let title = str_field_or_empty(items[i], "title");
        if chars_of(id.as_str()).len() > 0 && chars_of(title.as_str()).len() > 0 {
            let t = str_field_or_empty(items[i], "timeline");
            let ghost before = triples_view(out@);
            out.push((id, title, t));
            assert(triples_view(out@) =~= before.push((id@, title@, t@)));
        }
        i = i + 1;
    }
    assert(iv.take(items.len() as int) =~= iv);
    out
}

/// The non-empty amending law numbers of the events of a timeline.
pub open spec fn amending_nums_spec(events: Seq<JsonValue>) -> Seq<Seq<char>>
    decreases events.len(),
{
    if events.len() == 0 {
        Seq::empty()
    } else {
        let prev = amending_nums_spec(events.drop_last());
        match str_at(events.last(), "amending_law_num"@) {
            Some(n) => if n.len() > 0 {
                prev.push(n)
            } else {
                prev
            },
            None => prev,
        }
    }
}

/// The numbers of the laws that amended a law, from its timeline
/// (`events[].amending_law_num`), empty ones left out.
pub fn amending_law_nums(timeline: &JsonValue) -> (out: Vec<String>)
    ensures
        strings_of(out@) == amending_nums_spec(items_of(json_at(*timeline, "events"@))),
{
    let items = items_at(timeline, "events");
    let ghost iv = items_of(json_at(*timeline, "events"@));
    let mut out: Vec<String> = Vec::new();
    let mut i: usize = 0;
    assert(iv.take(0) =~= Seq::<JsonValue>::empty());
    assert(strings_of(out@) =~= Seq::<Seq<char>>::empty());
    while i < items.len()
        invariant
            i <= items.len(),
            items@.len() == iv.len(),
            forall|j: int| 0 <= j < items@.len() ==> *items@[j] == iv[j],
            strings_of(out@) == amending_nums_spec(iv.take(i as int)),
        decreases items.len() - i,
    {
        assert(iv.take(i + 1).drop_last() =~= iv.take(i as int));
        assert(iv.take(i + 1).last() == iv[i as int]);
        match str_field(items[i], "amending_law_num") {
            Some(n) => {
                if chars_of(n.as_str()).len() > 0 {
                    proof {
                        lemma_strings_of_push(out@, n);
                    }
                    out.push(n);
                }
            },
            None => {},
        }
        i = i + 1;
    }
    assert(iv.take(items.len() as int) =~= iv);
    out
}

// ---------------------------------------------------------------------------
// The order of the links written for a law or a record
// ---------------------------------------------------------------------------

/// A sort key: a number ordered largest first, then a text ordered
/// largest first, then a text ordered smallest first.
pub type SortKey = (u64, Seq<char>, Seq<char>);

/// `a` comes strictly before `b`.
pub open spec fn key_before(a: SortKey, b: SortKey) -> bool {
    a.0 > b.0 || (a.0 == b.0 && (seq_lt(b.1, a.1) || (a.1 == b.1 && seq_lt(a.2, b.2))))
}

/// `order` lists every position of `keys` once, in key order, positions
/// with equal keys in their own order.
pub open spec fn sorted_order(keys: Seq<SortKey>, order: Seq<usize>) -> bool {
    &&& order.len() == keys.len()
    &&& forall|i: int| 0 <= i < order.len() ==> (#[trigger] order[i]) < keys.len()
    &&& forall|i: int, j: int| 0 <= i < j < order.len() ==> #[trigger] order[i] != #[trigger] order[j]
    &&& forall|i: int, j: int|
        0 <= i < j < order.len() ==> !key_before(keys[#[trigger] order[j] as int], keys[#[trigger] order[i] as int])
    &&& forall|i: int, j: int|
        0 <= i < j < order.len() && keys[#[trigger] order[i] as int] == keys[#[trigger] order[j] as int]
            ==> order[i] < order[j]
}

/// `key_before` is a strict total order.
proof fn lemma_key_order(a: SortKey, b: SortKey, c: SortKey)
    ensures
        !key_before(a, a),
        key_before(a, b) ==> !key_before(b, a),
        a != b ==> key_before(a, b) || key_before(b, a),
        key_before(a, b) && key_before(b, c) ==> key_before(a, c),
{
    lemma_seq_lt_order(a.1, b.1, c.1);
    lemma_seq_lt_order(c.1, b.1, a.1);
    lemma_seq_lt_order(b.1, a.1, c.1);
    lemma_seq_lt_order(a.2, b.2, c.2);
    lemma_seq_lt_order(b.2, a.2, c.2);
    if a.1 != b.1 {
        lemma_seq_lt_order(b.1, a.1, a.1);
    }
    if a != b && a.0 == b.0 && a.1 == b.1 {
        assert(a.2 != b.2);
    }
}

pub open spec fn keys_view(v: Seq<(u64, String, String)>) -> Seq<SortKey> {
    Seq::new(v.len(), |i: int| (v[i].0, v[i].1@, v[i].2@))
}

fn key_before_exec(keys: &Vec<(u64, String, String)>, a: usize, b: usize) -> (r: bool)
    requires
        a < keys.len(),
        b < keys.len(),
    ensures
        r == key_before(keys_view(keys@)[a as int], keys_view(keys@)[b as int]),
{
    let ka = &keys[a];
    let kb = &keys[b];
    if ka.0 != kb.0 {
        return ka.0 > kb.0;
    }
    let a1 = chars_of(ka.1.as_str());
    let b1 = chars_of(kb.1.as_str());
    if chars_lt(&b1, &a1) {
        return true;
    }
    if !chars_eq(&a1, &b1) {
        return false;
    }
    let a2 = chars_of(ka.2.as_str());
    let b2 = chars_of(kb.2.as_str());
    chars_lt(&a2, &b2)
}

/// The positions of `keys` in key order (a stable sort).
pub fn sort_order(keys: &Vec<(u64, String, String)>) -> (order: Vec<usize>)
    ensures
        sorted_order(keys_view(keys@), order@),
{
    let ghost kv = keys_view(keys@);
    let mut out: Vec<usize> = Vec::new();
    let mut i: usize = 0;
    while i < keys.len()
        invariant
            i <= keys.len(),
            kv == keys_view(keys@),
            out.len() == i,
            forall|a: int| 0 <= a < out.len() ==> (#[trigger] out@[a]) < i,
            forall|a: int, b: int| 0 <= a < b < out.len() ==> #[trigger] out@[a] != #[trigger] out@[b],
            forall|a: int, b: int|
                0 <= a < b < out.len() ==> !key_before(kv[#[trigger] out@[b] as int], kv[#[trigger] out@[a] as int]),
            forall|a: int, b: int|
                0 <= a < b < out.len() && kv[#[trigger] out@[a] as int] == kv[#[trigger] out@[b] as int] ==> out@[a] < out@[b],
        decreases keys.len() - i,
    {
        let mut p: usize = 0;
        loop
            invariant
                p <= out.len(),
                i < keys.len(),
                forall|a: int| 0 <= a < out.len() ==> (#[trigger] out@[a]) < i,
                forall|q: int| 0 <= q < p ==> !key_before(kv[i as int], kv[#[trigger] out@[q] as int]),
                kv == keys_view(keys@),
            ensures
                p <= out.len(),
                forall|q: int| 0 <= q < p ==> !key_before(kv[i as int], kv[#[trigger] out@[q] as int]),
                p < out.len() ==> key_before(kv[i as int], kv[out@[p as int] as int]),
            decreases out.len() - p,
        {
            if p >= out.len() {
                break;
            }
            if key_before_exec(keys, i, out[p]) {
                break;
            }
            p = p + 1;
        }
        let ghost before = out@;
        proof {
            assert forall|q: int| p <= q < before.len() implies key_before(kv[i as int], kv[#[trigger] before[q] as int]) by {
                if q > p {
                    lemma_key_order(kv[before[p as int] as int], kv[before[q] as int], kv[i as int]);
                    lemma_key_order(kv[i as int], kv[before[p as int] as int], kv[before[q] as int]);
                }
            }
        }
        out.insert(p, i);
        assert(out@ =~= before.insert(p as int, i));
        proof {
            assert forall|a: int, b: int| 0 <= a < b < out.len() implies !key_before(
                kv[#[trigger] out@[b] as int],
                kv[#[trigger] out@[a] as int],
            ) by {
                if a < p && b == p {
                } else if a == p && b > p {
                    lemma_key_order(kv[i as int], kv[before[b - 1] as int], kv[i as int]);
                } else if a < p && b > p {
                    assert(out@[a] == before[a]);
                    assert(out@[b] == before[b - 1]);
                } else if b < p {
                    assert(out@[a] == before[a]);
                    assert(out@[b] == before[b]);
                } else {
                    assert(out@[a] == before[a - 1]);
                    assert(out@[b] == before[b - 1]);
                }
            }
            assert forall|a: int, b: int|
                0 <= a < b < out.len() && kv[#[trigger] out@[a] as int] == kv[#[trigger] out@[b] as int] implies out@[a] < out@[b] by {
                if a < p && b == p {
                } else if a == p && b > p {
                    lemma_key_order(kv[i as int], kv[before[b - 1] as int], kv[i as int]);
                } else if a < p && b > p {
                    assert(out@[a] == before[a]);
                    assert(out@[b] == before[b - 1]);
                } else if b < p {
                    assert(out@[a] == before[a]);
                    assert(out@[b] == before[b]);
                } else {
                    assert(out@[a] == before[a - 1]);
                    assert(out@[b] == before[b - 1]);
                }
            }
            assert forall|a: int, b: int| 0 <= a < b < out.len() implies #[trigger] out@[a] != #[trigger] out@[b] by {
                if a < p && b == p {
                } else if a == p && b > p {
                    assert(out@[b] == before[b - 1]);
                } else if a < p && b > p {
                    assert(out@[a] == before[a]);
                    assert(out@[b] == before[b - 1]);
                } else if b < p {
                    assert(out@[a] == before[a]);
                    assert(out@[b] == before[b]);
                } else {
                    assert(out@[a] == before[a - 1]);
                    assert(out@[b] == before[b - 1]);
                }
            }
            assert forall|a: int| 0 <= a < out.len() implies (#[trigger] out@[a]) < i + 1 by {
                if a < p {
                    assert(out@[a] == before[a]);
                } else if a > p {
                    assert(out@[a] == before[a - 1]);
                }
            }
        }
        i = i + 1;
    }
    out
}

/// Newest first: by date, latest first, then by `ties`, smallest first;
/// records with equal date and tie keep their order.
pub fn order_newest_first(dates: &Vec<String>, ties: &Vec<String>) -> (order: Vec<usize>)
    requires
        dates.len() == ties.len(),
    ensures
        sorted_order(Seq::new(dates.len() as nat, |i: int| (0u64, dates@[i]@, ties@[i]@)), order@),
{
    let mut keys: Vec<(u64, String, String)> = Vec::new();
    let mut i: usize = 0;
    while i < dates.len()
        invariant
            i <= dates.len(),
            dates.len() == ties.len(),
            keys_view(keys@) =~= Seq::new(i as nat, |k: int| (0u64, dates@[k]@, ties@[k]@)),
        decreases dates.len() - i,
    {
        let ghost before = keys_view(keys@);
        let d = copy_string(&dates[i]);
        let t = copy_string(&ties[i]);
        keys.push((0u64, d, t));
        assert(keys_view(keys@) =~= before.push((0u64, dates@[i as int]@, ties@[i as int]@)));
        i = i + 1;
    }
    sort_order(&keys)
}

/// Most confident first: by confidence, highest first, then by `ties`,
/// smallest first; records with equal confidence and tie keep their
/// order.
pub fn order_most_confident(pcts: &Vec<u32>, ties: &Vec<String>) -> (order: Vec<usize>)
    requires
        pcts.len() == ties.len(),
    ensures
        sorted_order(Seq::new(pcts.len() as nat, |i: int| (pcts@[i] as u64, Seq::<char>::empty(), ties@[i]@)), order@),
{
    let mut keys: Vec<(u64, String, String)> = Vec::new();
    let mut i: usize = 0;
    while i < pcts.len()
        invariant
            i <= pcts.len(),
            pcts.len() == ties.len(),
            keys_view(keys@) =~= Seq::new(i as nat, |k: int| (pcts@[k] as u64, Seq::<char>::empty(), ties@[k]@)),
        decreases pcts.len() - i,
    {
        let ghost before = keys_view(keys@);
        let e = string_of(&Vec::new());
        let t = copy_string(&ties[i]);
        keys.push((pcts[i] as u64, e, t));
        assert(e@ =~= Seq::<char>::empty());
        assert(keys_view(keys@) =~= before.push((pcts@[i as int] as u64, Seq::<char>::empty(), ties@[i as int]@)));
        i = i + 1;
    }
    sort_order(&keys)
}

// ---------------------------------------------------------------------------
// What the hits of a text are
// ---------------------------------------------------------------------------

/// Pattern `k` occurs in `text`.
pub open spec fn pattern_found(metas: Seq<MetaView>, text: Seq<char>, k: int) -> bool {
    0 <= k < metas.len() && contains(text, metas[k].1)
}

/// A pattern of the law `id` occurs in `text`.
pub open spec fn law_found(metas: Seq<MetaView>, text: Seq<char>, id: Seq<char>) -> bool {
    exists|k: int| #[trigger] pattern_found(metas, text, k) && metas[k].0 == id
}

/// The pattern `r` of the law `id` occurs in `text`.
pub open spec fn reason_found(metas: Seq<MetaView>, text: Seq<char>, id: Seq<char>, r: Seq<char>) -> bool {
    exists|k: int| #[trigger] pattern_found(metas, text, k) && metas[k].0 == id && metas[k].1 == r
}

/// An amending law number of the law `id` occurs in `text`.
pub open spec fn law_num_found(metas: Seq<MetaView>, text: Seq<char>, id: Seq<char>) -> bool {
    exists|k: int| #[trigger] pattern_found(metas, text, k) && metas[k].0 == id && metas[k].2
}

/// The hits of `text` as the law states them.
pub open spec fn hits_exact(hs: Seq<HitView>, metas: Seq<MetaView>, text: Seq<char>) -> bool {
    &&& forall|i: int, j: int| 0 <= i < j < hs.len() ==> (#[trigger] hs[i]).0 != (#[trigger] hs[j]).0
    &&& forall|id: Seq<char>| law_found(metas, text, id) <==> exists|i: int| 0 <= i < hs.len() && (#[trigger] hs[i]).0 == id
    &&& forall|i: int, r: Seq<char>|
        #![trigger hs[i].1.contains(r)]
        #![trigger reason_found(metas, text, hs[i].0, r)]
        0 <= i < hs.len() ==> (hs[i].1.contains(r) <==> reason_found(metas, text, hs[i].0, r))
    &&& forall|i: int| 0 <= i < hs.len() ==> ((#[trigger] hs[i]).2 <==> law_num_found(metas, text, hs[i].0))
}

proof fn lemma_hit_index(hits: Seq<HitView>, id: Seq<char>)
    ensures
        match hit_index(hits, id) {
            Some(j) => 0 <= j < hits.len() && hits[j].0 == id,
            None => forall|i: int| 0 <= i < hits.len() ==> (#[trigger] hits[i]).0 != id,
        },
    decreases hits.len(),
{
    if hits.len() > 0 && hits.last().0 != id {
        lemma_hit_index(hits.drop_last(), id);
        match hit_index(hits.drop_last(), id) {
            Some(j) => {},
            None => {
                assert forall|i: int| 0 <= i < hits.len() implies (#[trigger] hits[i]).0 != id by {
                    if i < hits.len() - 1 {
                        assert(hits[i] == hits.drop_last()[i]);
                    }
                }
            },
        }
    }
}

/// The law of the library's linking: the laws found in a text are exactly
/// the laws one of whose patterns the text holds, each once; a law's
/// reasons are exactly its patterns that the text holds, and it counts as
/// found by an amending law number exactly when one of those is one.
pub proof fn lemma_text_hits_exact(metas: Seq<MetaView>, text: Seq<char>)
    ensures
        hits_exact(text_hits(Seq::empty(), metas, text, false), metas, text),
    decreases metas.len(),
{
    let hs = text_hits(Seq::empty(), metas, text, false);
    if metas.len() == 0 {
        assert forall|id: Seq<char>| law_found(metas, text, id) <==> exists|i: int| 0 <= i < hs.len() && (#[trigger] hs[i]).0 == id by {
            if law_found(metas, text, id) {
                let k = choose|k: int| #[trigger] pattern_found(metas, text, k) && metas[k].0 == id;
            }
        }
    } else {
        let p = metas.drop_last();
        let hp = text_hits(Seq::empty(), p, text, false);
        lemma_text_hits_exact(p, text);
        let n = metas.len() - 1;
        let m = metas.last();
        assert(forall|k: int| 0 <= k < n ==> metas[k] == p[k]);
        // what was found among the first patterns is found among all
        assert forall|k: int| #[trigger] pattern_found(p, text, k) implies pattern_found(metas, text, k) && metas[k] == p[k] by {}
        if !contains(text, m.1) {
            assert(hs == hp);
            assert forall|k: int| #[trigger] pattern_found(metas, text, k) implies pattern_found(p, text, k) by {}
            assert forall|id: Seq<char>| law_found(metas, text, id) <==> law_found(p, text, id) by {
                if law_found(metas, text, id) {
                    let k = choose|k: int| #[trigger] pattern_found(metas, text, k) && metas[k].0 == id;
                    assert(pattern_found(p, text, k));
                }
                if law_found(p, text, id) {
                    let k = choose|k: int| #[trigger] pattern_found(p, text, k) && p[k].0 == id;
                    assert(pattern_found(metas, text, k));
                }
            }
            assert forall|id: Seq<char>, r: Seq<char>| reason_found(metas, text, id, r) <==> reason_found(p, text, id, r) by {
                if reason_found(metas, text, id, r) {
                    let k = choose|k: int| #[trigger] pattern_found(metas, text, k) && metas[k].0 == id && metas[k].1 == r;
                    assert(pattern_found(p, text, k));
                }
                if reason_found(p, text, id, r) {
                    let k = choose|k: int| #[trigger] pattern_found(p, text, k) && p[k].0 == id && p[k].1 == r;
                    assert(pattern_found(metas, text, k));
                }
            }
            assert forall|id: Seq<char>| law_num_found(metas, text, id) <==> law_num_found(p, text, id) by {
                if law_num_found(metas, text, id) {
                    let k = choose|k: int| #[trigger] pattern_found(metas, text, k) && metas[k].0 == id && metas[k].2;
                    assert(pattern_found(p, text, k));
                }
                if law_num_found(p, text, id) {
                    let k = choose|k: int| #[trigger] pattern_found(p, text, k) && p[k].0 == id && p[k].2;
                    assert(pattern_found(metas, text, k));
                }
            }
        } else {
            assert(pattern_found(metas, text, n));
            assert(hs == add_hit(hp, m.0, m.1, m.2, false));
            // a pattern found among all is found among the first or is the last
            assert forall|k: int| #[trigger] pattern_found(metas, text, k) implies pattern_found(p, text, k) || k == n by {}
            assert forall|id: Seq<char>| law_found(metas, text, id) <==> (law_found(p, text, id) || id == m.0) by {
                if law_found(metas, text, id) {
                    let k = choose|k: int| #[trigger] pattern_found(metas, text, k) && metas[k].0 == id;
                    if k < n {
                        assert(pattern_found(p, text, k));
                    }
                }
                if law_found(p, text, id) {
                    let k = choose|k: int| #[trigger] pattern_found(p, text, k) && p[k].0 == id;
                    assert(pattern_found(metas, text, k));
                }
            }
            assert forall|id: Seq<char>, r: Seq<char>|
                reason_found(metas, text, id, r) <==> (reason_found(p, text, id, r) || (id == m.0 && r == m.1)) by {
                if reason_found(metas, text, id, r) {
                    let k = choose|k: int| #[trigger] pattern_found(metas, text, k) && metas[k].0 == id && metas[k].1 == r;
                    if k < n {
                        assert(pattern_found(p, text, k));
                    }
                }
                if reason_found(p, text, id, r) {
                    let k = choose|k: int| #[trigger] pattern_found(p, text, k) && p[k].0 == id && p[k].1 == r;
                    assert(pattern_found(metas, text, k));
                }
            }
            assert forall|id: Seq<char>| law_num_found(metas, text, id) <==> (law_num_found(p, text, id) || (id == m.0 && m.2)) by {
                if law_num_found(metas, text, id) {
                    let k = choose|k: int| #[trigger] pattern_found(metas, text, k) && metas[k].0 == id && metas[k].2;
                    if k < n {
                        assert(pattern_found(p, text, k));
                    }
                }
                if law_num_found(p, text, id) {
                    let k = choose|k: int| #[trigger] pattern_found(p, text, k) && p[k].0 == id && p[k].2;
                    assert(pattern_found(metas, text, k));
                }
            }
            lemma_hit_index(hp, m.0);
            match hit_index(hp, m.0) {
                Some(j) => {
                    assert(hs == hp.update(j, (m.0, add_reason(hp[j].1, m.1), hp[j].2 || m.2, hp[j].3 || false)));
                    assert forall|i: int| 0 <= i < hs.len() && i != j implies #[trigger] hs[i] == hp[i] by {}
                    assert(law_found(p, text, m.0));
                    assert forall|id: Seq<char>| law_found(metas, text, id) <==> exists|i: int| 0 <= i < hs.len() && (#[trigger] hs[i]).0 == id by {
                        if law_found(metas, text, id) {
                            assert(law_found(p, text, id));
                            let i = choose|i: int| 0 <= i < hp.len() && (#[trigger] hp[i]).0 == id;
                            assert(hs[i].0 == id);
                        }
                        if exists|i: int| 0 <= i < hs.len() && (#[trigger] hs[i]).0 == id {
                            let i = choose|i: int| 0 <= i < hs.len() && (#[trigger] hs[i]).0 == id;
                            assert(hp[i].0 == id);
                        }
                    }
                    assert forall|i: int, r: Seq<char>|
                        0 <= i < hs.len() implies (hs[i].1.contains(r) <==> reason_found(metas, text, hs[i].0, r)) by {
                        if i == j {
                            assert(add_reason(hp[j].1, m.1).contains(r) <==> (hp[j].1.contains(r) || r == m.1)) by {
                                if !hp[j].1.contains(m.1) {
                                    let rs = hp[j].1.push(m.1);
                                    if rs.contains(r) {
                                        let q = choose|q: int| 0 <= q < rs.len() && rs[q] == r;
                                        if q < hp[j].1.len() {
                                            assert(hp[j].1[q] == r);
                                        }
                                    }
                                    if hp[j].1.contains(r) {
                                        let q = choose|q: int| 0 <= q < hp[j].1.len() && hp[j].1[q] == r;
                                        assert(rs[q] == r);
                                    }
                                    if r == m.1 {
                                        assert(rs[rs.len() - 1] == r);
                                    }
                                }
                            }
                        } else {
                            assert(hs[i] == hp[i]);
                            assert(hp[i].0 != m.0);
                        }
                    }
                    assert forall|i: int| 0 <= i < hs.len() implies ((#[trigger] hs[i]).2 <==> law_num_found(metas, text, hs[i].0)) by {
                        if i != j {
                            assert(hs[i] == hp[i]);
                            assert(hp[i].0 != m.0);
                        }
                    }
                    assert forall|a: int, b: int| 0 <= a < b < hs.len() implies (#[trigger] hs[a]).0 != (#[trigger] hs[b]).0 by {
                        assert(hs[a].0 == hp[a].0);
                        assert(hs[b].0 == hp[b].0);
                    }
                },
                None => {
                    assert(hs == hp.push((m.0, seq![m.1], m.2, false)));
                    assert(!law_found(p, text, m.0)) by {
                        if law_found(p, text, m.0) {
                            let i = choose|i: int| 0 <= i < hp.len() && (#[trigger] hp[i]).0 == m.0;
                        }
                    }
                    assert forall|r: Seq<char>| !reason_found(p, text, m.0, r) by {
                        if reason_found(p, text, m.0, r) {
                            let k = choose|k: int| #[trigger] pattern_found(p, text, k) && p[k].0 == m.0 && p[k].1 == r;
                            assert(law_found(p, text, m.0));
                        }
                    }
                    assert(!law_num_found(p, text, m.0)) by {
                        if law_num_found(p, text, m.0) {
                            let k = choose|k: int| #[trigger] pattern_found(p, text, k) && p[k].0 == m.0 && p[k].2;
                            assert(law_found(p, text, m.0));
                        }
                    }
                    assert forall|id: Seq<char>| law_found(metas, text, id) <==> exists|i: int| 0 <= i < hs.len() && (#[trigger] hs[i]).0 == id by {
                        if law_found(metas, text, id) {
                            if id == m.0 {
                                assert(hs[hp.len() as int].0 == id);
                            } else {
                                assert(law_found(p, text, id));
                                let i = choose|i: int| 0 <= i < hp.len() && (#[trigger] hp[i]).0 == id;
                                assert(hs[i].0 == id);
                            }
                        }
                        if exists|i: int| 0 <= i < hs.len() && (#[trigger] hs[i]).0 == id {
                            let i = choose|i: int| 0 <= i < hs.len() && (#[trigger] hs[i]).0 == id;
                            if i < hp.len() {
                                assert(hp[i].0 == id);
                            }
                        }
                    }
                    assert forall|i: int, r: Seq<char>|
                        0 <= i < hs.len() implies (hs[i].1.contains(r) <==> reason_found(metas, text, hs[i].0, r)) by {
                        if i < hp.len() {
                            assert(hs[i] == hp[i]);
                            assert(hp[i].0 != m.0);
                        } else {
                            if seq![m.1].contains(r) {
                                let q = choose|q: int| 0 <= q < 1 && seq![m.1][q] == r;
                            }
                            if r == m.1 {
                                assert(seq![m.1][0] == r);
                            }
                        }
                    }
                    assert forall|i: int| 0 <= i < hs.len() implies ((#[trigger] hs[i]).2 <==> law_num_found(metas, text, hs[i].0)) by {
                        if i < hp.len() {
                            assert(hs[i] == hp[i]);
                            assert(hp[i].0 != m.0);
                        }
                    }
                    assert forall|a: int, b: int| 0 <= a < b < hs.len() implies (#[trigger] hs[a]).0 != (#[trigger] hs[b]).0 by {
                        if b < hp.len() {
                            assert(hs[a] == hp[a]);
                            assert(hs[b] == hp[b]);
                        } else {
                            assert(hs[a] == hp[a]);
                        }
                    }
                },
            }
        }
    }
}

// ---------------------------------------------------------------------------
// Grouping links by key
// ---------------------------------------------------------------------------

/// The positions among the first `n` of `keys` that hold `k`, in order.
pub open spec fn positions_upto(keys: Seq<Seq<char>>, k: Seq<char>, n: int) -> Seq<usize>
    decreases n,
{
    if n <= 0 {
        Seq::empty()
    } else {
        let p = positions_upto(keys, k, n - 1);
        if keys[n - 1] == k {
            p.push((n - 1) as usize)
        } else {
            p
        }
    }
}

/// The positions of `keys` that hold `k`, in order.
pub open spec fn positions_of(keys: Seq<Seq<char>>, k: Seq<char>) -> Seq<usize> {
    positions_upto(keys, k, keys.len() as int)
}

/// The keys of groups.
pub open spec fn group_keys(gs: Seq<(String, Vec<usize>)>) -> Seq<Seq<char>> {
    Seq::new(gs.len(), |j: int| gs[j].0@)
}

/// Groups positions by key (a link list by law or by record): each
/// distinct key once, in increasing order, with the positions that hold
/// it, in order.
pub fn group_by_key(keys: &Vec<String>) -> (groups: Vec<(String, Vec<usize>)>)
    ensures
        strictly_sorted(group_keys(groups@)),
        same_strings(group_keys(groups@), strings_of(keys@)),
        forall|j: int| 0 <= j < groups.len() ==> (#[trigger] groups@[j]).1@ == positions_of(strings_of(keys@), groups@[j].0@),
{
    let distinct = sorted_strings(keys);
    let ghost ks = strings_of(keys@);
    let mut groups: Vec<(String, Vec<usize>)> = Vec::new();
    let mut j: usize = 0;
    while j < distinct.len()
        invariant
            j <= distinct.len(),
            groups.len() == j,
            ks == strings_of(keys@),
            group_keys(groups@) == strings_of(distinct@).take(j as int),
            forall|g: int| 0 <= g < groups.len() ==> (#[trigger] groups@[g]).1@ == positions_of(ks, groups@[g].0@),
        decreases distinct.len() - j,
    {
        let d = chars_of(distinct[j].as_str());
        let mut pos: Vec<usize> = Vec::new();
        let mut i: usize = 0;
        while i < keys.len()
            invariant
                i <= keys.len(),
                ks == strings_of(keys@),
                pos@ == positions_upto(ks, d@, i as int),
            decreases keys.len() - i,
        {
            let c = chars_of(keys[i].as_str());
            assert(ks[i as int] == c@);
            if chars_eq(&c, &d) {
                pos.push(i);
            }
            i = i + 1;
        }
        let ghost before = groups@;
        let key = distinct[j].clone();
        assert(key@ == strings_of(distinct@)[j as int]);
        groups.push((key, pos));
        assert(groups@[j as int].0@ == strings_of(distinct@)[j as int]);
        assert forall|g: int| 0 <= g < j implies (#[trigger] group_keys(groups@)[g]) == strings_of(distinct@)[g] by {
            assert(groups@[g] == before[g]);
            assert(group_keys(before)[g] == strings_of(distinct@).take(j as int)[g]);
        }
        assert(group_keys(groups@) =~= strings_of(distinct@).take(j + 1));
        assert forall|g: int| 0 <= g < groups.len() implies (#[trigger] groups@[g]).1@ == positions_of(ks, groups@[g].0@) by {
            if g < before.len() {
                assert(groups@[g] == before[g]);
            }
        }
        j = j + 1;
    }
    assert(strings_of(distinct@).take(distinct.len() as int) =~= strings_of(distinct@));
    groups
}

} // verus!
