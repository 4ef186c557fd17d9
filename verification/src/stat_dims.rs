//! The labelled dimensions of a statistics observation: dimension name to
//! class label, kept in name order with each name once.
use vstd::prelude::*;
use crate::scan::{chars_lt, lemma_seq_lt_order, seq_lt};
use crate::text::{chars_eq, chars_of};

verus! {

/// The names of `s` are in strictly increasing order.
pub open spec fn names_sorted(s: Seq<(String, String)>) -> bool {
    forall|i: int, j: int| 0 <= i < j < s.len() ==> seq_lt((#[trigger] s[i]).0@, (#[trigger] s[j]).0@)
}

/// The map that the pairs `s` give, a later pair of a name winning.
pub open spec fn pairs_map(s: Seq<(String, String)>) -> Map<Seq<char>, Seq<char>>
    decreases s.len(),
{
    if s.len() == 0 {
        Map::empty()
    } else {
        pairs_map(s.drop_last()).insert(s.last().0@, s.last().1@)
    }
}

/// Every dimension name with its label, in name order.
#[derive(Debug, Clone)]
pub struct Dimensions {
    pairs: Vec<(String, String)>,
}

impl View for Dimensions {
    type V = Map<Seq<char>, Seq<char>>;

    closed spec fn view(&self) -> Map<Seq<char>, Seq<char>> {
        pairs_map(self.pairs@)
    }
}

/// With names in increasing order, each pair is in the map and the map
/// holds nothing else.
proof fn lemma_pairs_map(s: Seq<(String, String)>)
    requires
        names_sorted(s),
    ensures
        forall|j: int| 0 <= j < s.len() ==> #[trigger] pairs_map(s).contains_key(s[j].0@) && pairs_map(s)[s[j].0@] == s[j].1@,
        forall|x: Seq<char>| #[trigger] pairs_map(s).contains_key(x) ==> exists|j: int| 0 <= j < s.len() && (#[trigger] s[j]).0@ == x,
    decreases s.len(),
{
    if s.len() > 0 {
        let init = s.drop_last();
        assert forall|i: int, j: int| 0 <= i < j < init.len() implies seq_lt((#[trigger] init[i]).0@, (#[trigger] init[j]).0@) by {
            assert(init[i] == s[i] && init[j] == s[j]);
        }
        lemma_pairs_map(init);
        let n = s.len() - 1;
        assert(s.last() == s[n]);
        assert(pairs_map(s) == pairs_map(init).insert(s[n].0@, s[n].1@));
        assert forall|j: int| 0 <= j < s.len() implies #[trigger] pairs_map(s).contains_key(s[j].0@) && pairs_map(s)[s[j].0@] == s[j].1@ by {
            if j < n {
                assert(init[j] == s[j]);
                assert(pairs_map(init).contains_key(init[j].0@));
                assert(seq_lt(s[j].0@, s[n].0@));
                lemma_seq_lt_order(s[j].0@, s[j].0@, s[j].0@);
                assert(s[j].0@ != s[n].0@);
            }
        }
        assert forall|x: Seq<char>| #[trigger] pairs_map(s).contains_key(x) implies exists|j: int| 0 <= j < s.len() && (#[trigger] s[j]).0@ == x by {
            if x != s[n].0@ {
                assert(pairs_map(init).contains_key(x));
                let j = choose|j: int| 0 <= j < init.len() && (#[trigger] init[j]).0@ == x;
                assert(s[j] == init[j]);
            }
        }
    }
}

impl Dimensions {
    /// The names are in increasing order, each once.
    pub closed spec fn wf(&self) -> bool {
        names_sorted(self.pairs@)
    }

    /// The name–label pairs, in name order.
    pub closed spec fn pairs_view(&self) -> Seq<(String, String)> {
        self.pairs@
    }

    /// No dimension.
    pub fn new() -> (d: Self)
        ensures
            d.wf(),
            d@ == Map::<Seq<char>, Seq<char>>::empty(),
    {
        let d = Dimensions { pairs: Vec::new() };
        assert(d@ =~= Map::<Seq<char>, Seq<char>>::empty());
        d
    }

    /// Sets the label of dimension `name`.
    pub fn insert(&mut self, name: String, label: String)
        requires
            old(self).wf(),
        ensures
            final(self).wf(),
            final(self)@ == old(self)@.insert(name@, label@),
    {
        let ghost s = self.pairs@;
        let nc = chars_of(name.as_str());
        let mut p: usize = 0;
        while p < self.pairs.len()
            invariant
                p <= self.pairs.len(),
                self.pairs@ == s,
                nc@ == name@,
                forall|q: int| 0 <= q < p ==> seq_lt((#[trigger] s[q]).0@, name@),
            ensures
                p <= self.pairs.len(),
                self.pairs@ == s,
                forall|q: int| 0 <= q < p ==> seq_lt((#[trigger] s[q]).0@, name@),
                p < s.len() ==> !seq_lt(s[p as int].0@, name@),
            decreases self.pairs.len() - p,
        {
            let kc = chars_of(self.pairs[p].0.as_str());
            assert(kc@ == s[p as int].0@);
            if !chars_lt(&kc, &nc) {
                break;
            }
            p = p + 1;
        }
        proof {
            lemma_pairs_map(s);
        }
        if p < self.pairs.len() && chars_eq(&chars_of(self.pairs[p].0.as_str()), &nc) {
            self.pairs.set(p, (name, label));
            let ghost t = self.pairs@;
            assert forall|i: int, j: int| 0 <= i < j < t.len() implies seq_lt((#[trigger] t[i]).0@, (#[trigger] t[j]).0@) by {
                assert(t[i].0@ == s[i].0@ && t[j].0@ == s[j].0@);
            }
            proof {
                lemma_pairs_map(t);
            }
            assert(self@ =~= pairs_map(s).insert(name@, label@)) by {
                assert forall|x: Seq<char>| #[trigger] pairs_map(t).contains_key(x) == pairs_map(s).insert(name@, label@).contains_key(x) by {
                    if pairs_map(t).contains_key(x) {
                        let j = choose|j: int| 0 <= j < t.len() && (#[trigger] t[j]).0@ == x;
                        assert(s[j].0@ == x);
                    }
                    if pairs_map(s).contains_key(x) {
                        let j = choose|j: int| 0 <= j < s.len() && (#[trigger] s[j]).0@ == x;
                        assert(t[j].0@ == x);
                    }
                    if x == name@ {
                        assert(t[p as int].0@ == x);
                    }
                }
                assert forall|x: Seq<char>| #[trigger] pairs_map(t).contains_key(x) implies pairs_map(t)[x] == pairs_map(s).insert(name@, label@)[x] by {
                    let j = choose|j: int| 0 <= j < t.len() && (#[trigger] t[j]).0@ == x;
                    assert(t[p as int].0@ == name@ && t[p as int].1@ == label@);
                    assert(pairs_map(t).contains_key(t[j].0@));
                    if j != p {
                        assert(t[j] == s[j]);
                        assert(pairs_map(s).contains_key(s[j].0@));
                        if j < p {
                            assert(seq_lt(t[j].0@, t[p as int].0@));
                        } else {
                            assert(seq_lt(t[p as int].0@, t[j].0@));
                        }
                        lemma_seq_lt_order(x, x, x);
                        assert(x != name@);
                    } else {
                        assert(pairs_map(t).contains_key(t[p as int].0@));
                    }
                }
            }
        } else {
            proof {
                if p < s.len() {
                    assert(s[p as int].0@ != name@);
                    lemma_seq_lt_order(name@, s[p as int].0@, name@);
                    assert(seq_lt(name@, s[p as int].0@));
                }
            }
            let mut v: Vec<(String, String)> = Vec::new();
            std::mem::swap(&mut v, &mut self.pairs);
            v.insert(p, (name, label));
            self.pairs = v;
            let ghost t = self.pairs@;
            assert(t.len() == s.len() + 1);
            assert forall|i: int| 0 <= i < t.len() implies (#[trigger] t[i]) == (if i < p { s[i] } else if i == p { t[p as int] } else { s[i - 1] }) by {}
            assert forall|i: int, j: int| 0 <= i < j < t.len() implies seq_lt((#[trigger] t[i]).0@, (#[trigger] t[j]).0@) by {
                if j < p {
                    assert(t[i] == s[i] && t[j] == s[j]);
                } else if j == p {
                    assert(t[i] == s[i]);
                } else if i == p {
                    assert(t[j] == s[j - 1]);
                    if j - 1 > p {
                        assert(seq_lt(s[p as int].0@, s[j - 1].0@));
                        lemma_seq_lt_order(name@, s[p as int].0@, s[j - 1].0@);
                    }
                } else if i < p {
                    assert(t[i] == s[i] && t[j] == s[j - 1]);
                    lemma_seq_lt_order(s[i].0@, name@, s[j - 1].0@);
                    if j - 1 >= p {
                        assert(seq_lt(name@, s[p as int].0@));
                        if j - 1 > p {
                            assert(seq_lt(s[p as int].0@, s[j - 1].0@));
                            lemma_seq_lt_order(name@, s[p as int].0@, s[j - 1].0@);
                        }
                    }
                } else {
                    assert(t[i] == s[i - 1] && t[j] == s[j - 1]);
                }
            }
            proof {
                lemma_pairs_map(t);
            }
            assert(self@ =~= pairs_map(s).insert(name@, label@)) by {
                assert forall|x: Seq<char>| #[trigger] pairs_map(t).contains_key(x) == pairs_map(s).insert(name@, label@).contains_key(x) by {
                    if pairs_map(t).contains_key(x) {
                        let j = choose|j: int| 0 <= j < t.len() && (#[trigger] t[j]).0@ == x;
                        if j < p {
                            assert(t[j] == s[j]);
                        } else if j > p {
                            assert(t[j] == s[j - 1]);
                        }
                    }
                    if pairs_map(s).contains_key(x) {
                        let j = choose|j: int| 0 <= j < s.len() && (#[trigger] s[j]).0@ == x;
                        if j < p {
                            assert(t[j] == s[j]);
                        } else {
                            assert(t[j + 1] == s[j]);
                        }
                    }
                    if x == name@ {
                        assert(t[p as int].0@ == x);
                    }
                }
                assert forall|x: Seq<char>| #[trigger] pairs_map(t).contains_key(x) implies pairs_map(t)[x] == pairs_map(s).insert(name@, label@)[x] by {
                    let j = choose|j: int| 0 <= j < t.len() && (#[trigger] t[j]).0@ == x;
                    if j < p {
                        assert(t[j] == s[j]);
                        lemma_seq_lt_order(x, x, x);
                    } else if j > p {
                        assert(t[j] == s[j - 1]);
                        lemma_seq_lt_order(x, x, x);
                        if p < s.len() {
                            if j - 1 > p {
                                assert(seq_lt(s[p as int].0@, s[j - 1].0@));
                                lemma_seq_lt_order(name@, s[p as int].0@, s[j - 1].0@);
                            }
                        }
                    }
                }
            }
        }
    }

    /// The label of dimension `name`, if it has one.
    pub fn get(&self, name: &str) -> (r: Option<&String>)
        requires
            self.wf(),
        ensures
            match r {
                Some(l) => self@.contains_key(name@) && self@[name@] == l@,
                None => !self@.contains_key(name@),
            },
    {
        proof {
            lemma_pairs_map(self.pairs@);
        }
        let nc = chars_of(name);
        let mut i: usize = 0;
        while i < self.pairs.len()
            invariant
                i <= self.pairs.len(),
                nc@ == name@,
                names_sorted(self.pairs@),
                forall|q: int| 0 <= q < i ==> (#[trigger] self.pairs@[q]).0@ != name@,
            decreases self.pairs.len() - i,
        {
            if chars_eq(&chars_of(self.pairs[i].0.as_str()), &nc) {
                proof {
                    lemma_pairs_map(self.pairs@);
                }
                assert(pairs_map(self.pairs@).contains_key(self.pairs@[i as int].0@));
                return Some(&self.pairs[i].1);
            }
            i = i + 1;
        }
        None
    }

    /// Whether there is no dimension.
    pub fn is_empty(&self) -> (b: bool)
        ensures
            b == (self@ == Map::<Seq<char>, Seq<char>>::empty()),
    {
        if self.pairs.len() == 0 {
            assert(self@ =~= Map::<Seq<char>, Seq<char>>::empty());
            true
        } else {
            assert(self@.contains_key(self.pairs@.last().0@));
            false
        }
    }

    /// The name–label pairs, in name order.
    pub fn pairs(&self) -> (r: &Vec<(String, String)>)
        ensures
            r@ == self.pairs_view(),
            pairs_map(r@) == self@,
    {
        &self.pairs
    }
}

} // verus!
