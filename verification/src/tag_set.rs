//! A set of tag names, kept in ascending order without repetitions.

use vstd::prelude::*;
use crate::text::{seq_lt, lemma_seq_lt_irreflexive, lemma_seq_lt_total, lemma_seq_lt_transitive, str_eq, str_lt};

verus! {

/// The character views of a sequence of strings.
pub open spec fn views(v: Seq<String>) -> Seq<Seq<char>> {
    v.map_values(|s: String| s@)
}

/// Every element is smaller than every later one.
pub open spec fn sorted_strict(s: Seq<Seq<char>>) -> bool {
    forall|i: int, j: int| 0 <= i < j < s.len() ==> seq_lt(#[trigger] s[i], #[trigger] s[j])
}

pub proof fn lemma_sorted_strict_unique(s: Seq<Seq<char>>, i: int, j: int)
    requires
        sorted_strict(s),
        0 <= i < s.len(),
        0 <= j < s.len(),
        s[i] == s[j],
    ensures
        i == j,
{
    if i < j {
        lemma_seq_lt_irreflexive(s[i]);
    } else if j < i {
        lemma_seq_lt_irreflexive(s[i]);
    }
}

/// Two ascending sequences without repetitions that hold the same elements
/// are equal.
pub proof fn lemma_sorted_strict_same_set(a: Seq<Seq<char>>, b: Seq<Seq<char>>)
    requires
        sorted_strict(a),
        sorted_strict(b),
        a.to_set() == b.to_set(),
    ensures
        a == b,
    decreases a.len(),
{
    if a.len() == 0 {
        if b.len() > 0 {
            assert(b.to_set().contains(b[0]));
        }
        assert(a =~= b);
    } else if b.len() == 0 {
        assert(a.to_set().contains(a[0]));
    } else {
        assert(b.to_set().contains(a[0]));
        assert(a.to_set().contains(b[0]));
        let k = choose|k: int| 0 <= k < b.len() && b[k] == a[0];
        let m = choose|m: int| 0 <= m < a.len() && a[m] == b[0];
        if k > 0 && m > 0 {
            // b[0] < b[k] == a[0] < a[m] == b[0]
            lemma_seq_lt_transitive(b[0], a[0], b[0]);
            lemma_seq_lt_irreflexive(b[0]);
        } else if k > 0 {
            assert(a[0] == b[0]);
            lemma_sorted_strict_unique(b, 0, k);
        }
        assert(a[0] == b[0]);
        let a1 = a.drop_first();
        let b1 = b.drop_first();
        assert(sorted_strict(a1)) by {
            assert forall|i: int, j: int| 0 <= i < j < a1.len() implies seq_lt(#[trigger] a1[i], #[trigger] a1[j]) by {
                assert(a1[i] == a[i + 1] && a1[j] == a[j + 1]);
            }
        }
        assert(sorted_strict(b1)) by {
            assert forall|i: int, j: int| 0 <= i < j < b1.len() implies seq_lt(#[trigger] b1[i], #[trigger] b1[j]) by {
                assert(b1[i] == b[i + 1] && b1[j] == b[j + 1]);
            }
        }
        assert(a1.to_set() =~= b1.to_set()) by {
            assert forall|x: Seq<char>| a1.to_set().contains(x) <==> b1.to_set().contains(x) by {
                if a1.to_set().contains(x) {
                    let i = choose|i: int| 0 <= i < a1.len() && a1[i] == x;
                    assert(a.to_set().contains(x)) by { assert(a[i + 1] == x); }
                    let j = choose|j: int| 0 <= j < b.len() && b[j] == x;
                    if j == 0 {
                        lemma_sorted_strict_unique(a, 0, i + 1);
                    } else {
                        assert(b1[j - 1] == x);
                    }
                }
                if b1.to_set().contains(x) {
                    let i = choose|i: int| 0 <= i < b1.len() && b1[i] == x;
                    assert(b.to_set().contains(x)) by { assert(b[i + 1] == x); }
                    let j = choose|j: int| 0 <= j < a.len() && a[j] == x;
                    if j == 0 {
                        lemma_sorted_strict_unique(b, 0, i + 1);
                    } else {
                        assert(a1[j - 1] == x);
                    }
                }
            }
        }
        lemma_sorted_strict_same_set(a1, b1);
        assert(a =~= b) by {
            assert forall|i: int| 0 <= i < a.len() implies a[i] == b[i] by {
                if i > 0 {
                    assert(a[i] == a1[i - 1] && b[i] == b1[i - 1]);
                }
            }
        }
    }
}

/// The ascending listing of a finite set of tags.
pub open spec fn sorted_of(s: Set<Seq<char>>) -> Seq<Seq<char>> {
    choose|q: Seq<Seq<char>>| sorted_strict(q) && q.to_set() == s
}

/// Copies a list of strings.
pub fn clone_strings(v: &Vec<String>) -> (r: Vec<String>)
    ensures
        views(r@) == views(v@),
{
    let mut r: Vec<String> = Vec::new();
    let mut i: usize = 0;
    while i < v.len()
        invariant
            i <= v.len(),
            views(r@) == views(v@).take(i as int),
        decreases v.len() - i,
    {
        r.push(v[i].clone());
        assert(views(v@).take(i + 1) == views(v@).take(i as int).push(v@[i as int]@));
        assert(views(r@) =~= views(r@).drop_last().push(v@[i as int]@));
        i += 1;
    }
    assert(views(v@).take(v.len() as int) =~= views(v@));
    r
}

/// A set of tags. Its contents are held in ascending order, so walking them
/// gives the same sorted listing that the callers print.
pub struct TagSet {
    items: Vec<String>,
}

impl View for TagSet {
    type V = Set<Seq<char>>;

    closed spec fn view(&self) -> Set<Seq<char>> {
        views(self.items@).to_set()
    }
}

impl TagSet {
    /// The tags in ascending order.
    pub closed spec fn seq(&self) -> Seq<Seq<char>> {
        views(self.items@)
    }

    pub closed spec fn wf(&self) -> bool {
        sorted_strict(self.seq())
    }

    pub proof fn lemma_seq_view(&self)
        requires
            self.wf(),
        ensures
            sorted_strict(self.seq()),
            self.seq().to_set() == self@,
            self.seq().len() == self@.len(),
            forall|t: Seq<char>| self@.contains(t) <==> self.seq().contains(t),
    {
        let s = self.seq();
        assert(s.no_duplicates()) by {
            assert forall|i: int, j: int| 0 <= i < s.len() && 0 <= j < s.len() && i != j implies s[i] != s[j] by {
                if s[i] == s[j] {
                    lemma_sorted_strict_unique(s, i, j);
                }
            }
        }
        s.unique_seq_to_set();
    }

    /// The ascending listing of a tag set is its stored order.
    pub proof fn lemma_sorted_of(&self)
        requires
            self.wf(),
        ensures
            self.seq() == sorted_of(self@),
    {
        self.lemma_seq_view();
        let q = sorted_of(self@);
        assert(sorted_strict(self.seq()) && self.seq().to_set() == self@);
        lemma_sorted_strict_same_set(self.seq(), q);
    }

    pub fn new() -> (r: TagSet)
        ensures
            r.wf(),
            r@ == Set::<Seq<char>>::empty(),
            r.seq() == Seq::<Seq<char>>::empty(),
    {
        let r = TagSet { items: Vec::new() };
        assert(r.seq() =~= Seq::<Seq<char>>::empty());
        assert(r@ =~= Set::<Seq<char>>::empty());
        r
    }

    /// A copy of the set.
    pub fn copy(&self) -> (r: TagSet)
        ensures
            r.seq() == self.seq(),
            r@ == self@,
            r.wf() == self.wf(),
    {
        TagSet { items: clone_strings(&self.items) }
    }

    pub fn len(&self) -> (n: usize)
        requires
            self.wf(),
        ensures
            n == self@.len(),
    {
        proof {
            self.lemma_seq_view();
        }
        self.items.len()
    }

    pub fn is_empty(&self) -> (r: bool)
        requires
            self.wf(),
        ensures
            r == (self@ == Set::<Seq<char>>::empty()),
    {
        proof {
            self.lemma_seq_view();
            if self.items.len() > 0 {
                assert(self@.contains(self.seq()[0]));
            } else {
                assert(self@ =~= Set::<Seq<char>>::empty());
            }
        }
        self.items.len() == 0
    }

    /// The tags in ascending order.
    pub fn as_vec(&self) -> (r: &Vec<String>)
        ensures
            views(r@) == self.seq(),
    {
        &self.items
    }

    pub fn contains(&self, tag: &str) -> (r: bool)
        requires
            self.wf(),
        ensures
            r == self@.contains(tag@),
    {
        proof {
            self.lemma_seq_view();
        }
        let mut i: usize = 0;
        while i < self.items.len()
            invariant
                i <= self.items.len(),
                forall|k: int| 0 <= k < i ==> self.seq()[k] != tag@,
            decreases self.items.len() - i,
        {
            if str_eq(self.items[i].as_str(), tag) {
                assert(self.seq()[i as int] == tag@);
                return true;
            }
            i += 1;
        }
        false
    }

    /// Position of the first stored tag that is not smaller than `tag`.
    fn lower_bound(&self, tag: &str) -> (i: usize)
        requires
            self.wf(),
        ensures
            i <= self.items.len(),
            forall|k: int| 0 <= k < i ==> seq_lt(#[trigger] self.seq()[k], tag@),
            i < self.items.len() ==> !seq_lt(self.seq()[i as int], tag@),
    {
        let mut i: usize = 0;
        while i < self.items.len() && str_lt(self.items[i].as_str(), tag)
            invariant
                i <= self.items.len(),
                forall|k: int| 0 <= k < i ==> seq_lt(#[trigger] self.seq()[k], tag@),
            decreases self.items.len() - i,
        {
            i += 1;
        }
        i
    }

    pub fn insert(&mut self, tag: &str)
        requires
            old(self).wf(),
        ensures
            final(self).wf(),
            final(self)@ == old(self)@.insert(tag@),
    {
        let i = self.lower_bound(tag);
        if i < self.items.len() && str_eq(self.items[i].as_str(), tag) {
            proof {
                assert(self.seq().contains(tag@));
                assert(self@ =~= old(self)@.insert(tag@));
            }
            return;
        }
        let ghost s = self.seq();
        let owned = String::from_str(tag);
        self.items.insert(i, owned);
        proof {
            let t = tag@;
            assert(self.seq() =~= s.insert(i as int, t));
            if i < s.len() {
                lemma_seq_lt_total(s[i as int], t);
            }
            assert forall|a: int, b: int| 0 <= a < b < self.seq().len() implies seq_lt(
                #[trigger] self.seq()[a],
                #[trigger] self.seq()[b],
            ) by {
                let n = self.seq();
                if b < i {
                } else if b == i {
                } else if a < i {
                    // n[b] == s[b - 1] and s[b - 1] >= s[i] > t > s[a]
                    if b - 1 > i {
                        lemma_seq_lt_transitive(t, s[i as int], s[b - 1]);
                    }
                    lemma_seq_lt_transitive(s[a], t, s[b - 1]);
                } else if a == i {
                    if b - 1 > i {
                        lemma_seq_lt_transitive(t, s[i as int], s[b - 1]);
                    }
                } else {
                }
            }
            assert(self@ =~= old(self)@.insert(tag@)) by {
                assert forall|x: Seq<char>| self@.contains(x) <==> old(self)@.insert(tag@).contains(x) by {
                    if self.seq().contains(x) {
                        let k = choose|k: int| 0 <= k < self.seq().len() && self.seq()[k] == x;
                        if k < i {
                            assert(s[k] == x);
                        } else if k > i {
                            assert(s[k - 1] == x);
                        }
                    }
                    if s.contains(x) {
                        let k = choose|k: int| 0 <= k < s.len() && s[k] == x;
                        if k < i {
                            assert(self.seq()[k] == x);
                        } else {
                            assert(self.seq()[k + 1] == x);
                        }
                    }
                    if x == tag@ {
                        assert(self.seq()[i as int] == x);
                    }
                }
            }
        }
    }

    pub fn remove(&mut self, tag: &str)
        requires
            old(self).wf(),
        ensures
            final(self).wf(),
            final(self)@ == old(self)@.remove(tag@),
    {
        proof {
            self.lemma_seq_view();
        }
        let i = self.lower_bound(tag);
        if i < self.items.len() && str_eq(self.items[i].as_str(), tag) {
            let ghost s = self.seq();
            self.items.remove(i);
            proof {
                assert(self.seq() =~= s.remove(i as int));
                assert(self.wf());
                assert forall|x: Seq<char>| self@.contains(x) <==> old(self)@.remove(tag@).contains(x) by {
                    if self.seq().contains(x) {
                        let k = choose|k: int| 0 <= k < self.seq().len() && self.seq()[k] == x;
                        if k < i {
                            assert(s[k] == x);
                            if x == tag@ {
                                lemma_sorted_strict_unique(s, k, i as int);
                            }
                        } else {
                            assert(s[k + 1] == x);
                            if x == tag@ {
                                lemma_sorted_strict_unique(s, k + 1, i as int);
                            }
                        }
                    }
                    if s.contains(x) && x != tag@ {
                        let k = choose|k: int| 0 <= k < s.len() && s[k] == x;
                        if k < i {
                            assert(self.seq()[k] == x);
                        } else {
                            assert(self.seq()[k - 1] == x);
                        }
                    }
                }
                assert(self@ =~= old(self)@.remove(tag@));
            }
        } else {
            proof {
                if self.seq().contains(tag@) {
                    let k = choose|k: int| 0 <= k < self.seq().len() && self.seq()[k] == tag@;
                    if k < i {
                        lemma_seq_lt_irreflexive(tag@);
                    } else if k > i {
                        lemma_seq_lt_total(self.seq()[i as int], tag@);
                        lemma_seq_lt_transitive(tag@, self.seq()[i as int], self.seq()[k]);
                        lemma_seq_lt_irreflexive(tag@);
                    }
                }
                assert(self@ =~= old(self)@.remove(tag@));
            }
        }
    }
}

} // verus!

verus! {

/// Filtering keeps a sorted sequence sorted, and keeps exactly the
/// elements that pass.
pub proof fn lemma_filter_sorted(s: Seq<Seq<char>>, p: spec_fn(Seq<char>) -> bool)
    requires
        sorted_strict(s),
    ensures
        sorted_strict(s.filter(p)),
        forall|t: Seq<char>| s.filter(p).contains(t) <==> (s.contains(t) && p(t)),
    decreases s.len(),
{
    broadcast use vstd::seq_lib::group_seq_properties;

    if s.len() == 0 {
        assert(s.filter(p).len() == 0);
    } else {
        let s0 = s.drop_last();
        let x = s.last();
        assert(s0.push(x) =~= s);
        assert(sorted_strict(s0));
        lemma_filter_sorted(s0, p);
        s0.lemma_filter_push(x, p);
        let f0 = s0.filter(p);
        if p(x) {
            assert forall|i: int, j: int| 0 <= i < j < s.filter(p).len() implies seq_lt(
                #[trigger] s.filter(p)[i],
                #[trigger] s.filter(p)[j],
            ) by {
                assert(s.filter(p) == f0.push(x));
                if j == f0.len() {
                    assert(f0.contains(f0[i]));
                    assert(s0.contains(f0[i]));
                    let k = choose|k: int| 0 <= k < s0.len() && s0[k] == f0[i];
                    assert(s[k] == s0[k]);
                    assert(s[s.len() - 1] == x);
                }
            }
        }
        assert forall|t: Seq<char>| s.filter(p).contains(t) <==> (s.contains(t) && p(t)) by {
            if s.contains(t) {
                let k = choose|k: int| 0 <= k < s.len() && s[k] == t;
                if k < s.len() - 1 {
                    assert(s0[k] == t);
                }
            }
            if s0.contains(t) {
                let k = choose|k: int| 0 <= k < s0.len() && s0[k] == t;
                assert(s[k] == t);
            }
            if p(x) {
                assert(s.filter(p)[f0.len() as int] == x);
            }
        }
    }
}

} // verus!
