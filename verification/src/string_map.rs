//! A map keyed by strings, kept as a list of pairs in which no key occurs
//! twice, and viewed as a mathematical map.

use vstd::prelude::*;
use crate::text::str_eq;

verus! {

/// The map a list of pairs describes (a later key overrides an earlier one).
pub open spec fn pairs_map<V>(s: Seq<(String, V)>) -> Map<Seq<char>, V>
    decreases s.len(),
{
    if s.len() == 0 {
        Map::empty()
    } else {
        pairs_map(s.drop_last()).insert(s.last().0@, s.last().1)
    }
}

/// No key occurs twice.
pub open spec fn unique_keys<V>(s: Seq<(String, V)>) -> bool {
    forall|i: int, j: int| 0 <= i < j < s.len() ==> (#[trigger] s[i]).0@ != (#[trigger] s[j]).0@
}

pub proof fn lemma_unique_prefix<V>(s: Seq<(String, V)>, n: int)
    requires
        unique_keys(s),
        0 <= n <= s.len(),
    ensures
        unique_keys(s.take(n)),
{
    assert forall|a: int, b: int| 0 <= a < b < s.take(n).len() implies (#[trigger] s.take(n)[a]).0@
        != (#[trigger] s.take(n)[b]).0@ by {
        assert(s.take(n)[a] == s[a]);
        assert(s.take(n)[b] == s[b]);
    }
}

pub proof fn lemma_pairs_map_dom<V>(s: Seq<(String, V)>, k: Seq<char>)
    ensures
        pairs_map(s).dom().contains(k) <==> exists|i: int| 0 <= i < s.len() && (#[trigger] s[i]).0@ == k,
    decreases s.len(),
{
    if s.len() > 0 {
        lemma_pairs_map_dom(s.drop_last(), k);
        if pairs_map(s.drop_last()).dom().contains(k) {
            let i = choose|i: int| 0 <= i < s.drop_last().len() && (#[trigger] s.drop_last()[i]).0@ == k;
            assert(s[i] == s.drop_last()[i]);
        }
        if exists|i: int| 0 <= i < s.len() && (#[trigger] s[i]).0@ == k {
            let i = choose|i: int| 0 <= i < s.len() && (#[trigger] s[i]).0@ == k;
            if i < s.len() - 1 {
                assert(s.drop_last()[i] == s[i]);
            }
        }
    }
}

pub proof fn lemma_pairs_map_index<V>(s: Seq<(String, V)>, i: int)
    requires
        unique_keys(s),
        0 <= i < s.len(),
    ensures
        pairs_map(s).dom().contains(s[i].0@),
        pairs_map(s)[s[i].0@] == s[i].1,
    decreases s.len(),
{
    if i < s.len() - 1 {
        assert(s.drop_last() =~= s.take(s.len() - 1));
        lemma_unique_prefix(s, s.len() - 1);
        assert(s.drop_last()[i] == s[i]);
        lemma_pairs_map_index(s.drop_last(), i);
        assert(s[i].0@ != s.last().0@);
    }
}

pub proof fn lemma_pairs_map_len<V>(s: Seq<(String, V)>)
    requires
        unique_keys(s),
    ensures
        pairs_map(s).dom().finite(),
        pairs_map(s).dom().len() == s.len(),
    decreases s.len(),
{
    if s.len() > 0 {
        assert(s.drop_last() =~= s.take(s.len() - 1));
        lemma_unique_prefix(s, s.len() - 1);
        lemma_pairs_map_len(s.drop_last());
        lemma_pairs_map_dom(s.drop_last(), s.last().0@);
        if pairs_map(s.drop_last()).dom().contains(s.last().0@) {
            let i = choose|i: int| 0 <= i < s.drop_last().len() && (#[trigger] s.drop_last()[i]).0@
                == s.last().0@;
            assert(s.drop_last()[i] == s[i]);
            assert(s[i].0@ != s[s.len() - 1].0@);
        }
    }
}

pub proof fn lemma_pairs_map_update<V>(s: Seq<(String, V)>, i: int, e: (String, V))
    requires
        0 <= i < s.len(),
        s[i].0@ == e.0@,
        unique_keys(s),
    ensures
        pairs_map(s.update(i, e)) == pairs_map(s).insert(e.0@, e.1),
        unique_keys(s.update(i, e)),
    decreases s.len(),
{
    let t = s.update(i, e);
    assert(unique_keys(t)) by {
        assert forall|a: int, b: int| 0 <= a < b < t.len() implies (#[trigger] t[a]).0@ != (
        #[trigger] t[b]).0@ by {
            assert(s[a].0@ != s[b].0@);
        }
    }
    if i == s.len() - 1 {
        assert(t.drop_last() =~= s.drop_last());
        assert(pairs_map(t) =~= pairs_map(s).insert(e.0@, e.1));
    } else {
        assert(s.drop_last() =~= s.take(s.len() - 1));
        lemma_unique_prefix(s, s.len() - 1);
        lemma_pairs_map_update(s.drop_last(), i, e);
        assert(t.drop_last() =~= s.drop_last().update(i, e));
        assert(s.last().0@ != e.0@);
        assert(pairs_map(t) =~= pairs_map(s).insert(e.0@, e.1));
    }
}

pub proof fn lemma_pairs_map_push<V>(s: Seq<(String, V)>, e: (String, V))
    requires
        unique_keys(s),
        !pairs_map(s).dom().contains(e.0@),
    ensures
        pairs_map(s.push(e)) == pairs_map(s).insert(e.0@, e.1),
        unique_keys(s.push(e)),
{
    assert(s.push(e).drop_last() =~= s);
    lemma_pairs_map_dom(s, e.0@);
    let t = s.push(e);
    assert forall|a: int, b: int| 0 <= a < b < t.len() implies (#[trigger] t[a]).0@ != (
    #[trigger] t[b]).0@ by {
        assert(t[a] == s[a]);
        if b < s.len() {
            assert(t[b] == s[b]);
        }
    }
}

/// A map keyed by strings.
pub struct StringMap<V> {
    entries: Vec<(String, V)>,
}

impl<V> View for StringMap<V> {
    type V = Map<Seq<char>, V>;

    closed spec fn view(&self) -> Map<Seq<char>, V> {
        pairs_map(self.entries@)
    }
}

impl<V> StringMap<V> {
    /// Each key has one entry.
    pub closed spec fn wf(&self) -> bool {
        unique_keys(self.entries@)
    }

    /// The entries in their stored order.
    pub closed spec fn pairs(&self) -> Seq<(String, V)> {
        self.entries@
    }

    /// The stored order lists the map, each key once.
    pub proof fn lemma_pairs(&self)
        requires
            self.wf(),
        ensures
            unique_keys(self.pairs()),
            pairs_map(self.pairs()) == self@,
            self@.dom().finite(),
            self@.dom().len() == self.pairs().len(),
            forall|i: int|
                0 <= i < self.pairs().len() ==> self@.dom().contains((#[trigger] self.pairs()[i]).0@)
                    && self@[self.pairs()[i].0@] == self.pairs()[i].1,
    {
        lemma_pairs_map_len(self.entries@);
        assert forall|i: int| 0 <= i < self.pairs().len() implies self@.dom().contains(
            (#[trigger] self.pairs()[i]).0@,
        ) && self@[self.pairs()[i].0@] == self.pairs()[i].1 by {
            lemma_pairs_map_index(self.entries@, i);
        }
    }

    /// Every key of the map appears in the stored order.
    pub proof fn lemma_keys_listed(&self, k: Seq<char>)
        requires
            self.wf(),
            self@.dom().contains(k),
        ensures
            exists|i: int| 0 <= i < self.pairs().len() && (#[trigger] self.pairs()[i]).0@ == k,
    {
        lemma_pairs_map_dom(self.entries@, k);
        let i = choose|i: int| 0 <= i < self.entries@.len() && (#[trigger] self.entries@[i]).0@ == k;
        assert(self.pairs()[i].0@ == k);
    }

    pub fn new() -> (r: Self)
        ensures
            r.wf(),
            r@ == Map::<Seq<char>, V>::empty(),
            r.pairs().len() == 0,
    {
        StringMap { entries: Vec::new() }
    }

    fn position(&self, key: &str) -> (r: Option<usize>)
        requires
            self.wf(),
        ensures
            match r {
                Some(i) => i < self.entries@.len() && self.entries@[i as int].0@ == key@,
                None => !self@.dom().contains(key@),
            },
    {
        let mut i: usize = 0;
        while i < self.entries.len()
            invariant
                i <= self.entries@.len(),
                forall|j: int| 0 <= j < i ==> (#[trigger] self.entries@[j]).0@ != key@,
            decreases self.entries.len() - i,
        {
            if str_eq(self.entries[i].0.as_str(), key) {
                return Some(i);
            }
            i += 1;
        }
        proof {
            lemma_pairs_map_dom(self.entries@, key@);
        }
        None
    }

    /// The number of keys.
    pub fn len(&self) -> (r: usize)
        requires
            self.wf(),
        ensures
            r == self@.dom().len(),
            r == self.pairs().len(),
    {
        proof {
            lemma_pairs_map_len(self.entries@);
        }
        self.entries.len()
    }

    pub fn is_empty(&self) -> (r: bool)
        requires
            self.wf(),
        ensures
            r == (self@.dom().len() == 0),
    {
        proof {
            lemma_pairs_map_len(self.entries@);
        }
        self.entries.len() == 0
    }

    pub fn contains_key(&self, key: &str) -> (r: bool)
        requires
            self.wf(),
        ensures
            r == self@.dom().contains(key@),
    {
        match self.position(key) {
            Some(i) => {
                proof {
                    lemma_pairs_map_index(self.entries@, i as int);
                }
                true
            },
            None => false,
        }
    }

    /// The value of a key, if it has one.
    pub fn get(&self, key: &str) -> (r: Option<&V>)
        requires
            self.wf(),
        ensures
            match r {
                Some(v) => self@.dom().contains(key@) && self@[key@] == *v,
                None => !self@.dom().contains(key@),
            },
    {
        match self.position(key) {
            Some(i) => {
                proof {
                    lemma_pairs_map_index(self.entries@, i as int);
                }
                Some(&self.entries[i].1)
            },
            None => None,
        }
    }

    /// The key stored at a position of the stored order.
    pub fn key_at(&self, i: usize) -> (r: &String)
        requires
            i < self.pairs().len(),
        ensures
            *r == self.pairs()[i as int].0,
    {
        &self.entries[i].0
    }

    /// The value stored at a position of the stored order.
    pub fn value_at(&self, i: usize) -> (r: &V)
        requires
            i < self.pairs().len(),
        ensures
            *r == self.pairs()[i as int].1,
    {
        &self.entries[i].1
    }

    /// Sets the value of a key.
    pub fn insert(&mut self, key: String, value: V)
        requires
            old(self).wf(),
        ensures
            final(self).wf(),
            final(self)@ == old(self)@.insert(key@, value),
    {
        match self.position(key.as_str()) {
            Some(i) => {
                let ghost s = self.entries@;
                proof {
                    lemma_pairs_map_update(s, i as int, (key, value));
                }
                self.entries.remove(i);
                self.entries.insert(i, (key, value));
                assert(self.entries@ =~= s.update(i as int, (key, value)));
            },
            None => {
                let ghost s = self.entries@;
                proof {
                    lemma_pairs_map_push(s, (key, value));
                }
                self.entries.push((key, value));
            },
        }
    }

    /// Keeps only the keys listed in `keep`; the others go.
    pub fn retain_keys(&mut self, keep: &Vec<String>)
        requires
            old(self).wf(),
        ensures
            final(self).wf(),
            final(self)@ == old(self)@.restrict(string_set(keep@)),
    {
        let ghost ks = string_set(keep@);
        let ghost s = self.entries@;
        let mut src: Vec<(String, V)> = Vec::new();
        std::mem::swap(&mut src, &mut self.entries);
        let mut rev: Vec<(String, V)> = Vec::new();
        while src.len() > 0
            invariant
                src@.len() <= s.len(),
                src@ == s.take(src@.len() as int),
                rev@ == s.skip(src@.len() as int).reverse(),
            decreases src@.len(),
        {
            let ghost n = src@.len();
            let e = src.pop().unwrap();
            rev.push(e);
            assert(src@ =~= s.take(src@.len() as int));
            assert(rev@ =~= s.skip(src@.len() as int).reverse());
        }
        let mut kept: Vec<(String, V)> = Vec::new();
        let ghost mut j: int = 0;
        assert(s.take(0) =~= Seq::<(String, V)>::empty());
        assert(pairs_map(kept@) =~= pairs_map(s.take(0)).restrict(ks));
        while rev.len() > 0
            invariant
                0 <= j <= s.len(),
                unique_keys(s),
                ks == string_set(keep@),
                rev@ == s.skip(j).reverse(),
                rev@.len() == s.len() - j,
                unique_keys(kept@),
                pairs_map(kept@) == pairs_map(s.take(j)).restrict(ks),
            decreases rev@.len(),
        {
            let e = rev.pop().unwrap();
            proof {
                assert(e == s[j]);
                assert(rev@ =~= s.skip(j + 1).reverse());
                assert(s.take(j + 1).drop_last() =~= s.take(j));
                assert(s.take(j + 1).last() == s[j]);
                lemma_pairs_map_dom(s.take(j), e.0@);
                if pairs_map(s.take(j)).dom().contains(e.0@) {
                    let i = choose|i: int| 0 <= i < s.take(j).len() && (#[trigger] s.take(j)[i]).0@ == e.0@;
                    assert(s.take(j)[i] == s[i]);
                    assert(false);
                }
            }
            if contains_string(keep, e.0.as_str()) {
                proof {
                    lemma_pairs_map_push(kept@, e);
                }
                kept.push(e);
                assert(pairs_map(kept@) =~= pairs_map(s.take(j + 1)).restrict(ks));
            } else {
                assert(pairs_map(kept@) =~= pairs_map(s.take(j + 1)).restrict(ks));
            }
            proof {
                j = j + 1;
            }
        }
        assert(s.take(s.len() as int) =~= s);
        self.entries = kept;
    }
}

/// The strings of a list, as a set of character sequences.
pub open spec fn string_set(v: Seq<String>) -> Set<Seq<char>> {
    string_views(v).to_set()
}

/// The character sequences of a list of strings.
pub open spec fn string_views(v: Seq<String>) -> Seq<Seq<char>> {
    v.map_values(|x: String| x@)
}

/// Whether a list of strings holds `s`.
pub fn contains_string(v: &Vec<String>, s: &str) -> (r: bool)
    ensures
        r == string_set(v@).contains(s@),
{
    let mut i: usize = 0;
    while i < v.len()
        invariant
            i <= v.len(),
            forall|j: int| 0 <= j < i ==> (#[trigger] v@[j])@ != s@,
        decreases v.len() - i,
    {
        if str_eq(v[i].as_str(), s) {
            assert(string_views(v@)[i as int] == s@);
            return true;
        }
        i += 1;
    }
    assert forall|j: int| 0 <= j < v@.len() implies #[trigger] string_views(v@)[j] != s@ by {
        assert(string_views(v@)[j] == v@[j]@);
    }
    false
}

} // verus!
