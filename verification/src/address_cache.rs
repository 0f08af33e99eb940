//! The address book kept next to the index: for every normalised address,
//! the first non-empty display name seen and how often it was seen.

use vstd::prelude::*;
use crate::text::{chars_of, trim, trim_str, contains_char, str_eq};
use crate::address::{normalized_email, normalize_email, contacts_of, contacts_of_parts,
    split_char, lemma_split_char_len, header_names_ok, extract_contacts, pair_views, Contact,
    ranked_from, kept_pairs, scores_for, contact_line, rank_contacts, format_lines};
use crate::setup::{path_join, join_path};

verus! {

/// Everything remembered about one address.
pub struct AddressCacheEntry {
    /// The first non-empty display name seen.
    pub name: String,
    /// How many header values the address appeared in.
    pub count: usize,
}

impl AddressCacheEntry {
    /// A field-by-field copy.
    pub fn copy(&self) -> (r: Self)
        ensures
            r == *self,
    {
        AddressCacheEntry { name: self.name.clone(), count: self.count }
    }
}

impl Default for AddressCacheEntry {
    fn default() -> (r: Self)
        ensures
            r.name@ == Seq::<char>::empty(),
            r.count == 0,
    {
        AddressCacheEntry { name: String::new(), count: 0 }
    }
}

/// What an entry means: its name and its count.
pub open spec fn entry_view(e: AddressCacheEntry) -> (Seq<char>, nat) {
    (e.name@, e.count as nat)
}

/// The map a list of keyed entries describes (a later key overrides).
pub open spec fn map_of(s: Seq<(String, AddressCacheEntry)>) -> Map<Seq<char>, (Seq<char>, nat)>
    decreases s.len(),
{
    if s.len() == 0 {
        Map::empty()
    } else {
        map_of(s.drop_last()).insert(s.last().0@, entry_view(s.last().1))
    }
}

/// No key occurs twice.
pub open spec fn keys_unique(s: Seq<(String, AddressCacheEntry)>) -> bool {
    forall|i: int, j: int| 0 <= i < j < s.len() ==> (#[trigger] s[i]).0@ != (#[trigger] s[j]).0@
}

pub proof fn lemma_map_of_dom(s: Seq<(String, AddressCacheEntry)>, k: Seq<char>)
    ensures
        map_of(s).dom().contains(k) <==> exists|i: int| 0 <= i < s.len() && (#[trigger] s[i]).0@ == k,
    decreases s.len(),
{
    if s.len() > 0 {
        lemma_map_of_dom(s.drop_last(), k);
        if map_of(s.drop_last()).dom().contains(k) {
            let i = choose|i: int| 0 <= i < s.drop_last().len() && (#[trigger] s.drop_last()[i]).0@ == k;
            assert(s[i] == s.drop_last()[i]);
        }
        if exists|i: int| 0 <= i < s.len() && (#[trigger] s[i]).0@ == k {
            let i = choose|i: int| 0 <= i < s.len() && (#[trigger] s[i]).0@ == k;
            if i < s.len() - 1 {
                assert(s.drop_last()[i] == s[i]);
            }
        }
    }
}

pub proof fn lemma_map_of_index(s: Seq<(String, AddressCacheEntry)>, i: int)
    requires
        keys_unique(s),
        0 <= i < s.len(),
    ensures
        map_of(s).dom().contains(s[i].0@),
        map_of(s)[s[i].0@] == entry_view(s[i].1),
    decreases s.len(),
{
    if i < s.len() - 1 {
        assert(s.drop_last()[i] == s[i]);
        assert(keys_unique(s.drop_last())) by {
            assert forall|a: int, b: int| 0 <= a < b < s.drop_last().len() implies (
            #[trigger] s.drop_last()[a]).0@ != (#[trigger] s.drop_last()[b]).0@ by {
                assert(s.drop_last()[a] == s[a]);
                assert(s.drop_last()[b] == s[b]);
            }
        }
        lemma_map_of_index(s.drop_last(), i);
        assert(s[i].0@ != s.last().0@);
    }
}

pub proof fn lemma_map_of_len(s: Seq<(String, AddressCacheEntry)>)
    requires
        keys_unique(s),
    ensures
        map_of(s).dom().finite(),
        map_of(s).dom().len() == s.len(),
    decreases s.len(),
{
    if s.len() > 0 {
        assert(keys_unique(s.drop_last())) by {
            assert forall|a: int, b: int| 0 <= a < b < s.drop_last().len() implies (
            #[trigger] s.drop_last()[a]).0@ != (#[trigger] s.drop_last()[b]).0@ by {
                assert(s.drop_last()[a] == s[a]);
                assert(s.drop_last()[b] == s[b]);
            }
        }
        lemma_map_of_len(s.drop_last());
        lemma_map_of_dom(s.drop_last(), s.last().0@);
        if map_of(s.drop_last()).dom().contains(s.last().0@) {
            let i = choose|i: int| 0 <= i < s.drop_last().len() && (#[trigger] s.drop_last()[i]).0@
                == s.last().0@;
            assert(s.drop_last()[i] == s[i]);
            assert(s[i].0@ != s[s.len() - 1].0@);
        }
    }
}

pub proof fn lemma_map_of_update(s: Seq<(String, AddressCacheEntry)>, i: int, e: (String, AddressCacheEntry))
    requires
        0 <= i < s.len(),
        s[i].0@ == e.0@,
        keys_unique(s),
    ensures
        map_of(s.update(i, e)) == map_of(s).insert(e.0@, entry_view(e.1)),
        keys_unique(s.update(i, e)),
    decreases s.len(),
{
    let t = s.update(i, e);
    assert(keys_unique(t)) by {
        assert forall|a: int, b: int| 0 <= a < b < t.len() implies (#[trigger] t[a]).0@ != (
        #[trigger] t[b]).0@ by {
            assert(s[a].0@ != s[b].0@);
        }
    }
    if i == s.len() - 1 {
        assert(t.drop_last() =~= s.drop_last());
        lemma_map_of_dom(s.drop_last(), e.0@);
        assert(map_of(t) =~= map_of(s).insert(e.0@, entry_view(e.1)));
    } else {
        assert(keys_unique(s.drop_last())) by {
            assert forall|a: int, b: int| 0 <= a < b < s.drop_last().len() implies (
            #[trigger] s.drop_last()[a]).0@ != (#[trigger] s.drop_last()[b]).0@ by {
                assert(s.drop_last()[a] == s[a]);
                assert(s.drop_last()[b] == s[b]);
            }
        }
        lemma_map_of_update(s.drop_last(), i, e);
        assert(t.drop_last() =~= s.drop_last().update(i, e));
        assert(t.last() == s.last());
        assert(s.last().0@ != e.0@);
        assert(map_of(t) =~= map_of(s).insert(e.0@, entry_view(e.1)));
    }
}

/// Every count stays under a bound.
pub open spec fn counts_below(m: Map<Seq<char>, (Seq<char>, nat)>, b: int) -> bool {
    forall|k: Seq<char>| m.dom().contains(k) ==> #[trigger] m[k].1 < b
}

/// One sighting of `email` with display name `name`: addresses without an
/// `@` are ignored; the count goes up by one; the first non-empty name is
/// kept.
pub open spec fn ingested(m: Map<Seq<char>, (Seq<char>, nat)>, email: Seq<char>, name: Seq<char>) -> Map<
    Seq<char>,
    (Seq<char>, nat),
> {
    let e = normalized_email(email);
    if e.len() == 0 || !e.contains('@') {
        m
    } else {
        let before: (Seq<char>, nat) = if m.dom().contains(e) {
            m[e]
        } else {
            (Seq::empty(), 0nat)
        };
        let new_name = if name.len() > 0 && before.0.len() == 0 {
            trim(name)
        } else {
            before.0
        };
        m.insert(e, (new_name, before.1 + 1))
    }
}

/// All the sightings of a list of `(name, email)` pairs, in order.
pub open spec fn ingest_all(m: Map<Seq<char>, (Seq<char>, nat)>, contacts: Seq<(Seq<char>, Seq<char>)>) -> Map<
    Seq<char>,
    (Seq<char>, nat),
>
    decreases contacts.len(),
{
    if contacts.len() == 0 {
        m
    } else {
        let m1 = ingest_all(m, contacts.drop_last());
        ingested(m1, contacts.last().1, contacts.last().0)
    }
}

/// A sighting of an address counts once for that address and leaves every
/// other address as it was; a value without an `@` changes nothing.
pub proof fn law_ingest_counts_one_sighting(
    m: Map<Seq<char>, (Seq<char>, nat)>,
    email: Seq<char>,
    name: Seq<char>,
)
    ensures
        ({
            let e = normalized_email(email);
            let r = ingested(m, email, name);
            &&& e.contains('@') ==> r.dom().contains(e) && r[e].1 == (if m.dom().contains(e) {
                m[e].1 + 1
            } else {
                1
            })
            &&& forall|k: Seq<char>| k != e ==> (#[trigger] r.dom().contains(k) == m.dom().contains(k)
                && (m.dom().contains(k) ==> r[k] == m[k]))
            &&& !e.contains('@') ==> r == m
        }),
{
    let e = normalized_email(email);
    if e.contains('@') {
        assert(e.len() > 0);
    }
}

/// The first non-empty name recorded for an address is never replaced.
pub proof fn law_first_name_wins(m: Map<Seq<char>, (Seq<char>, nat)>, email: Seq<char>, name: Seq<char>)
    requires
        m.dom().contains(normalized_email(email)),
        m[normalized_email(email)].0.len() > 0,
    ensures
        ingested(m, email, name)[normalized_email(email)].0 == m[normalized_email(email)].0,
{
}

/// An address first seen without a name takes the first non-empty name that
/// comes with a later sighting.
pub proof fn law_later_name_fills_gap(m: Map<Seq<char>, (Seq<char>, nat)>, email: Seq<char>, name: Seq<char>)
    requires
        normalized_email(email).contains('@'),
        m.dom().contains(normalized_email(email)),
        m[normalized_email(email)].0.len() == 0,
        name.len() > 0,
    ensures
        ingested(m, email, name)[normalized_email(email)].0 == trim(name),
{
    assert(normalized_email(email).len() > 0);
}

pub proof fn lemma_ingested_counts(m: Map<Seq<char>, (Seq<char>, nat)>, email: Seq<char>, name: Seq<char>, b: int)
    requires
        counts_below(m, b),
        b >= 1,
    ensures
        counts_below(ingested(m, email, name), b + 1),
{
    let r = ingested(m, email, name);
    assert forall|k: Seq<char>| r.dom().contains(k) implies #[trigger] r[k].1 < b + 1 by {
        if m.dom().contains(k) {
            assert(m[k].1 < b);
        }
    }
}

pub proof fn lemma_split_char_max(s: Seq<char>, sep: char)
    ensures
        split_char(s, sep).len() <= s.len() + 1,
    decreases s.len(),
{
    if s.len() > 0 {
        lemma_split_char_max(s.drop_last(), sep);
        lemma_split_char_len(s.drop_last(), sep);
    }
}

pub proof fn lemma_contacts_of_parts_len(parts: Seq<Seq<char>>)
    ensures
        contacts_of_parts(parts).len() <= parts.len(),
    decreases parts.len(),
{
    if parts.len() > 0 {
        lemma_contacts_of_parts_len(parts.drop_last());
    }
}

/// A header value yields at most one contact more than it has characters.
pub proof fn lemma_contacts_of_len(header: Seq<char>)
    ensures
        contacts_of(header).len() <= header.len() + 1,
{
    lemma_split_char_max(header, ',');
    lemma_contacts_of_parts_len(split_char(header, ','));
}

/// `cs` lists the address book as contacts, each address once.
pub open spec fn lists_book(cs: Seq<Contact>, m: Map<Seq<char>, (Seq<char>, nat)>) -> bool {
    &&& cs.len() == m.dom().len()
    &&& forall|i: int, j: int| 0 <= i < j < cs.len() ==> (#[trigger] cs[i]).mail@ != (#[trigger] cs[j]).mail@
    &&& forall|i: int|
        0 <= i < cs.len() ==> {
            &&& m.dom().contains((#[trigger] cs[i]).mail@)
            &&& m[cs[i].mail@] == (cs[i].name@, cs[i].occurrences as nat)
        }
}

/// The lines a lookup prints: the book's contacts that match the query,
/// best first, each written in the format.
pub open spec fn lookup_result(
    lines: Seq<String>,
    cs: Seq<Contact>,
    ranked: Seq<Contact>,
    format: Seq<char>,
    query: Seq<char>,
) -> bool {
    &&& ranked_from(ranked, kept_pairs(cs, scores_for(cs, query)))
    &&& lines.len() == ranked.len()
    &&& forall|i: int|
        0 <= i < lines.len() ==> (#[trigger] lines[i])@ == contact_line(format, ranked[i].name@, ranked[i].mail@)
}

/// Where the address book lives inside the index directory.
pub open spec fn cache_file(index_dir: Seq<char>) -> Seq<char> {
    path_join(index_dir, "hamster_addresses.json"@)
}

/// The address book: normalised address to entry.
pub struct AddressCache {
    entries: Vec<(String, AddressCacheEntry)>,
}

impl View for AddressCache {
    type V = Map<Seq<char>, (Seq<char>, nat)>;

    closed spec fn view(&self) -> Map<Seq<char>, (Seq<char>, nat)> {
        map_of(self.entries@)
    }
}

impl AddressCache {
    /// Each address has one entry.
    pub closed spec fn wf(&self) -> bool {
        keys_unique(self.entries@)
    }

    /// A well-formed address book holds finitely many addresses.
    pub proof fn lemma_book_finite(&self)
        requires
            self.wf(),
        ensures
            self@.dom().finite(),
    {
        lemma_map_of_len(self.entries@);
    }

    /// An empty address book.
    pub fn new() -> (r: Self)
        ensures
            r.wf(),
            r@ == Map::<Seq<char>, (Seq<char>, nat)>::empty(),
    {
        AddressCache { entries: Vec::new() }
    }

    /// The address book file inside `index_dir`.
    pub fn cache_path(index_dir: &str) -> (r: String)
        ensures
            r@ == cache_file(index_dir@),
    {
        join_path(index_dir, "hamster_addresses.json")
    }

    fn position(&self, email: &str) -> (r: Option<usize>)
        requires
            self.wf(),
        ensures
            match r {
                Some(i) => i < self.entries@.len() && self.entries@[i as int].0@ == email@,
                None => !self@.dom().contains(email@),
            },
    {
        let mut i: usize = 0;
        while i < self.entries.len()
            invariant
                i <= self.entries@.len(),
                forall|j: int| 0 <= j < i ==> (#[trigger] self.entries@[j]).0@ != email@,
            decreases self.entries.len() - i,
        {
            if str_eq(self.entries[i].0.as_str(), email) {
                return Some(i);
            }
            i += 1;
        }
        proof {
            lemma_map_of_dom(self.entries@, email@);
        }
        None
    }

    /// The number of addresses.
    pub fn len(&self) -> (r: usize)
        requires
            self.wf(),
        ensures
            r == self@.dom().len(),
    {
        proof {
            lemma_map_of_len(self.entries@);
        }
        self.entries.len()
    }

    pub fn is_empty(&self) -> (r: bool)
        requires
            self.wf(),
        ensures
            r == (self@.dom().len() == 0),
    {
        proof {
            lemma_map_of_len(self.entries@);
        }
        self.entries.len() == 0
    }

    pub fn contains_key(&self, email: &str) -> (r: bool)
        requires
            self.wf(),
        ensures
            r == self@.dom().contains(email@),
    {
        match self.position(email) {
            Some(i) => {
                proof {
                    lemma_map_of_index(self.entries@, i as int);
                }
                true
            },
            None => false,
        }
    }

    /// The entry of an address, if it has one.
    pub fn get(&self, email: &str) -> (r: Option<&AddressCacheEntry>)
        requires
            self.wf(),
        ensures
            match r {
                Some(e) => self@.dom().contains(email@) && self@[email@] == entry_view(*e),
                None => !self@.dom().contains(email@),
            },
    {
        match self.position(email) {
            Some(i) => {
                proof {
                    lemma_map_of_index(self.entries@, i as int);
                }
                Some(&self.entries[i].1)
            },
            None => None,
        }
    }

    /// Sets the entry of an address.
    pub fn put(&mut self, email: String, entry: AddressCacheEntry)
        requires
            old(self).wf(),
        ensures
            final(self).wf(),
            final(self)@ == old(self)@.insert(email@, entry_view(entry)),
    {
        match self.position(email.as_str()) {
            Some(i) => {
                let ghost s = self.entries@;
                proof {
                    lemma_map_of_update(s, i as int, (email, entry));
                }
                self.entries.remove(i);
                self.entries.insert(i, (email, entry));
                assert(self.entries@ =~= s.update(i as int, (email, entry)));
            },
            None => {
                let ghost s = self.entries@;
                proof {
                    lemma_map_of_dom(s, email@);
                }
                self.entries.push((email, entry));
                assert(self.entries@.drop_last() =~= s);
                assert(keys_unique(self.entries@)) by {
                    assert forall|a: int, b: int| 0 <= a < b < self.entries@.len() implies (
                    #[trigger] self.entries@[a]).0@ != (#[trigger] self.entries@[b]).0@ by {
                        if b < s.len() {
                            assert(self.entries@[a] == s[a]);
                            assert(self.entries@[b] == s[b]);
                        } else {
                            assert(self.entries@[a] == s[a]);
                        }
                    }
                }
            },
        }
    }

    /// Every entry, each address once.
    pub fn entries(&self) -> (r: Vec<(String, AddressCacheEntry)>)
        requires
            self.wf(),
        ensures
            keys_unique(r@),
            map_of(r@) == self@,
    {
        let mut r: Vec<(String, AddressCacheEntry)> = Vec::new();
        let mut i: usize = 0;
        while i < self.entries.len()
            invariant
                i <= self.entries@.len(),
                r@ == self.entries@.take(i as int),
            decreases self.entries.len() - i,
        {
            let k = self.entries[i].0.clone();
            let e = self.entries[i].1.copy();
            r.push((k, e));
            assert(r@ =~= self.entries@.take(i + 1));
            i += 1;
        }
        assert(r@ =~= self.entries@);
        r
    }

    /// Records one sighting of `email` with display name `name`.
    pub fn ingest(&mut self, email: &str, name: &str)
        requires
            old(self).wf(),
            counts_below(old(self)@, usize::MAX as int),
        ensures
            final(self).wf(),
            final(self)@ == ingested(old(self)@, email@, name@),
    {
        let e = normalize_email(email);
        let ev = chars_of(e.as_str());
        if ev.len() == 0 || !contains_char(&ev, '@') {
            return;
        }
        let nv = chars_of(name);
        let (old_name, old_count): (String, usize) = match self.get(e.as_str()) {
            Some(entry) => {
                assert(self@[e@].1 < usize::MAX);
                (entry.name.clone(), entry.count)
            },
            None => (String::new(), 0),
        };
        let on = chars_of(old_name.as_str());
        let new_name = if nv.len() > 0 && on.len() == 0 {
            trim_str(name)
        } else {
            old_name
        };
        self.put(e, AddressCacheEntry { name: new_name, count: old_count + 1 });
    }

    /// Records every contact of a header value.
    pub fn ingest_header(&mut self, header_value: &str)
        requires
            old(self).wf(),
            header_names_ok(header_value@),
            header_value@.len() < usize::MAX,
            counts_below(old(self)@, usize::MAX - header_value@.len()),
        ensures
            final(self).wf(),
            final(self)@ == ingest_all(old(self)@, contacts_of(header_value@)),
    {
        let contacts = extract_contacts(header_value);
        let ghost cs = contacts_of(header_value@);
        let ghost start = self@;
        proof {
            lemma_contacts_of_len(header_value@);
        }
        let mut i: usize = 0;
        while i < contacts.len()
            invariant
                pair_views(contacts@) == cs,
                cs.len() <= header_value@.len() + 1,
                header_value@.len() < usize::MAX,
                i <= contacts@.len(),
                self.wf(),
                self@ == ingest_all(start, cs.take(i as int)),
                counts_below(self@, usize::MAX - header_value@.len() + i),
            decreases contacts.len() - i,
        {
            proof {
                assert(cs.take(i + 1).drop_last() =~= cs.take(i as int));
                assert(cs[i as int] == (contacts@[i as int].0@, contacts@[i as int].1@));
                lemma_ingested_counts(self@, contacts@[i as int].1@, contacts@[i as int].0@,
                    usize::MAX - header_value@.len() + i);
            }
            self.ingest(contacts[i].1.as_str(), contacts[i].0.as_str());
            i += 1;
        }
        assert(cs.take(cs.len() as int) =~= cs);
    }

    /// The most frequent address with its count (`None` when the book is
    /// empty), and how many addresses have no name.
    pub fn top_contact(&self) -> (r: (Option<(String, usize)>, usize))
        requires
            self.wf(),
        ensures
            r.1 == self@.dom().filter(|k: Seq<char>| self@[k].0.len() == 0).len(),
            match r.0 {
                Some((email, count)) => {
                    &&& self@.dom().contains(email@)
                    &&& self@[email@].1 == count
                    &&& forall|k: Seq<char>| self@.dom().contains(k) ==> #[trigger] self@[k].1 <= count
                },
                None => self@.dom().len() == 0,
            },
    {
        let ghost s = self.entries@;
        let ghost p = |k: Seq<char>| self@[k].0.len() == 0;
        let mut nameless: usize = 0;
        let mut best: Option<usize> = None;
        let mut i: usize = 0;
        proof {
            lemma_map_of_len(s);
            assert(s.take(0) =~= Seq::<(String, AddressCacheEntry)>::empty());
            assert(map_of(s.take(0)).dom().filter(p) =~= Set::<Seq<char>>::empty());
        }
        while i < self.entries.len()
            invariant
                s == self.entries@,
                keys_unique(s),
                p == (|k: Seq<char>| self@[k].0.len() == 0),
                i <= s.len(),
                nameless <= i,
                nameless == map_of(s.take(i as int)).dom().filter(p).len(),
                map_of(s.take(i as int)).dom().finite(),
                match best {
                    Some(b) => b < i && forall|j: int| 0 <= j < i ==> (#[trigger] s[j]).1.count <= s[b as int].1.count,
                    None => i == 0,
                },
            decreases self.entries.len() - i,
        {
            let ghost before = map_of(s.take(i as int));
            proof {
                assert(s.take(i + 1).drop_last() =~= s.take(i as int));
                assert(s.take(i + 1).last() == s[i as int]);
                lemma_map_of_index(s, i as int);
                lemma_map_of_dom(s.take(i as int), s[i as int].0@);
                if before.dom().contains(s[i as int].0@) {
                    let j = choose|j: int| 0 <= j < s.take(i as int).len() && (#[trigger] s.take(i as int)[j]).0@ == s[i as int].0@;
                    assert(s.take(i as int)[j] == s[j]);
                }
                let after = map_of(s.take(i + 1));
                assert(after.dom() =~= before.dom().insert(s[i as int].0@));
                if p(s[i as int].0@) {
                    assert(after.dom().filter(p) =~= before.dom().filter(p).insert(s[i as int].0@));
                } else {
                    assert(after.dom().filter(p) =~= before.dom().filter(p));
                }
            }
            if chars_of(self.entries[i].1.name.as_str()).len() == 0 {
                nameless += 1;
            }
            match best {
                Some(b) => {
                    if self.entries[i].1.count >= self.entries[b].1.count {
                        best = Some(i);
                    }
                },
                None => {
                    best = Some(i);
                },
            }
            i += 1;
        }
        assert(s.take(s.len() as int) =~= s);
        let top = match best {
            Some(b) => {
                proof {
                    lemma_map_of_index(s, b as int);
                    assert forall|k: Seq<char>| self@.dom().contains(k) implies #[trigger] self@[k].1
                        <= s[b as int].1.count by {
                        lemma_map_of_dom(s, k);
                        let j = choose|j: int| 0 <= j < s.len() && (#[trigger] s[j]).0@ == k;
                        lemma_map_of_index(s, j);
                    }
                }
                Some((self.entries[b].0.clone(), self.entries[b].1.count))
            },
            None => None,
        };
        (top, nameless)
    }

    /// The address book as contacts for display, each address once.
    pub fn contacts(&self) -> (r: Vec<Contact>)
        requires
            self.wf(),
        ensures
            lists_book(r@, self@),
    {
        let mut r: Vec<Contact> = Vec::new();
        let mut i: usize = 0;
        proof {
            lemma_map_of_len(self.entries@);
        }
        while i < self.entries.len()
            invariant
                i <= self.entries@.len(),
                keys_unique(self.entries@),
                r@.len() == i,
                forall|j: int|
                    0 <= j < i ==> {
                        &&& (#[trigger] r@[j]).mail@ == self.entries@[j].0@
                        &&& r@[j].name@ == self.entries@[j].1.name@
                        &&& r@[j].occurrences == self.entries@[j].1.count
                    },
            decreases self.entries.len() - i,
        {
            r.push(
                Contact {
                    name: self.entries[i].1.name.clone(),
                    mail: self.entries[i].0.clone(),
                    occurrences: self.entries[i].1.count,
                },
            );
            i += 1;
        }
        proof {
            assert forall|i: int| 0 <= i < r@.len() implies {
                &&& self@.dom().contains((#[trigger] r@[i]).mail@)
                &&& self@[r@[i].mail@] == (r@[i].name@, r@[i].occurrences as nat)
            } by {
                lemma_map_of_index(self.entries@, i);
            }
        }
        r
    }

    /// The lines printed for an address lookup: the matching contacts,
    /// best first, in the requested format.
    pub fn lookup(&self, format: &str, query: &str) -> (r: Vec<String>)
        requires
            self.wf(),
        ensures
            exists|cs: Seq<Contact>, ranked: Seq<Contact>|
                #![trigger lists_book(cs, self@), lookup_result(r@, cs, ranked, format@, query@)]
                lists_book(cs, self@) && lookup_result(r@, cs, ranked, format@, query@),
    {
        let cs = self.contacts();
        let ranked = rank_contacts(&cs, query);
        let lines = format_lines(&ranked, format);
        assert(lists_book(cs@, self@) && lookup_result(lines@, cs@, ranked@, format@, query@));
        lines
    }
}

impl Default for AddressCache {
    fn default() -> (r: Self)
        ensures
            r.wf(),
            r@ == Map::<Seq<char>, (Seq<char>, nat)>::empty(),
    {
        AddressCache::new()
    }
}

} // verus!
