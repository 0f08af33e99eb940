//! The census: index size in readable units, how long ago the index was
//! brought up to date, and how often each tag is used.

use vstd::prelude::*;
use crate::numfmt::{decimal, digit, decimal_string, digit_char};
use crate::text::{concat_str, push_char};
use crate::address_cache::AddressCache;
use crate::string_map::StringMap;
use crate::tag_set::views;
use crate::order::{is_ranking, ranks_before, stable_rank_desc};

verus! {

pub const KIB: u64 = 1024;
pub const MIB: u64 = 1048576;
pub const GIB: u64 = 1073741824;

/// The smallest integer that needs rounding when held in a double.
pub open spec fn f64_exact_limit() -> nat {
    0x20000000000000
}

/// The spacing of doubles around `n`: 1 below 2^53, doubled with each
/// further bit.
pub open spec fn f64_spacing(n: nat) -> nat
    decreases n,
{
    if n < f64_exact_limit() {
        1
    } else {
        2 * f64_spacing(n / 2)
    }
}

/// `n / d` rounded to the nearest integer, ties to the even one.
pub open spec fn round_div(n: nat, d: nat) -> nat {
    let q = n / d;
    let r = n % d;
    if 2 * r > d || (2 * r == d && q % 2 == 1) {
        q + 1
    } else {
        q
    }
}

/// `n as f64`: the double nearest to `n`, ties to even.
pub open spec fn f64_value(n: nat) -> nat {
    round_div(n, f64_spacing(n)) * f64_spacing(n)
}

/// `format!("{:.1}", f / unit)`: one decimal, rounded half to even.
pub open spec fn one_decimal(f: nat, unit: nat) -> Seq<char> {
    let d = round_div(f * 10, unit);
    decimal(d / 10) + seq!['.', digit(d % 10)]
}

/// A byte count in the largest binary unit it reaches.
pub open spec fn byte_size(b: nat) -> Seq<char> {
    if b >= GIB {
        one_decimal(f64_value(b), GIB as nat) + " GB"@
    } else if b >= MIB {
        one_decimal(b, MIB as nat) + " MB"@
    } else if b >= KIB {
        one_decimal(b, KIB as nat) + " KB"@
    } else {
        decimal(b) + " B"@
    }
}

proof fn lemma_spacing_step(b: nat, p: nat, t: nat)
    requires
        p >= 1,
        t == b / p,
        t >= f64_exact_limit(),
    ensures
        t / 2 == b / (2 * p),
        f64_spacing(t) == 2 * f64_spacing(t / 2),
{
    vstd::arithmetic::div_mod::lemma_div_denominator(b as int, p as int, 2);
}

/// The double nearest to `b`, as an integer.
fn nearest_double(b: u64) -> (r: u128)
    ensures
        r == f64_value(b as nat),
        r < 0x40000000000000000,
{
    let mut t: u64 = b;
    let mut p: u128 = 1;
    while t >= 0x20000000000000
        invariant
            p >= 1,
            p <= b as u128 + 1,
            t as nat == (b as nat) / (p as nat),
            f64_spacing(b as nat) == p * f64_spacing(t as nat),
        decreases t,
    {
        proof {
            lemma_spacing_step(b as nat, p as nat, t as nat);
            assert(t as nat * p as nat <= b) by (nonlinear_arith)
                requires
                    t as nat == (b as nat) / (p as nat),
                    p >= 1,
            ;
            assert(2 * p <= b) by (nonlinear_arith)
                requires
                    t as nat * p as nat <= b,
                    t >= 2,
            ;
            assert(p * f64_spacing(t as nat) == (2 * p) * f64_spacing(t as nat / 2)) by (nonlinear_arith)
                requires
                    f64_spacing(t as nat) == 2 * f64_spacing(t as nat / 2),
            ;
        }
        t = t / 2;
        p = p * 2;
    }
    assert(f64_spacing(t as nat) == 1);
    assert(f64_spacing(b as nat) == p) by (nonlinear_arith)
        requires
            f64_spacing(t as nat) == 1,
            f64_spacing(b as nat) == p * f64_spacing(t as nat),
    ;
    let q: u128 = (b as u128) / p;
    let rem: u128 = (b as u128) % p;
    let up = 2 * rem > p || (2 * rem == p && q % 2 == 1);
    let q2: u128 = if up { q + 1 } else { q };
    assert(q2 as nat == round_div(b as nat, p as nat));
    assert(q2 * p <= 2 * (b as nat) + p) by (nonlinear_arith)
        requires
            q as nat == (b as nat) / (p as nat),
            q2 <= q + 1,
            p >= 1,
    ;
    q2 * p
}

fn one_decimal_string(f: u128, unit: u128) -> (r: String)
    requires
        unit == KIB || unit == MIB || unit == GIB,
        f < 0x40000000000000000,
    ensures
        r@ == one_decimal(f as nat, unit as nat),
{
    let n = f * 10;
    let q = n / unit;
    let rem = n % unit;
    let d: u128 = if 2 * rem > unit || (2 * rem == unit && q % 2 == 1) {
        q + 1
    } else {
        q
    };
    assert(d as nat == round_div(f as nat * 10, unit as nat));
    let s = decimal_string(d / 10);
    let mut s2 = s;
    push_char(&mut s2, '.');
    push_char(&mut s2, digit_char(d % 10));
    assert(s2@ =~= decimal((d / 10) as nat) + seq!['.', digit((d % 10) as nat)]);
    s2
}

/// A byte count as the census shows it: `100 B`, `1.5 KB`, `50.0 MB`,
/// `1.0 GB`.
pub fn format_bytes(bytes: u64) -> (r: String)
    ensures
        r@ == byte_size(bytes as nat),
{
    if bytes >= GIB {
        let f = nearest_double(bytes);
        let s = one_decimal_string(f, GIB as u128);
        concat_str(s.as_str(), " GB")
    } else if bytes >= MIB {
        let s = one_decimal_string(bytes as u128, MIB as u128);
        concat_str(s.as_str(), " MB")
    } else if bytes >= KIB {
        let s = one_decimal_string(bytes as u128, KIB as u128);
        concat_str(s.as_str(), " KB")
    } else {
        let s = decimal_string(bytes as u128);
        concat_str(s.as_str(), " B")
    }
}


// ── Age of the last index run ───────────────────────────────────────────────

/// When something happened, as the local clock shows it, and how long ago.
pub struct Age {
    /// `%Y-%m-%d` of the moment.
    pub date: String,
    /// `%H:%M` of the moment.
    pub clock: String,
    /// Whole days since then.
    pub days: i64,
    /// Whole hours since then.
    pub hours: i64,
}

pub open spec fn plural(n: int) -> Seq<char> {
    if n == 1 {
        Seq::empty()
    } else {
        seq!['s']
    }
}

/// The phrase for a past moment: years, months or days with the date,
/// hours with the time of day, or "just now".
pub open spec fn age_phrase(date: Seq<char>, clock: Seq<char>, days: int, hours: int) -> Seq<char> {
    if days > 365 {
        date + " ("@ + decimal((days / 365) as nat) + " years ago)"@
    } else if days > 30 {
        date + " ("@ + decimal((days / 30) as nat) + " months ago)"@
    } else if days > 0 {
        date + " ("@ + decimal(days as nat) + " day"@ + plural(days) + " ago)"@
    } else if hours > 0 {
        clock + " ("@ + decimal(hours as nat) + " hour"@ + plural(hours) + " ago)"@
    } else {
        clock + " (just now)"@
    }
}

fn plural_str(n: i64) -> (r: String)
    ensures
        r@ == plural(n as int),
{
    if n == 1 {
        String::new()
    } else {
        let mut s = String::new();
        push_char(&mut s, 's');
        assert(s@ =~= seq!['s']);
        s
    }
}

pub fn age_text(age: &Age) -> (r: String)
    ensures
        r@ == age_phrase(age.date@, age.clock@, age.days as int, age.hours as int),
{
    if age.days > 365 {
        let n = decimal_string((age.days / 365) as u128);
        let s = concat_str(age.date.as_str(), " (");
        let s = concat_str(s.as_str(), n.as_str());
        concat_str(s.as_str(), " years ago)")
    } else if age.days > 30 {
        let n = decimal_string((age.days / 30) as u128);
        let s = concat_str(age.date.as_str(), " (");
        let s = concat_str(s.as_str(), n.as_str());
        concat_str(s.as_str(), " months ago)")
    } else if age.days > 0 {
        let n = decimal_string(age.days as u128);
        let s = concat_str(age.date.as_str(), " (");
        let s = concat_str(s.as_str(), n.as_str());
        let s = concat_str(s.as_str(), " day");
        let pl = plural_str(age.days);
        let s = concat_str(s.as_str(), pl.as_str());
        concat_str(s.as_str(), " ago)")
    } else if age.hours > 0 {
        let n = decimal_string(age.hours as u128);
        let s = concat_str(age.clock.as_str(), " (");
        let s = concat_str(s.as_str(), n.as_str());
        let s = concat_str(s.as_str(), " hour");
        let pl = plural_str(age.hours);
        let s = concat_str(s.as_str(), pl.as_str());
        concat_str(s.as_str(), " ago)")
    } else {
        concat_str(age.clock.as_str(), " (just now)")
    }
}

// ── Tag usage ───────────────────────────────────────────────────────────────

/// How often `t` occurs in a list of tags.
pub open spec fn occurrences(tags: Seq<Seq<char>>, t: Seq<char>) -> nat {
    tags.filter(equals(t)).len()
}

/// Equality with `t`, as a predicate.
pub open spec fn equals(t: Seq<char>) -> spec_fn(Seq<char>) -> bool {
    |x: Seq<char>| x == t
}

/// `r` is the top of the tag usage of `all`: distinct tags with their
/// counts, most used first, as many as `limit` allows, and no tag left out
/// is used more often than the last one shown.
pub open spec fn tag_tally(r: Seq<(String, usize)>, all: Seq<Seq<char>>, limit: nat) -> bool {
    &&& r.len() == (if all.to_set().len() > limit { limit } else { all.to_set().len() })
    &&& forall|i: int, j: int| 0 <= i < j < r.len() ==> (#[trigger] r[i]).0@ != (#[trigger] r[j]).0@
    &&& forall|i: int| 0 <= i < r.len() ==> all.contains((#[trigger] r[i]).0@) && r[i].1 == occurrences(all, r[i].0@)
    &&& forall|i: int, j: int| 0 <= i < j < r.len() ==> (#[trigger] r[i]).1 >= (#[trigger] r[j]).1
    &&& forall|t: Seq<char>|
        #![trigger all.contains(t)]
        all.contains(t) && (forall|i: int| 0 <= i < r.len() ==> (#[trigger] r[i]).0@ != t) ==> r.len() > 0
            && occurrences(all, t) <= r[r.len() - 1].1
}

proof fn lemma_occurrences_absent(s: Seq<Seq<char>>, k: Seq<char>)
    requires
        !s.contains(k),
    ensures
        occurrences(s, k) == 0,
    decreases s.len(),
{
    s.lemma_filter_len(equals(k));
    if s.len() > 0 {
        assert(s[s.len() - 1] != k);
        assert(!s.drop_last().contains(k)) by {
            if s.drop_last().contains(k) {
                let j = choose|j: int| 0 <= j < s.drop_last().len() && s.drop_last()[j] == k;
                assert(s[j] == k);
            }
        }
        lemma_occurrences_absent(s.drop_last(), k);
        s.drop_last().lemma_filter_push(s.last(), equals(k));
        assert(s.drop_last().push(s.last()) =~= s);
    }
}

/// The twenty most used tags with their counts, most used first.
pub fn tally_tags(tags: &Vec<String>) -> (r: Vec<(String, usize)>)
    ensures
        tag_tally(r@, views(tags@), 20),
{
    broadcast use vstd::seq_lib::group_seq_properties;

    let ghost all = views(tags@);
    let mut counts: StringMap<usize> = StringMap::new();
    let mut i: usize = 0;
    while i < tags.len()
        invariant
            all == views(tags@),
            i <= tags@.len(),
            counts.wf(),
            forall|k: Seq<char>| #[trigger] counts@.dom().contains(k) <==> all.take(i as int).contains(k),
            forall|k: Seq<char>|
                #[trigger] counts@.dom().contains(k) ==> counts@[k] == occurrences(all.take(i as int), k)
                    && counts@[k] <= i,
        decreases tags.len() - i,
    {
        let t = &tags[i];
        let ghost pre = all.take(i as int);
        proof {
            assert(all.take(i + 1) =~= pre.push(t@));
            assert forall|k: Seq<char>| #[trigger] occurrences(pre.push(t@), k) == occurrences(pre, k) + (if k
                == t@ {
                1nat
            } else {
                0nat
            }) by {
                pre.lemma_filter_push(t@, equals(k));
            }
        }
        let c: usize = match counts.get(t.as_str()) {
            Some(c) => *c,
            None => 0,
        };
        let ghost before = counts@;
        counts.insert(t.clone(), c + 1);
        proof {
            assert forall|k: Seq<char>| #[trigger] counts@.dom().contains(k) <==> all.take(i + 1).contains(k) by {
                if pre.contains(k) {
                    let j = choose|j: int| 0 <= j < pre.len() && pre[j] == k;
                    assert(pre.push(t@)[j] == k);
                }
                if k == t@ {
                    assert(pre.push(t@)[pre.len() as int] == k);
                }
                if pre.push(t@).contains(k) && k != t@ {
                    let j = choose|j: int| 0 <= j < pre.push(t@).len() && pre.push(t@)[j] == k;
                    assert(pre[j] == k);
                }
            }
            assert forall|k: Seq<char>| #[trigger] counts@.dom().contains(k) implies counts@[k] == occurrences(
                all.take(i + 1),
                k,
            ) && counts@[k] <= i + 1 by {
                if k == t@ && !before.dom().contains(k) {
                    lemma_occurrences_absent(pre, k);
                }
            }
        }
        i += 1;
    }
    assert(all.take(all.len() as int) =~= all);
    // Rank the distinct tags by count.
    let n = counts.len();
    let mut keys: Vec<i128> = Vec::new();
    let mut j: usize = 0;
    proof {
        counts.lemma_pairs();
    }
    while j < n
        invariant
            j <= n,
            n == counts.pairs().len(),
            keys@.len() == j,
            forall|a: int| 0 <= a < j ==> (#[trigger] keys@[a]) == counts.pairs()[a].1 as i128,
        decreases n - j,
    {
        keys.push(*counts.value_at(j) as i128);
        j += 1;
    }
    let order = stable_rank_desc(&keys);
    let limit: usize = if n > 20 {
        20
    } else {
        n
    };
    let mut r: Vec<(String, usize)> = Vec::new();
    let mut m: usize = 0;
    while m < limit
        invariant
            m <= limit,
            limit <= n,
            n == counts.pairs().len(),
            is_ranking(keys@, order@),
            keys@.len() == n,
            forall|a: int| 0 <= a < n ==> (#[trigger] keys@[a]) == counts.pairs()[a].1 as i128,
            r@.len() == m,
            forall|a: int| 0 <= a < m ==> (#[trigger] r@[a]) == (counts.pairs()[order@[a] as int].0, counts.pairs()[order@[a] as int].1),
        decreases limit - m,
    {
        let idx = order[m];
        r.push((counts.key_at(idx).clone(), *counts.value_at(idx)));
        m += 1;
    }
    proof {
        let pairs = counts.pairs();
        counts.lemma_pairs();
        assert(counts@.dom() =~= all.to_set());
        assert forall|a: int, b: int| 0 <= a < b < r@.len() implies (#[trigger] r@[a]).0@ != (#[trigger] r@[b]).0@ by {
            assert(order@[a] != order@[b]) by {
                assert(ranks_before(keys@, order@[a] as int, order@[b] as int));
            }
        }
        assert forall|a: int| 0 <= a < r@.len() implies all.contains((#[trigger] r@[a]).0@) && r@[a].1
            == occurrences(all, r@[a].0@) by {
            let p = order@[a] as int;
            assert(counts@.dom().contains(pairs[p].0@));
        }
        assert forall|a: int, b: int| 0 <= a < b < r@.len() implies (#[trigger] r@[a]).1 >= (#[trigger] r@[b]).1 by {
            assert(ranks_before(keys@, order@[a] as int, order@[b] as int));
        }
        assert forall|t: Seq<char>|
            #![trigger all.contains(t)]
            all.contains(t) && (forall|a: int| 0 <= a < r@.len() ==> (#[trigger] r@[a]).0@ != t) implies r@.len() > 0
                && occurrences(all, t) <= r@[r@.len() - 1].1 by {
            assert(counts@.dom().contains(t));
            counts.lemma_keys_listed(t);
            let p = choose|p: int| 0 <= p < pairs.len() && (#[trigger] pairs[p]).0@ == t;
            assert(order@.contains(p as usize));
            let q = choose|q: int| 0 <= q < order@.len() && order@[q] == p as usize;
            if q < limit {
                assert(r@[q].0@ == t);
            }
            assert(r@.len() > 0);
            let last = r@.len() - 1;
            assert(ranks_before(keys@, order@[last] as int, order@[q] as int));
        }
    }
    r
}

// ── The census ──────────────────────────────────────────────────────────────

/// What the census reports.
pub struct HamsterStats {
    /// Messages in the index.
    pub indexed_messages: u64,
    /// Size of the index directory in bytes.
    pub index_size_bytes: u64,
    /// Addresses in the address book.
    pub unique_addresses: usize,
    /// The most frequent address and its count.
    pub top_contact: Option<(String, usize)>,
    /// When the last index run finished (seconds since the epoch).
    pub last_indexed: Option<u64>,
    /// Files the notebook tracks.
    pub tracked_files: usize,
    /// The most used tags with their counts.
    pub tag_counts: Vec<(String, usize)>,
    /// Addresses without a name.
    pub nameless_addresses: usize,
}

impl HamsterStats {
    /// The census from what was read: the message count, the directory
    /// size, the address book, the tags of every message and the time of
    /// the last run.
    pub fn from_parts(
        indexed_messages: u64,
        index_size_bytes: u64,
        cache: &AddressCache,
        all_tags: &Vec<String>,
        last_indexed: Option<u64>,
    ) -> (r: Self)
        requires
            cache.wf(),
        ensures
            r.indexed_messages == indexed_messages,
            r.index_size_bytes == index_size_bytes,
            r.unique_addresses == cache@.dom().len(),
            r.nameless_addresses == cache@.dom().filter(|k: Seq<char>| cache@[k].0.len() == 0).len(),
            match r.top_contact {
                Some((email, count)) => {
                    &&& cache@.dom().contains(email@)
                    &&& cache@[email@].1 == count
                    &&& forall|k: Seq<char>| cache@.dom().contains(k) ==> #[trigger] cache@[k].1 <= count
                },
                None => cache@.dom().len() == 0,
            },
            r.last_indexed == last_indexed,
            r.tracked_files == 0,
            tag_tally(r.tag_counts@, views(all_tags@), 20),
    {
        let (top_contact, nameless_addresses) = cache.top_contact();
        HamsterStats {
            indexed_messages,
            index_size_bytes,
            unique_addresses: cache.len(),
            top_contact,
            last_indexed,
            tracked_files: 0,
            tag_counts: tally_tags(all_tags),
            nameless_addresses,
        }
    }

    /// The index size in readable units.
    pub fn formatted_size(&self) -> (r: String)
        ensures
            r@ == byte_size(self.index_size_bytes as nat),
    {
        format_bytes(self.index_size_bytes)
    }

    /// When the index was last brought up to date: "never" without a run,
    /// "unknown" when the local clock cannot place it, else the age phrase.
    pub fn formatted_last_indexed(&self, age: Option<Age>) -> (r: String)
        ensures
            r@ == match self.last_indexed {
                None => "never"@,
                Some(_) => match age {
                    None => "unknown"@,
                    Some(a) => age_phrase(a.date@, a.clock@, a.days as int, a.hours as int),
                },
            },
    {
        match self.last_indexed {
            None => String::from_str("never"),
            Some(_) => match age {
                None => String::from_str("unknown"),
                Some(a) => age_text(&a),
            },
        }
    }
}

} // verus!
