//! Character-level helpers shared by the rest of the crate: trimming,
//! searching, splitting, ordering, and the few `std` character functions
//! whose behaviour rests on Unicode tables.

use vstd::prelude::*;
use vstd::std_specs::iter::IteratorSpec;

verus! {

// ── Unicode properties that std computes from tables ─────────────────────────

/// `str::to_lowercase`: the lowercase mapping of a whole string.
pub uninterp spec fn str_lowercase(s: Seq<char>) -> Seq<char>;

/// `char::is_lowercase`: the `Lowercase` derived property.
pub uninterp spec fn char_lowercase_prop(c: char) -> bool;

/// `char::to_uppercase`: the uppercase mapping of one character.
pub uninterp spec fn char_uppercase(c: char) -> Seq<char>;

/// `char::is_alphanumeric`: `Alphabetic` or `Numeric`.
pub uninterp spec fn char_alphanumeric_prop(c: char) -> bool;

/// Calls `str::to_lowercase`. The contract claims only that the result is the
/// Unicode lowercase mapping of the argument, named `str_lowercase`.
#[verifier::external_body]
pub(crate) fn to_lowercase(s: &str) -> (r: String)
    ensures
        r@ == str_lowercase(s@),
{
    s.to_lowercase()
}

/// Calls `char::is_lowercase`; the result is the `Lowercase` property of `c`.
#[verifier::external_body]
pub(crate) fn is_lowercase(c: char) -> (r: bool)
    ensures
        r == char_lowercase_prop(c),
{
    c.is_lowercase()
}

/// Calls `char::to_uppercase` and collects it; the result is the uppercase
/// mapping of `c`, named `char_uppercase`.
#[verifier::external_body]
pub(crate) fn to_uppercase(c: char) -> (r: String)
    ensures
        r@ == char_uppercase(c),
{
    c.to_uppercase().collect::<String>()
}

/// Calls `char::is_alphanumeric`; the result is its Unicode property.
#[verifier::external_body]
pub(crate) fn is_alphanumeric(c: char) -> (r: bool)
    ensures
        r == char_alphanumeric_prop(c),
{
    c.is_alphanumeric()
}

/// Appends one character to a `String` (`String::push`).
#[verifier::external_body]
pub(crate) fn push_char(s: &mut String, c: char)
    ensures
        final(s)@ == old(s)@.push(c),
{
    s.push(c);
}

// ── Whitespace and trimming ─────────────────────────────────────────────────

/// The `White_Space` property that `char::is_whitespace` and `str::trim` use.
pub open spec fn is_ws(c: char) -> bool {
    let u = c as int;
    (0x09 <= u && u <= 0x0d) || u == 0x20 || u == 0x85 || u == 0xa0 || u == 0x1680 || (0x2000
        <= u && u <= 0x200a) || u == 0x2028 || u == 0x2029 || u == 0x202f || u == 0x205f || u
        == 0x3000
}

pub fn char_is_ws(c: char) -> (r: bool)
    ensures
        r == is_ws(c),
{
    let u = c as u32;
    (0x09 <= u && u <= 0x0d) || u == 0x20 || u == 0x85 || u == 0xa0 || u == 0x1680 || (0x2000
        <= u && u <= 0x200a) || u == 0x2028 || u == 0x2029 || u == 0x202f || u == 0x205f || u
        == 0x3000
}

/// Index of the first position at or after `i` whose character fails `p`.
pub open spec fn lead_end(s: Seq<char>, i: int, p: spec_fn(char) -> bool) -> int
    decreases s.len() - i,
{
    if 0 <= i < s.len() && p(s[i]) {
        lead_end(s, i + 1, p)
    } else {
        i
    }
}

/// Index just past the last position in `lo..j` whose character fails `p`
/// (or `lo` when all of them satisfy it).
pub open spec fn trail_start(s: Seq<char>, lo: int, j: int, p: spec_fn(char) -> bool) -> int
    decreases j - lo,
{
    if lo < j <= s.len() && p(s[j - 1]) {
        trail_start(s, lo, j - 1, p)
    } else {
        j
    }
}

pub open spec fn ws_pred() -> spec_fn(char) -> bool {
    |c: char| is_ws(c)
}

/// `s` without the leading characters that satisfy `p`.
pub open spec fn trim_start_by(s: Seq<char>, p: spec_fn(char) -> bool) -> Seq<char> {
    s.subrange(lead_end(s, 0, p), s.len() as int)
}

/// `s` without the trailing characters that satisfy `p`.
pub open spec fn trim_end_by(s: Seq<char>, p: spec_fn(char) -> bool) -> Seq<char> {
    s.subrange(0, trail_start(s, 0, s.len() as int, p))
}

/// `str::trim`: leading and trailing whitespace removed.
pub open spec fn trim(s: Seq<char>) -> Seq<char> {
    trim_end_by(trim_start_by(s, ws_pred()), ws_pred())
}

/// Trimming nothing gives nothing.
pub proof fn lemma_trim_empty()
    ensures
        trim(Seq::<char>::empty()) == Seq::<char>::empty(),
{
    let e = Seq::<char>::empty();
    lemma_lead_end(e, 0, ws_pred());
    let a = trim_start_by(e, ws_pred());
    assert(a =~= e);
    lemma_trail_start(a, 0, 0, ws_pred());
    assert(trim(e) =~= e);
}

pub proof fn lemma_lead_end(s: Seq<char>, i: int, p: spec_fn(char) -> bool)
    requires
        0 <= i <= s.len(),
    ensures
        i <= lead_end(s, i, p) <= s.len(),
        forall|k: int| i <= k < lead_end(s, i, p) ==> p(#[trigger] s[k]),
        lead_end(s, i, p) < s.len() ==> !p(s[lead_end(s, i, p)]),
    decreases s.len() - i,
{
    if i < s.len() && p(s[i]) {
        lemma_lead_end(s, i + 1, p);
    }
}

pub proof fn lemma_trail_start(s: Seq<char>, lo: int, j: int, p: spec_fn(char) -> bool)
    requires
        0 <= lo <= j <= s.len(),
    ensures
        lo <= trail_start(s, lo, j, p) <= j,
        forall|k: int| trail_start(s, lo, j, p) <= k < j ==> p(#[trigger] s[k]),
        trail_start(s, lo, j, p) > lo ==> !p(s[trail_start(s, lo, j, p) - 1]),
    decreases j - lo,
{
    if lo < j && p(s[j - 1]) {
        lemma_trail_start(s, lo, j - 1, p);
    }
}

/// Length of the leading run of whitespace in `v`, starting at `i`.
fn ws_run_end(v: &Vec<char>, i: usize) -> (r: usize)
    requires
        i <= v.len(),
    ensures
        r as int == lead_end(v@, i as int, ws_pred()),
{
    let mut k = i;
    while k < v.len() && char_is_ws(v[k])
        invariant
            i <= k <= v.len(),
            lead_end(v@, i as int, ws_pred()) == lead_end(v@, k as int, ws_pred()),
        decreases v.len() - k,
    {
        k += 1;
    }
    k
}

/// Start of the trailing run of whitespace in `v[lo..j]`.
fn ws_trail_start(v: &Vec<char>, lo: usize, j: usize) -> (r: usize)
    requires
        lo <= j <= v.len(),
    ensures
        r as int == trail_start(v@, lo as int, j as int, ws_pred()),
{
    let mut k = j;
    while k > lo && char_is_ws(v[k - 1])
        invariant
            lo <= k <= j,
            j <= v.len(),
            trail_start(v@, lo as int, j as int, ws_pred()) == trail_start(
                v@,
                lo as int,
                k as int,
                ws_pred(),
            ),
        decreases k - lo,
    {
        k -= 1;
    }
    k
}

/// The characters of `v` from `a` up to (not including) `b`.
pub fn sub_chars(v: &Vec<char>, a: usize, b: usize) -> (r: Vec<char>)
    requires
        a <= b <= v.len(),
    ensures
        r@ == v@.subrange(a as int, b as int),
{
    let mut r: Vec<char> = Vec::new();
    let mut k = a;
    while k < b
        invariant
            a <= k <= b <= v.len(),
            r@ == v@.subrange(a as int, k as int),
        decreases b - k,
    {
        r.push(v[k]);
        k += 1;
    }
    r
}

/// `str::trim` on a character vector.
pub fn trim_chars(v: &Vec<char>) -> (r: Vec<char>)
    ensures
        r@ == trim(v@),
{
    let a = ws_run_end(v, 0);
    proof {
        lemma_lead_end(v@, 0, ws_pred());
    }
    let t = sub_chars(v, a, v.len());
    let b = ws_trail_start(&t, 0, t.len());
    proof {
        lemma_trail_start(t@, 0, t@.len() as int, ws_pred());
    }
    sub_chars(&t, 0, b)
}

// ── Conversions ──────────────────────────────────────────────────────────────

/// The characters of a string slice, in order.
pub fn chars_of(s: &str) -> (v: Vec<char>)
    ensures
        v@ == s@,
{
    let mut v: Vec<char> = Vec::new();
    let mut it = s.chars();
    broadcast use vstd::string::group_string_axioms;

    loop
        invariant
            it.remaining() == s@.skip(v@.len() as int),
            v@ == s@.take(v@.len() as int),
            v@.len() <= s@.len(),
        decreases s@.len() - v@.len(),
    {
        match it.next() {
            Some(c) => {
                v.push(c);
            },
            None => {
                assert(v@ == s@);
                return v;
            },
        }
    }
}

/// Builds a `String` holding the given characters.
pub fn string_of(v: &Vec<char>) -> (s: String)
    ensures
        s@ == v@,
{
    let mut s = String::new();
    let mut i: usize = 0;
    while i < v.len()
        invariant
            i <= v.len(),
            s@ == v@.take(i as int),
        decreases v.len() - i,
    {
        push_char(&mut s, v[i]);
        i += 1;
        assert(v@.take(i as int) == v@.take((i - 1) as int).push(v@[i - 1]));
    }
    assert(v@.take(v.len() as int) == v@);
    s
}

/// `str::trim`, returning an owned string.
pub fn trim_str(s: &str) -> (r: String)
    ensures
        r@ == trim(s@),
{
    let v = chars_of(s);
    let t = trim_chars(&v);
    string_of(&t)
}

// ── Searching ────────────────────────────────────────────────────────────────

pub fn contains_char(v: &Vec<char>, c: char) -> (r: bool)
    ensures
        r == v@.contains(c),
{
    let mut i: usize = 0;
    while i < v.len()
        invariant
            i <= v.len(),
            forall|k: int| 0 <= k < i ==> v@[k] != c,
        decreases v.len() - i,
    {
        if v[i] == c {
            return true;
        }
        i += 1;
    }
    false
}

/// Index of the last occurrence of `c` (`str::rfind` on characters).
pub open spec fn last_index_of(s: Seq<char>, c: char) -> Option<int> {
    if s.contains(c) {
        Some(choose|i: int| 0 <= i < s.len() && s[i] == c && forall|k: int| i < k < s.len() ==> s[k] != c)
    } else {
        None
    }
}

/// Index of the first occurrence of `c` (`str::find` on characters).
pub open spec fn first_index_of(s: Seq<char>, c: char) -> Option<int> {
    if s.contains(c) {
        Some(choose|i: int| 0 <= i < s.len() && s[i] == c && forall|k: int| 0 <= k < i ==> s[k] != c)
    } else {
        None
    }
}

pub proof fn lemma_last_index_unique(s: Seq<char>, c: char, i: int)
    requires
        0 <= i < s.len(),
        s[i] == c,
        forall|k: int| i < k < s.len() ==> s[k] != c,
    ensures
        last_index_of(s, c) == Some(i),
{
    assert(s.contains(c));
    let j = choose|j: int| 0 <= j < s.len() && s[j] == c && forall|k: int| j < k < s.len() ==> s[k] != c;
    assert(0 <= j < s.len() && s[j] == c && forall|k: int| j < k < s.len() ==> s[k] != c);
    if j < i {
        assert(s[i] != c);
    }
    if i < j {
        assert(s[j] != c);
    }
}

pub proof fn lemma_first_index_unique(s: Seq<char>, c: char, i: int)
    requires
        0 <= i < s.len(),
        s[i] == c,
        forall|k: int| 0 <= k < i ==> s[k] != c,
    ensures
        first_index_of(s, c) == Some(i),
{
    assert(s.contains(c));
    let j = choose|j: int| 0 <= j < s.len() && s[j] == c && forall|k: int| 0 <= k < j ==> s[k] != c;
    assert(0 <= j < s.len() && s[j] == c && forall|k: int| 0 <= k < j ==> s[k] != c);
    if j < i {
        assert(s[j] != c);
    }
    if i < j {
        assert(s[i] != c);
    }
}

pub fn rfind_char(v: &Vec<char>, c: char) -> (r: Option<usize>)
    ensures
        match r {
            Some(i) => last_index_of(v@, c) == Some(i as int) && i < v.len() && v@[i as int] == c,
            None => last_index_of(v@, c) is None,
        },
{
    let mut i = v.len();
    while i > 0
        invariant
            i <= v.len(),
            forall|k: int| i <= k < v.len() ==> v@[k] != c,
        decreases i,
    {
        if v[i - 1] == c {
            proof {
                lemma_last_index_unique(v@, c, i - 1);
            }
            return Some(i - 1);
        }
        i -= 1;
    }
    assert(!v@.contains(c));
    None
}

pub fn find_char(v: &Vec<char>, c: char) -> (r: Option<usize>)
    ensures
        match r {
            Some(i) => first_index_of(v@, c) == Some(i as int) && i < v.len() && v@[i as int] == c,
            None => first_index_of(v@, c) is None,
        },
{
    let mut i: usize = 0;
    while i < v.len()
        invariant
            i <= v.len(),
            forall|k: int| 0 <= k < i ==> v@[k] != c,
        decreases v.len() - i,
    {
        if v[i] == c {
            proof {
                lemma_first_index_unique(v@, c, i as int);
            }
            return Some(i);
        }
        i += 1;
    }
    None
}

/// `pat` occurs in `s` at position `i`.
pub open spec fn occurs_at(s: Seq<char>, pat: Seq<char>, i: int) -> bool {
    0 <= i && i + pat.len() <= s.len() && s.subrange(i, i + pat.len()) == pat
}

/// `str::contains` with a string pattern.
pub open spec fn has_substring(s: Seq<char>, pat: Seq<char>) -> bool {
    exists|i: int| occurs_at(s, pat, i)
}

pub fn chars_equal_at(s: &Vec<char>, pat: &Vec<char>, i: usize) -> (r: bool)
    requires
        i + pat.len() <= s.len(),
    ensures
        r == occurs_at(s@, pat@, i as int),
{
    let mut k: usize = 0;
    while k < pat.len()
        invariant
            k <= pat.len(),
            i + pat.len() <= s.len(),
            forall|m: int| 0 <= m < k ==> s@[i + m] == pat@[m],
        decreases pat.len() - k,
    {
        if s[i + k] != pat[k] {
            assert(s@.subrange(i as int, i + pat.len())[k as int] != pat@[k as int]);
            return false;
        }
        k += 1;
    }
    assert(s@.subrange(i as int, i + pat.len()) =~= pat@);
    true
}

pub fn contains_chars(s: &Vec<char>, pat: &Vec<char>) -> (r: bool)
    ensures
        r == has_substring(s@, pat@),
{
    if pat.len() > s.len() {
        return false;
    }
    let n = s.len() - pat.len();
    let mut i: usize = 0;
    loop
        invariant
            pat.len() <= s.len(),
            n == s.len() - pat.len(),
            i <= n,
            forall|m: int| 0 <= m < i ==> !occurs_at(s@, pat@, m),
        ensures
            forall|m: int| 0 <= m <= n ==> !occurs_at(s@, pat@, m),
        decreases n - i,
    {
        if chars_equal_at(s, pat, i) {
            return true;
        }
        if i == n {
            break;
        }
        i += 1;
    }
    assert forall|m: int| !occurs_at(s@, pat@, m) by {
        if 0 <= m <= n {
        }
    }
    false
}

/// Does `s` begin with `pat`?
pub open spec fn starts_with(s: Seq<char>, pat: Seq<char>) -> bool {
    pat.len() <= s.len() && s.subrange(0, pat.len() as int) == pat
}

pub fn starts_with_chars(s: &Vec<char>, pat: &Vec<char>) -> (r: bool)
    ensures
        r == starts_with(s@, pat@),
{
    if pat.len() > s.len() {
        return false;
    }
    chars_equal_at(s, pat, 0)
}

pub fn chars_eq(a: &Vec<char>, b: &Vec<char>) -> (r: bool)
    ensures
        r == (a@ == b@),
{
    if a.len() != b.len() {
        return false;
    }
    let r = chars_equal_at(a, b, 0);
    assert(a@.subrange(0, b@.len() as int) =~= a@);
    r
}

pub fn str_eq(a: &str, b: &str) -> (r: bool)
    ensures
        r == (a@ == b@),
{
    let va = chars_of(a);
    let vb = chars_of(b);
    chars_eq(&va, &vb)
}

// ── Ordering ─────────────────────────────────────────────────────────────────

/// Lexicographic order on characters: the order of `String`'s `Ord`
/// (UTF-8 byte order and code point order agree).
pub open spec fn seq_lt(a: Seq<char>, b: Seq<char>) -> bool
    decreases a.len(),
{
    if a.len() == 0 {
        b.len() > 0
    } else if b.len() == 0 {
        false
    } else if a[0] != b[0] {
        (a[0] as int) < (b[0] as int)
    } else {
        seq_lt(a.drop_first(), b.drop_first())
    }
}

pub proof fn lemma_seq_lt_irreflexive(a: Seq<char>)
    ensures
        !seq_lt(a, a),
    decreases a.len(),
{
    if a.len() > 0 {
        lemma_seq_lt_irreflexive(a.drop_first());
    }
}

pub proof fn lemma_seq_lt_transitive(a: Seq<char>, b: Seq<char>, c: Seq<char>)
    requires
        seq_lt(a, b),
        seq_lt(b, c),
    ensures
        seq_lt(a, c),
    decreases a.len(),
{
    if a.len() > 0 && b.len() > 0 && c.len() > 0 {
        if a[0] == b[0] && b[0] == c[0] {
            lemma_seq_lt_transitive(a.drop_first(), b.drop_first(), c.drop_first());
        }
    }
}

pub proof fn lemma_seq_lt_total(a: Seq<char>, b: Seq<char>)
    ensures
        a == b || seq_lt(a, b) || seq_lt(b, a),
    decreases a.len(),
{
    if a.len() > 0 && b.len() > 0 && a[0] == b[0] {
        lemma_seq_lt_total(a.drop_first(), b.drop_first());
        if a.drop_first() == b.drop_first() {
            assert(a =~= seq![a[0]] + a.drop_first());
            assert(b =~= seq![b[0]] + b.drop_first());
        }
    } else if a.len() > 0 && b.len() > 0 {
        assert((a[0] as int) != (b[0] as int));
    } else if a.len() == 0 && b.len() == 0 {
        assert(a =~= b);
    }
}

pub fn chars_lt(a: &Vec<char>, b: &Vec<char>) -> (r: bool)
    ensures
        r == seq_lt(a@, b@),
{
    let mut i: usize = 0;
    assert(a@.skip(0) =~= a@);
    assert(b@.skip(0) =~= b@);
    while i < a.len() && i < b.len() && a[i] == b[i]
        invariant
            i <= a.len(),
            i <= b.len(),
            seq_lt(a@, b@) == seq_lt(a@.skip(i as int), b@.skip(i as int)),
            forall|k: int| 0 <= k < i ==> a@[k] == b@[k],
        decreases a.len() - i,
    {
        assert(a@.skip(i as int).drop_first() =~= a@.skip(i + 1));
        assert(b@.skip(i as int).drop_first() =~= b@.skip(i + 1));
        i += 1;
    }
    if i == a.len() {
        i < b.len()
    } else if i == b.len() {
        false
    } else {
        a[i] < b[i]
    }
}

pub fn str_lt(a: &str, b: &str) -> (r: bool)
    ensures
        r == seq_lt(a@, b@),
{
    let va = chars_of(a);
    let vb = chars_of(b);
    chars_lt(&va, &vb)
}

} // verus!

verus! {

/// The predicate "is one of these characters".
pub open spec fn in_set(set: Seq<char>) -> spec_fn(char) -> bool {
    |c: char| set.contains(c)
}

/// `str::trim_end_matches` with a set of characters.
pub fn trim_end_any(v: &Vec<char>, set: &Vec<char>) -> (r: Vec<char>)
    ensures
        r@ == trim_end_by(v@, in_set(set@)),
{
    let mut k = v.len();
    while k > 0 && contains_char(set, v[k - 1])
        invariant
            k <= v.len(),
            trail_start(v@, 0, v@.len() as int, in_set(set@)) == trail_start(
                v@,
                0,
                k as int,
                in_set(set@),
            ),
        decreases k,
    {
        k -= 1;
    }
    sub_chars(v, 0, k)
}

/// `str::trim_start_matches` with a set of characters.
pub fn trim_start_any(v: &Vec<char>, set: &Vec<char>) -> (r: Vec<char>)
    ensures
        r@ == trim_start_by(v@, in_set(set@)),
{
    let mut k: usize = 0;
    while k < v.len() && contains_char(set, v[k])
        invariant
            k <= v.len(),
            lead_end(v@, 0, in_set(set@)) == lead_end(v@, k as int, in_set(set@)),
        decreases v.len() - k,
    {
        k += 1;
    }
    proof {
        lemma_lead_end(v@, k as int, in_set(set@));
    }
    sub_chars(v, k, v.len())
}

/// Concatenation of two strings.
pub fn concat_str(a: &str, b: &str) -> (r: String)
    ensures
        r@ == a@ + b@,
{
    let mut r = String::from_str(a);
    r.append(b);
    r
}

/// Pieces joined by a separator (`[String]::join`).
pub open spec fn join_sep(parts: Seq<Seq<char>>, sep: Seq<char>) -> Seq<char>
    decreases parts.len(),
{
    if parts.len() == 0 {
        Seq::empty()
    } else if parts.len() == 1 {
        parts[0]
    } else {
        join_sep(parts.drop_last(), sep) + sep + parts.last()
    }
}

/// Joins strings with a separator.
pub fn join_strings(parts: &Vec<String>, sep: &str) -> (r: String)
    ensures
        r@ == join_sep(crate::tag_set::views(parts@), sep@),
{
    let ghost ps = crate::tag_set::views(parts@);
    let mut acc = String::new();
    let mut i: usize = 0;
    while i < parts.len()
        invariant
            i <= parts@.len(),
            ps == crate::tag_set::views(parts@),
            acc@ == join_sep(ps.take(i as int), sep@),
        decreases parts.len() - i,
    {
        proof {
            assert(ps.take(i + 1).drop_last() =~= ps.take(i as int));
            assert(ps.take(i + 1).last() == parts@[i as int]@);
        }
        if i == 0 {
            acc = parts[0].clone();
            assert(ps.take(1) =~= seq![parts@[0]@]);
        } else {
            let s = concat_str(acc.as_str(), sep);
            acc = concat_str(s.as_str(), parts[i].as_str());
        }
        i += 1;
    }
    assert(ps.take(parts@.len() as int) =~= ps);
    acc
}

} // verus!
