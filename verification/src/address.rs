//! Address normalisation, contact extraction from header values, and the
//! ranking and output of the fuzzy address lookup.

use vstd::prelude::*;
use crate::text::{chars_of, string_of, sub_chars, trim_chars, trim, trim_str, str_lowercase,
    to_lowercase, char_lowercase_prop, char_uppercase, is_lowercase, to_uppercase, is_ws,
    char_is_ws, trim_end_by, trim_end_any, in_set, contains_char, rfind_char, last_index_of,
    concat_str, push_char, str_eq};
use crate::order::{is_ranking, stable_rank_desc};
use fuzzy_matcher::FuzzyMatcher;

verus! {

// ── Normalisation ───────────────────────────────────────────────────────────

/// A normalised address: trimmed, then lowercased.
pub open spec fn normalized_email(e: Seq<char>) -> Seq<char> {
    str_lowercase(trim(e))
}

pub fn normalize_email(email: &str) -> (r: String)
    ensures
        r@ == normalized_email(email@),
{
    let t = trim_str(email);
    to_lowercase(t.as_str())
}

/// `\"` read as `"`, left to right (`str::replace("\\\"", "\"")`).
pub open spec fn unescape_quotes(s: Seq<char>) -> Seq<char>
    decreases s.len(),
{
    if s.len() == 0 {
        s
    } else if s.len() >= 2 && s[0] == '\\' && s[1] == '"' {
        seq!['"'] + unescape_quotes(s.skip(2))
    } else {
        seq![s[0]] + unescape_quotes(s.skip(1))
    }
}

/// A name in double quotes loses them (and its escaped quotes are read).
pub open spec fn unquote(t: Seq<char>) -> Seq<char> {
    if t.len() >= 2 && t[0] == '"' && t.last() == '"' {
        unescape_quotes(t.subrange(1, t.len() - 1))
    } else {
        t
    }
}

/// Punctuation that bleeds out of headers at the end of a name.
pub open spec fn name_punct() -> Seq<char> {
    seq!['.', ',', ';', '-']
}

/// Every character is lowercase or whitespace.
pub open spec fn all_lower(s: Seq<char>) -> bool {
    forall|i: int| 0 <= i < s.len() ==> char_lowercase_prop(#[trigger] s[i]) || is_ws(s[i])
}

/// The normalised display name: trimmed, unquoted, trailing punctuation
/// stripped (unless nothing would be left), and, when it is all lowercase,
/// its first letter capitalised.
pub open spec fn normalized_name(raw: Seq<char>) -> Seq<char> {
    let t = trim(raw);
    if t.len() == 0 {
        Seq::empty()
    } else {
        let u = unquote(t);
        let s = trim_end_by(u, in_set(name_punct()));
        if s.len() == 0 {
            u
        } else if all_lower(s) {
            char_uppercase(s[0]) + s.drop_first()
        } else {
            s
        }
    }
}

/// The one input the name normalisation cannot take: a lone double quote,
/// which would be both the opening and the closing quote.
pub open spec fn lone_quote(raw: Seq<char>) -> bool {
    trim(raw) == seq!['"']
}

fn unescape_chars(s: &Vec<char>) -> (r: Vec<char>)
    ensures
        r@ == unescape_quotes(s@),
{
    let mut out: Vec<char> = Vec::new();
    let mut i: usize = 0;
    assert(s@.skip(0) =~= s@);
    while i < s.len()
        invariant
            i <= s.len(),
            unescape_quotes(s@) == out@ + unescape_quotes(s@.skip(i as int)),
        decreases s.len() - i,
    {
        let ghost rest = s@.skip(i as int);
        if i + 1 < s.len() && s[i] == '\\' && s[i + 1] == '"' {
            out.push('"');
            assert(rest.skip(2) =~= s@.skip(i + 2));
            i += 2;
        } else {
            out.push(s[i]);
            assert(rest.skip(1) =~= s@.skip(i + 1));
            i += 1;
        }
    }
    assert(s@.skip(s.len() as int) =~= Seq::<char>::empty());
    assert(out@ + Seq::<char>::empty() =~= out@);
    out
}

pub fn normalize_name(raw: &str) -> (r: String)
    requires
        !lone_quote(raw@),
    ensures
        r@ == normalized_name(raw@),
{
    let rv = chars_of(raw);
    let t = trim_chars(&rv);
    if t.len() == 0 {
        return String::new();
    }
    let unquoted = if t.len() >= 1 && t[0] == '"' && t[t.len() - 1] == '"' {
        if t.len() == 1 {
            assert(t@ =~= seq!['"']);
        }
        let inner = sub_chars(&t, 1, t.len() - 1);
        unescape_chars(&inner)
    } else {
        sub_chars(&t, 0, t.len())
    };
    assert(unquoted@ == unquote(t@)) by {
        if !(t@.len() >= 2 && t@[0] == '"' && t@.last() == '"') {
            assert(t@.subrange(0, t@.len() as int) =~= t@);
        }
    }
    let punct = vec!['.', ',', ';', '-'];
    assert(punct@ =~= name_punct());
    let stripped = trim_end_any(&unquoted, &punct);
    if stripped.len() == 0 {
        return string_of(&unquoted);
    }
    let mut i: usize = 0;
    let mut lower = true;
    while i < stripped.len()
        invariant
            i <= stripped.len(),
            lower == (forall|k: int| 0 <= k < i ==> char_lowercase_prop(#[trigger] stripped@[k]) || is_ws(stripped@[k])),
        decreases stripped.len() - i,
    {
        let c = stripped[i];
        if !(is_lowercase(c) || char_is_ws(c)) {
            lower = false;
        }
        i += 1;
    }
    if lower {
        let first = to_uppercase(stripped[0]);
        let rest = sub_chars(&stripped, 1, stripped.len());
        let rest_s = string_of(&rest);
        assert(rest@ =~= stripped@.drop_first());
        return concat_str(first.as_str(), rest_s.as_str());
    }
    string_of(&stripped)
}

// ── Contacts in header values ───────────────────────────────────────────────

/// `str::split` on one character: the pieces between the separators.
pub open spec fn split_char(s: Seq<char>, sep: char) -> Seq<Seq<char>>
    decreases s.len(),
{
    if s.len() == 0 {
        seq![Seq::empty()]
    } else {
        let rest = split_char(s.drop_last(), sep);
        if s.last() == sep {
            rest.push(Seq::empty())
        } else {
            rest.update(rest.len() - 1, rest.last().push(s.last()))
        }
    }
}

pub proof fn lemma_split_char_len(s: Seq<char>, sep: char)
    ensures
        split_char(s, sep).len() >= 1,
    decreases s.len(),
{
    if s.len() > 0 {
        lemma_split_char_len(s.drop_last(), sep);
    }
}

/// The `Name <email>` reading of a trimmed part, when it has one with an
/// `@` in the address.
pub open spec fn angle_contact(p: Seq<char>) -> Option<(Seq<char>, Seq<char>)> {
    match (last_index_of(p, '<'), last_index_of(p, '>')) {
        (Some(s), Some(e)) => if s < e && p.subrange(s + 1, e).contains('@') {
            Some((normalized_name(trim(p.subrange(0, s))), normalized_email(p.subrange(s + 1, e))))
        } else {
            None
        },
        _ => None,
    }
}

/// The contact one comma-separated part of a header value gives, if any:
/// the `Name <email>` form first, then a bare address.
pub open spec fn contact_of_part(part: Seq<char>) -> Option<(Seq<char>, Seq<char>)> {
    let p = trim(part);
    if p.len() == 0 {
        None
    } else {
        match angle_contact(p) {
            Some(c) => Some(c),
            None => if p.contains('@') {
                Some((Seq::empty(), normalized_email(p)))
            } else {
                None
            },
        }
    }
}

/// The contacts of a sequence of parts, in order.
pub open spec fn contacts_of_parts(parts: Seq<Seq<char>>) -> Seq<(Seq<char>, Seq<char>)>
    decreases parts.len(),
{
    if parts.len() == 0 {
        Seq::empty()
    } else {
        let rest = contacts_of_parts(parts.drop_last());
        match contact_of_part(parts.last()) {
            Some(c) => rest.push(c),
            None => rest,
        }
    }
}

/// The contacts of a header value.
pub open spec fn contacts_of(header: Seq<char>) -> Seq<(Seq<char>, Seq<char>)> {
    contacts_of_parts(split_char(header, ','))
}

/// A part whose name is a lone double quote, which the name normalisation
/// cannot take.
pub open spec fn part_has_lone_quote_name(part: Seq<char>) -> bool {
    let p = trim(part);
    match (last_index_of(p, '<'), last_index_of(p, '>')) {
        (Some(s), Some(e)) => s < e && p.subrange(s + 1, e).contains('@') && lone_quote(
            trim(p.subrange(0, s)),
        ),
        _ => false,
    }
}

/// No part of the header has a lone-quote name.
pub open spec fn header_names_ok(header: Seq<char>) -> bool {
    forall|i: int|
        0 <= i < split_char(header, ',').len() ==> !part_has_lone_quote_name(
            #[trigger] split_char(header, ',')[i],
        )
}

proof fn lemma_trim_fixed(s: Seq<char>)
    requires
        s.len() > 0,
        !is_ws(s[0]),
        !is_ws(s.last()),
    ensures
        trim(s) == s,
{
    crate::text::lemma_lead_end(s, 0, crate::text::ws_pred());
    let a = crate::text::trim_start_by(s, crate::text::ws_pred());
    assert(a =~= s);
    crate::text::lemma_trail_start(a, 0, a.len() as int, crate::text::ws_pred());
    assert(trim(s) =~= s);
}

/// Trimming a text whose last character `p` does not take leaves it whole.
proof fn lemma_trim_end_stops(s: Seq<char>, p: spec_fn(char) -> bool)
    requires
        s.len() > 0,
        !p(s.last()),
    ensures
        trim_end_by(s, p) == s,
{
    crate::text::lemma_trail_start(s, 0, s.len() as int, p);
    assert(trim_end_by(s, p) =~= s);
}

proof fn lemma_unescape_plain(x: Seq<char>)
    requires
        !x.contains('\\'),
    ensures
        unescape_quotes(x) == x,
    decreases x.len(),
{
    if x.len() > 0 {
        assert(x[0] != '\\');
        assert(!x.skip(1).contains('\\')) by {
            if x.skip(1).contains('\\') {
                let k = choose|k: int| 0 <= k < x.skip(1).len() && x.skip(1)[k] == '\\';
                assert(x[k + 1] == '\\');
            }
        }
        lemma_unescape_plain(x.skip(1));
        assert(seq![x[0]] + x.skip(1) =~= x);
    }
}

proof fn lemma_split_char_none(s: Seq<char>, sep: char)
    requires
        !s.contains(sep),
    ensures
        split_char(s, sep) == seq![s],
    decreases s.len(),
{
    if s.len() > 0 {
        assert(!s.drop_last().contains(sep)) by {
            if s.drop_last().contains(sep) {
                let k = choose|k: int| 0 <= k < s.drop_last().len() && s.drop_last()[k] == sep;
                assert(s[k] == sep);
            }
        }
        lemma_split_char_none(s.drop_last(), sep);
        assert(s.last() != sep);
        assert(s.drop_last().push(s.last()) =~= s);
        let rest = split_char(s.drop_last(), sep);
        assert(rest.len() == 1 && rest.last() == s.drop_last());
        assert(rest.update(0, s) =~= seq![s]);
    } else {
        assert(s =~= Seq::<char>::empty());
    }
}

/// A name in double quotes loses them: `"John Doe"` becomes `John Doe`
/// (for a name with no quote or backslash inside, not ending in
/// punctuation, and not all lowercase).
pub proof fn law_quoted_name_loses_quotes(x: Seq<char>)
    requires
        x.len() > 0,
        !x.contains('"'),
        !x.contains('\\'),
        !name_punct().contains(x.last()),
        !all_lower(x),
    ensures
        normalized_name(seq!['"'] + x + seq!['"']) == x,
{
    let q = seq!['"'] + x + seq!['"'];
    lemma_trim_fixed(q);
    assert(q.subrange(1, q.len() - 1) =~= x);
    lemma_unescape_plain(x);
    lemma_trim_end_stops(x, in_set(name_punct()));
}

/// An all-lowercase name gets its first letter capitalised: `john doe`
/// becomes `John doe` (for a trimmed, unquoted name not ending in
/// punctuation).
pub proof fn law_lowercase_name_capitalised(x: Seq<char>)
    requires
        x.len() > 0,
        !is_ws(x[0]),
        !is_ws(x.last()),
        x[0] != '"',
        !name_punct().contains(x.last()),
        all_lower(x),
    ensures
        normalized_name(x) == char_uppercase(x[0]) + x.drop_first(),
{
    lemma_trim_fixed(x);
    lemma_trim_end_stops(x, in_set(name_punct()));
}

/// Punctuation that bleeds out of a header at the end of a name is dropped:
/// `Doe.` or `Doe;-` becomes `Doe` (for a trimmed, unquoted name that is
/// not all lowercase).
pub proof fn law_trailing_punctuation_dropped(x: Seq<char>, tail: Seq<char>)
    requires
        x.len() > 0,
        !is_ws(x[0]),
        x[0] != '"',
        !name_punct().contains(x.last()),
        !all_lower(x),
        tail.len() > 0,
        forall|k: int| 0 <= k < tail.len() ==> name_punct().contains(#[trigger] tail[k]),
    ensures
        normalized_name(x + tail) == x,
{
    let s = x + tail;
    assert(name_punct().contains(tail.last()));
    assert(s.last() == tail.last());
    assert(!is_ws(s.last())) by {
        assert(name_punct() == seq!['.', ',', ';', '-']);
    }
    lemma_trim_fixed(s);
    let p = in_set(name_punct());
    crate::text::lemma_trail_start(s, 0, s.len() as int, p);
    let ts = crate::text::trail_start(s, 0, s.len() as int, p);
    if ts < x.len() {
        assert(s[x.len() - 1] == x.last());
        assert(p(s[x.len() - 1]));
    }
    if ts > x.len() {
        assert(s[ts - 1] == tail[ts - 1 - x.len()]);
    }
    assert(trim_end_by(s, p) =~= x);
}

/// The name of a `Name <email>` contact is normalised: for a name `w` and
/// an address `e` with an `@`, neither holding angle brackets, the part
/// `w <e>` gives the normalised name of `w` and the normalised address.
pub proof fn law_angle_contact_name_is_normalised(w: Seq<char>, e: Seq<char>)
    requires
        w.len() > 0,
        !is_ws(w[0]),
        !is_ws(w.last()),
        !w.contains('<'),
        !w.contains('>'),
        e.contains('@'),
        !e.contains('<'),
        !e.contains('>'),
    ensures
        contact_of_part(w + " <"@ + e + ">"@) == Some((normalized_name(w), normalized_email(e))),
{
    reveal_strlit(" <");
    reveal_strlit(">");
    let p = w + " <"@ + e + ">"@;
    let n = w.len() as int;
    let m = e.len() as int;
    assert(p[0] == w[0]);
    assert(p.last() == '>');
    lemma_trim_fixed(p);
    assert(p[n + 1] == '<');
    assert forall|k: int| n + 1 < k < p.len() implies p[k] != '<' by {
        if k < n + 2 + m {
            assert(p[k] == e[k - n - 2]);
        }
    }
    crate::text::lemma_last_index_unique(p, '<', n + 1);
    crate::text::lemma_last_index_unique(p, '>', p.len() - 1);
    assert(p.subrange(n + 2, p.len() - 1) =~= e);
    let wn = p.subrange(0, n + 1);
    assert(wn =~= w.push(' '));
    assert(wn[0] == w[0]);
    crate::text::lemma_lead_end(wn, 0, crate::text::ws_pred());
    let a = crate::text::trim_start_by(wn, crate::text::ws_pred());
    assert(a =~= wn);
    crate::text::lemma_trail_start(a, 0, a.len() as int, crate::text::ws_pred());
    let ts = crate::text::trail_start(a, 0, a.len() as int, crate::text::ws_pred());
    assert(is_ws(a[n]));
    assert(a[n - 1] == w.last());
    if ts < n {
        assert(is_ws(a[n - 1]));
    }
    assert(trim(wn) =~= w);
}

/// A quoted display name in a header is read without its quotes:
/// `"John Doe" <john@example.com>` gives the one contact
/// (`John Doe`, `john@example.com`).
pub proof fn law_quoted_display_name_in_header(x: Seq<char>, e: Seq<char>)
    requires
        x.len() > 0,
        !x.contains('"'),
        !x.contains('\\'),
        !x.contains('<'),
        !x.contains('>'),
        !x.contains(','),
        !name_punct().contains(x.last()),
        !all_lower(x),
        e.contains('@'),
        !e.contains('<'),
        !e.contains('>'),
        !e.contains(','),
    ensures
        contacts_of(seq!['"'] + x + seq!['"'] + " <"@ + e + ">"@) == seq![(x, normalized_email(e))],
{
    reveal_strlit(" <");
    reveal_strlit(">");
    let w = seq!['"'] + x + seq!['"'];
    let h = w + " <"@ + e + ">"@;
    assert(!w.contains('<')) by {
        if w.contains('<') {
            let k = choose|k: int| 0 <= k < w.len() && w[k] == '<';
            assert(x[k - 1] == '<');
        }
    }
    assert(!w.contains('>')) by {
        if w.contains('>') {
            let k = choose|k: int| 0 <= k < w.len() && w[k] == '>';
            assert(x[k - 1] == '>');
        }
    }
    law_angle_contact_name_is_normalised(w, e);
    law_quoted_name_loses_quotes(x);
    assert(!h.contains(',')) by {
        if h.contains(',') {
            let k = choose|k: int| 0 <= k < h.len() && h[k] == ',';
            if 1 <= k < x.len() + 1 {
                assert(x[k - 1] == ',');
            } else if x.len() + 4 <= k < x.len() + 4 + e.len() {
                assert(e[k - x.len() - 4] == ',');
            }
        }
    }
    lemma_split_char_none(h, ',');
    let parts = seq![h];
    assert(parts.drop_last() =~= Seq::<Seq<char>>::empty());
    assert(contacts_of_parts(parts.drop_last()) == Seq::<(Seq<char>, Seq<char>)>::empty());
    assert(parts.last() == h);
    assert(contact_of_part(h) == Some((x, normalized_email(e))));
    assert(contacts_of_parts(parts) =~= seq![(x, normalized_email(e))]);
}

pub open spec fn pair_views(v: Seq<(String, String)>) -> Seq<(Seq<char>, Seq<char>)> {
    v.map_values(|p: (String, String)| (p.0@, p.1@))
}

pub open spec fn char_vec_views(v: Seq<Vec<char>>) -> Seq<Seq<char>> {
    v.map_values(|x: Vec<char>| x@)
}

fn split_on(s: &Vec<char>, sep: char) -> (r: Vec<Vec<char>>)
    ensures
        char_vec_views(r@) == split_char(s@, sep),
{
    let mut parts: Vec<Vec<char>> = Vec::new();
    let mut cur: Vec<char> = Vec::new();
    let mut i: usize = 0;
    assert(s@.take(0) =~= Seq::<char>::empty());
    assert(char_vec_views(parts@).push(cur@) =~= split_char(s@.take(0), sep));
    while i < s.len()
        invariant
            i <= s.len(),
            char_vec_views(parts@).push(cur@) == split_char(s@.take(i as int), sep),
        decreases s.len() - i,
    {
        let c = s[i];
        proof {
            assert(s@.take(i + 1).drop_last() =~= s@.take(i as int));
            assert(s@.take(i + 1).last() == c);
            lemma_split_char_len(s@.take(i as int), sep);
        }
        if c == sep {
            let done = cur;
            parts.push(done);
            cur = Vec::new();
            assert(char_vec_views(parts@).push(cur@) =~= split_char(s@.take(i + 1), sep));
        } else {
            cur.push(c);
            assert(char_vec_views(parts@).push(cur@) =~= split_char(s@.take(i + 1), sep));
        }
        i += 1;
    }
    parts.push(cur);
    assert(s@.take(s.len() as int) =~= s@);
    assert(char_vec_views(parts@) =~= split_char(s@, sep));
    parts
}

fn contact_from_part(part: &Vec<char>) -> (r: Option<(String, String)>)
    requires
        !part_has_lone_quote_name(part@),
    ensures
        match r {
            Some(c) => contact_of_part(part@) == Some((c.0@, c.1@)),
            None => contact_of_part(part@) is None,
        },
{
    let p = trim_chars(part);
    if p.len() == 0 {
        return None;
    }
    if let Some(start) = rfind_char(&p, '<') {
        if let Some(end) = rfind_char(&p, '>') {
            if start < end {
                let email = sub_chars(&p, start + 1, end);
                if contains_char(&email, '@') {
                    let name_raw = sub_chars(&p, 0, start);
                    let name = trim_chars(&name_raw);
                    let name_s = string_of(&name);
                    let email_s = string_of(&email);
                    let n = normalize_name(name_s.as_str());
                    let e = normalize_email(email_s.as_str());
                    return Some((n, e));
                }
            }
        }
    }
    if contains_char(&p, '@') {
        let ps = string_of(&p);
        return Some((String::new(), normalize_email(ps.as_str())));
    }
    None
}

fn part_lone_quote(part: &Vec<char>) -> (r: bool)
    ensures
        r == part_has_lone_quote_name(part@),
{
    let p = trim_chars(part);
    match (rfind_char(&p, '<'), rfind_char(&p, '>')) {
        (Some(start), Some(end)) => {
            if start < end {
                let email = sub_chars(&p, start + 1, end);
                if contains_char(&email, '@') {
                    let name_raw = sub_chars(&p, 0, start);
                    let name = trim_chars(&name_raw);
                    let t = trim_chars(&name);
                    let r = t.len() == 1 && t[0] == '"';
                    assert(r == (t@ =~= seq!['"']));
                    r
                } else {
                    false
                }
            } else {
                false
            }
        },
        _ => false,
    }
}

/// Whether every part of a header value has a name that the name
/// normalisation accepts, that is, whether `extract_contacts` may be called.
pub fn header_names_parse(header_value: &str) -> (r: bool)
    ensures
        r == header_names_ok(header_value@),
{
    let hv = chars_of(header_value);
    let parts = split_on(&hv, ',');
    let mut i: usize = 0;
    while i < parts.len()
        invariant
            i <= parts.len(),
            char_vec_views(parts@) == split_char(header_value@, ','),
            forall|j: int| 0 <= j < i ==> !part_has_lone_quote_name(#[trigger] split_char(header_value@, ',')[j]),
        decreases parts.len() - i,
    {
        assert(char_vec_views(parts@)[i as int] == parts@[i as int]@);
        if part_lone_quote(&parts[i]) {
            assert(part_has_lone_quote_name(split_char(header_value@, ',')[i as int]));
            return false;
        }
        i += 1;
    }
    true
}

/// Parses a raw From:/To: header value into (name, email) pairs.
pub fn extract_contacts(header_value: &str) -> (r: Vec<(String, String)>)
    requires
        header_names_ok(header_value@),
    ensures
        pair_views(r@) == contacts_of(header_value@),
{
    let hv = chars_of(header_value);
    let parts = split_on(&hv, ',');
    let mut contacts: Vec<(String, String)> = Vec::new();
    let mut i: usize = 0;
    while i < parts.len()
        invariant
            i <= parts.len(),
            char_vec_views(parts@) == split_char(header_value@, ','),
            header_names_ok(header_value@),
            pair_views(contacts@) == contacts_of_parts(char_vec_views(parts@).take(i as int)),
        decreases parts.len() - i,
    {
        assert(char_vec_views(parts@)[i as int] == parts@[i as int]@);
        let c = contact_from_part(&parts[i]);
        proof {
            let pv = char_vec_views(parts@);
            assert(pv.take(i + 1).drop_last() =~= pv.take(i as int));
            assert(pv.take(i + 1).last() == pv[i as int]);
        }
        match c {
            Some(pair) => {
                contacts.push(pair);
                assert(pair_views(contacts@) =~= pair_views(contacts@).drop_last().push(
                    (contacts@.last().0@, contacts@.last().1@),
                ));
            },
            None => {},
        }
        i += 1;
    }
    assert(char_vec_views(parts@).take(parts.len() as int) =~= char_vec_views(parts@));
    contacts
}

// ── Lookup ───────────────────────────────────────────────────────────────────

/// One address-book entry prepared for display.
pub struct Contact {
    pub name: String,
    pub mail: String,
    pub occurrences: usize,
}

/// `Name <mail>`, or just the address when there is no name.
pub open spec fn display_of(name: Seq<char>, mail: Seq<char>) -> Seq<char> {
    if name.len() == 0 {
        mail
    } else {
        name + " <"@ + mail + ">"@
    }
}

impl Contact {
    /// A field-by-field copy.
    pub fn copy(&self) -> (r: Contact)
        ensures
            r == *self,
    {
        Contact { name: self.name.clone(), mail: self.mail.clone(), occurrences: self.occurrences }
    }

    pub fn display_name(&self) -> (r: String)
        ensures
            r@ == display_of(self.name@, self.mail@),
    {
        let nv = chars_of(self.name.as_str());
        if nv.len() == 0 {
            self.mail.clone()
        } else {
            let s = concat_str(self.name.as_str(), " <");
            let s = concat_str(s.as_str(), self.mail.as_str());
            concat_str(s.as_str(), ">")
        }
    }
}

/// The score `SkimMatcherV2` (ignoring case) gives `choice` for `pattern`,
/// or `None` when it does not match.
pub uninterp spec fn skim_score(choice: Seq<char>, pattern: Seq<char>) -> Option<i64>;

/// Calls `fuzzy_matcher::skim::SkimMatcherV2::default().ignore_case()` and
/// its `fuzzy_match`; claims the result is `skim_score` of the arguments.
#[verifier::external_body]
fn fuzzy_score(choice: &str, pattern: &str) -> (r: Option<i64>)
    ensures
        r == skim_score(choice@, pattern@),
{
    fuzzy_matcher::skim::SkimMatcherV2::default().ignore_case().fuzzy_match(choice, pattern)
}

/// The text the fuzzy matcher sees for a contact.
pub open spec fn haystack(c: Contact) -> Seq<char> {
    c.name@ + " <"@ + c.mail@ + ">"@
}

/// A contact's score from its frequency and its fuzzy match: frequency
/// first, the match as tie-breaker; no match drops the contact.
pub open spec fn score_with(occurrences: int, fuzzy: Option<i64>) -> Option<int> {
    match fuzzy {
        Some(s) => Some(occurrences * 100 + s * 2),
        None => None,
    }
}

/// The fuzzy match a contact gets for a query: every contact matches an
/// empty query with score 0.
pub open spec fn match_for(c: Contact, query: Seq<char>) -> Option<i64> {
    if trim(query).len() == 0 {
        Some(0i64)
    } else {
        skim_score(haystack(c), trim(query))
    }
}

/// The relevance of a contact for a query.
pub open spec fn contact_score(c: Contact, query: Seq<char>) -> Option<int> {
    score_with(c.occurrences as int, match_for(c, query))
}

/// The scored contacts, in their order, with their scores.
pub open spec fn kept_pairs(cs: Seq<Contact>, scores: Seq<Option<i128>>) -> Seq<(Contact, i128)>
    decreases cs.len(),
{
    if cs.len() == 0 || scores.len() == 0 {
        Seq::empty()
    } else {
        let rest = kept_pairs(cs.drop_last(), scores.drop_last());
        match scores.last() {
            Some(k) => rest.push((cs.last(), k)),
            None => rest,
        }
    }
}

/// The scores of the kept contacts.
pub open spec fn pair_keys(kept: Seq<(Contact, i128)>) -> Seq<i128> {
    kept.map_values(|p: (Contact, i128)| p.1)
}

/// `r` lists the kept contacts, highest score first, equal scores in their
/// original order.
pub open spec fn ranked_from(r: Seq<Contact>, kept: Seq<(Contact, i128)>) -> bool {
    &&& r.len() == kept.len()
    &&& exists|order: Seq<usize>|
        #[trigger] is_ranking(pair_keys(kept), order) && forall|i: int|
            0 <= i < r.len() ==> #[trigger] r[i] == kept[order[i] as int].0
}

/// The score of every contact for a query, in their order.
pub open spec fn scores_for(cs: Seq<Contact>, query: Seq<char>) -> Seq<Option<i128>> {
    cs.map_values(|c: Contact| match contact_score(c, query) {
        Some(k) => Some(k as i128),
        None => None,
    })
}

/// The score of a contact seen `occurrences` times whose fuzzy match came
/// out as `fuzzy`.
pub fn score_contact(occurrences: usize, fuzzy: Option<i64>) -> (r: Option<i128>)
    ensures
        match score_with(occurrences as int, fuzzy) {
            Some(k) => r == Some(k as i128) && i128::MIN <= k <= i128::MAX,
            None => r is None,
        },
{
    match fuzzy {
        Some(s) => Some((occurrences as i128) * 100 + (s as i128) * 2),
        None => None,
    }
}

/// Orders the contacts that have a score, highest first; ties keep the
/// order given.
pub fn rank_scored(contacts: &Vec<Contact>, scores: &Vec<Option<i128>>) -> (r: Vec<Contact>)
    requires
        contacts.len() == scores.len(),
    ensures
        ranked_from(r@, kept_pairs(contacts@, scores@)),
{
    let ghost cs = contacts@;
    let ghost ss = scores@;
    let mut kept: Vec<Contact> = Vec::new();
    let mut keys: Vec<i128> = Vec::new();
    let mut i: usize = 0;
    while i < contacts.len()
        invariant
            cs == contacts@,
            ss == scores@,
            cs.len() == ss.len(),
            i <= cs.len(),
            kept@.len() == keys@.len(),
            kept_pairs(cs.take(i as int), ss.take(i as int)).len() == kept@.len(),
            forall|j: int| 0 <= j < kept@.len() ==> (#[trigger] kept_pairs(cs.take(i as int), ss.take(i as int))[j]) == (kept@[j], keys@[j]),
        decreases contacts.len() - i,
    {
        proof {
            assert(cs.take(i + 1).drop_last() =~= cs.take(i as int));
            assert(ss.take(i + 1).drop_last() =~= ss.take(i as int));
        }
        match scores[i] {
            Some(k) => {
                kept.push(contacts[i].copy());
                keys.push(k);
            },
            None => {},
        }
        i += 1;
    }
    proof {
        assert(cs.take(cs.len() as int) =~= cs);
        assert(ss.take(ss.len() as int) =~= ss);
    }
    let ghost kept_all = kept_pairs(cs, ss);
    assert(keys@ =~= pair_keys(kept_all));
    let order = stable_rank_desc(&keys);
    let mut out: Vec<Contact> = Vec::new();
    let mut k: usize = 0;
    while k < order.len()
        invariant
            k <= order@.len(),
            is_ranking(keys@, order@),
            keys@.len() == kept@.len(),
            out@.len() == k,
            forall|a: int| 0 <= a < k ==> (#[trigger] out@[a]) == kept@[order@[a] as int],
        decreases order@.len() - k,
    {
        let idx = order[k];
        out.push(kept[idx].copy());
        k += 1;
    }
    assert(forall|i: int| 0 <= i < out@.len() ==> #[trigger] out@[i] == kept_all[order@[i] as int].0);
    out
}

/// With an empty query every contact is kept, scored by how often it was
/// seen alone, so the lookup lists the whole book by frequency.
pub proof fn law_empty_query_ranks_by_frequency(cs: Seq<Contact>, query: Seq<char>)
    requires
        trim(query).len() == 0,
    ensures
        kept_pairs(cs, scores_for(cs, query)).len() == cs.len(),
        forall|i: int|
            0 <= i < cs.len() ==> #[trigger] kept_pairs(cs, scores_for(cs, query))[i] == (
                cs[i],
                (cs[i].occurrences * 100) as i128,
            ),
    decreases cs.len(),
{
    if cs.len() > 0 {
        let init = cs.drop_last();
        law_empty_query_ranks_by_frequency(init, query);
        assert(scores_for(cs, query).drop_last() =~= scores_for(init, query));
        let k = kept_pairs(cs, scores_for(cs, query));
        let r = kept_pairs(init, scores_for(init, query));
        assert(k == r.push((cs.last(), (cs.last().occurrences * 100) as i128)));
        assert forall|i: int| 0 <= i < cs.len() implies #[trigger] k[i] == (
            cs[i],
            (cs[i].occurrences * 100) as i128,
        ) by {
            if i < init.len() {
                assert(init[i] == cs[i]);
                assert(r[i] == (init[i], (init[i].occurrences * 100) as i128));
            }
        }
    }
}

/// For a non-blank query, a contact is matched on its name and its address
/// together: the text the fuzzy matcher scores is the name, a space, `<`,
/// the address and `>` (`Name <mail>`), so a contact can be found by its
/// address as well as by its name. Its score is its frequency times 100
/// plus twice the match score, and it is dropped when that text does not
/// match.
pub proof fn law_contact_matched_on_name_and_address(cs: Seq<Contact>, query: Seq<char>, i: int, text: Seq<char>)
    requires
        0 <= i < cs.len(),
        trim(query).len() > 0,
        text.len() == cs[i].name@.len() + cs[i].mail@.len() + 3,
        text.subrange(0, cs[i].name@.len() as int) == cs[i].name@,
        text[cs[i].name@.len() as int] == ' ',
        text[cs[i].name@.len() as int + 1] == '<',
        text.subrange(cs[i].name@.len() as int + 2, cs[i].name@.len() + 2 + cs[i].mail@.len() as int) == cs[i].mail@,
        text.last() == '>',
    ensures
        scores_for(cs, query)[i] == match skim_score(text, trim(query)) {
            Some(s) => Some((cs[i].occurrences * 100 + s * 2) as i128),
            None => None,
        },
{
    let c = cs[i];
    let n = c.name@.len() as int;
    let m = c.mail@.len() as int;
    reveal_strlit(" <");
    reveal_strlit(">");
    assert(haystack(c) =~= text) by {
        assert forall|k: int| 0 <= k < text.len() implies haystack(c)[k] == text[k] by {
            if k < n {
                assert(text[k] == text.subrange(0, n)[k]);
            } else if k < n + 2 {
            } else if k < n + 2 + m {
                assert(text[k] == text.subrange(n + 2, n + 2 + m)[k - n - 2]);
            }
        }
    }
}

/// The contacts that match a query, highest score first (ties in the order
/// given): the fuzzy score of every contact, then `rank_scored`.
pub fn rank_contacts(contacts: &Vec<Contact>, query: &str) -> (r: Vec<Contact>)
    ensures
        ranked_from(r@, kept_pairs(contacts@, scores_for(contacts@, query@))),
{
    let q = trim_str(query);
    let qv = chars_of(q.as_str());
    let mut scores: Vec<Option<i128>> = Vec::new();
    let mut i: usize = 0;
    while i < contacts.len()
        invariant
            q@ == trim(query@),
            qv@ == q@,
            i <= contacts.len(),
            scores@ == scores_for(contacts@.take(i as int), query@),
        decreases contacts.len() - i,
    {
        let c = &contacts[i];
        let fuzzy: Option<i64> = if qv.len() == 0 {
            Some(0)
        } else {
            let hay = concat_str(c.name.as_str(), " <");
            let hay = concat_str(hay.as_str(), c.mail.as_str());
            let hay = concat_str(hay.as_str(), ">");
            assert(hay@ =~= haystack(*c));
            fuzzy_score(hay.as_str(), q.as_str())
        };
        let sc = score_contact(c.occurrences, fuzzy);
        scores.push(sc);
        proof {
            assert(contacts@.take(i + 1) =~= contacts@.take(i as int).push(*c));
        }
        assert(scores@ =~= scores_for(contacts@.take(i + 1), query@));
        i += 1;
    }
    assert(contacts@.take(contacts.len() as int) =~= contacts@);
    rank_scored(contacts, &scores)
}

/// `"` written as `\"`.
pub open spec fn escape_quotes(s: Seq<char>) -> Seq<char>
    decreases s.len(),
{
    if s.len() == 0 {
        s
    } else if s[0] == '"' {
        seq!['\\', '"'] + escape_quotes(s.drop_first())
    } else {
        seq![s[0]] + escape_quotes(s.drop_first())
    }
}

/// The name part of an aerc address-book line.
pub open spec fn aerc_name_part(name: Seq<char>) -> Seq<char> {
    if name.len() == 0 {
        Seq::empty()
    } else if name.contains(',') || name.contains(';') || name.contains('"') {
        seq!['"'] + escape_quotes(name) + " \" "@
    } else {
        name + " "@
    }
}

/// One output line for a contact in a given format: `mutt` (address, tab,
/// name), `aerc` (name part, address, tab, address), otherwise the display
/// name.
pub open spec fn contact_line(format: Seq<char>, name: Seq<char>, mail: Seq<char>) -> Seq<char> {
    if format == "mutt"@ {
        mail + "\t"@ + name
    } else if format == "aerc"@ {
        aerc_name_part(name) + mail + "\t"@ + mail
    } else {
        display_of(name, mail)
    }
}

fn escape_quote_chars(s: &Vec<char>) -> (r: Vec<char>)
    ensures
        r@ == escape_quotes(s@),
{
    let mut out: Vec<char> = Vec::new();
    let mut i: usize = 0;
    assert(s@.skip(0) =~= s@);
    while i < s.len()
        invariant
            i <= s.len(),
            escape_quotes(s@) == out@ + escape_quotes(s@.skip(i as int)),
        decreases s.len() - i,
    {
        assert(s@.skip(i as int).drop_first() =~= s@.skip(i + 1));
        if s[i] == '"' {
            out.push('\\');
            out.push('"');
        } else {
            out.push(s[i]);
        }
        i += 1;
    }
    assert(s@.skip(s.len() as int) =~= Seq::<char>::empty());
    assert(out@ + Seq::<char>::empty() =~= out@);
    out
}

pub fn format_contact_line(format: &str, c: &Contact) -> (r: String)
    ensures
        r@ == contact_line(format@, c.name@, c.mail@),
{
    if str_eq(format, "mutt") {
        let s = concat_str(c.mail.as_str(), "\t");
        concat_str(s.as_str(), c.name.as_str())
    } else if str_eq(format, "aerc") {
        let nv = chars_of(c.name.as_str());
        let name_part = if nv.len() == 0 {
            String::new()
        } else if contains_char(&nv, ',') || contains_char(&nv, ';') || contains_char(&nv, '"') {
            let esc = escape_quote_chars(&nv);
            let mut s = String::new();
            push_char(&mut s, '"');
            let es = string_of(&esc);
            let s = concat_str(s.as_str(), es.as_str());
            assert(s@ =~= seq!['"'] + escape_quotes(c.name@));
            concat_str(s.as_str(), " \" ")
        } else {
            concat_str(c.name.as_str(), " ")
        };
        let s = concat_str(name_part.as_str(), c.mail.as_str());
        let s = concat_str(s.as_str(), "\t");
        concat_str(s.as_str(), c.mail.as_str())
    } else {
        c.display_name()
    }
}

/// The output lines for a list of contacts in a given format.
pub fn format_lines(contacts: &Vec<Contact>, format: &str) -> (r: Vec<String>)
    ensures
        r@.len() == contacts@.len(),
        forall|i: int|
            0 <= i < r@.len() ==> (#[trigger] r@[i])@ == contact_line(format@, contacts@[i].name@, contacts@[i].mail@),
{
    let mut r: Vec<String> = Vec::new();
    let mut i: usize = 0;
    while i < contacts.len()
        invariant
            i <= contacts@.len(),
            r@.len() == i,
            forall|j: int|
                0 <= j < i ==> (#[trigger] r@[j])@ == contact_line(format@, contacts@[j].name@, contacts@[j].mail@),
        decreases contacts.len() - i,
    {
        r.push(format_contact_line(format, &contacts[i]));
        i += 1;
    }
    r
}

} // verus!
