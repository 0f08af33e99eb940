//! The text the terminal interface draws: truncated senders, the search
//! bar's word classes, pane titles and status lines.

use vstd::prelude::*;
use crate::text::{chars_of, string_of, concat_str, is_ws, char_is_ws, char_uppercase, to_uppercase,
    find_char, first_index_of, sub_chars, join_strings, join_sep, str_eq, push_char};
use crate::tag_set::views;
use crate::numfmt::{decimal, decimal_string};
use crate::address::char_vec_views;

verus! {

// ── Truncation ──────────────────────────────────────────────────────────────

/// At most `max` characters: longer text keeps `max - 1` of them and ends
/// with an ellipsis, which takes the last place; with no place at all the
/// text is empty.
pub open spec fn truncated(s: Seq<char>, max: nat) -> Seq<char> {
    if s.len() <= max {
        s
    } else if max == 0 {
        Seq::empty()
    } else {
        s.take(max - 1) + seq!['…']
    }
}

/// Truncates a string to a number of characters, ending it with `…` when
/// it was longer.
pub fn truncate(s: &str, max: usize) -> (r: String)
    ensures
        r@ == truncated(s@, max as nat),
        r@.len() <= max || r@ == s@,
{
    let v = chars_of(s);
    if v.len() <= max {
        return String::from_str(s);
    }
    if max == 0 {
        return String::new();
    }
    let mut w = crate::text::sub_chars(&v, 0, max - 1);
    w.push('…');
    assert(w@ =~= s@.take(max - 1) + seq!['…']);
    string_of(&w)
}

// ── Search bar highlighting ─────────────────────────────────────────────────

/// How a piece of the search bar is drawn.
#[derive(PartialEq, Eq, Structural, Clone, Copy, Debug)]
pub enum SpanKind {
    /// Ordinary text.
    Base,
    /// A field name with its colon, such as `from:`.
    Keyword,
    /// A boolean operator: `AND`, `OR`, `NOT`.
    Operator,
}

/// The pieces of `s` between whitespace (`str::split_whitespace`).
pub open spec fn words(s: Seq<char>) -> Seq<Seq<char>>
    decreases s.len(),
{
    if s.len() == 0 {
        Seq::empty()
    } else {
        let rest = words(s.drop_last());
        let c = s.last();
        if is_ws(c) {
            rest
        } else if s.len() >= 2 && !is_ws(s[s.len() - 2]) && rest.len() > 0 {
            rest.update(rest.len() - 1, rest.last().push(c))
        } else {
            rest.push(seq![c])
        }
    }
}

/// `str::to_uppercase`: every character's uppercase mapping, in order.
pub open spec fn upper(w: Seq<char>) -> Seq<char>
    decreases w.len(),
{
    if w.len() == 0 {
        Seq::empty()
    } else {
        upper(w.drop_last()) + char_uppercase(w.last())
    }
}

/// A boolean operator of the query syntax, in any case.
pub open spec fn is_operator(w: Seq<char>) -> bool {
    let u = upper(w);
    u == "AND"@ || u == "OR"@ || u == "NOT"@
}

/// The pieces of a word with a colon at `p`: the field name with its colon,
/// the value if any, then a space.
pub open spec fn field_spans(w: Seq<char>, p: int) -> Seq<(Seq<char>, SpanKind)> {
    let rest = w.subrange(p + 1, w.len() as int);
    seq![(w.subrange(0, p + 1), SpanKind::Keyword)] + (if rest.len() > 0 {
        seq![(rest, SpanKind::Base)]
    } else {
        Seq::empty()
    }) + seq![(seq![' '], SpanKind::Base)]
}

/// The pieces one word of the search bar is drawn as.
pub open spec fn word_spans(w: Seq<char>) -> Seq<(Seq<char>, SpanKind)> {
    if is_operator(w) {
        seq![(w.push(' '), SpanKind::Operator)]
    } else {
        match first_index_of(w, ':') {
            Some(p) => field_spans(w, p),
            None => seq![(w.push(' '), SpanKind::Base)],
        }
    }
}

/// The pieces of the whole search bar; a blank bar is one space.
pub open spec fn query_spans(input: Seq<char>) -> Seq<(Seq<char>, SpanKind)> {
    if input.len() == 0 {
        seq![(seq![' '], SpanKind::Base)]
    } else {
        words(input).map_values(|w: Seq<char>| word_spans(w)).flatten()
    }
}

pub open spec fn span_views(v: Seq<(String, SpanKind)>) -> Seq<(Seq<char>, SpanKind)> {
    v.map_values(|p: (String, SpanKind)| (p.0@, p.1))
}

pub(crate) fn split_words(v: &Vec<char>) -> (r: Vec<Vec<char>>)
    ensures
        char_vec_views(r@) == words(v@),
{
    let mut out: Vec<Vec<char>> = Vec::new();
    let mut cur: Vec<char> = Vec::new();
    let mut i: usize = 0;
    assert(v@.take(0) =~= Seq::<char>::empty());
    while i < v.len()
        invariant
            i <= v@.len(),
            cur@.len() == 0 ==> char_vec_views(out@) == words(v@.take(i as int)),
            cur@.len() > 0 ==> char_vec_views(out@).push(cur@) == words(v@.take(i as int)),
            cur@.len() > 0 ==> i >= 1 && !is_ws(v@[i - 1]),
            cur@.len() == 0 ==> (i == 0 || is_ws(v@[i - 1])),
        decreases v.len() - i,
    {
        let c = v[i];
        let ghost pre = v@.take(i as int);
        proof {
            assert(v@.take(i + 1).drop_last() =~= pre);
            assert(v@.take(i + 1).last() == c);
        }
        if char_is_ws(c) {
            if cur.len() > 0 {
                let w = cur;
                out.push(w);
                cur = Vec::new();
                assert(char_vec_views(out@) =~= words(v@.take(i + 1)));
            } else {
                assert(char_vec_views(out@) =~= words(v@.take(i + 1)));
            }
        } else {
            let ghost was_empty = cur@.len() == 0;
            proof {
                if !was_empty {
                    assert(v@.take(i + 1)[i - 1] == v@[i - 1]);
                } else if i >= 1 {
                    assert(v@.take(i + 1)[i - 1] == v@[i - 1]);
                }
            }
            let ghost old_cur = cur@;
            cur.push(c);
            proof {
                if was_empty {
                    assert(cur@ =~= seq![c]);
                } else {
                    assert(cur@ == old_cur.push(c));
                }
            }
            assert(char_vec_views(out@).push(cur@) =~= words(v@.take(i + 1)));
        }
        i += 1;
    }
    assert(v@.take(v@.len() as int) =~= v@);
    if cur.len() > 0 {
        out.push(cur);
        assert(char_vec_views(out@) =~= words(v@));
    }
    out
}

fn upper_chars(w: &Vec<char>) -> (r: Vec<char>)
    ensures
        r@ == upper(w@),
{
    let mut r: Vec<char> = Vec::new();
    let mut i: usize = 0;
    while i < w.len()
        invariant
            i <= w@.len(),
            r@ == upper(w@.take(i as int)),
        decreases w.len() - i,
    {
        proof {
            assert(w@.take(i + 1).drop_last() =~= w@.take(i as int));
            assert(w@.take(i + 1).last() == w@[i as int]);
        }
        let u = to_uppercase(w[i]);
        let uv = chars_of(u.as_str());
        let mut k: usize = 0;
        let ghost base = r@;
        while k < uv.len()
            invariant
                k <= uv@.len(),
                r@ == base + uv@.take(k as int),
            decreases uv.len() - k,
        {
            r.push(uv[k]);
            assert(r@ =~= base + uv@.take(k + 1));
            k += 1;
        }
        assert(uv@.take(uv@.len() as int) =~= uv@);
        i += 1;
    }
    assert(w@.take(w@.len() as int) =~= w@);
    r
}

fn push_span(out: &mut Vec<(String, SpanKind)>, text: &Vec<char>, kind: SpanKind)
    ensures
        span_views(final(out)@) == span_views(old(out)@).push((text@, kind)),
{
    let ghost before = out@;
    out.push((string_of(text), kind));
    assert(span_views(out@) =~= span_views(before).push((text@, kind)));
}

fn operator_word(w: &Vec<char>) -> (r: bool)
    ensures
        r == is_operator(w@),
{
    let u = upper_chars(w);
    let us = string_of(&u);
    str_eq(us.as_str(), "AND") || str_eq(us.as_str(), "OR") || str_eq(us.as_str(), "NOT")
}

fn field_spans_exec(w: &Vec<char>, p: usize) -> (r: Vec<(String, SpanKind)>)
    requires
        p < w.len(),
    ensures
        span_views(r@) == field_spans(w@, p as int),
{
    let mut r: Vec<(String, SpanKind)> = Vec::new();
    let head = sub_chars(w, 0, p + 1);
    push_span(&mut r, &head, SpanKind::Keyword);
    let rest = sub_chars(w, p + 1, w.len());
    if rest.len() > 0 {
        push_span(&mut r, &rest, SpanKind::Base);
    }
    let mut sp: Vec<char> = Vec::new();
    sp.push(' ');
    assert(sp@ =~= seq![' ']);
    push_span(&mut r, &sp, SpanKind::Base);
    assert(span_views(r@) =~= field_spans(w@, p as int));
    r
}

fn word_spans_exec(w: &Vec<char>) -> (r: Vec<(String, SpanKind)>)
    ensures
        span_views(r@) == word_spans(w@),
{
    let mut r: Vec<(String, SpanKind)> = Vec::new();
    let mut wp = w.clone();
    wp.push(' ');
    if operator_word(w) {
        push_span(&mut r, &wp, SpanKind::Operator);
        assert(span_views(r@) =~= word_spans(w@));
        return r;
    }
    match find_char(w, ':') {
        Some(p) => field_spans_exec(w, p),
        None => {
            push_span(&mut r, &wp, SpanKind::Base);
            assert(span_views(r@) =~= word_spans(w@));
            r
        },
    }
}

/// The pieces of the search bar and how each is drawn: operators dimmed,
/// field names marked, the rest plain, one space after each word.
pub fn highlight_query(input: &str) -> (r: Vec<(String, SpanKind)>)
    ensures
        span_views(r@) == query_spans(input@),
{
    let v = chars_of(input);
    let mut r: Vec<(String, SpanKind)> = Vec::new();
    if v.len() == 0 {
        let mut sp: Vec<char> = Vec::new();
        sp.push(' ');
        assert(sp@ =~= seq![' ']);
        push_span(&mut r, &sp, SpanKind::Base);
        assert(span_views(r@) =~= seq![(seq![' '], SpanKind::Base)]);
        return r;
    }
    let ws = split_words(&v);
    let ghost wv = char_vec_views(ws@);
    let ghost f = |w: Seq<char>| word_spans(w);
    let mut i: usize = 0;
    while i < ws.len()
        invariant
            i <= ws@.len(),
            wv == char_vec_views(ws@),
            wv == words(input@),
            f == (|w: Seq<char>| word_spans(w)),
            span_views(r@) == wv.take(i as int).map_values(f).flatten(),
        decreases ws.len() - i,
    {
        let piece = word_spans_exec(&ws[i]);
        let ghost before = r@;
        let mut k: usize = 0;
        while k < piece.len()
            invariant
                k <= piece@.len(),
                span_views(r@) == span_views(before) + span_views(piece@).take(k as int),
            decreases piece.len() - k,
        {
            let t = piece[k].0.clone();
            let kind = piece[k].1;
            assert(span_views(piece@)[k as int] == (t@, kind));
            let ghost mid = r@;
            r.push((t, kind));
            assert(span_views(r@) =~= span_views(mid).push((t@, kind)));
            assert(span_views(r@) =~= span_views(before) + span_views(piece@).take(k + 1));
            k += 1;
        }
        proof {
            assert(span_views(piece@).take(piece@.len() as int) =~= span_views(piece@));
            assert(wv.take(i + 1).map_values(f) =~= wv.take(i as int).map_values(f).push(f(wv[i as int])));
            wv.take(i as int).map_values(f).lemma_flatten_push(f(wv[i as int]));
            assert(wv[i as int] == ws@[i as int]@);
        }
        i += 1;
    }
    assert(wv.take(wv.len() as int) =~= wv);
    r
}

// ── Titles and lines ────────────────────────────────────────────────────────

/// The message list's title: position, count, and whether the list was cut
/// at the search limit.
pub open spec fn list_title_text(selected: nat, count: nat, limit: nat) -> Seq<char> {
    let hint = if count >= limit {
        "(showing top "@ + decimal(limit) + ")"@
    } else {
        decimal(count) + " total"@
    };
    " Messages "@ + decimal(selected + 1) + "/"@ + decimal(count) + " "@ + hint + " "@
}

pub fn list_title(selected: usize, count: usize, limit: usize) -> (r: String)
    requires
        selected < usize::MAX,
    ensures
        r@ == list_title_text(selected as nat, count as nat, limit as nat),
{
    let hint = if count >= limit {
        let l = decimal_string(limit as u128);
        let s = concat_str("(showing top ", l.as_str());
        concat_str(s.as_str(), ")")
    } else {
        let c = decimal_string(count as u128);
        concat_str(c.as_str(), " total")
    };
    let a = decimal_string((selected + 1) as u128);
    let c = decimal_string(count as u128);
    let s = concat_str(" Messages ", a.as_str());
    let s = concat_str(s.as_str(), "/");
    let s = concat_str(s.as_str(), c.as_str());
    let s = concat_str(s.as_str(), " ");
    let s = concat_str(s.as_str(), hint.as_str());
    concat_str(s.as_str(), " ")
}

/// A row's tags for the status bar.
pub open spec fn tags_status_text(tags: Seq<Seq<char>>) -> Seq<char> {
    if tags.len() == 0 {
        " (no tags)"@
    } else {
        " tags: "@ + join_sep(tags, "  "@)
    }
}

pub fn tags_status(tags: &Vec<String>) -> (r: String)
    ensures
        r@ == tags_status_text(views(tags@)),
{
    if tags.len() == 0 {
        String::from_str(" (no tags)")
    } else {
        let j = join_strings(tags, "  ");
        concat_str(" tags: ", j.as_str())
    }
}

/// The preview pane's title for a row.
pub open spec fn preview_title_text(subject: Seq<char>, tags: Seq<Seq<char>>) -> Seq<char> {
    let tag_str = if tags.len() == 0 {
        Seq::empty()
    } else {
        "  ["@ + join_sep(tags, " "@) + "]"@
    };
    " "@ + subject + " "@ + tag_str
}

pub fn preview_title(subject: &str, tags: &Vec<String>) -> (r: String)
    ensures
        r@ == preview_title_text(subject@, views(tags@)),
{
    let s = concat_str(" ", subject);
    let s = concat_str(s.as_str(), " ");
    if tags.len() == 0 {
        proof {
            assert(s@ + Seq::<char>::empty() =~= s@);
        }
        s
    } else {
        let j = join_strings(tags, " ");
        let t = concat_str("  [", j.as_str());
        let t = concat_str(t.as_str(), "]");
        concat_str(s.as_str(), t.as_str())
    }
}

/// One line of the filter pane: indentation by depth, a radio mark for
/// selectable items (filled when active), then the label.
pub open spec fn filter_line_text(label: Seq<char>, selectable: bool, active: bool, depth: nat) -> Seq<char> {
    let indent = Seq::new(2 * depth, |i: int| ' ');
    let mark = if selectable {
        if active {
            "◉"@
        } else {
            "○"@
        }
    } else {
        Seq::empty()
    };
    indent + mark + " "@ + label
}

pub fn filter_line(label: &str, selectable: bool, active: bool, depth: usize) -> (r: String)
    requires
        depth < usize::MAX / 2,
    ensures
        r@ == filter_line_text(label@, selectable, active, depth as nat),
{
    let mut v: Vec<char> = Vec::new();
    let mut i: usize = 0;
    while i < 2 * depth
        invariant
            i <= 2 * depth,
            depth < usize::MAX / 2,
            v@ == Seq::new(i as nat, |k: int| ' '),
        decreases 2 * depth - i,
    {
        v.push(' ');
        assert(v@ =~= Seq::new((i + 1) as nat, |k: int| ' '));
        i += 1;
    }
    let indent = string_of(&v);
    let s = if selectable {
        if active {
            concat_str(indent.as_str(), "◉")
        } else {
            concat_str(indent.as_str(), "○")
        }
    } else {
        proof {
            assert(indent@ + Seq::<char>::empty() =~= indent@);
        }
        indent
    };
    let s = concat_str(s.as_str(), " ");
    concat_str(s.as_str(), label)
}

} // verus!
