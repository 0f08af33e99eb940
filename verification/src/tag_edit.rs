//! Editing the tag list of a message: `+tag` adds, `-tag` removes, and a
//! batch of changes is checked as a whole before any message is touched.

use vstd::prelude::*;
use crate::text::{chars_of, sub_chars, string_of, concat_str, str_eq};
use crate::tag_set::{views, clone_strings};
use crate::validation::{tag_error, validate_tag};
use crate::numfmt::{decimal, decimal_string};

verus! {

/// The tag a change names: `+t` and `-t` name `t`, anything else names
/// itself.
pub open spec fn change_tag(c: Seq<char>) -> Seq<char> {
    if c.len() > 0 && (c[0] == '+' || c[0] == '-') {
        c.drop_first()
    } else {
        c
    }
}

/// The refusal of a change whose tag is invalid.
pub open spec fn change_error(c: Seq<char>, e: Seq<char>) -> Seq<char> {
    "Invalid tag '"@ + change_tag(c) + "': "@ + e
        + ". The hamster refuses to apply any tags until all of them are valid."@
}

/// The refusal of the first invalid change, in order.
pub open spec fn changes_error(changes: Seq<Seq<char>>) -> Option<Seq<char>>
    decreases changes.len(),
{
    if changes.len() == 0 {
        None
    } else {
        match tag_error(change_tag(changes[0])) {
            Some(e) => Some(change_error(changes[0], e)),
            None => changes_error(changes.drop_first()),
        }
    }
}

/// The tags with `t` added at the end unless already there.
pub open spec fn with_tag(tags: Seq<Seq<char>>, t: Seq<char>) -> Seq<Seq<char>> {
    if tags.contains(t) {
        tags
    } else {
        tags.push(t)
    }
}

/// The tags with every `t` removed.
pub open spec fn without_tag(tags: Seq<Seq<char>>, t: Seq<char>) -> Seq<Seq<char>> {
    tags.filter(differs(t))
}

/// Difference from `t`, as a predicate.
pub open spec fn differs(t: Seq<char>) -> spec_fn(Seq<char>) -> bool {
    |x: Seq<char>| x != t
}

/// The effect of one change on a tag list.
pub open spec fn apply_change(tags: Seq<Seq<char>>, c: Seq<char>) -> Seq<Seq<char>> {
    if c.len() > 0 && c[0] == '+' {
        with_tag(tags, c.drop_first())
    } else if c.len() > 0 && c[0] == '-' {
        without_tag(tags, c.drop_first())
    } else {
        tags
    }
}

/// The effect of a list of changes, applied in order.
pub open spec fn apply_changes(tags: Seq<Seq<char>>, changes: Seq<Seq<char>>) -> Seq<Seq<char>>
    decreases changes.len(),
{
    if changes.len() == 0 {
        tags
    } else {
        apply_change(apply_changes(tags, changes.drop_last()), changes.last())
    }
}

/// No tag occurs twice.
pub open spec fn no_repeats(tags: Seq<Seq<char>>) -> bool {
    forall|i: int, j: int| 0 <= i < j < tags.len() ==> tags[i] != tags[j]
}

fn change_tag_str(c: &str) -> (r: String)
    ensures
        r@ == change_tag(c@),
{
    let v = chars_of(c);
    if v.len() > 0 && (v[0] == '+' || v[0] == '-') {
        let t = sub_chars(&v, 1, v.len());
        assert(t@ =~= v@.drop_first());
        string_of(&t)
    } else {
        String::from_str(c)
    }
}

/// Checks every change before any is applied; the first invalid one is
/// refused.
pub fn validate_tag_changes(changes: &Vec<String>) -> (r: Result<(), String>)
    ensures
        match r {
            Ok(()) => changes_error(views(changes@)) is None,
            Err(m) => changes_error(views(changes@)) == Some(m@),
        },
{
    let mut i: usize = 0;
    assert(views(changes@).skip(0) =~= views(changes@));
    while i < changes.len()
        invariant
            i <= changes.len(),
            changes_error(views(changes@)) == changes_error(views(changes@).skip(i as int)),
        decreases changes.len() - i,
    {
        assert(views(changes@).skip(i as int).drop_first() =~= views(changes@).skip(i + 1));
        assert(views(changes@).skip(i as int)[0] == changes@[i as int]@);
        let tag = change_tag_str(changes[i].as_str());
        match validate_tag(tag.as_str()) {
            Ok(()) => {},
            Err(e) => {
                let s = concat_str("Invalid tag '", tag.as_str());
                let s = concat_str(s.as_str(), "': ");
                let s = concat_str(s.as_str(), e.as_str());
                let s = concat_str(
                    s.as_str(),
                    ". The hamster refuses to apply any tags until all of them are valid.",
                );
                return Err(s);
            },
        }
        i += 1;
    }
    assert(views(changes@).skip(changes.len() as int).len() == 0);
    Ok(())
}

/// Adds a tag unless it is already there.
pub fn add_tag(tags: &mut Vec<String>, t: &str)
    ensures
        views(final(tags)@) == with_tag(views(old(tags)@), t@),
{
    let mut i: usize = 0;
    while i < tags.len()
        invariant
            i <= tags@.len(),
            forall|k: int| 0 <= k < i ==> (#[trigger] tags@[k])@ != t@,
        decreases tags.len() - i,
    {
        if str_eq(tags[i].as_str(), t) {
            assert(views(tags@)[i as int] == t@);
            return;
        }
        i += 1;
    }
    assert(!views(tags@).contains(t@)) by {
        if views(tags@).contains(t@) {
            let k = choose|k: int| 0 <= k < views(tags@).len() && views(tags@)[k] == t@;
            assert(tags@[k]@ == t@);
        }
    }
    let ghost before = tags@;
    tags.push(String::from_str(t));
    assert(views(tags@) =~= views(before).push(t@));
}

/// Removes every occurrence of a tag.
pub fn remove_tag(tags: &mut Vec<String>, t: &str)
    ensures
        views(final(tags)@) == without_tag(views(old(tags)@), t@),
{
    broadcast use vstd::seq_lib::group_seq_properties;

    let ghost src = views(tags@);
    let ghost p = differs(t@);
    let mut kept: Vec<String> = Vec::new();
    let mut i: usize = 0;
    while i < tags.len()
        invariant
            src == views(tags@),
            p == differs(t@),
            i <= tags@.len(),
            views(kept@) == src.take(i as int).filter(p),
        decreases tags.len() - i,
    {
        proof {
            assert(src.take(i + 1) =~= src.take(i as int).push(tags@[i as int]@));
            src.take(i as int).lemma_filter_push(tags@[i as int]@, p);
        }
        if !str_eq(tags[i].as_str(), t) {
            let ghost before = kept@;
            kept.push(tags[i].clone());
            assert(views(kept@) =~= views(before).push(tags@[i as int]@));
        }
        i += 1;
    }
    assert(src.take(src.len() as int) =~= src);
    *tags = kept;
}

/// Applies the changes in order: `+t` adds `t` unless present, `-t` removes
/// every `t`, anything else is ignored.
pub fn apply_tag_changes(tags: &Vec<String>, changes: &Vec<String>) -> (r: Vec<String>)
    ensures
        views(r@) == apply_changes(views(tags@), views(changes@)),
{
    let mut out = clone_strings(tags);
    let mut i: usize = 0;
    while i < changes.len()
        invariant
            i <= changes@.len(),
            views(out@) == apply_changes(views(tags@), views(changes@).take(i as int)),
        decreases changes.len() - i,
    {
        proof {
            assert(views(changes@).take(i + 1).drop_last() =~= views(changes@).take(i as int));
            assert(views(changes@).take(i + 1).last() == changes@[i as int]@);
        }
        let v = chars_of(changes[i].as_str());
        if v.len() > 0 && v[0] == '+' {
            let t = sub_chars(&v, 1, v.len());
            assert(t@ =~= v@.drop_first());
            let ts = string_of(&t);
            add_tag(&mut out, ts.as_str());
        } else if v.len() > 0 && v[0] == '-' {
            let t = sub_chars(&v, 1, v.len());
            assert(t@ =~= v@.drop_first());
            let ts = string_of(&t);
            remove_tag(&mut out, ts.as_str());
        }
        i += 1;
    }
    assert(views(changes@).take(changes@.len() as int) =~= views(changes@));
    out
}

/// The closing line of a tag run.
pub open spec fn tag_summary_text(updated: nat, errors: nat) -> Seq<char> {
    if errors > 0 {
        "Tags updated for "@ + decimal(updated) + " message(s). ("@ + decimal(errors)
            + " error(s) – check logs for details.)"@
    } else {
        "Tags updated for "@ + decimal(updated) + " message(s)."@
    }
}

pub fn tag_summary(updated: usize, errors: usize) -> (r: String)
    ensures
        r@ == tag_summary_text(updated as nat, errors as nat),
{
    let u = decimal_string(updated as u128);
    let s = concat_str("Tags updated for ", u.as_str());
    if errors > 0 {
        let s = concat_str(s.as_str(), " message(s). (");
        let e = decimal_string(errors as u128);
        let s = concat_str(s.as_str(), e.as_str());
        concat_str(s.as_str(), " error(s) – check logs for details.)")
    } else {
        concat_str(s.as_str(), " message(s).")
    }
}

// ── Laws ────────────────────────────────────────────────────────────────────

/// Adding a tag leaves it present, and adding it again changes nothing.
pub proof fn law_add_idempotent(tags: Seq<Seq<char>>, t: Seq<char>)
    ensures
        with_tag(tags, t).contains(t),
        with_tag(with_tag(tags, t), t) == with_tag(tags, t),
{
    if !tags.contains(t) {
        assert(tags.push(t)[tags.len() as int] == t);
    }
}

/// After removing a tag it is absent, and every other tag stays.
pub proof fn law_remove_clears(tags: Seq<Seq<char>>, t: Seq<char>)
    ensures
        !without_tag(tags, t).contains(t),
        forall|x: Seq<char>| x != t ==> (tags.contains(x) <==> #[trigger] without_tag(tags, t).contains(x)),
{
    broadcast use vstd::seq_lib::group_seq_properties;

    let p = differs(t);
    assert forall|x: Seq<char>| x != t implies (tags.contains(x) <==> #[trigger] without_tag(tags, t).contains(x)) by {
        if tags.contains(x) {
            let i = choose|i: int| 0 <= i < tags.len() && tags[i] == x;
            tags.lemma_filter_contains(p, i);
        }
        if without_tag(tags, t).contains(x) {
            let i = choose|i: int| 0 <= i < tags.filter(p).len() && tags.filter(p)[i] == x;
            lemma_filter_member(tags, p, i);
        }
    }
    if without_tag(tags, t).contains(t) {
        let i = choose|i: int| 0 <= i < tags.filter(p).len() && tags.filter(p)[i] == t;
        tags.lemma_filter_pred(p, i);
    }
}

proof fn lemma_filter_member(s: Seq<Seq<char>>, p: spec_fn(Seq<char>) -> bool, i: int)
    requires
        0 <= i < s.filter(p).len(),
    ensures
        s.contains(s.filter(p)[i]),
    decreases s.len(),
{
    broadcast use vstd::seq_lib::group_seq_properties;

    if s.len() > 0 {
        let init = s.drop_last();
        init.lemma_filter_push(s.last(), p);
        assert(init.push(s.last()) =~= s);
        if i < init.filter(p).len() {
            lemma_filter_member(init, p, i);
            let j = choose|j: int| 0 <= j < init.len() && init[j] == s.filter(p)[i];
            assert(s[j] == init[j]);
        } else {
            assert(s.filter(p)[i] == s.last());
            assert(s[s.len() - 1] == s.last());
        }
    } else {
        s.lemma_filter_len(p);
    }
}

/// Applying changes to a list without repeated tags never repeats a tag.
pub proof fn law_changes_keep_tags_distinct(tags: Seq<Seq<char>>, changes: Seq<Seq<char>>)
    requires
        no_repeats(tags),
    ensures
        no_repeats(apply_changes(tags, changes)),
    decreases changes.len(),
{
    broadcast use vstd::seq_lib::group_seq_properties;

    if changes.len() > 0 {
        law_changes_keep_tags_distinct(tags, changes.drop_last());
        let before = apply_changes(tags, changes.drop_last());
        let c = changes.last();
        if c.len() > 0 && c[0] == '+' {
            let t = c.drop_first();
            if !before.contains(t) {
                assert forall|i: int, j: int| 0 <= i < j < before.push(t).len() implies before.push(t)[i]
                    != before.push(t)[j] by {
                    if j == before.len() {
                        assert(before.push(t)[i] == before[i]);
                    }
                }
            }
        } else if c.len() > 0 && c[0] == '-' {
            let t = c.drop_first();
            lemma_filter_distinct(before, differs(t));
        }
    }
}

proof fn lemma_filter_distinct(s: Seq<Seq<char>>, p: spec_fn(Seq<char>) -> bool)
    requires
        no_repeats(s),
    ensures
        no_repeats(s.filter(p)),
    decreases s.len(),
{
    broadcast use vstd::seq_lib::group_seq_properties;

    if s.len() > 0 {
        let init = s.drop_last();
        assert(no_repeats(init)) by {
            assert forall|i: int, j: int| 0 <= i < j < init.len() implies init[i] != init[j] by {
                assert(init[i] == s[i] && init[j] == s[j]);
            }
        }
        lemma_filter_distinct(init, p);
        init.lemma_filter_push(s.last(), p);
        assert(init.push(s.last()) =~= s);
        if p(s.last()) {
            let f = init.filter(p);
            assert forall|i: int, j: int| 0 <= i < j < f.push(s.last()).len() implies f.push(s.last())[i]
                != f.push(s.last())[j] by {
                if j == f.len() {
                    lemma_filter_member(init, p, i);
                    let k = choose|k: int| 0 <= k < init.len() && init[k] == f[i];
                    assert(s[k] == init[k]);
                    assert(s[s.len() - 1] == s.last());
                }
            }
        }
    } else {
        s.lemma_filter_len(p);
    }
}

} // verus!
