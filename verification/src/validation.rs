//! Tag name policing, notmuch-style.

use vstd::prelude::*;
use crate::text::{chars_of, char_alphanumeric_prop, is_alphanumeric};
use crate::tag_set::views;

verus! {

/// The tag name without one leading `-` (the removal prefix).
pub open spec fn strip_dash(t: Seq<char>) -> Seq<char> {
    if t.len() > 0 && t[0] == '-' {
        t.drop_first()
    } else {
        t
    }
}

pub open spec fn tag_char_ok(c: char) -> bool {
    char_alphanumeric_prop(c) || c == '-' || c == '_'
}

/// Why a tag is refused, or `None` when it is accepted.
pub open spec fn tag_error(tag: Seq<char>) -> Option<Seq<char>> {
    let a = strip_dash(tag);
    if a.len() == 0 {
        Some("Tag cannot be empty"@)
    } else if a[0] == '-' {
        Some("Tag cannot start with a hyphen after optional removal prefix"@)
    } else if a.contains(' ') {
        Some("Tag cannot contain spaces"@)
    } else if !(forall|i: int| 0 <= i < a.len() ==> tag_char_ok(#[trigger] a[i])) {
        Some("Tag can only contain alphanumeric characters, hyphens, and underscores"@)
    } else {
        None
    }
}

/// The first refusal among a list of tags, in order.
pub open spec fn tags_error(tags: Seq<Seq<char>>) -> Option<Seq<char>>
    decreases tags.len(),
{
    if tags.len() == 0 {
        None
    } else {
        match tag_error(tags[0]) {
            Some(e) => Some(e),
            None => tags_error(tags.drop_first()),
        }
    }
}

pub open spec fn tags_valid(tags: Seq<Seq<char>>) -> bool {
    tags_error(tags) is None
}

fn err_string(msg: &str) -> (r: Result<(), String>)
    ensures
        r matches Err(m) && m@ == msg@,
{
    Err(String::from_str(msg))
}

pub fn validate_tag(tag: &str) -> (r: Result<(), String>)
    ensures
        match r {
            Ok(()) => tag_error(tag@) is None,
            Err(m) => tag_error(tag@) == Some(m@),
        },
{
    let t = chars_of(tag);
    let a = if t.len() > 0 && t[0] == '-' {
        crate::text::sub_chars(&t, 1, t.len())
    } else {
        t
    };
    assert(a@ == strip_dash(tag@));
    if a.len() == 0 {
        return err_string("Tag cannot be empty");
    }
    if a[0] == '-' {
        return err_string("Tag cannot start with a hyphen after optional removal prefix");
    }
    if crate::text::contains_char(&a, ' ') {
        return err_string("Tag cannot contain spaces");
    }
    let mut i: usize = 0;
    while i < a.len()
        invariant
            i <= a.len(),
            a@ == strip_dash(tag@),
            a@.len() > 0,
            a@[0] != '-',
            !a@.contains(' '),
            forall|k: int| 0 <= k < i ==> tag_char_ok(#[trigger] a@[k]),
        decreases a.len() - i,
    {
        let c = a[i];
        if !(is_alphanumeric(c) || c == '-' || c == '_') {
            assert(!tag_char_ok(a@[i as int]));
            return err_string(
                "Tag can only contain alphanumeric characters, hyphens, and underscores",
            );
        }
        i += 1;
    }
    Ok(())
}

pub fn validate_tags(tags: &Vec<String>) -> (r: Result<(), String>)
    ensures
        match r {
            Ok(()) => tags_valid(views(tags@)),
            Err(m) => tags_error(views(tags@)) == Some(m@),
        },
{
    let mut i: usize = 0;
    assert(views(tags@).skip(0) =~= views(tags@));
    while i < tags.len()
        invariant
            i <= tags.len(),
            tags_error(views(tags@)) == tags_error(views(tags@).skip(i as int)),
        decreases tags.len() - i,
    {
        assert(views(tags@).skip(i as int).drop_first() =~= views(tags@).skip(i + 1));
        match validate_tag(tags[i].as_str()) {
            Ok(()) => {},
            Err(e) => {
                return Err(e);
            },
        }
        i += 1;
    }
    assert(views(tags@).skip(tags.len() as int).len() == 0);
    Ok(())
}

} // verus!
