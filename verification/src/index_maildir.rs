//! Maildir flag parsing and the tags that the flags stand for.

use vstd::prelude::*;
use crate::text::{chars_of, find_char, first_index_of, has_substring, last_index_of, rfind_char,
    contains_chars, string_of, sub_chars};
use crate::tag_set::views;

verus! {

/// The flag letters and the tag each one stands for, in table order.
pub open spec fn flag_table() -> Seq<(char, Seq<char>)> {
    seq![('D', "draft"@), ('F', "flagged"@), ('P', "passed"@), ('R', "replied"@), ('T', "trashed"@)]
}

/// Entry `i` of the flag table.
pub fn flag_entry(i: usize) -> (r: (char, &'static str))
    requires
        i < 5,
    ensures
        r.0 == flag_table()[i as int].0,
        r.1@ == flag_table()[i as int].1,
{
    match i {
        0 => ('D', "draft"),
        1 => ('F', "flagged"),
        2 => ('P', "passed"),
        3 => ('R', "replied"),
        _ => ('T', "trashed"),
    }
}

/// The flag letters after `:2,` in the name of a message under `cur/`;
/// empty for any other path.
pub open spec fn flag_suffix_spec(path: Seq<char>) -> Seq<char> {
    if has_substring(path, "/cur/"@) {
        match last_index_of(path, ':') {
            Some(c) => {
                let part = path.subrange(c + 1, path.len() as int);
                match first_index_of(part, ',') {
                    Some(k) => part.subrange(k + 1, part.len() as int),
                    None => Seq::empty(),
                }
            },
            None => Seq::empty(),
        }
    } else {
        Seq::empty()
    }
}

/// The flags of a message under `cur/` are the letters after its `:2,`:
/// for a name `base` and letters without a colon, the path
/// `dir/cur/base:2,letters` has the flag suffix `letters`.
pub proof fn law_flag_suffix_of_cur_message(dir: Seq<char>, base: Seq<char>, letters: Seq<char>)
    requires
        !base.contains(':'),
        !letters.contains(':'),
    ensures
        flag_suffix_spec(dir + "/cur/"@ + base + ":2,"@ + letters) == letters,
{
    reveal_strlit("/cur/");
    reveal_strlit(":2,");
    let path = dir + "/cur/"@ + base + ":2,"@ + letters;
    let d = dir.len() as int;
    let b = base.len() as int;
    assert(crate::text::occurs_at(path, "/cur/"@, d)) by {
        assert(path.subrange(d, d + 5) =~= "/cur/"@);
    }
    let c = d + 5 + b;
    assert(path[c] == ':');
    assert forall|k: int| c < k < path.len() implies path[k] != ':' by {
        if k > c + 2 {
            assert(path[k] == letters[k - c - 3]);
        }
    }
    crate::text::lemma_last_index_unique(path, ':', c);
    let part = path.subrange(c + 1, path.len() as int);
    assert(part[1] == ',');
    assert(part[0] == '2');
    crate::text::lemma_first_index_unique(part, ',', 1);
    assert(part.subrange(2, part.len() as int) =~= letters);
}

/// A set of Maildir flag letters.
pub struct FlagSet {
    flags: Vec<char>,
}

impl View for FlagSet {
    type V = Set<char>;

    closed spec fn view(&self) -> Set<char> {
        self.flags@.to_set()
    }
}

impl FlagSet {
    /// The letters in the order they were first added.
    pub closed spec fn letters(&self) -> Seq<char> {
        self.flags@
    }

    /// The letters in the order they were first added.
    pub fn as_chars(&self) -> (r: &Vec<char>)
        ensures
            r@ == self.letters(),
            r@.to_set() == self@,
    {
        &self.flags
    }

    pub fn new() -> (r: FlagSet)
        ensures
            r@ == Set::<char>::empty(),
            r.letters() == Seq::<char>::empty(),
    {
        let r = FlagSet { flags: Vec::new() };
        assert(r@ =~= Set::<char>::empty());
        r
    }

    pub fn insert(&mut self, c: char)
        ensures
            final(self)@ == old(self)@.insert(c),
            final(self).letters() == if old(self)@.contains(c) {
                old(self).letters()
            } else {
                old(self).letters().push(c)
            },
    {
        let mut i: usize = 0;
        while i < self.flags.len()
            invariant
                i <= self.flags.len(),
                forall|k: int| 0 <= k < i ==> self.flags@[k] != c,
            decreases self.flags.len() - i,
        {
            if self.flags[i] == c {
                assert(self@ =~= old(self)@.insert(c)) by {
                    assert(self.flags@.contains(c));
                }
                return;
            }
            i += 1;
        }
        let ghost before = self.flags@;
        self.flags.push(c);
        proof {
            assert forall|x: char| self@.contains(x) <==> old(self)@.insert(c).contains(x) by {
                if self.flags@.contains(x) && x != c {
                    let k = choose|k: int| 0 <= k < self.flags@.len() && self.flags@[k] == x;
                    assert(before[k] == x);
                }
                if before.contains(x) {
                    let k = choose|k: int| 0 <= k < before.len() && before[k] == x;
                    assert(self.flags@[k] == x);
                }
                if x == c {
                    assert(self.flags@[before.len() as int] == c);
                }
            }
            assert(self@ =~= old(self)@.insert(c));
        }
    }

    pub fn contains(&self, c: &char) -> (r: bool)
        ensures
            r == self@.contains(*c),
    {
        let mut i: usize = 0;
        while i < self.flags.len()
            invariant
                i <= self.flags.len(),
                forall|k: int| 0 <= k < i ==> self.flags@[k] != *c,
            decreases self.flags.len() - i,
        {
            if self.flags[i] == *c {
                assert(self.flags@.contains(*c));
                return true;
            }
            i += 1;
        }
        assert(!self.flags@.contains(*c));
        false
    }

    pub fn is_empty(&self) -> (r: bool)
        ensures
            r == (self@ == Set::<char>::empty()),
    {
        if self.flags.len() > 0 {
            assert(self@.contains(self.flags@[0]));
        } else {
            assert(self@ =~= Set::<char>::empty());
        }
        self.flags.len() == 0
    }
}

/// Extract just the flag suffix (e.g. "FS") from a Maildir path.
pub fn flag_suffix(path: &str) -> (r: String)
    ensures
        r@ == flag_suffix_spec(path@),
{
    let p = chars_of(path);
    let cur = chars_of("/cur/");
    if contains_chars(&p, &cur) {
        if let Some(colon) = rfind_char(&p, ':') {
            let part = sub_chars(&p, colon + 1, p.len());
            if let Some(comma) = find_char(&part, ',') {
                let flags = sub_chars(&part, comma + 1, part.len());
                return string_of(&flags);
            }
        }
    }
    String::new()
}

/// The letters of `s` without repetitions, each where it first occurs.
pub open spec fn first_seen(s: Seq<char>) -> Seq<char>
    decreases s.len(),
{
    if s.len() == 0 {
        Seq::empty()
    } else {
        let r = first_seen(s.drop_last());
        if s.drop_last().contains(s.last()) {
            r
        } else {
            r.push(s.last())
        }
    }
}

/// Parse Maildir flags from a file path (the part after `:2,`).
pub fn parse_maildir_flags(path: &str) -> (r: FlagSet)
    ensures
        r@ == flag_suffix_spec(path@).to_set(),
        r.letters() == first_seen(flag_suffix_spec(path@)),
{
    let suffix = flag_suffix(path);
    let chars = chars_of(suffix.as_str());
    let mut flags = FlagSet::new();
    let mut i: usize = 0;
    while i < chars.len()
        invariant
            i <= chars.len(),
            chars@ == flag_suffix_spec(path@),
            flags@ == chars@.take(i as int).to_set(),
            flags.letters() == first_seen(chars@.take(i as int)),
        decreases chars.len() - i,
    {
        flags.insert(chars[i]);
        proof {
            assert(chars@.take(i + 1) == chars@.take(i as int).push(chars@[i as int]));
            assert(chars@.take(i + 1).drop_last() == chars@.take(i as int));
            assert(chars@.take(i as int).to_set().contains(chars@[i as int])
                == chars@.take(i as int).contains(chars@[i as int]));
            chars@.take(i as int).lemma_push_to_set_commute(chars@[i as int]);
        }
        i += 1;
    }
    assert(chars@.take(chars.len() as int) =~= chars@);
    flags
}

pub open spec fn flag_is_set(flags: Set<char>) -> spec_fn((char, Seq<char>)) -> bool {
    |e: (char, Seq<char>)| flags.contains(e.0)
}

pub open spec fn flag_name() -> spec_fn((char, Seq<char>)) -> Seq<char> {
    |e: (char, Seq<char>)| e.1
}

/// The tags that the flags of a message stand for: one per flag letter of
/// the table that is set, in table order, then `unread` unless `S` is set.
pub open spec fn flag_tags(flags: Set<char>) -> Seq<Seq<char>> {
    flag_table().filter(flag_is_set(flags)).map_values(flag_name()) + if flags.contains('S') {
        Seq::<Seq<char>>::empty()
    } else {
        seq!["unread"@]
    }
}

/// Turn Maildir flags into tag strings.
pub fn flags_to_tags(flags: &FlagSet) -> (r: Vec<String>)
    ensures
        views(r@) == flag_tags(flags@),
{
    broadcast use vstd::seq_lib::group_seq_properties;

    let ghost p = flag_is_set(flags@);
    let ghost f = flag_name();
    let mut tags: Vec<String> = Vec::new();
    let mut i: usize = 0;
    while i < 5
        invariant
            i <= 5,
            flag_table().len() == 5,
            p == flag_is_set(flags@),
            f == flag_name(),
            views(tags@) == flag_table().take(i as int).filter(p).map_values(f),
        decreases 5 - i,
    {
        let (flag_char, tag_name) = flag_entry(i);
        proof {
            flag_table().lemma_take_succ_push(i as int);
            flag_table().take(i as int).lemma_filter_push(flag_table()[i as int], p);
        }
        if flags.contains(&flag_char) {
            tags.push(String::from_str(tag_name));
            proof {
                let fl = flag_table().take(i as int).filter(p);
                fl.lemma_push_map_commute(f, flag_table()[i as int]);
                assert(f(flag_table()[i as int]) == tag_name@);
                assert(views(tags@) =~= views(tags@).drop_last().push(tag_name@));
            }
        }
        i += 1;
    }
    assert(flag_table().take(5) =~= flag_table());
    if !flags.contains(&'S') {
        tags.push(String::from_str("unread"));
        assert(views(tags@) =~= views(tags@).drop_last() + seq!["unread"@]);
    } else {
        assert(views(tags@) =~= views(tags@) + Seq::<Seq<char>>::empty());
    }
    tags
}

/// Should a directory entry with this name be skipped while walking a
/// Maildir (the notmuch database and hidden files)? A name that is not valid
/// UTF-8 is given as `None` and is kept.
pub fn should_skip_entry(file_name: Option<&str>) -> (r: bool)
    ensures
        r == match file_name {
            Some(n) => n@ == ".notmuch"@ || (n@.len() > 0 && n@[0] == '.'),
            None => false,
        },
{
    match file_name {
        Some(n) => {
            let v = chars_of(n);
            let notmuch = chars_of(".notmuch");
            if crate::text::chars_eq(&v, &notmuch) {
                return true;
            }
            v.len() > 0 && v[0] == '.'
        },
        None => false,
    }
}

} // verus!
