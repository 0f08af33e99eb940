//! Folder-to-tag reconciliation: which tags the rules give a folder, how the
//! Maildir flags take part, and what one message needs changed.

use vstd::prelude::*;
use crate::text::{chars_of, string_of, starts_with, starts_with_chars, chars_eq, str_lowercase,
    to_lowercase, trim_end_by, trim_end_any, in_set, concat_str, sub_chars};
use crate::tag_set::{TagSet, views};
use crate::setup::{FolderRule, FolderTagsConfig};
use crate::tag_set::clone_strings;
use crate::index_maildir::flag_entry;
use crate::validation::strip_dash;

verus! {

// ── glob ─────────────────────────────────────────────────────────────────────

/// What `glob::Pattern::new` reports for a pattern: `None` when it compiles,
/// otherwise the text of its `PatternError`.
pub uninterp spec fn glob_error(pattern: Seq<char>) -> Option<Seq<char>>;

/// Whether `pattern` compiles and the compiled `glob::Pattern` matches `text`
/// (`Pattern::matches`, default options).
pub uninterp spec fn glob_match(pattern: Seq<char>, text: Seq<char>) -> bool;

/// Calls `glob::Pattern::new`. Claims that the outcome, and the error text on
/// failure, are those named by `glob_error` for this pattern.
#[verifier::external_body]
pub(crate) fn glob_check(pattern: &str) -> (r: Option<String>)
    ensures
        match r {
            Some(m) => glob_error(pattern@) == Some(m@),
            None => glob_error(pattern@) is None,
        },
{
    match glob::Pattern::new(pattern) {
        Ok(_) => None,
        Err(e) => Some(e.to_string()),
    }
}

/// Calls `glob::Pattern::new` and then `Pattern::matches`; a pattern that
/// does not compile matches nothing. Claims the result is `glob_match`.
#[verifier::external_body]
pub(crate) fn glob_matches(pattern: &str, text: &str) -> (r: bool)
    ensures
        r == glob_match(pattern@, text@),
{
    match glob::Pattern::new(pattern) {
        Ok(p) => p.matches(text),
        Err(_) => false,
    }
}

// ── Compiled rules ───────────────────────────────────────────────────────────

/// A folder rule whose (lowercased) pattern is known to compile.
pub struct CompiledRule {
    pub pattern: String,
    pub tags: Vec<String>,
    pub inherit: bool,
}

/// The message given for the first rule whose pattern does not compile.
pub open spec fn bad_pattern_message(pattern: Seq<char>, err: Seq<char>) -> Seq<char> {
    "Invalid glob pattern '"@ + pattern + "': "@ + err + ". Even a hamster needs proper glob syntax."@
}

/// The rules compile when every lowercased pattern compiles.
pub open spec fn first_bad_rule(rules: Seq<FolderRule>, n: int) -> Option<int>
    decreases n,
{
    if n <= 0 {
        None
    } else {
        match first_bad_rule(rules, n - 1) {
            Some(i) => Some(i),
            None => if glob_error(str_lowercase(rules[n - 1].pattern@)) is Some {
                Some(n - 1)
            } else {
                None
            },
        }
    }
}

pub open spec fn compiled_from(c: CompiledRule, rule: FolderRule) -> bool {
    &&& c.pattern@ == str_lowercase(rule.pattern@)
    &&& views(c.tags@) == views(rule.tags@)
    &&& c.inherit == rule.inherit
}

pub fn compile_rules(rules: &Vec<FolderRule>) -> (r: Result<Vec<CompiledRule>, String>)
    ensures
        match r {
            Ok(v) => {
                &&& first_bad_rule(rules@, rules@.len() as int) is None
                &&& v@.len() == rules@.len()
                &&& forall|i: int| 0 <= i < v@.len() ==> compiled_from(#[trigger] v@[i], rules@[i])
            },
            Err(m) => match first_bad_rule(rules@, rules@.len() as int) {
                Some(i) => m@ == bad_pattern_message(
                    rules@[i].pattern@,
                    glob_error(str_lowercase(rules@[i].pattern@))->0,
                ),
                None => false,
            },
        },
{
    let mut out: Vec<CompiledRule> = Vec::new();
    let mut i: usize = 0;
    while i < rules.len()
        invariant
            i <= rules.len(),
            first_bad_rule(rules@, i as int) is None,
            out@.len() == i,
            forall|k: int| 0 <= k < i ==> compiled_from(#[trigger] out@[k], rules@[k]),
        decreases rules.len() - i,
    {
        let rule = &rules[i];
        let lower = to_lowercase(rule.pattern.as_str());
        match glob_check(lower.as_str()) {
            Some(e) => {
                let m = concat_str("Invalid glob pattern '", rule.pattern.as_str());
                let m = concat_str(m.as_str(), "': ");
                let m = concat_str(m.as_str(), e.as_str());
                let m = concat_str(m.as_str(), ". Even a hamster needs proper glob syntax.");
                assert(first_bad_rule(rules@, i + 1) == Some(i as int));
                proof {
                    lemma_first_bad_rule_stable(rules@, i + 1, rules@.len() as int);
                }
                return Err(m);
            },
            None => {
                out.push(CompiledRule { pattern: lower, tags: clone_strings(&rule.tags), inherit: rule.inherit });
            },
        }
        i += 1;
    }
    Ok(out)
}

proof fn lemma_first_bad_rule_stable(rules: Seq<FolderRule>, a: int, b: int)
    requires
        0 <= a <= b,
        first_bad_rule(rules, a) is Some,
    ensures
        first_bad_rule(rules, b) == first_bad_rule(rules, a),
    decreases b - a,
{
    if a < b {
        lemma_first_bad_rule_stable(rules, a, b - 1);
    }
}

// ── Which rules apply to a folder ───────────────────────────────────────────

/// The characters that are stripped from the end of a pattern to find the
/// folder it names, for inheritance.
pub open spec fn glob_tail() -> Seq<char> {
    seq!['*', '?', '/']
}

/// An inheriting rule also applies to the folder its pattern names (with the
/// trailing wildcards and slashes removed) and to every folder below it.
pub open spec fn inherits(rule: CompiledRule, folder_lower: Seq<char>) -> bool {
    let base = str_lowercase(trim_end_by(rule.pattern@, in_set(glob_tail())));
    rule.inherit && base.len() > 0 && (starts_with(folder_lower, base + seq!['/'])
        || folder_lower == base)
}

/// A rule applies to a (lowercased) folder when its pattern matches it
/// exactly or through inheritance.
pub open spec fn applies(rule: CompiledRule, folder_lower: Seq<char>) -> bool {
    glob_match(rule.pattern@, folder_lower) || inherits(rule, folder_lower)
}

/// How a rule matched a folder: `(exact, inherited)`.
pub fn rule_match(rule: &CompiledRule, folder_lower: &str) -> (r: (bool, bool))
    ensures
        r.0 == glob_match(rule.pattern@, folder_lower@),
        r.1 == inherits(*rule, folder_lower@),
{
    let exact = glob_matches(rule.pattern.as_str(), folder_lower);
    if !rule.inherit {
        return (exact, false);
    }
    let p = chars_of(rule.pattern.as_str());
    let tail = chars_of("*?/");
    proof {
        reveal_strlit("*?/");
        assert(tail@ =~= glob_tail());
    }
    let trimmed = trim_end_any(&p, &tail);
    let trimmed_s = string_of(&trimmed);
    let base_s = to_lowercase(trimmed_s.as_str());
    let base = chars_of(base_s.as_str());
    let f = chars_of(folder_lower);
    let mut base_slash = chars_of(base_s.as_str());
    base_slash.push('/');
    assert(base_slash@ =~= base@ + seq!['/']);
    let inh = base.len() > 0 && (starts_with_chars(&f, &base_slash) || chars_eq(&f, &base));
    (exact, inh)
}

/// Tags of a rule without the removal prefix.
pub open spec fn is_negated(t: Seq<char>) -> bool {
    t.len() > 0 && t[0] == '-'
}

/// The tags listed plainly (to be added).
pub open spec fn plain_tags(tags: Seq<Seq<char>>) -> Set<Seq<char>>
    decreases tags.len(),
{
    if tags.len() == 0 {
        Set::empty()
    } else if is_negated(tags.last()) {
        plain_tags(tags.drop_last())
    } else {
        plain_tags(tags.drop_last()).insert(tags.last())
    }
}

/// The tags listed with a `-` prefix (to be removed), without the prefix.
pub open spec fn negated_tags(tags: Seq<Seq<char>>) -> Set<Seq<char>>
    decreases tags.len(),
{
    if tags.len() == 0 {
        Set::empty()
    } else if is_negated(tags.last()) {
        negated_tags(tags.drop_last()).insert(tags.last().drop_first())
    } else {
        negated_tags(tags.drop_last())
    }
}

/// The tags the applying rules add to a folder.
pub open spec fn rules_add(rules: Seq<CompiledRule>, folder_lower: Seq<char>) -> Set<Seq<char>>
    decreases rules.len(),
{
    if rules.len() == 0 {
        Set::empty()
    } else if applies(rules.last(), folder_lower) {
        rules_add(rules.drop_last(), folder_lower).union(plain_tags(views(rules.last().tags@)))
    } else {
        rules_add(rules.drop_last(), folder_lower)
    }
}

/// The tags the applying rules remove from a folder.
pub open spec fn rules_remove(rules: Seq<CompiledRule>, folder_lower: Seq<char>) -> Set<
    Seq<char>,
>
    decreases rules.len(),
{
    if rules.len() == 0 {
        Set::empty()
    } else if applies(rules.last(), folder_lower) {
        rules_remove(rules.drop_last(), folder_lower).union(
            negated_tags(views(rules.last().tags@)),
        )
    } else {
        rules_remove(rules.drop_last(), folder_lower)
    }
}

/// Adds the tags of one rule to the two sets.
fn add_rule_tags(tags: &Vec<String>, add: &mut TagSet, remove: &mut TagSet)
    requires
        old(add).wf(),
        old(remove).wf(),
    ensures
        final(add).wf(),
        final(remove).wf(),
        final(add)@ == old(add)@.union(plain_tags(views(tags@))),
        final(remove)@ == old(remove)@.union(negated_tags(views(tags@))),
{
    let mut j: usize = 0;
    while j < tags.len()
        invariant
            j <= tags.len(),
            add.wf(),
            remove.wf(),
            add@ == old(add)@.union(plain_tags(views(tags@).take(j as int))),
            remove@ == old(remove)@.union(negated_tags(views(tags@).take(j as int))),
        decreases tags.len() - j,
    {
        let t = chars_of(tags[j].as_str());
        assert(views(tags@).take(j + 1).drop_last() =~= views(tags@).take(j as int));
        if t.len() > 0 && t[0] == '-' {
            let stripped = sub_chars(&t, 1, t.len());
            let s = string_of(&stripped);
            remove.insert(s.as_str());
            assert(stripped@ =~= t@.drop_first());
            assert(remove@ =~= old(remove)@.union(negated_tags(views(tags@).take(j + 1))));
            assert(add@ =~= old(add)@.union(plain_tags(views(tags@).take(j + 1))));
        } else {
            add.insert(tags[j].as_str());
            assert(remove@ =~= old(remove)@.union(negated_tags(views(tags@).take(j + 1))));
            assert(add@ =~= old(add)@.union(plain_tags(views(tags@).take(j + 1))));
        }
        j += 1;
    }
    assert(views(tags@).take(tags.len() as int) =~= views(tags@));
}

/// Compute the desired add and forced-remove tag sets for a folder.
pub fn folder_tags_for_path(folder: &str, rules: &Vec<CompiledRule>) -> (r: (TagSet, TagSet))
    ensures
        r.0.wf(),
        r.1.wf(),
        r.0@ == rules_add(rules@, str_lowercase(folder@)),
        r.1@ == rules_remove(rules@, str_lowercase(folder@)),
{
    let folder_lower = to_lowercase(folder);
    let mut add = TagSet::new();
    let mut remove = TagSet::new();
    let mut i: usize = 0;
    while i < rules.len()
        invariant
            i <= rules.len(),
            folder_lower@ == str_lowercase(folder@),
            add.wf(),
            remove.wf(),
            add@ == rules_add(rules@.take(i as int), folder_lower@),
            remove@ == rules_remove(rules@.take(i as int), folder_lower@),
        decreases rules.len() - i,
    {
        let rule = &rules[i];
        let (exact, inh) = rule_match(rule, folder_lower.as_str());
        assert(rules@.take(i + 1).drop_last() =~= rules@.take(i as int));
        assert(rules@.take(i + 1).last() == rules@[i as int]);
        if exact || inh {
            add_rule_tags(&rule.tags, &mut add, &mut remove);
        }
        i += 1;
    }
    assert(rules@.take(rules.len() as int) =~= rules@);
    (add, remove)
}

} // verus!

verus! {

// ── Maildir flags take part ──────────────────────────────────────────────────

/// What the flags say of a tag: `Some(true)` when the tag should be present,
/// `Some(false)` when it should be absent, `None` when no flag speaks of it.
pub open spec fn flag_verdict(flags: Set<char>, t: Seq<char>) -> Option<bool> {
    if t == "draft"@ {
        Some(flags.contains('D'))
    } else if t == "flagged"@ {
        Some(flags.contains('F'))
    } else if t == "passed"@ {
        Some(flags.contains('P'))
    } else if t == "replied"@ {
        Some(flags.contains('R'))
    } else if t == "trashed"@ {
        Some(flags.contains('T'))
    } else if t == "unread"@ {
        Some(!flags.contains('S'))
    } else {
        None
    }
}

pub open spec fn undecided(d: Set<Seq<char>>, f: Set<Seq<char>>, t: Seq<char>) -> bool {
    !d.contains(t) && !f.contains(t)
}

/// Tags the flags add: those no rule decided and the flags want present.
pub open spec fn flag_additions(flags: Set<char>, d: Set<Seq<char>>, f: Set<Seq<char>>) -> Set<
    Seq<char>,
> {
    Set::new(|t: Seq<char>| undecided(d, f, t) && flag_verdict(flags, t) == Some(true))
}

/// Tags the flags remove: those no rule decided and the flags want absent.
pub open spec fn flag_removals(flags: Set<char>, d: Set<Seq<char>>, f: Set<Seq<char>>) -> Set<
    Seq<char>,
> {
    Set::new(|t: Seq<char>| undecided(d, f, t) && flag_verdict(flags, t) == Some(false))
}

proof fn lemma_flag_names()
    ensures
        "draft"@ == seq!['d', 'r', 'a', 'f', 't'],
        "flagged"@ == seq!['f', 'l', 'a', 'g', 'g', 'e', 'd'],
        "passed"@ == seq!['p', 'a', 's', 's', 'e', 'd'],
        "replied"@ == seq!['r', 'e', 'p', 'l', 'i', 'e', 'd'],
        "trashed"@ == seq!['t', 'r', 'a', 's', 'h', 'e', 'd'],
        "unread"@ == seq!['u', 'n', 'r', 'e', 'a', 'd'],
{
    reveal_strlit("draft");
    reveal_strlit("flagged");
    reveal_strlit("passed");
    reveal_strlit("replied");
    reveal_strlit("trashed");
    reveal_strlit("unread");
    assert("draft"@ =~= seq!['d', 'r', 'a', 'f', 't']);
    assert("flagged"@ =~= seq!['f', 'l', 'a', 'g', 'g', 'e', 'd']);
    assert("passed"@ =~= seq!['p', 'a', 's', 's', 'e', 'd']);
    assert("replied"@ =~= seq!['r', 'e', 'p', 'l', 'i', 'e', 'd']);
    assert("trashed"@ =~= seq!['t', 'r', 'a', 's', 'h', 'e', 'd']);
    assert("unread"@ =~= seq!['u', 'n', 'r', 'e', 'a', 'd']);
}

/// Lets the flags decide one tag, unless a rule already did.
fn decide_tag(present: bool, tag: &str, desired_add: &mut TagSet, forced_remove: &mut TagSet)
    requires
        old(desired_add).wf(),
        old(forced_remove).wf(),
    ensures
        final(desired_add).wf(),
        final(forced_remove).wf(),
        final(desired_add)@ == if undecided(old(desired_add)@, old(forced_remove)@, tag@)
            && present {
            old(desired_add)@.insert(tag@)
        } else {
            old(desired_add)@
        },
        final(forced_remove)@ == if undecided(old(desired_add)@, old(forced_remove)@, tag@)
            && !present {
            old(forced_remove)@.insert(tag@)
        } else {
            old(forced_remove)@
        },
{
    if desired_add.contains(tag) || forced_remove.contains(tag) {
        return;
    }
    if present {
        desired_add.insert(tag);
        forced_remove.remove(tag);
        assert(forced_remove@ =~= old(forced_remove)@);
    } else {
        forced_remove.insert(tag);
        desired_add.remove(tag);
        assert(desired_add@ =~= old(desired_add)@);
    }
}

/// Merge Maildir flag tags into the desired-add/remove sets: for each flag
/// tag (and `unread`, the absence of `S`) that no rule decided, the flags
/// decide.
#[verifier::rlimit(40)]
pub fn merge_flag_tags(path: &str, desired_add: &mut TagSet, forced_remove: &mut TagSet)
    requires
        old(desired_add).wf(),
        old(forced_remove).wf(),
    ensures
        final(desired_add).wf(),
        final(forced_remove).wf(),
        final(desired_add)@ == old(desired_add)@.union(
            flag_additions(
                crate::index_maildir::flag_suffix_spec(path@).to_set(),
                old(desired_add)@,
                old(forced_remove)@,
            ),
        ),
        final(forced_remove)@ == old(forced_remove)@.union(
            flag_removals(
                crate::index_maildir::flag_suffix_spec(path@).to_set(),
                old(desired_add)@,
                old(forced_remove)@,
            ),
        ),
{
    let flags = crate::index_maildir::parse_maildir_flags(path);
    let ghost fl = flags@;
    let ghost d0 = desired_add@;
    let ghost f0 = forced_remove@;
    proof {
        lemma_flag_names();
    }
    let mut i: usize = 0;
    while i < 5
        invariant
            i <= 5,
            desired_add.wf(),
            forced_remove.wf(),
            fl == flags@,
            "draft"@ == seq!['d', 'r', 'a', 'f', 't'],
            "flagged"@ == seq!['f', 'l', 'a', 'g', 'g', 'e', 'd'],
            "passed"@ == seq!['p', 'a', 's', 's', 'e', 'd'],
            "replied"@ == seq!['r', 'e', 'p', 'l', 'i', 'e', 'd'],
            "trashed"@ == seq!['t', 'r', 'a', 's', 'h', 'e', 'd'],
            "unread"@ == seq!['u', 'n', 'r', 'e', 'a', 'd'],
            forall|t: Seq<char>|
                #![trigger desired_add@.contains(t)]
                #![trigger forced_remove@.contains(t)]
                (desired_add@.contains(t) <==> d0.contains(t) || (undecided(d0, f0, t)
                    && flag_index(t) < i && flag_verdict(fl, t) == Some(true))) && (
                forced_remove@.contains(t) <==> f0.contains(t) || (undecided(d0, f0, t)
                    && flag_index(t) < i && flag_verdict(fl, t) == Some(false))),
        decreases 5 - i,
    {
        let (flag_char, tag) = flag_entry(i);
        proof {
            reveal_strlit("draft");
            reveal_strlit("flagged");
            reveal_strlit("passed");
            reveal_strlit("replied");
            reveal_strlit("trashed");
            assert(flag_index(tag@) == i);
        }
        let present = flags.contains(&flag_char);
        decide_tag(present, tag, desired_add, forced_remove);
        i += 1;
    }
    let present = !flags.contains(&'S');
    decide_tag(present, "unread", desired_add, forced_remove);
    assert(desired_add@ =~= d0.union(flag_additions(fl, d0, f0)));
    assert(forced_remove@ =~= f0.union(flag_removals(fl, d0, f0)));
}

/// Position of a flag tag in the table (5 for `unread`, 6 for the rest).
pub open spec fn flag_index(t: Seq<char>) -> int {
    if t == "draft"@ {
        0
    } else if t == "flagged"@ {
        1
    } else if t == "passed"@ {
        2
    } else if t == "replied"@ {
        3
    } else if t == "trashed"@ {
        4
    } else if t == "unread"@ {
        5
    } else {
        6
    }
}

} // verus!

verus! {

// ── Managed tags ─────────────────────────────────────────────────────────────

/// The names of listed tags, each without one leading `-`.
pub open spec fn stripped_names(tags: Seq<Seq<char>>) -> Set<Seq<char>>
    decreases tags.len(),
{
    if tags.len() == 0 {
        Set::empty()
    } else {
        stripped_names(tags.drop_last()).insert(strip_dash(tags.last()))
    }
}

/// Every tag any rule mentions, without the removal prefix.
pub open spec fn rule_tag_names(rules: Seq<FolderRule>) -> Set<Seq<char>>
    decreases rules.len(),
{
    if rules.len() == 0 {
        Set::empty()
    } else {
        rule_tag_names(rules.drop_last()).union(stripped_names(views(rules.last().tags@)))
    }
}

/// The tags that stand for Maildir flags, `unread` included.
pub open spec fn flag_tag_names() -> Set<Seq<char>> {
    set!["draft"@, "flagged"@, "passed"@, "replied"@, "trashed"@, "unread"@]
}

/// The tags folder sync may change: the configured list when there is one,
/// otherwise every tag the rules mention, plus the flag tags when flags are
/// synchronised.
pub open spec fn managed_tags_of(cfg: FolderTagsConfig) -> Set<Seq<char>> {
    if cfg.managed_tags@.len() > 0 {
        views(cfg.managed_tags@).to_set()
    } else {
        rule_tag_names(cfg.rules@).union(
            if cfg.sync_flags {
                flag_tag_names()
            } else {
                Set::empty()
            },
        )
    }
}

fn insert_all(set: &mut TagSet, tags: &Vec<String>)
    requires
        old(set).wf(),
    ensures
        final(set).wf(),
        final(set)@ == old(set)@.union(views(tags@).to_set()),
{
    let mut j: usize = 0;
    while j < tags.len()
        invariant
            j <= tags.len(),
            set.wf(),
            set@ == old(set)@.union(views(tags@).take(j as int).to_set()),
        decreases tags.len() - j,
    {
        set.insert(tags[j].as_str());
        proof {
            views(tags@).lemma_take_succ_push(j as int);
            views(tags@).take(j as int).lemma_push_to_set_commute(tags@[j as int]@);
            assert(set@ =~= old(set)@.union(views(tags@).take(j + 1).to_set()));
        }
        j += 1;
    }
    assert(views(tags@).take(tags.len() as int) =~= views(tags@));
}

pub fn determine_managed_tags(cfg: &FolderTagsConfig) -> (r: TagSet)
    ensures
        r.wf(),
        r@ == managed_tags_of(*cfg),
{
    if cfg.managed_tags.len() > 0 {
        let mut s = TagSet::new();
        insert_all(&mut s, &cfg.managed_tags);
        assert(s@ =~= views(cfg.managed_tags@).to_set());
        return s;
    }
    let mut managed = TagSet::new();
    let mut i: usize = 0;
    while i < cfg.rules.len()
        invariant
            i <= cfg.rules.len(),
            managed.wf(),
            managed@ == rule_tag_names(cfg.rules@.take(i as int)),
        decreases cfg.rules.len() - i,
    {
        let tags = &cfg.rules[i].tags;
        let ghost before = managed@;
        let mut j: usize = 0;
        while j < tags.len()
            invariant
                j <= tags.len(),
                managed.wf(),
                managed@ == before.union(stripped_names(views(tags@).take(j as int))),
            decreases tags.len() - j,
        {
            let t = chars_of(tags[j].as_str());
            let name = if t.len() > 0 && t[0] == '-' {
                sub_chars(&t, 1, t.len())
            } else {
                t
            };
            let name_s = string_of(&name);
            managed.insert(name_s.as_str());
            proof {
                assert(name@ == strip_dash(tags@[j as int]@));
                assert(views(tags@).take(j + 1).drop_last() =~= views(tags@).take(j as int));
                assert(managed@ =~= before.union(stripped_names(views(tags@).take(j + 1))));
            }
            j += 1;
        }
        proof {
            assert(views(tags@).take(tags.len() as int) =~= views(tags@));
            assert(cfg.rules@.take(i + 1).drop_last() =~= cfg.rules@.take(i as int));
            assert(cfg.rules@.take(i + 1).last() == cfg.rules@[i as int]);
        }
        i += 1;
    }
    assert(cfg.rules@.take(cfg.rules.len() as int) =~= cfg.rules@);
    if cfg.sync_flags {
        let mut k: usize = 0;
        while k < 5
            invariant
                k <= 5,
                managed.wf(),
                managed@ == rule_tag_names(cfg.rules@).union(
                    flag_table_names().take(k as int).to_set(),
                ),
            decreases 5 - k,
        {
            let (_, tag) = flag_entry(k);
            managed.insert(tag);
            proof {
                flag_table_names().lemma_take_succ_push(k as int);
                flag_table_names().take(k as int).lemma_push_to_set_commute(tag@);
                assert(managed@ =~= rule_tag_names(cfg.rules@).union(
                    flag_table_names().take(k + 1).to_set(),
                ));
            }
            k += 1;
        }
        managed.insert("unread");
        proof {
            assert(flag_table_names().take(5) =~= flag_table_names());
            assert(managed@ =~= managed_tags_of(*cfg));
        }
    } else {
        assert(managed@ =~= managed_tags_of(*cfg));
    }
    managed
}

/// The tag names of the flag table, in order.
pub open spec fn flag_table_names() -> Seq<Seq<char>> {
    seq!["draft"@, "flagged"@, "passed"@, "replied"@, "trashed"@]
}

// ── Which folder a message lives in ─────────────────────────────────────────

/// `Path::strip_prefix`, as text (`None` when `base` is not a prefix).
pub uninterp spec fn path_strip_prefix(path: Seq<char>, base: Seq<char>) -> Option<Seq<char>>;

/// `Path::parent`, as text.
pub uninterp spec fn path_parent(path: Seq<char>) -> Option<Seq<char>>;

/// Calls `std::path::Path::strip_prefix`; claims the result is the one named
/// by `path_strip_prefix` for these two paths.
#[verifier::external_body]
fn strip_path_prefix(path: &str, base: &str) -> (r: Option<String>)
    ensures
        match r {
            Some(s) => path_strip_prefix(path@, base@) == Some(s@),
            None => path_strip_prefix(path@, base@) is None,
        },
{
    match std::path::Path::new(path).strip_prefix(base) {
        Ok(p) => Some(p.to_string_lossy().into_owned()),
        Err(_) => None,
    }
}

/// Calls `std::path::Path::parent`; claims the result is `path_parent`.
#[verifier::external_body]
fn parent_path(path: &str) -> (r: Option<String>)
    ensures
        match r {
            Some(s) => path_parent(path@) == Some(s@),
            None => path_parent(path@) is None,
        },
{
    match std::path::Path::new(path).parent() {
        Some(p) => Some(p.to_string_lossy().into_owned()),
        None => None,
    }
}

/// The folder of a message file: its path relative to the Maildir root,
/// without the last two components (`cur` or `new`, and the file name);
/// `None` when the path is not under the root or has no folder level
/// between the root and those two components.
pub open spec fn folder_of(path: Seq<char>, mail_root: Seq<char>) -> Option<Seq<char>> {
    match path_strip_prefix(path, mail_root) {
        None => None,
        Some(rel) => match path_parent(rel) {
            None => None,
            Some(p) => match path_parent(p) {
                Some(f) => if f.len() > 0 {
                    Some(f)
                } else {
                    None
                },
                None => None,
            },
        },
    }
}

pub fn folder_from_path(path: &str, mail_root: &str) -> (r: Option<String>)
    ensures
        match r {
            Some(s) => folder_of(path@, mail_root@) == Some(s@),
            None => folder_of(path@, mail_root@) is None,
        },
{
    let rel = match strip_path_prefix(path, mail_root) {
        Some(r) => r,
        None => return None,
    };
    let p = match parent_path(rel.as_str()) {
        Some(p) => p,
        None => return None,
    };
    match parent_path(p.as_str()) {
        Some(f) => {
            if chars_of(f.as_str()).len() > 0 {
                Some(f)
            } else {
                None
            }
        },
        None => None,
    }
}

// ── One message ──────────────────────────────────────────────────────────────

/// The tags the rules (and, when enabled, the flags) want added and removed
/// for a message in `folder`.
pub open spec fn desired_for(
    path: Seq<char>,
    folder: Seq<char>,
    rules: Seq<CompiledRule>,
    sync_flags: bool,
) -> (Set<Seq<char>>, Set<Seq<char>>) {
    let d = rules_add(rules, str_lowercase(folder));
    let f = rules_remove(rules, str_lowercase(folder));
    if sync_flags {
        let flags = crate::index_maildir::flag_suffix_spec(path).to_set();
        (d.union(flag_additions(flags, d, f)), f.union(flag_removals(flags, d, f)))
    } else {
        (d, f)
    }
}

/// The diff folder sync applies to a message with tags `current`: `None`
/// when the message is skipped (no path, or not under the Maildir root) or
/// already in sync.
pub open spec fn planned_diff(
    path: Seq<char>,
    mail_root: Seq<char>,
    rules: Seq<CompiledRule>,
    sync_flags: bool,
    managed: Set<Seq<char>>,
    current: Set<Seq<char>>,
) -> Option<(Set<Seq<char>>, Set<Seq<char>>)> {
    if path.len() == 0 {
        None
    } else {
        match folder_of(path, mail_root) {
            None => None,
            Some(folder) => {
                let (d, f) = desired_for(path, folder, rules, sync_flags);
                let add = crate::diff::additions(d, f, current);
                let rem = crate::diff::removals(d, f, current, managed);
                if add.is_empty() && rem.is_empty() {
                    None
                } else {
                    Some((add, rem))
                }
            },
        }
    }
}

/// What folder sync changes on one message.
pub struct TagUpdate {
    pub to_add: Vec<String>,
    pub to_remove: Vec<String>,
    pub new_tags: TagSet,
}

/// The desired sets for a folder, with the flags merged in when enabled.
fn desired_sets(path: &str, folder: &str, rules: &Vec<CompiledRule>, sync_flags: bool) -> (r: (
    TagSet,
    TagSet,
))
    ensures
        r.0.wf(),
        r.1.wf(),
        (r.0@, r.1@) == desired_for(path@, folder@, rules@, sync_flags),
{
    let (mut d, mut f) = folder_tags_for_path(folder, rules);
    if sync_flags {
        merge_flag_tags(path, &mut d, &mut f);
    }
    (d, f)
}

/// `current` with `to_add` inserted and `to_remove` taken out.
pub fn apply_tag_diff(current: &TagSet, to_add: &Vec<String>, to_remove: &Vec<String>) -> (r:
    TagSet)
    requires
        current.wf(),
    ensures
        r.wf(),
        r@ == crate::diff::apply_diff(current@, views(to_add@).to_set(), views(to_remove@).to_set()),
{
    let mut r = current.copy();
    insert_all(&mut r, to_add);
    let ghost mid = r@;
    let mut j: usize = 0;
    while j < to_remove.len()
        invariant
            j <= to_remove.len(),
            r.wf(),
            r@ == mid.difference(views(to_remove@).take(j as int).to_set()),
        decreases to_remove.len() - j,
    {
        r.remove(to_remove[j].as_str());
        proof {
            views(to_remove@).lemma_take_succ_push(j as int);
            views(to_remove@).take(j as int).lemma_push_to_set_commute(to_remove@[j as int]@);
            assert(r@ =~= mid.difference(views(to_remove@).take(j + 1).to_set()));
        }
        j += 1;
    }
    assert(views(to_remove@).take(to_remove.len() as int) =~= views(to_remove@));
    assert(r@ =~= crate::diff::apply_diff(
        current@,
        views(to_add@).to_set(),
        views(to_remove@).to_set(),
    ));
    r
}

/// Decide what folder sync does to one message: `None` when it is skipped or
/// already in sync, otherwise the tags to add and remove (ascending) and the
/// resulting tag set.
pub fn plan_tag_update(
    path: &str,
    mail_root: &str,
    rules: &Vec<CompiledRule>,
    sync_flags: bool,
    managed: &TagSet,
    current: &TagSet,
) -> (r: Option<TagUpdate>)
    requires
        managed.wf(),
        current.wf(),
    ensures
        match r {
            None => planned_diff(path@, mail_root@, rules@, sync_flags, managed@, current@) is None,
            Some(u) => {
                &&& planned_diff(path@, mail_root@, rules@, sync_flags, managed@, current@)
                    == Some((views(u.to_add@).to_set(), views(u.to_remove@).to_set()))
                &&& crate::tag_set::sorted_strict(views(u.to_add@))
                &&& crate::tag_set::sorted_strict(views(u.to_remove@))
                &&& u.new_tags.wf()
                &&& u.new_tags@ == crate::diff::apply_diff(
                    current@,
                    views(u.to_add@).to_set(),
                    views(u.to_remove@).to_set(),
                )
            },
        },
{
    let pv = chars_of(path);
    if pv.len() == 0 {
        return None;
    }
    let folder = match folder_from_path(path, mail_root) {
        Some(f) => f,
        None => return None,
    };
    let (d, f) = desired_sets(path, folder.as_str(), rules, sync_flags);
    let (to_add, to_remove) = crate::diff::compute_tag_diff(&d, &f, current, managed);
    if to_add.len() == 0 && to_remove.len() == 0 {
        proof {
            assert(views(to_add@).to_set() =~= Set::<Seq<char>>::empty());
            assert(views(to_remove@).to_set() =~= Set::<Seq<char>>::empty());
        }
        return None;
    }
    proof {
        if to_add.len() > 0 {
            assert(views(to_add@).to_set().contains(views(to_add@)[0]));
        } else {
            assert(views(to_remove@).to_set().contains(views(to_remove@)[0]));
        }
    }
    let new_tags = apply_tag_diff(current, &to_add, &to_remove);
    Some(TagUpdate { to_add, to_remove, new_tags })
}

/// Folder sync settles: once the planned change is applied to a message,
/// planning again for the same message finds nothing to do.
pub proof fn law_sync_settles(
    path: Seq<char>,
    mail_root: Seq<char>,
    rules: Seq<CompiledRule>,
    sync_flags: bool,
    managed: Set<Seq<char>>,
    current: Set<Seq<char>>,
)
    ensures
        match planned_diff(path, mail_root, rules, sync_flags, managed, current) {
            Some((add, rem)) => planned_diff(
                path,
                mail_root,
                rules,
                sync_flags,
                managed,
                crate::diff::apply_diff(current, add, rem),
            ) is None,
            None => true,
        },
{
    if path.len() > 0 {
        if let Some(folder) = folder_of(path, mail_root) {
            let (d, f) = desired_for(path, folder, rules, sync_flags);
            crate::diff::law_diff_idempotent(d, f, current, managed);
        }
    }
}

/// The tag each Maildir flag speaks for: `draft` for D, `flagged` for F,
/// `passed` for P, `replied` for R, `trashed` for T.
pub open spec fn flag_letter_tag(letter: char, t: Seq<char>) -> bool {
    ||| letter == 'D' && t == "draft"@
    ||| letter == 'F' && t == "flagged"@
    ||| letter == 'P' && t == "passed"@
    ||| letter == 'R' && t == "replied"@
    ||| letter == 'T' && t == "trashed"@
}

/// With flag sync on, the Maildir flags decide every tag that no rule
/// decided: a flag's tag is wanted exactly when the message carries the
/// flag and forced off otherwise; `unread` is forced off exactly when the
/// message carries `S` (it was read) and wanted otherwise; no other tag is
/// touched by the flags. With flag sync off, only the rules count.
pub proof fn law_flags_decide_undecided_tags(
    path: Seq<char>,
    folder: Seq<char>,
    rules: Seq<CompiledRule>,
    t: Seq<char>,
)
    requires
        !rules_add(rules, str_lowercase(folder)).contains(t),
        !rules_remove(rules, str_lowercase(folder)).contains(t),
    ensures
        ({
            let (d, f) = desired_for(path, folder, rules, true);
            let fl = crate::index_maildir::flag_suffix_spec(path);
            &&& t == "unread"@ ==> (f.contains(t) <==> fl.contains('S')) && (d.contains(t)
                <==> !fl.contains('S'))
            &&& forall|c: char| #[trigger] flag_letter_tag(c, t) ==> (d.contains(t)
                <==> fl.contains(c)) && (f.contains(t) <==> !fl.contains(c))
            &&& (t != "unread"@ && !(exists|c: char| #[trigger] flag_letter_tag(c, t)))
                ==> !d.contains(t) && !f.contains(t)
        }),
        !desired_for(path, folder, rules, false).0.contains(t),
        !desired_for(path, folder, rules, false).1.contains(t),
{
    lemma_flag_names();
    let fl = crate::index_maildir::flag_suffix_spec(path);
    assert forall|c: char| #[trigger] flag_letter_tag(c, t) implies (desired_for(path, folder, rules, true).0.contains(t)
        <==> fl.contains(c)) && (desired_for(path, folder, rules, true).1.contains(t) <==> !fl.contains(c)) by {
        assert(fl.to_set().contains(c) == fl.contains(c));
    }
    assert(fl.to_set().contains('S') == fl.contains('S'));
    if t != "unread"@ && !(exists|c: char| #[trigger] flag_letter_tag(c, t)) {
        if t == "draft"@ {
            assert(flag_letter_tag('D', t));
        } else if t == "flagged"@ {
            assert(flag_letter_tag('F', t));
        } else if t == "passed"@ {
            assert(flag_letter_tag('P', t));
        } else if t == "replied"@ {
            assert(flag_letter_tag('R', t));
        } else if t == "trashed"@ {
            assert(flag_letter_tag('T', t));
        }
    }
}

/// The rules win over the flags: a tag some applying rule adds or removes is
/// wanted or forced off exactly as the rules say, with or without flag
/// sync.
pub proof fn law_rules_win_over_flags(
    path: Seq<char>,
    folder: Seq<char>,
    rules: Seq<CompiledRule>,
    sync_flags: bool,
    t: Seq<char>,
)
    requires
        rules_add(rules, str_lowercase(folder)).contains(t) || rules_remove(rules, str_lowercase(folder)).contains(t),
    ensures
        desired_for(path, folder, rules, sync_flags).0.contains(t) <==> rules_add(rules, str_lowercase(folder)).contains(t),
        desired_for(path, folder, rules, sync_flags).1.contains(t) <==> rules_remove(rules, str_lowercase(folder)).contains(t),
{
}

/// With flag sync on, a message that was read (flag `S`) and carries the
/// managed `unread` tag, in a folder whose rules say nothing of `unread`,
/// loses that tag in folder sync.
pub proof fn law_read_message_loses_unread(
    path: Seq<char>,
    mail_root: Seq<char>,
    rules: Seq<CompiledRule>,
    managed: Set<Seq<char>>,
    current: Set<Seq<char>>,
)
    requires
        path.len() > 0,
        folder_of(path, mail_root) is Some,
        crate::index_maildir::flag_suffix_spec(path).contains('S'),
        !rules_add(rules, str_lowercase(folder_of(path, mail_root)->0)).contains("unread"@),
        !rules_remove(rules, str_lowercase(folder_of(path, mail_root)->0)).contains("unread"@),
        managed.contains("unread"@),
        current.contains("unread"@),
    ensures
        match planned_diff(path, mail_root, rules, true, managed, current) {
            Some((add, rem)) => rem.contains("unread"@) && !add.contains("unread"@),
            None => false,
        },
{
    let folder = folder_of(path, mail_root)->0;
    law_flags_decide_undecided_tags(path, folder, rules, "unread"@);
    let (d, f) = desired_for(path, folder, rules, true);
    assert(crate::diff::removals(d, f, current, managed).contains("unread"@));
}

} // verus!

verus! {

// ── Explaining one message ───────────────────────────────────────────────────

/// A rule that applies to the explained message, and how.
pub struct MatchedRule {
    pub pattern: String,
    pub exact: bool,
    pub tags: Vec<String>,
}

/// Everything the explain views show about one message. Every list of
/// tags is in ascending order.
pub struct ExplainReport {
    pub folder: String,
    pub current: Vec<String>,
    pub matched: Vec<MatchedRule>,
    pub flags: Option<crate::index_maildir::FlagSet>,
    pub desired_add: Vec<String>,
    pub desired_remove: Vec<String>,
    pub managed: Vec<String>,
    pub to_add: Vec<String>,
    pub to_remove: Vec<String>,
}

/// The applying rules, in order, as (pattern, matched exactly, tags).
pub open spec fn matched_rules(rules: Seq<CompiledRule>, folder_lower: Seq<char>) -> Seq<
    (Seq<char>, bool, Seq<Seq<char>>),
>
    decreases rules.len(),
{
    if rules.len() == 0 {
        Seq::empty()
    } else {
        let rest = matched_rules(rules.drop_last(), folder_lower);
        let r = rules.last();
        if applies(r, folder_lower) {
            rest.push((r.pattern@, glob_match(r.pattern@, folder_lower), views(r.tags@)))
        } else {
            rest
        }
    }
}

pub open spec fn matched_view(m: Seq<MatchedRule>) -> Seq<(Seq<char>, bool, Seq<Seq<char>>)> {
    m.map_values(|x: MatchedRule| (x.pattern@, x.exact, views(x.tags@)))
}

/// The folder shown for a message that lies outside the Maildir root.
pub open spec fn shown_folder(path: Seq<char>, mail_root: Seq<char>) -> Seq<char> {
    match folder_of(path, mail_root) {
        Some(f) => f,
        None => "(unknown folder)"@,
    }
}

/// The explanation of a message under the Maildir root shows exactly the
/// change folder sync makes to it: the same tags to add and to remove, and
/// nothing to do exactly when sync leaves the message alone.
pub proof fn law_explain_matches_sync(
    path: Seq<char>,
    mail_root: Seq<char>,
    rules: Seq<CompiledRule>,
    sync_flags: bool,
    managed: Set<Seq<char>>,
    current: Set<Seq<char>>,
)
    requires
        path.len() > 0,
        folder_of(path, mail_root) is Some,
    ensures
        ({
            let (d, f) = desired_for(path, shown_folder(path, mail_root), rules, sync_flags);
            let add = crate::diff::additions(d, f, current);
            let rem = crate::diff::removals(d, f, current, managed);
            planned_diff(path, mail_root, rules, sync_flags, managed, current) == if add.is_empty()
                && rem.is_empty() {
                None
            } else {
                Some((add, rem))
            }
        }),
{
}

fn matching_rules(rules: &Vec<CompiledRule>, folder_lower: &str) -> (r: Vec<MatchedRule>)
    ensures
        matched_view(r@) == matched_rules(rules@, folder_lower@),
{
    let mut out: Vec<MatchedRule> = Vec::new();
    let mut i: usize = 0;
    while i < rules.len()
        invariant
            i <= rules.len(),
            matched_view(out@) == matched_rules(rules@.take(i as int), folder_lower@),
        decreases rules.len() - i,
    {
        let rule = &rules[i];
        let (exact, inh) = rule_match(rule, folder_lower);
        assert(rules@.take(i + 1).drop_last() =~= rules@.take(i as int));
        assert(rules@.take(i + 1).last() == rules@[i as int]);
        if exact || inh {
            out.push(MatchedRule { pattern: rule.pattern.clone(), exact, tags: clone_strings(&rule.tags) });
            assert(matched_view(out@) =~= matched_view(out@.drop_last()).push(
                (rule.pattern@, exact, views(rule.tags@)),
            ));
        }
        i += 1;
    }
    assert(rules@.take(rules.len() as int) =~= rules@);
    out
}

/// Explain why a message has (or would get) its tags.
pub fn explain_report(
    path: &str,
    mail_root: &str,
    rules: &Vec<CompiledRule>,
    sync_flags: bool,
    managed: &TagSet,
    current: &TagSet,
) -> (r: ExplainReport)
    requires
        managed.wf(),
        current.wf(),
    ensures
        r.folder@ == shown_folder(path@, mail_root@),
        views(r.current@) == current.seq(),
        views(r.managed@) == managed.seq(),
        matched_view(r.matched@) == matched_rules(rules@, str_lowercase(r.folder@)),
        match r.flags {
            Some(f) => sync_flags && f@ == crate::index_maildir::flag_suffix_spec(path@).to_set()
                && f.letters() == crate::index_maildir::first_seen(crate::index_maildir::flag_suffix_spec(path@)),
            None => !sync_flags,
        },
        ({
            let (d, f) = desired_for(path@, r.folder@, rules@, sync_flags);
            &&& crate::tag_set::sorted_strict(views(r.desired_add@))
            &&& views(r.desired_add@).to_set() == d
            &&& crate::tag_set::sorted_strict(views(r.desired_remove@))
            &&& views(r.desired_remove@).to_set() == f
            &&& crate::tag_set::sorted_strict(views(r.to_add@))
            &&& views(r.to_add@).to_set() == crate::diff::additions(d, f, current@)
            &&& crate::tag_set::sorted_strict(views(r.to_remove@))
            &&& views(r.to_remove@).to_set() == crate::diff::removals(d, f, current@, managed@)
        }),
{
    let folder = match folder_from_path(path, mail_root) {
        Some(f) => f,
        None => String::from_str("(unknown folder)"),
    };
    let (d, f) = desired_sets(path, folder.as_str(), rules, sync_flags);
    let (to_add, to_remove) = crate::diff::compute_tag_diff(&d, &f, current, managed);
    let folder_lower = to_lowercase(folder.as_str());
    let matched = matching_rules(rules, folder_lower.as_str());
    let flags = if sync_flags {
        Some(crate::index_maildir::parse_maildir_flags(path))
    } else {
        None
    };
    proof {
        d.lemma_seq_view();
        f.lemma_seq_view();
    }
    ExplainReport {
        folder,
        current: clone_strings(current.as_vec()),
        matched,
        flags,
        desired_add: clone_strings(d.as_vec()),
        desired_remove: clone_strings(f.as_vec()),
        managed: clone_strings(managed.as_vec()),
        to_add,
        to_remove,
    }
}

// ── Checking the rules against the folders on disk ──────────────────────────

/// Some folder on disk (lowercased) matches the pattern.
pub open spec fn pattern_covers_some(pattern: Seq<char>, folders: Seq<Seq<char>>) -> bool {
    exists|i: int| 0 <= i < folders.len() && glob_match(pattern, str_lowercase(#[trigger] folders[i]))
}

/// Some rule's pattern matches the folder, both lowercased.
pub open spec fn folder_has_rule(rules: Seq<FolderRule>, folder: Seq<char>) -> bool {
    exists|j: int|
        0 <= j < rules.len() && glob_match(str_lowercase((#[trigger] rules[j]).pattern@), str_lowercase(folder))
}

fn any_folder_matches(pattern: &str, folders: &Vec<String>) -> (r: bool)
    ensures
        r == pattern_covers_some(pattern@, views(folders@)),
{
    let mut i: usize = 0;
    while i < folders.len()
        invariant
            i <= folders.len(),
            forall|k: int| 0 <= k < i ==> !glob_match(pattern@, str_lowercase(#[trigger] views(folders@)[k])),
        decreases folders.len() - i,
    {
        let lower = to_lowercase(folders[i].as_str());
        if glob_matches(pattern, lower.as_str()) {
            assert(glob_match(pattern@, str_lowercase(views(folders@)[i as int])));
            return true;
        }
        i += 1;
    }
    false
}

fn any_rule_matches(rules: &Vec<FolderRule>, folder: &str) -> (r: bool)
    ensures
        r == folder_has_rule(rules@, folder@),
{
    let lower = to_lowercase(folder);
    let mut j: usize = 0;
    while j < rules.len()
        invariant
            j <= rules.len(),
            lower@ == str_lowercase(folder@),
            forall|k: int| 0 <= k < j ==> !glob_match(str_lowercase((#[trigger] rules@[k]).pattern@), str_lowercase(folder@)),
        decreases rules.len() - j,
    {
        let pattern = to_lowercase(rules[j].pattern.as_str());
        if glob_matches(pattern.as_str(), lower.as_str()) {
            assert(glob_match(str_lowercase(rules@[j as int].pattern@), str_lowercase(folder@)));
            return true;
        }
        j += 1;
    }
    false
}

/// Positions (ascending) of the rules whose pattern matches no folder on
/// disk, pattern and folder both lowercased; a pattern that does not
/// compile matches nothing.
pub fn orphaned_rules(rules: &Vec<FolderRule>, folders: &Vec<String>) -> (r: Vec<usize>)
    ensures
        forall|a: int, b: int| 0 <= a < b < r@.len() ==> #[trigger] r@[a] < #[trigger] r@[b],
        forall|a: int| 0 <= a < r@.len() ==> (#[trigger] r@[a]) < rules@.len(),
        forall|k: usize|
            k < rules@.len() ==> (#[trigger] r@.contains(k) <==> !pattern_covers_some(
                str_lowercase(rules@[k as int].pattern@),
                views(folders@),
            )),
{
    let mut out: Vec<usize> = Vec::new();
    let mut i: usize = 0;
    while i < rules.len()
        invariant
            i <= rules.len(),
            forall|a: int, b: int| 0 <= a < b < out@.len() ==> #[trigger] out@[a] < #[trigger] out@[b],
            forall|a: int| 0 <= a < out@.len() ==> (#[trigger] out@[a]) < i,
            forall|k: usize|
                k < i ==> (#[trigger] out@.contains(k) <==> !pattern_covers_some(
                    str_lowercase(rules@[k as int].pattern@),
                    views(folders@),
                )),
        decreases rules.len() - i,
    {
        let pattern = to_lowercase(rules[i].pattern.as_str());
        let covered = any_folder_matches(pattern.as_str(), folders);
        let ghost before = out@;
        if !covered {
            out.push(i);
        }
        proof {
            assert forall|k: usize| k < i + 1 implies (#[trigger] out@.contains(k)
                <==> !pattern_covers_some(str_lowercase(rules@[k as int].pattern@), views(folders@))) by {
                if out@.contains(k) && k < i {
                    let q = choose|q: int| 0 <= q < out@.len() && out@[q] == k;
                    assert(before[q] == k);
                }
                if before.contains(k) {
                    let q = choose|q: int| 0 <= q < before.len() && before[q] == k;
                    assert(out@[q] == k);
                }
                if k == i && out@.contains(k) {
                    let q = choose|q: int| 0 <= q < out@.len() && out@[q] == k;
                    if q < before.len() {
                        assert(before[q] < i);
                    }
                }
                if k == i && !covered {
                    assert(out@[before.len() as int] == k);
                }
            }
        }
        i += 1;
    }
    out
}

/// Folders on disk (in order) that no rule's pattern matches, pattern and
/// folder both lowercased.
pub fn untagged_folders(rules: &Vec<FolderRule>, folders: &Vec<String>) -> (r: Vec<String>)
    ensures
        views(r@) == views(folders@).filter(|f: Seq<char>| !folder_has_rule(rules@, f)),
{
    broadcast use vstd::seq_lib::group_seq_properties;

    let ghost p = |f: Seq<char>| !folder_has_rule(rules@, f);
    let mut out: Vec<String> = Vec::new();
    let mut i: usize = 0;
    while i < folders.len()
        invariant
            i <= folders.len(),
            p == (|f: Seq<char>| !folder_has_rule(rules@, f)),
            views(out@) == views(folders@).take(i as int).filter(p),
        decreases folders.len() - i,
    {
        let ruled = any_rule_matches(rules, folders[i].as_str());
        proof {
            views(folders@).lemma_take_succ_push(i as int);
            views(folders@).take(i as int).lemma_filter_push(folders@[i as int]@, p);
        }
        if !ruled {
            out.push(folders[i].clone());
            assert(views(out@) =~= views(out@).drop_last().push(folders@[i as int]@));
        }
        i += 1;
    }
    assert(views(folders@).take(folders.len() as int) =~= views(folders@));
    out
}

// ── Similar folder names ─────────────────────────────────────────────────────

pub open spec fn min3(a: nat, b: nat, c: nat) -> nat {
    if a <= b && a <= c {
        a
    } else if b <= c {
        b
    } else {
        c
    }
}

/// The Levenshtein distance between two character sequences: the least
/// number of single-character insertions, deletions and substitutions that
/// turn one into the other.
pub open spec fn levenshtein(a: Seq<char>, b: Seq<char>) -> nat
    decreases a.len() + b.len(),
{
    if a.len() == 0 {
        b.len()
    } else if b.len() == 0 {
        a.len()
    } else {
        min3(
            levenshtein(a.drop_last(), b) + 1,
            levenshtein(a, b.drop_last()) + 1,
            levenshtein(a.drop_last(), b.drop_last()) + if a.last() == b.last() {
                0nat
            } else {
                1nat
            },
        )
    }
}

/// Calls `strsim::levenshtein`, which counts characters; claims its result
/// is the Levenshtein distance of the two strings.
#[verifier::external_body]
fn edit_distance(a: &str, b: &str) -> (r: usize)
    ensures
        r == levenshtein(a@, b@),
{
    strsim::levenshtein(a, b)
}

/// The ranking keys used to order folders by their distance to a pattern.
pub open spec fn distance_keys(pattern: Seq<char>, folders: Seq<Seq<char>>) -> Seq<i128> {
    Seq::new(folders.len(), |i: int| (0 - levenshtein(pattern, folders[i])) as i128)
}

/// Find the folders with names most similar to `pattern` (at most `limit`),
/// nearest first, ties in the given order.
pub fn find_similar_folders(pattern: &str, folders: &Vec<String>, limit: usize) -> (r: Vec<String>)
    ensures
        r@.len() == if limit < folders@.len() {
            limit as int
        } else {
            folders@.len() as int
        },
        exists|order: Seq<usize>|
            crate::order::is_ranking(distance_keys(pattern@, views(folders@)), order) && forall|
                i: int,
            | 0 <= i < r@.len() ==> (#[trigger] r@[i])@ == folders@[order[i] as int]@,
{
    let mut keys: Vec<i128> = Vec::new();
    let mut i: usize = 0;
    while i < folders.len()
        invariant
            i <= folders.len(),
            keys@ == distance_keys(pattern@, views(folders@)).take(i as int),
        decreases folders.len() - i,
    {
        let d = edit_distance(pattern, folders[i].as_str());
        keys.push(0i128 - (d as i128));
        assert(keys@ =~= distance_keys(pattern@, views(folders@)).take(i + 1));
        i += 1;
    }
    assert(keys@ =~= distance_keys(pattern@, views(folders@)));
    let order = crate::order::stable_rank_desc(&keys);
    let mut out: Vec<String> = Vec::new();
    let mut k: usize = 0;
    while k < order.len() && k < limit
        invariant
            k <= order@.len(),
            k <= limit,
            order@.len() == folders@.len(),
            crate::order::is_ranking(keys@, order@),
            out@.len() == k,
            forall|j: int| 0 <= j < k ==> (#[trigger] out@[j])@ == folders@[order@[j] as int]@,
        decreases order@.len() - k,
    {
        out.push(folders[order[k]].clone());
        k += 1;
    }
    out
}

/// Suggest tags based on well-known folder name keywords (sorted).
pub fn suggest_tags_for_folder(folder: &str) -> (r: Vec<String>)
    ensures
        views(r@) == crate::setup::keyword_tags(str_lowercase(folder@)),
{
    crate::setup::suggest_tags(folder)
}

} // verus!
