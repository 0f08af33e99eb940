//! The explanation of a message's tags as the terminal panel and the
//! `folder explain` command write it.

use vstd::prelude::*;
use crate::text::{concat_str, join_strings, join_sep};
use crate::tag_set::views;
use crate::folder_tags::{ExplainReport, MatchedRule};
use crate::index_maildir::FlagSet;

verus! {

/// `format!("{:?}", c)`: a character as Rust's debug output writes it.
pub uninterp spec fn char_debug_text(c: char) -> Seq<char>;

/// Formats a character with `{:?}`; the result is `char_debug_text` of it.
#[verifier::external_body]
fn char_debug(c: char) -> (r: String)
    ensures
        r@ == char_debug_text(c),
{
    format!("{:?}", c)
}

/// A set of flag letters as `{:?}` writes a set: debug-written letters
/// between braces, separated by commas. The letters come in the order they
/// appear in the file name.
pub open spec fn flags_debug_text(letters: Seq<char>) -> Seq<char> {
    "{"@ + join_sep(letters.map_values(|c: char| char_debug_text(c)), ", "@) + "}"@
}

pub fn flags_debug(flags: &FlagSet) -> (r: String)
    ensures
        r@ == flags_debug_text(flags.letters()),
{
    let cs = flags.as_chars();
    let mut parts: Vec<String> = Vec::new();
    let mut i: usize = 0;
    while i < cs.len()
        invariant
            i <= cs@.len(),
            cs@ == flags.letters(),
            views(parts@) == cs@.take(i as int).map_values(|c: char| char_debug_text(c)),
        decreases cs.len() - i,
    {
        let ghost before = parts@;
        parts.push(char_debug(cs[i]));
        assert(views(parts@) =~= views(before).push(char_debug_text(cs@[i as int])));
        assert(cs@.take(i + 1).map_values(|c: char| char_debug_text(c)) =~= cs@.take(i as int).map_values(
            |c: char| char_debug_text(c),
        ).push(char_debug_text(cs@[i as int])));
        i += 1;
    }
    assert(cs@.take(cs@.len() as int) =~= cs@);
    let j = join_strings(&parts, ", ");
    let s = concat_str("{", j.as_str());
    concat_str(s.as_str(), "}")
}

/// A list of tags in brackets, separated by commas.
pub open spec fn bracketed(tags: Seq<Seq<char>>) -> Seq<char> {
    "["@ + join_sep(tags, ", "@) + "]"@
}

fn bracketed_str(tags: &Vec<String>) -> (r: String)
    ensures
        r@ == bracketed(views(tags@)),
{
    let j = join_strings(tags, ", ");
    let s = concat_str("[", j.as_str());
    concat_str(s.as_str(), "]")
}

/// One matched rule in the panel.
pub open spec fn panel_rule_line(m: MatchedRule) -> Seq<char> {
    " • pattern: '"@ + m.pattern@ + "' ("@ + (if m.exact {
        "exact"@
    } else {
        "inheritance"@
    }) + ") → tags: "@ + bracketed(views(m.tags@)) + "\n"@
}

pub open spec fn panel_rules(ms: Seq<MatchedRule>) -> Seq<char>
    decreases ms.len(),
{
    if ms.len() == 0 {
        Seq::empty()
    } else {
        panel_rules(ms.drop_last()) + panel_rule_line(ms.last())
    }
}

pub open spec fn panel_head(path: Seq<char>, r: ExplainReport) -> Seq<char> {
    "📄 Path: "@ + path + "\n"@ + "📁 Folder: "@ + r.folder@ + "\n\n"@ + "🏷️ Current tags: "@
        + bracketed(views(r.current@)) + "\n\n"@ + "📋 Matched rules:\n"@
}

pub open spec fn panel_flags(r: ExplainReport) -> Seq<char> {
    match r.flags {
        Some(f) => "\n🚩 Maildir flags: "@ + flags_debug_text(f.letters()) + "\n"@,
        None => Seq::empty(),
    }
}

pub open spec fn panel_sets(r: ExplainReport) -> Seq<char> {
    "\n🎯 Desired add: "@ + bracketed(views(r.desired_add@)) + "\n"@ + "🎯 Desired remove: "@
        + bracketed(views(r.desired_remove@)) + "\n"@ + "🧰 Managed tags: "@ + bracketed(views(r.managed@))
        + "\n"@
}

pub open spec fn panel_verdict(r: ExplainReport) -> Seq<char> {
    if r.to_add@.len() == 0 && r.to_remove@.len() == 0 {
        "\n✅ Already in sync – no changes needed.\n"@
    } else {
        "\n➕ Would add: "@ + join_sep(views(r.to_add@), ", "@) + "\n"@ + "➖ Would remove: "@ + join_sep(
            views(r.to_remove@),
            ", "@,
        ) + "\n"@
    }
}

/// The explain panel of the terminal interface.
pub open spec fn panel_text(path: Seq<char>, r: ExplainReport) -> Seq<char> {
    panel_head(path, r) + panel_rules(r.matched@) + panel_flags(r) + panel_sets(r) + panel_verdict(r)
}

fn panel_head_str(path: &str, r: &ExplainReport) -> (t: String)
    ensures
        t@ == panel_head(path@, *r),
{
    let s = concat_str("📄 Path: ", path);
    let s = concat_str(s.as_str(), "\n");
    let s = concat_str(s.as_str(), "📁 Folder: ");
    let s = concat_str(s.as_str(), r.folder.as_str());
    let s = concat_str(s.as_str(), "\n\n");
    let s = concat_str(s.as_str(), "🏷️ Current tags: ");
    let b = bracketed_str(&r.current);
    let s = concat_str(s.as_str(), b.as_str());
    let s = concat_str(s.as_str(), "\n\n");
    concat_str(s.as_str(), "📋 Matched rules:\n")
}

fn panel_rules_str(ms: &Vec<MatchedRule>) -> (t: String)
    ensures
        t@ == panel_rules(ms@),
{
    let mut s = String::new();
    let mut i: usize = 0;
    assert(ms@.take(0) =~= Seq::<MatchedRule>::empty());
    while i < ms.len()
        invariant
            i <= ms@.len(),
            s@ == panel_rules(ms@.take(i as int)),
        decreases ms.len() - i,
    {
        let m = &ms[i];
        let line = concat_str(" • pattern: '", m.pattern.as_str());
        let line = concat_str(line.as_str(), "' (");
        let line = concat_str(line.as_str(), if m.exact { "exact" } else { "inheritance" });
        let line = concat_str(line.as_str(), ") → tags: ");
        let bt = bracketed_str(&m.tags);
        let line = concat_str(line.as_str(), bt.as_str());
        let line = concat_str(line.as_str(), "\n");
        proof {
            assert(ms@.take(i + 1).drop_last() =~= ms@.take(i as int));
            assert(ms@.take(i + 1).last() == *m);
        }
        s = concat_str(s.as_str(), line.as_str());
        i += 1;
    }
    assert(ms@.take(ms@.len() as int) =~= ms@);
    s
}

fn panel_flags_str(r: &ExplainReport) -> (t: String)
    ensures
        t@ == panel_flags(*r),
{
    match &r.flags {
        Some(f) => {
            let fd = flags_debug(f);
            let s = concat_str("\n🚩 Maildir flags: ", fd.as_str());
            concat_str(s.as_str(), "\n")
        },
        None => String::new(),
    }
}

fn panel_sets_str(r: &ExplainReport) -> (t: String)
    ensures
        t@ == panel_sets(*r),
{
    let b = bracketed_str(&r.desired_add);
    let s = concat_str("\n🎯 Desired add: ", b.as_str());
    let s = concat_str(s.as_str(), "\n");
    let s = concat_str(s.as_str(), "🎯 Desired remove: ");
    let b = bracketed_str(&r.desired_remove);
    let s = concat_str(s.as_str(), b.as_str());
    let s = concat_str(s.as_str(), "\n");
    let s = concat_str(s.as_str(), "🧰 Managed tags: ");
    let b = bracketed_str(&r.managed);
    let s = concat_str(s.as_str(), b.as_str());
    concat_str(s.as_str(), "\n")
}

fn panel_verdict_str(r: &ExplainReport) -> (t: String)
    ensures
        t@ == panel_verdict(*r),
{
    if r.to_add.len() == 0 && r.to_remove.len() == 0 {
        String::from_str("\n✅ Already in sync – no changes needed.\n")
    } else {
        let a = join_strings(&r.to_add, ", ");
        let s = concat_str("\n➕ Would add: ", a.as_str());
        let s = concat_str(s.as_str(), "\n");
        let s = concat_str(s.as_str(), "➖ Would remove: ");
        let d = join_strings(&r.to_remove, ", ");
        let s = concat_str(s.as_str(), d.as_str());
        concat_str(s.as_str(), "\n")
    }
}

/// The explain panel's text for the message at `path`.
pub fn explain_panel(path: &str, r: &ExplainReport) -> (t: String)
    ensures
        t@ == panel_text(path@, *r),
{
    let a = panel_head_str(path, r);
    let b = panel_rules_str(&r.matched);
    let c = panel_flags_str(r);
    let d = panel_sets_str(r);
    let e = panel_verdict_str(r);
    let s = concat_str(a.as_str(), b.as_str());
    let s = concat_str(s.as_str(), c.as_str());
    let s = concat_str(s.as_str(), d.as_str());
    concat_str(s.as_str(), e.as_str())
}

/// One matched rule as the command prints it.
pub open spec fn command_rule_line(m: MatchedRule) -> Seq<char> {
    "  • '"@ + m.pattern@ + "' ("@ + (if m.exact {
        "exact"@
    } else {
        "inherited"@
    }) + ") → "@ + bracketed(views(m.tags@))
}

pub open spec fn rule_lines(ms: Seq<MatchedRule>) -> Seq<Seq<char>> {
    ms.map_values(|m: MatchedRule| command_rule_line(m))
}

/// The lines the `folder explain` command prints.
pub open spec fn command_lines(path: Seq<char>, r: ExplainReport) -> Seq<Seq<char>> {
    let head = seq![
        "📁 Folder: "@ + r.folder@,
        "📄 Path:   "@ + path,
        "\n🏷️  Current tags: "@ + bracketed(views(r.current@)),
        "\n📋 Matched rules:"@,
    ];
    let flags = match r.flags {
        Some(f) => seq!["\n🚩 Maildir flags: "@ + flags_debug_text(f.letters())],
        None => Seq::empty(),
    };
    let sets = seq![
        "\n🎯 Desired add:    "@ + bracketed(views(r.desired_add@)),
        "🎯 Desired remove: "@ + bracketed(views(r.desired_remove@)),
        "🧰 Managed tags:   "@ + bracketed(views(r.managed@)),
    ];
    let verdict = if r.to_add@.len() == 0 && r.to_remove@.len() == 0 {
        seq!["\n✅ Already in sync – no changes needed."@]
    } else {
        seq![
            "\n➕ Would add:    "@ + join_sep(views(r.to_add@), ", "@),
            "➖ Would remove: "@ + join_sep(views(r.to_remove@), ", "@),
        ]
    };
    head + rule_lines(r.matched@) + flags + sets + verdict
}

fn push_line(out: &mut Vec<String>, line: String)
    ensures
        views(final(out)@) == views(old(out)@).push(line@),
{
    let ghost before = out@;
    out.push(line);
    assert(views(out@) =~= views(before).push(line@));
}

pub fn explain_lines(path: &str, r: &ExplainReport) -> (out: Vec<String>)
    ensures
        views(out@) == command_lines(path@, *r),
{
    let mut out: Vec<String> = Vec::new();
    push_line(&mut out, concat_str("📁 Folder: ", r.folder.as_str()));
    push_line(&mut out, concat_str("📄 Path:   ", path));
    let b = bracketed_str(&r.current);
    push_line(&mut out, concat_str("\n🏷️  Current tags: ", b.as_str()));
    push_line(&mut out, String::from_str("\n📋 Matched rules:"));
    let ghost head = views(out@);
    let mut i: usize = 0;
    while i < r.matched.len()
        invariant
            i <= r.matched@.len(),
            views(out@) == head + rule_lines(r.matched@.take(i as int)),
        decreases r.matched.len() - i,
    {
        let m = &r.matched[i];
        let line = concat_str("  • '", m.pattern.as_str());
        let line = concat_str(line.as_str(), "' (");
        let line = concat_str(line.as_str(), if m.exact { "exact" } else { "inherited" });
        let line = concat_str(line.as_str(), ") → ");
        let bt = bracketed_str(&m.tags);
        let line = concat_str(line.as_str(), bt.as_str());
        push_line(&mut out, line);
        assert(rule_lines(r.matched@.take(i + 1)) =~= rule_lines(r.matched@.take(i as int)).push(command_rule_line(*m)));
        i += 1;
    }
    assert(r.matched@.take(r.matched@.len() as int) =~= r.matched@);
    match &r.flags {
        Some(f) => {
            let fd = flags_debug(f);
            push_line(&mut out, concat_str("\n🚩 Maildir flags: ", fd.as_str()));
        },
        None => {},
    }
    let b = bracketed_str(&r.desired_add);
    push_line(&mut out, concat_str("\n🎯 Desired add:    ", b.as_str()));
    let b = bracketed_str(&r.desired_remove);
    push_line(&mut out, concat_str("🎯 Desired remove: ", b.as_str()));
    let b = bracketed_str(&r.managed);
    push_line(&mut out, concat_str("🧰 Managed tags:   ", b.as_str()));
    if r.to_add.len() == 0 && r.to_remove.len() == 0 {
        push_line(&mut out, String::from_str("\n✅ Already in sync – no changes needed."));
    } else {
        let a = join_strings(&r.to_add, ", ");
        push_line(&mut out, concat_str("\n➕ Would add:    ", a.as_str()));
        let d = join_strings(&r.to_remove, ", ");
        push_line(&mut out, concat_str("➖ Would remove: ", d.as_str()));
    }
    assert(views(out@) =~= command_lines(path@, *r));
    out
}

} // verus!
