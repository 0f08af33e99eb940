//! The decisions of `folder structure`: which rules are listed as orphans
//! and which folders as untagged, what each answer does to the new rule
//! list, and what is said at the end.

use vstd::prelude::*;
use crate::text::{concat_str, join_strings, join_sep, chars_of};
use crate::tag_set::{views, clone_strings};
use crate::setup::FolderRule;
use crate::folder_tags::{glob_check, glob_error};
use crate::validation::{validate_tags, tags_error};
use crate::numfmt::{decimal, decimal_string};
use crate::tui_view::words;
use crate::address::char_vec_views;

verus! {

/// What a rule means: pattern, tags, inheritance.
pub open spec fn rule_view(r: FolderRule) -> (Seq<char>, Seq<Seq<char>>, bool) {
    (r.pattern@, views(r.tags@), r.inherit)
}

pub open spec fn rules_view(v: Seq<FolderRule>) -> Seq<(Seq<char>, Seq<Seq<char>>, bool)> {
    v.map_values(|r: FolderRule| rule_view(r))
}

/// A line to print, and where.
pub enum Said {
    Out(String),
    Warn(String),
    Silent,
}

pub enum SaidView {
    Out(Seq<char>),
    Warn(Seq<char>),
    Silent,
}

pub open spec fn said_view(s: Said) -> SaidView {
    match s {
        Said::Out(t) => SaidView::Out(t@),
        Said::Warn(t) => SaidView::Warn(t@),
        Said::Silent => SaidView::Silent,
    }
}

// ── Listings ────────────────────────────────────────────────────────────────

/// The line of the `k`-th orphan (counted from 1).
pub open spec fn orphan_line(k: nat, r: FolderRule) -> Seq<char> {
    "  "@ + decimal(k) + ". pattern: '"@ + r.pattern@ + "' → tags: ["@ + join_sep(views(r.tags@), ", "@) + "]"@
}

pub fn orphan_lines(rules: &Vec<FolderRule>, orphans: &Vec<usize>) -> (r: Vec<String>)
    requires
        forall|i: int| 0 <= i < orphans@.len() ==> (#[trigger] orphans@[i]) < rules@.len(),
        orphans@.len() < usize::MAX,
    ensures
        r@.len() == orphans@.len(),
        forall|i: int| 0 <= i < r@.len() ==> (#[trigger] r@[i])@ == orphan_line((i + 1) as nat, rules@[orphans@[i] as int]),
{
    let mut out: Vec<String> = Vec::new();
    let mut i: usize = 0;
    while i < orphans.len()
        invariant
            i <= orphans@.len(),
            orphans@.len() < usize::MAX,
            forall|j: int| 0 <= j < orphans@.len() ==> (#[trigger] orphans@[j]) < rules@.len(),
            out@.len() == i,
            forall|j: int| 0 <= j < i ==> (#[trigger] out@[j])@ == orphan_line((j + 1) as nat, rules@[orphans@[j] as int]),
        decreases orphans.len() - i,
    {
        let rule = &rules[orphans[i]];
        let n = decimal_string((i + 1) as u128);
        let s = concat_str("  ", n.as_str());
        let s = concat_str(s.as_str(), ". pattern: '");
        let s = concat_str(s.as_str(), rule.pattern.as_str());
        let s = concat_str(s.as_str(), "' → tags: [");
        let t = join_strings(&rule.tags, ", ");
        let s = concat_str(s.as_str(), t.as_str());
        out.push(concat_str(s.as_str(), "]"));
        i += 1;
    }
    out
}

/// The listing of untagged folders: the first ten numbered, then how many
/// more there are.
pub open spec fn untagged_listing(folders: Seq<Seq<char>>) -> Seq<Seq<char>> {
    let shown = if folders.len() > 10 {
        folders.take(10)
    } else {
        folders
    };
    let lines = Seq::new(shown.len(), |i: int| "  "@ + decimal((i + 1) as nat) + ". "@ + shown[i]);
    if folders.len() > 10 {
        lines.push("  ... and "@ + decimal((folders.len() - 10) as nat) + " more"@)
    } else {
        lines
    }
}

pub fn untagged_lines(folders: &Vec<String>) -> (r: Vec<String>)
    ensures
        views(r@) == untagged_listing(views(folders@)),
{
    let n: usize = if folders.len() > 10 {
        10
    } else {
        folders.len()
    };
    let mut out: Vec<String> = Vec::new();
    let mut i: usize = 0;
    while i < n
        invariant
            i <= n,
            n <= 10,
            n <= folders@.len(),
            n == (if folders@.len() > 10 { 10 } else { folders@.len() }),
            out@.len() == i,
            forall|j: int| 0 <= j < i ==> (#[trigger] out@[j])@ == "  "@ + decimal((j + 1) as nat) + ". "@ + folders@[j]@,
        decreases n - i,
    {
        let k = decimal_string((i + 1) as u128);
        let s = concat_str("  ", k.as_str());
        let s = concat_str(s.as_str(), ". ");
        out.push(concat_str(s.as_str(), folders[i].as_str()));
        i += 1;
    }
    if folders.len() > 10 {
        let k = decimal_string((folders.len() - 10) as u128);
        let s = concat_str("  ... and ", k.as_str());
        out.push(concat_str(s.as_str(), " more"));
    }
    assert(views(out@) =~= untagged_listing(views(folders@)));
    out
}

/// `custom.split_whitespace()`: the tags typed for a folder.
pub fn custom_tags(input: &str) -> (r: Vec<String>)
    ensures
        views(r@) == words(input@),
{
    let v = chars_of(input);
    let ws = crate::tui_view::split_words(&v);
    let mut out: Vec<String> = Vec::new();
    let mut i: usize = 0;
    while i < ws.len()
        invariant
            i <= ws@.len(),
            char_vec_views(ws@) == words(input@),
            views(out@) == char_vec_views(ws@).take(i as int),
        decreases ws.len() - i,
    {
        let ghost before = out@;
        let w = crate::text::string_of(&ws[i]);
        out.push(w);
        assert(views(out@) =~= views(before).push(ws@[i as int]@));
        assert(char_vec_views(ws@)[i as int] == ws@[i as int]@);
        assert(views(out@) =~= char_vec_views(ws@).take(i + 1));
        i += 1;
    }
    assert(char_vec_views(ws@).take(ws@.len() as int) =~= char_vec_views(ws@));
    out
}

// ── The new rule list ───────────────────────────────────────────────────────

/// The rules being built, and whether they differ from the saved ones.
pub struct RulePlan {
    pub rules: Vec<FolderRule>,
    pub changed: bool,
}

fn copy_rules(rules: &Vec<FolderRule>) -> (r: Vec<FolderRule>)
    ensures
        rules_view(r@) == rules_view(rules@),
{
    let mut out: Vec<FolderRule> = Vec::new();
    let mut i: usize = 0;
    while i < rules.len()
        invariant
            i <= rules@.len(),
            rules_view(out@) == rules_view(rules@).take(i as int),
        decreases rules.len() - i,
    {
        let ghost before = out@;
        out.push(rules[i].clone_rule());
        assert(rules_view(out@) =~= rules_view(before).push(rule_view(rules@[i as int])));
        assert(rules_view(rules@).take(i + 1) =~= rules_view(rules@).take(i as int).push(rule_view(rules@[i as int])));
        i += 1;
    }
    assert(rules_view(rules@).take(rules@.len() as int) =~= rules_view(rules@));
    out
}

/// The rules at positions not listed in `orphans`, in order.
pub open spec fn rules_without(
    rules: Seq<(Seq<char>, Seq<Seq<char>>, bool)>,
    orphans: Seq<usize>,
) -> Seq<(Seq<char>, Seq<Seq<char>>, bool)>
    decreases rules.len(),
{
    if rules.len() == 0 {
        Seq::empty()
    } else {
        let rest = rules_without(rules.drop_last(), orphans);
        if orphans.contains((rules.len() - 1) as usize) {
            rest
        } else {
            rest.push(rules.last())
        }
    }
}

fn contains_position(v: &Vec<usize>, k: usize) -> (r: bool)
    ensures
        r == v@.contains(k),
{
    let mut i: usize = 0;
    while i < v.len()
        invariant
            i <= v@.len(),
            forall|j: int| 0 <= j < i ==> v@[j] != k,
        decreases v.len() - i,
    {
        if v[i] == k {
            assert(v@[i as int] == k);
            return true;
        }
        i += 1;
    }
    false
}

impl RulePlan {
    /// The starting list: every saved rule, except that when the orphans
    /// are about to be answered one by one they are left out (each answer
    /// puts back an orphan that is kept or updated).
    pub fn start(saved: &Vec<FolderRule>, orphans: &Vec<usize>, quiet: bool) -> (r: RulePlan)
        ensures
            !r.changed,
            rules_view(r.rules@) == if quiet {
                rules_view(saved@)
            } else {
                rules_without(rules_view(saved@), orphans@)
            },
    {
        if quiet {
            return RulePlan { rules: copy_rules(saved), changed: false };
        }
        let ghost sv = rules_view(saved@);
        let mut out: Vec<FolderRule> = Vec::new();
        let mut i: usize = 0;
        while i < saved.len()
            invariant
                i <= saved@.len(),
                sv == rules_view(saved@),
                rules_view(out@) == rules_without(sv.take(i as int), orphans@),
            decreases saved.len() - i,
        {
            proof {
                assert(sv.take(i + 1).drop_last() =~= sv.take(i as int));
                assert(sv.take(i + 1).last() == rule_view(saved@[i as int]));
                assert(sv.take(i + 1).len() - 1 == i);
            }
            if !contains_position(orphans, i) {
                let ghost before = out@;
                out.push(saved[i].clone_rule());
                assert(rules_view(out@) =~= rules_view(before).push(rule_view(saved@[i as int])));
            }
            i += 1;
        }
        assert(sv.take(saved@.len() as int) =~= sv);
        RulePlan { rules: out, changed: false }
    }

    fn push_rule(&mut self, rule: FolderRule)
        ensures
            rules_view(final(self).rules@) == rules_view(old(self).rules@).push(rule_view(rule)),
            final(self).changed == old(self).changed,
    {
        let ghost before = self.rules@;
        self.rules.push(rule);
        assert(rules_view(self.rules@) =~= rules_view(before).push(rule_view(rule)));
    }

    /// "Delete rule": the orphan is left out.
    pub fn delete_orphan(&mut self, rule: &FolderRule, dry_run: bool) -> (r: String)
        ensures
            rules_view(final(self).rules@) == rules_view(old(self).rules@),
            final(self).changed == (old(self).changed || !dry_run),
            r@ == if dry_run {
                "[dry-run] Would delete rule '"@ + rule.pattern@ + "'"@
            } else {
                "  → Deleting rule '"@ + rule.pattern@ + "'"@
            },
    {
        if !dry_run {
            self.changed = true;
            let s = concat_str("  → Deleting rule '", rule.pattern.as_str());
            concat_str(s.as_str(), "'")
        } else {
            let s = concat_str("[dry-run] Would delete rule '", rule.pattern.as_str());
            concat_str(s.as_str(), "'")
        }
    }

    /// "Keep as-is": the orphan stays.
    pub fn keep_orphan(&mut self, rule: &FolderRule, dry_run: bool)
        ensures
            rules_view(final(self).rules@) == if dry_run {
                rules_view(old(self).rules@)
            } else {
                rules_view(old(self).rules@).push(rule_view(*rule))
            },
            final(self).changed == old(self).changed,
    {
        if !dry_run {
            self.push_rule(rule.clone_rule());
        }
    }

    /// "Update pattern": a pattern that does not compile keeps the orphan
    /// as it was; otherwise the rule moves to the new pattern.
    pub fn update_orphan(&mut self, rule: &FolderRule, new_pattern: &str, dry_run: bool) -> (r: Said)
        ensures
            match glob_error(new_pattern@) {
                Some(e) => {
                    &&& said_view(r) == SaidView::Warn(
                        "⚠️  '"@ + new_pattern@ + "' is not a valid glob pattern: "@ + e + ". Keeping original."@,
                    )
                    &&& rules_view(final(self).rules@) == if dry_run {
                        rules_view(old(self).rules@)
                    } else {
                        rules_view(old(self).rules@).push(rule_view(*rule))
                    }
                    &&& final(self).changed == old(self).changed
                },
                None => if dry_run {
                    &&& said_view(r) == SaidView::Out(
                        "[dry-run] Would update '"@ + rule.pattern@ + "' → '"@ + new_pattern@ + "'"@,
                    )
                    &&& rules_view(final(self).rules@) == rules_view(old(self).rules@)
                    &&& final(self).changed == old(self).changed
                } else {
                    &&& said_view(r) == SaidView::Out("  → Updated to '"@ + new_pattern@ + "'"@)
                    &&& rules_view(final(self).rules@) == rules_view(old(self).rules@).push(
                        (new_pattern@, views(rule.tags@), rule.inherit),
                    )
                    &&& final(self).changed
                },
            },
    {
        match glob_check(new_pattern) {
            Some(e) => {
                let s = concat_str("⚠️  '", new_pattern);
                let s = concat_str(s.as_str(), "' is not a valid glob pattern: ");
                let s = concat_str(s.as_str(), e.as_str());
                let s = concat_str(s.as_str(), ". Keeping original.");
                if !dry_run {
                    self.push_rule(rule.clone_rule());
                }
                Said::Warn(s)
            },
            None => {
                if !dry_run {
                    self.push_rule(
                        FolderRule {
                            pattern: String::from_str(new_pattern),
                            tags: clone_strings(&rule.tags),
                            inherit: rule.inherit,
                        },
                    );
                    self.changed = true;
                    let s = concat_str("  → Updated to '", new_pattern);
                    Said::Out(concat_str(s.as_str(), "'"))
                } else {
                    let s = concat_str("[dry-run] Would update '", rule.pattern.as_str());
                    let s = concat_str(s.as_str(), "' → '");
                    let s = concat_str(s.as_str(), new_pattern);
                    Said::Out(concat_str(s.as_str(), "'"))
                }
            },
        }
    }

    /// A rule for an untagged folder, with tags already checked.
    pub fn add_folder_rule(&mut self, folder: &str, tags: Vec<String>, inherit: bool, dry_run: bool) -> (r: Said)
        ensures
            dry_run ==> said_view(r) == SaidView::Out("[dry-run] Would add rule for '"@ + folder@ + "'"@)
                && rules_view(final(self).rules@) == rules_view(old(self).rules@) && final(self).changed
                == old(self).changed,
            !dry_run ==> said_view(r) == SaidView::Silent && rules_view(final(self).rules@) == rules_view(
                old(self).rules@,
            ).push((folder@, views(tags@), inherit)) && final(self).changed,
    {
        if !dry_run {
            self.push_rule(FolderRule { pattern: String::from_str(folder), tags, inherit });
            self.changed = true;
            Said::Silent
        } else {
            let s = concat_str("[dry-run] Would add rule for '", folder);
            Said::Out(concat_str(s.as_str(), "'"))
        }
    }
}

/// The tags for a new folder rule: the chosen suggestions, then the custom
/// tags when they are all valid (a refusal is reported and they are
/// dropped).
pub fn with_custom_tags(chosen: Vec<String>, custom: &Vec<String>) -> (r: (Vec<String>, Said))
    ensures
        match tags_error(views(custom@)) {
            Some(e) => views(r.0@) == views(chosen@) && said_view(r.1) == SaidView::Warn(
                "⚠️  Invalid tag(s): "@ + e + ". Skipping custom tags."@,
            ),
            None => views(r.0@) == views(chosen@) + views(custom@) && said_view(r.1) == SaidView::Silent,
        },
{
    match validate_tags(custom) {
        Err(e) => {
            let s = concat_str("⚠️  Invalid tag(s): ", e.as_str());
            (chosen, Said::Warn(concat_str(s.as_str(), ". Skipping custom tags.")))
        },
        Ok(()) => {
            let mut out = chosen;
            let ghost base = views(out@);
            let mut i: usize = 0;
            while i < custom.len()
                invariant
                    i <= custom@.len(),
                    views(out@) == base + views(custom@).take(i as int),
                decreases custom.len() - i,
            {
                let ghost before = out@;
                out.push(custom[i].clone());
                assert(views(out@) =~= views(before).push(custom@[i as int]@));
                assert(views(out@) =~= base + views(custom@).take(i + 1));
                i += 1;
            }
            assert(views(custom@).take(custom@.len() as int) =~= views(custom@));
            (out, Said::Silent)
        },
    }
}

/// Whether a folder gets a rule with these tags: none means it is skipped,
/// invalid ones are refused.
pub fn check_folder_tags(tags: &Vec<String>) -> (r: Option<Said>)
    ensures
        tags@.len() == 0 ==> (r matches Some(s) && said_view(s) == SaidView::Out("  (no tags – skipping this folder)"@)),
        tags@.len() > 0 ==> match tags_error(views(tags@)) {
            Some(e) => (r matches Some(s) && said_view(s) == SaidView::Warn("⚠️  Invalid tags: "@ + e + ". Skipping folder."@)),
            None => r is None,
        },
{
    if tags.len() == 0 {
        return Some(Said::Out(String::from_str("  (no tags – skipping this folder)")));
    }
    match validate_tags(tags) {
        Err(e) => {
            let s = concat_str("⚠️  Invalid tags: ", e.as_str());
            Some(Said::Warn(concat_str(s.as_str(), ". Skipping folder.")))
        },
        Ok(()) => None,
    }
}

/// What happens at the end of `folder structure`.
pub enum Outcome {
    /// Save the new rules, then print the text.
    Save(String),
    Report(String),
}

pub fn outcome(changed: bool, dry_run: bool) -> (r: Outcome)
    ensures
        changed && !dry_run ==> (r matches Outcome::Save(t) && t@
            == "\n✅ Config updated. Run `hamster folder sync` to apply the new rules. The hamster is ready."@),
        changed && dry_run ==> (r matches Outcome::Report(t) && t@ == "\n[dry-run] Config would be updated."@),
        !changed ==> (r matches Outcome::Report(t) && t@
            == "\n✅ Folder structure already in sync. The hamster is satisfied."@),
{
    if changed && !dry_run {
        Outcome::Save(
            String::from_str(
                "\n✅ Config updated. Run `hamster folder sync` to apply the new rules. The hamster is ready.",
            ),
        )
    } else if changed && dry_run {
        Outcome::Report(String::from_str("\n[dry-run] Config would be updated."))
    } else {
        Outcome::Report(String::from_str("\n✅ Folder structure already in sync. The hamster is satisfied."))
    }
}

/// The notes printed about orphans and untagged folders, in quiet mode or
/// before the questions.
pub open spec fn orphan_note_text(n: nat, quiet: bool) -> Seq<char> {
    if quiet {
        "Note: "@ + decimal(n) + " orphaned rule(s) found (no matching folder). Run without --quiet to fix interactively."@
    } else {
        "\n⚠️  "@ + decimal(n) + " rule(s) have no matching folder:"@
    }
}

pub fn orphan_note(n: usize, quiet: bool) -> (r: String)
    ensures
        r@ == orphan_note_text(n as nat, quiet),
{
    let d = decimal_string(n as u128);
    if quiet {
        let s = concat_str("Note: ", d.as_str());
        concat_str(s.as_str(), " orphaned rule(s) found (no matching folder). Run without --quiet to fix interactively.")
    } else {
        let s = concat_str("\n⚠️  ", d.as_str());
        concat_str(s.as_str(), " rule(s) have no matching folder:")
    }
}

pub open spec fn untagged_note_text(n: nat, quiet: bool) -> Seq<char> {
    if quiet {
        "Note: "@ + decimal(n) + " folder(s) have no matching rule. Run without --quiet to assign tags interactively."@
    } else {
        "\n📁 "@ + decimal(n) + " folder(s) have no matching rule:"@
    }
}

pub fn untagged_note(n: usize, quiet: bool) -> (r: String)
    ensures
        r@ == untagged_note_text(n as nat, quiet),
{
    let d = decimal_string(n as u128);
    if quiet {
        let s = concat_str("Note: ", d.as_str());
        concat_str(s.as_str(), " folder(s) have no matching rule. Run without --quiet to assign tags interactively.")
    } else {
        let s = concat_str("\n📁 ", d.as_str());
        concat_str(s.as_str(), " folder(s) have no matching rule:")
    }
}

} // verus!
