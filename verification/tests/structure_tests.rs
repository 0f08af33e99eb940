use hamster::folder_tags::{compile_rules, plan_tag_update};
use hamster::setup::FolderRule;
use hamster::structure::{
    check_folder_tags, custom_tags, orphan_lines, orphan_note, outcome, untagged_lines,
    untagged_note, with_custom_tags, Outcome, RulePlan, Said,
};
use hamster::sync_report::{commit_due, committed_line, dry_run_line, dry_run_summary, synced_message};
use hamster::tag_set::TagSet;

fn strings(v: &[&str]) -> Vec<String> {
    v.iter().map(|s| s.to_string()).collect()
}

fn rule(pattern: &str, tags: &[&str]) -> FolderRule {
    FolderRule { pattern: pattern.to_string(), tags: strings(tags), inherit: false }
}

fn said(s: &Said) -> (char, String) {
    match s {
        Said::Out(t) => ('o', t.clone()),
        Said::Warn(t) => ('w', t.clone()),
        Said::Silent => ('s', String::new()),
    }
}

#[test]
fn orphan_and_untagged_listings() {
    let rules = vec![rule("a", &["x"]), rule("Old", &["old", "arch"])];
    assert_eq!(orphan_lines(&rules, &vec![1]), strings(&["  1. pattern: 'Old' → tags: [old, arch]"]));
    let folders: Vec<String> = (1..=12).map(|i| format!("f{}", i)).collect();
    let lines = untagged_lines(&folders);
    assert_eq!(lines.len(), 11);
    assert_eq!(lines[0], "  1. f1");
    assert_eq!(lines[9], "  10. f10");
    assert_eq!(lines[10], "  ... and 2 more");
    assert_eq!(untagged_lines(&strings(&["x"])), strings(&["  1. x"]));
}

#[test]
fn notes_depend_on_quiet() {
    assert_eq!(
        orphan_note(2, true),
        "Note: 2 orphaned rule(s) found (no matching folder). Run without --quiet to fix interactively."
    );
    assert_eq!(orphan_note(2, false), "\n⚠️  2 rule(s) have no matching folder:");
    assert_eq!(
        untagged_note(3, true),
        "Note: 3 folder(s) have no matching rule. Run without --quiet to assign tags interactively."
    );
    assert_eq!(untagged_note(3, false), "\n📁 3 folder(s) have no matching rule:");
}

#[test]
fn rule_plan_edits() {
    let saved = vec![rule("inbox", &["inbox"]), rule("gone", &["g"])];
    let quiet = RulePlan::start(&saved, &vec![1], true);
    assert_eq!(quiet.rules.len(), 2);
    let mut plan = RulePlan::start(&saved, &vec![1], false);
    assert_eq!(plan.rules.len(), 1);
    assert_eq!(plan.rules[0].pattern, "inbox");
    assert!(!plan.changed);

    assert_eq!(plan.delete_orphan(&saved[1], true), "[dry-run] Would delete rule 'gone'");
    assert!(!plan.changed);
    assert_eq!(plan.delete_orphan(&saved[1], false), "  → Deleting rule 'gone'");
    assert!(plan.changed);

    plan.keep_orphan(&saved[1], false);
    assert_eq!(plan.rules.len(), 2);

    let r = plan.update_orphan(&saved[1], "[bad", false);
    let (kind, text) = said(&r);
    assert_eq!(kind, 'w');
    assert!(text.starts_with("⚠️  '[bad' is not a valid glob pattern: "));
    assert!(text.ends_with(". Keeping original."));
    assert_eq!(plan.rules.len(), 3);
    assert_eq!(plan.rules[2].pattern, "gone");

    assert_eq!(said(&plan.update_orphan(&saved[1], "Gone2", false)), ('o', "  → Updated to 'Gone2'".to_string()));
    assert_eq!(plan.rules[3].pattern, "Gone2");
    assert_eq!(plan.rules[3].tags, strings(&["g"]));
    assert_eq!(
        said(&plan.update_orphan(&saved[1], "Gone3", true)),
        ('o', "[dry-run] Would update 'gone' → 'Gone3'".to_string())
    );
    assert_eq!(plan.rules.len(), 4);

    assert_eq!(said(&plan.add_folder_rule("Sent", strings(&["sent"]), true, true)), ('o', "[dry-run] Would add rule for 'Sent'".to_string()));
    assert_eq!(plan.rules.len(), 4);
    assert_eq!(said(&plan.add_folder_rule("Sent", strings(&["sent"]), true, false)).0, 's');
    assert_eq!(plan.rules[4].pattern, "Sent");
    assert!(plan.rules[4].inherit);
}

#[test]
fn custom_tags_are_checked() {
    assert_eq!(custom_tags("  work  urgent "), strings(&["work", "urgent"]));
    let (tags, s) = with_custom_tags(strings(&["inbox"]), &strings(&["work"]));
    assert_eq!(tags, strings(&["inbox", "work"]));
    assert_eq!(said(&s).0, 's');
    let (tags, s) = with_custom_tags(strings(&["inbox"]), &strings(&["a.b"]));
    assert_eq!(tags, strings(&["inbox"]));
    assert_eq!(
        said(&s),
        ('w', "⚠️  Invalid tag(s): Tag can only contain alphanumeric characters, hyphens, and underscores. Skipping custom tags.".to_string())
    );
    assert_eq!(said(&check_folder_tags(&vec![]).unwrap()), ('o', "  (no tags – skipping this folder)".to_string()));
    assert!(check_folder_tags(&strings(&["ok"])).is_none());
    assert_eq!(said(&check_folder_tags(&strings(&["-"])).unwrap()).0, 'w');
}

#[test]
fn final_outcome_messages() {
    assert!(matches!(outcome(true, false), Outcome::Save(t) if t == "\n✅ Config updated. Run `hamster folder sync` to apply the new rules. The hamster is ready."));
    assert!(matches!(outcome(true, true), Outcome::Report(t) if t == "\n[dry-run] Config would be updated."));
    assert!(matches!(outcome(false, false), Outcome::Report(t) if t == "\n✅ Folder structure already in sync. The hamster is satisfied."));
}

#[test]
fn sync_report_lines() {
    let rules = compile_rules(&vec![rule("INBOX", &["inbox", "-spam"])]).unwrap();
    let mut managed = TagSet::new();
    managed.insert("inbox");
    let mut current = TagSet::new();
    current.insert("spam");
    current.insert("mine");
    let u = plan_tag_update("/m/INBOX/cur/1", "/m", &rules, false, &managed, &current).unwrap();
    assert_eq!(dry_run_line("/m/INBOX/cur/1", &u), "/m/INBOX/cur/1: +[inbox] -[spam] → [inbox, mine]");
    assert_eq!(dry_run_summary(4), "Dry-run: 4 message(s) would be updated. (No seeds harmed.)");
    assert!(commit_due(500));
    assert!(commit_due(1000));
    assert!(!commit_due(501));
    assert_eq!(committed_line(500, 1234), "  🐹 Committed 500/1234 updates...");
    assert_eq!(
        synced_message(7),
        "✅ Folder tags & flags synchronised: 7 message(s) updated. The hamster deserves a sunflower seed."
    );
}

#[test]
fn deleting_one_orphan_keeps_the_other_rules() {
    let saved = vec![rule("inbox", &["inbox"]), rule("gone", &["old"])];
    let folders = strings(&["inbox"]);
    let orphans = hamster::folder_tags::orphaned_rules(&saved, &folders);
    assert_eq!(orphans, vec![1]);
    let mut plan = RulePlan::start(&saved, &orphans, false);
    plan.delete_orphan(&saved[1], false);
    assert!(plan.changed);
    assert_eq!(plan.rules.len(), 1);
    assert_eq!(plan.rules[0].pattern, "inbox");
    assert_eq!(plan.rules[0].tags, strings(&["inbox"]));
    assert!(matches!(outcome(plan.changed, false), Outcome::Save(_)));
}
