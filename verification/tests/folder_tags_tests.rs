use hamster::folder_tags::{
    apply_tag_diff, compile_rules, determine_managed_tags, explain_report, find_similar_folders,
    folder_from_path, folder_tags_for_path, merge_flag_tags, orphaned_rules, plan_tag_update,
    suggest_tags_for_folder, untagged_folders,
};
use hamster::setup::{FolderRule, FolderTagsConfig};
use hamster::tag_set::TagSet;

fn strings(v: &[&str]) -> Vec<String> {
    v.iter().map(|s| s.to_string()).collect()
}

fn rule(pattern: &str, tags: &[&str], inherit: bool) -> FolderRule {
    FolderRule { pattern: pattern.to_string(), tags: strings(tags), inherit }
}

fn set(tags: &[&str]) -> TagSet {
    let mut s = TagSet::new();
    for t in tags {
        s.insert(t);
    }
    s
}

#[test]
fn patterns_are_lowercased_and_bad_ones_refused() {
    let compiled = compile_rules(&vec![rule("INBOX", &["inbox"], false)]).unwrap();
    assert_eq!(compiled[0].pattern, "inbox");
    assert_eq!(compiled[0].tags, strings(&["inbox"]));

    let err = compile_rules(&vec![rule("ok", &["a"], false), rule("[Broken", &["b"], false)])
        .err()
        .unwrap();
    assert!(err.starts_with("Invalid glob pattern '[Broken': "));
    assert!(err.ends_with(". Even a hamster needs proper glob syntax."));
}

#[test]
fn rules_match_case_insensitively_and_inherit_to_subfolders() {
    let rules = compile_rules(&vec![
        rule("Archive", &["archive", "-inbox"], true),
        rule("lists/*", &["list"], false),
    ])
    .unwrap();
    let (add, remove) = folder_tags_for_path("archive/2024", &rules);
    assert_eq!(add.as_vec(), &strings(&["archive"]));
    assert_eq!(remove.as_vec(), &strings(&["inbox"]));

    let (add, remove) = folder_tags_for_path("Lists/Rust", &rules);
    assert_eq!(add.as_vec(), &strings(&["list"]));
    assert!(remove.is_empty());

    let (add, _) = folder_tags_for_path("Archived", &rules);
    assert!(add.is_empty());
}

#[test]
fn folder_is_two_levels_above_the_file() {
    assert_eq!(folder_from_path("/home/you/mail/INBOX/cur/1234.eml", "/home/you/mail"), Some("INBOX".to_string()));
    assert_eq!(folder_from_path("/m/Lists/Rust/new/1", "/m"), Some("Lists/Rust".to_string()));
    assert_eq!(folder_from_path("/m/cur/1", "/m"), None);
    assert_eq!(folder_from_path("/home/you/mail/cur/1234.eml", "/home/you/mail"), None);
    assert_eq!(folder_from_path("/other/INBOX/cur/1", "/m"), None);
    assert_eq!(folder_from_path("/m/1", "/m"), None);
}

#[test]
fn flags_decide_only_what_rules_left_open() {
    let mut add = set(&["flagged"]);
    let mut remove = TagSet::new();
    merge_flag_tags("/m/INBOX/cur/1:2,RS", &mut add, &mut remove);
    assert_eq!(add.as_vec(), &strings(&["flagged", "replied"]));
    assert_eq!(remove.as_vec(), &strings(&["draft", "passed", "trashed", "unread"]));

    let mut add = TagSet::new();
    let mut remove = TagSet::new();
    merge_flag_tags("/m/INBOX/new/1", &mut add, &mut remove);
    assert_eq!(add.as_vec(), &strings(&["unread"]));
}

#[test]
fn managed_tags_come_from_config_or_rules() {
    let explicit = FolderTagsConfig {
        enabled: true,
        managed_tags: strings(&["x"]),
        sync_flags: true,
        rules: vec![rule("a", &["y"], false)],
    };
    assert_eq!(determine_managed_tags(&explicit).as_vec(), &strings(&["x"]));

    let inferred = FolderTagsConfig {
        enabled: true,
        managed_tags: vec![],
        sync_flags: false,
        rules: vec![rule("a", &["y", "-z"], false)],
    };
    assert_eq!(determine_managed_tags(&inferred).as_vec(), &strings(&["y", "z"]));

    let with_flags = FolderTagsConfig { sync_flags: true, ..inferred };
    assert_eq!(
        determine_managed_tags(&with_flags).as_vec(),
        &strings(&["draft", "flagged", "passed", "replied", "trashed", "unread", "y", "z"])
    );
}

#[test]
fn sync_plan_adds_rule_tags_and_then_settles() {
    let rules = compile_rules(&vec![rule("INBOX", &["inbox"], false)]).unwrap();
    let managed = set(&["inbox"]);
    let current = set(&["personal"]);
    let path = "/m/INBOX/cur/1:2,S";
    let update = plan_tag_update(path, "/m", &rules, false, &managed, &current).unwrap();
    assert_eq!(update.to_add, strings(&["inbox"]));
    assert!(update.to_remove.is_empty());
    assert_eq!(update.new_tags.as_vec(), &strings(&["inbox", "personal"]));

    // Applying the plan and planning again finds nothing to do.
    assert!(plan_tag_update(path, "/m", &rules, false, &managed, &update.new_tags).is_none());
    // A file outside the mail root is left alone.
    assert!(plan_tag_update("/x/INBOX/cur/1", "/m", &rules, false, &managed, &current).is_none());
}

#[test]
fn diff_application_adds_then_removes() {
    let r = apply_tag_diff(&set(&["a", "b"]), &strings(&["c"]), &strings(&["a", "zz"]));
    assert_eq!(r.as_vec(), &strings(&["b", "c"]));
}

#[test]
fn explain_report_lists_matches_and_changes() {
    let rules = compile_rules(&vec![rule("INBOX", &["inbox"], false), rule("Work*", &["work"], true)])
        .unwrap();
    let managed = set(&["inbox", "work"]);
    let current = set(&["work"]);
    let r = explain_report("/m/INBOX/cur/1:2,S", "/m", &rules, false, &managed, &current);
    assert_eq!(r.folder, "INBOX");
    assert_eq!(r.matched.len(), 1);
    assert_eq!(r.matched[0].pattern, "inbox");
    assert!(r.matched[0].exact);
    assert!(r.flags.is_none());
    assert_eq!(r.to_add, strings(&["inbox"]));
    assert_eq!(r.to_remove, strings(&["work"]));
    assert_eq!(r.managed, strings(&["inbox", "work"]));

    let r = explain_report("/elsewhere/x/cur/1", "/m", &rules, true, &managed, &current);
    assert_eq!(r.folder, "(unknown folder)");
    assert!(r.flags.is_some());
}

#[test]
fn orphans_and_untagged_folders() {
    let rules = vec![rule("inbox", &["inbox"], false), rule("Old*", &["old"], false), rule("[", &[], false)];
    let folders = strings(&["INBOX", "Sent", "Projects/X"]);
    assert_eq!(orphaned_rules(&rules, &folders), vec![1, 2]);
    assert_eq!(untagged_folders(&rules, &folders), strings(&["Sent", "Projects/X"]));
    // Patterns and folder names are both lowercased before matching.
    let upper = vec![rule("INBOX", &["inbox"], false)];
    assert!(orphaned_rules(&upper, &folders).is_empty());
    assert_eq!(untagged_folders(&upper, &folders), strings(&["Sent", "Projects/X"]));
}

#[test]
fn similar_folders_are_ranked_by_edit_distance() {
    let folders = strings(&["Archive", "Arcive2", "Sent", "Inbox"]);
    assert_eq!(find_similar_folders("Archiv", &folders, 2), strings(&["Archive", "Arcive2"]));
    assert_eq!(find_similar_folders("x", &folders, 10).len(), 4);
}

#[test]
fn keyword_tag_suggestions_are_sorted() {
    assert_eq!(suggest_tags_for_folder("Sent-Archive"), strings(&["archive", "sent"]));
    assert_eq!(suggest_tags_for_folder("Junk/Trash"), strings(&["deleted", "spam"]));
    assert!(suggest_tags_for_folder("Projects").is_empty());
}

#[test]
fn explain_shows_what_sync_would_do() {
    let rules = compile_rules(&vec![rule("INBOX", &["inbox", "-spam"], false)]).unwrap();
    let managed = set(&["inbox", "old"]);
    let current = set(&["spam", "old", "mine"]);
    let path = "/m/INBOX/cur/1:2,S";
    let plan = plan_tag_update(path, "/m", &rules, false, &managed, &current).unwrap();
    let report = explain_report(path, "/m", &rules, false, &managed, &current);
    assert_eq!(report.to_add, plan.to_add);
    assert_eq!(report.to_remove, plan.to_remove);
    assert_eq!(plan.to_remove, strings(&["old", "spam"]));
}
