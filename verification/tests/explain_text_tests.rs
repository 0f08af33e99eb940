use hamster::explain_text::{explain_lines, explain_panel, flags_debug};
use hamster::folder_tags::{compile_rules, explain_report};
use hamster::index_maildir::parse_maildir_flags;
use hamster::setup::FolderRule;
use hamster::tag_set::TagSet;

fn set(tags: &[&str]) -> TagSet {
    let mut s = TagSet::new();
    for t in tags {
        s.insert(t);
    }
    s
}

fn report(path: &str, sync_flags: bool) -> hamster::folder_tags::ExplainReport {
    let rules = compile_rules(&vec![
        FolderRule { pattern: "INBOX".to_string(), tags: vec!["inbox".to_string()], inherit: false },
        FolderRule { pattern: "Lists".to_string(), tags: vec!["list".to_string(), "-inbox".to_string()], inherit: true },
    ])
    .unwrap();
    explain_report(path, "/m", &rules, sync_flags, &set(&["inbox", "list"]), &set(&["old", "list"]))
}

#[test]
fn flags_are_written_like_a_debug_set() {
    assert_eq!(flags_debug(&parse_maildir_flags("/m/x/cur/1:2,FS")), "{'F', 'S'}");
    assert_eq!(flags_debug(&parse_maildir_flags("/m/x/new/1")), "{}");
}

#[test]
fn panel_text_of_a_message_with_changes() {
    let r = report("/m/INBOX/cur/1:2,S", false);
    assert_eq!(
        explain_panel("/m/INBOX/cur/1:2,S", &r),
        "📄 Path: /m/INBOX/cur/1:2,S\n📁 Folder: INBOX\n\n🏷️ Current tags: [list, old]\n\n📋 Matched rules:\n • pattern: 'inbox' (exact) → tags: [inbox]\n\n🎯 Desired add: [inbox]\n🎯 Desired remove: []\n🧰 Managed tags: [inbox, list]\n\n➕ Would add: inbox\n➖ Would remove: list\n"
    );
}

#[test]
fn panel_shows_inherited_rules_and_flags() {
    let r = report("/m/Lists/rust/cur/1:2,S", true);
    let t = explain_panel("/m/Lists/rust/cur/1:2,S", &r);
    assert!(t.contains(" • pattern: 'lists' (inheritance) → tags: [list, -inbox]\n"));
    assert!(t.contains("\n🚩 Maildir flags: {'S'}\n"));
}

#[test]
fn command_lines_of_a_message_in_sync() {
    let rules = compile_rules(&vec![FolderRule {
        pattern: "INBOX".to_string(),
        tags: vec!["inbox".to_string()],
        inherit: false,
    }])
    .unwrap();
    let r = explain_report("/m/INBOX/new/1", "/m", &rules, false, &set(&["inbox"]), &set(&["inbox"]));
    assert_eq!(
        explain_lines("/m/INBOX/new/1", &r),
        vec![
            "📁 Folder: INBOX".to_string(),
            "📄 Path:   /m/INBOX/new/1".to_string(),
            "\n🏷️  Current tags: [inbox]".to_string(),
            "\n📋 Matched rules:".to_string(),
            "  • 'inbox' (exact) → [inbox]".to_string(),
            "\n🎯 Desired add:    [inbox]".to_string(),
            "🎯 Desired remove: []".to_string(),
            "🧰 Managed tags:   [inbox]".to_string(),
            "\n✅ Already in sync – no changes needed.".to_string(),
        ]
    );
}
