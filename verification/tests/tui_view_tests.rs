use hamster::setup::{FolderRule, FolderTagsConfig, HamsterConfig};
use hamster::tui_filters::build_filter_items;
use hamster::tui_view::{
    filter_line, highlight_query, list_title, preview_title, tags_status, truncate, SpanKind,
};

fn config(enabled: bool, rules: Vec<FolderRule>) -> HamsterConfig {
    HamsterConfig {
        name: "n".to_string(),
        primary_email: "e".to_string(),
        maildir: "/m".to_string(),
        folder_tags: FolderTagsConfig { enabled, managed_tags: vec![], sync_flags: false, rules },
        config_file: "/c".to_string(),
        index_dir: "/i".to_string(),
    }
}

fn rule(pattern: &str, tags: &[&str]) -> FolderRule {
    FolderRule { pattern: pattern.to_string(), tags: tags.iter().map(|t| t.to_string()).collect(), inherit: false }
}

#[test]
fn truncate_counts_characters() {
    assert_eq!(truncate("hamster", 10), "hamster");
    assert_eq!(truncate("hamster", 7), "hamster");
    assert_eq!(truncate("hamster", 4), "ham…");
    assert_eq!(truncate("äöüßé", 3), "äö…");
    assert_eq!(truncate("abc", 0), "");
    assert_eq!(truncate("abc", 1), "…");
    assert_eq!(truncate("", 0), "");
}

#[test]
fn query_words_are_classified() {
    let spans = highlight_query("from:boss and  wheels tags:");
    let got: Vec<(&str, SpanKind)> = spans.iter().map(|(s, k)| (s.as_str(), *k)).collect();
    assert_eq!(
        got,
        vec![
            ("from:", SpanKind::Keyword),
            ("boss", SpanKind::Base),
            (" ", SpanKind::Base),
            ("and ", SpanKind::Operator),
            ("wheels ", SpanKind::Base),
            ("tags:", SpanKind::Keyword),
            (" ", SpanKind::Base),
        ]
    );
    let blank = highlight_query("");
    assert_eq!(blank.len(), 1);
    assert_eq!(blank[0].0, " ");
}

#[test]
fn pane_titles_and_status() {
    assert_eq!(list_title(0, 3, 200), " Messages 1/3 3 total ");
    assert_eq!(list_title(4, 200, 200), " Messages 5/200 (showing top 200) ");
    assert_eq!(tags_status(&vec![]), " (no tags)");
    assert_eq!(tags_status(&vec!["a".to_string(), "b".to_string()]), " tags: a  b");
    assert_eq!(preview_title("Hi", &vec![]), " Hi ");
    assert_eq!(preview_title("Hi", &vec!["a".to_string(), "b".to_string()]), " Hi   [a b]");
}

#[test]
fn filter_lines_show_radio_marks() {
    assert_eq!(filter_line("All messages", false, false, 0), " All messages");
    assert_eq!(filter_line("inbox", true, false, 1), "  ○ inbox");
    assert_eq!(filter_line("inbox", true, true, 1), "  ◉ inbox");
}

#[test]
fn filter_tree_without_rules() {
    let items = build_filter_items(&config(false, vec![rule("INBOX", &["inbox"])]));
    assert_eq!(items.len(), 2);
    assert_eq!(items[0].label, "All messages");
    assert_eq!(items[0].tag_value, None);
    assert_eq!(items[1].label, "Untagged");
    assert_eq!(items[1].tag_value, Some("__untagged__".to_string()));
}

#[test]
fn filter_tree_groups_tags_by_top_folder() {
    let rules = vec![
        rule("Work/Projects", &["work", "-inbox"]),
        rule("INBOX", &["inbox"]),
        rule("Work/*", &["work", "team"]),
        rule("/abs", &["skipped"]),
    ];
    let items = build_filter_items(&config(true, rules));
    let got: Vec<(String, Option<String>, usize)> =
        items.iter().map(|i| (i.label.clone(), i.tag_value.clone(), i.depth)).collect();
    let s = |x: &str| x.to_string();
    assert_eq!(
        got,
        vec![
            (s("All messages"), None, 0),
            (s("📁 INBOX"), None, 0),
            (s("inbox"), Some(s("inbox")), 1),
            (s("📁 Work"), None, 0),
            (s("inbox"), Some(s("inbox")), 1),
            (s("team"), Some(s("team")), 1),
            (s("work"), Some(s("work")), 1),
            (s("Untagged"), Some(s("__untagged__")), 0),
        ]
    );
}
