use hamster::index_maildir::{flag_suffix, flags_to_tags, parse_maildir_flags, should_skip_entry, FlagSet};

#[test]
fn test_parse_maildir_flags_empty() {
    let flags = parse_maildir_flags("/maildir/new/123456.eml");
    assert!(flags.is_empty());
}

#[test]
fn test_parse_maildir_flags_seen() {
    let flags = parse_maildir_flags("/maildir/cur/123456.eml:2,S");
    assert!(flags.contains(&'S'));
    assert!(!flags.contains(&'F'));
}

#[test]
fn test_parse_maildir_flags_multiple() {
    let flags = parse_maildir_flags("/maildir/cur/123456.eml:2,FS");
    assert!(flags.contains(&'S'));
    assert!(flags.contains(&'F'));
}

#[test]
fn test_flag_suffix_cur() {
    assert_eq!(flag_suffix("/maildir/cur/msg:2,FS"), "FS");
}

#[test]
fn test_flag_suffix_new() {
    assert_eq!(flag_suffix("/maildir/new/msg"), "");
}

#[test]
fn test_flags_to_tags_unread() {
    let flags = FlagSet::new();
    let tags = flags_to_tags(&flags);
    assert!(tags.contains(&"unread".to_string()));
}

#[test]
fn test_flags_to_tags_seen() {
    let mut flags = FlagSet::new();
    flags.insert('S');
    let tags = flags_to_tags(&flags);
    assert!(!tags.contains(&"unread".to_string()));
}

#[test]
fn test_flags_to_tags_flagged() {
    let mut flags = FlagSet::new();
    flags.insert('S');
    flags.insert('F');
    let tags = flags_to_tags(&flags);
    assert!(tags.contains(&"flagged".to_string()));
    assert!(!tags.iter().any(|t| t == "replied"));
}

#[test]
fn flags_to_tags_follow_table_order() {
    let mut flags = FlagSet::new();
    for c in ['T', 'R', 'D'] {
        flags.insert(c);
    }
    assert_eq!(flags_to_tags(&flags), vec!["draft", "replied", "trashed", "unread"]);
}

#[test]
fn flag_suffix_needs_cur_and_comma() {
    assert_eq!(flag_suffix("/maildir/cur/msg:2"), "");
    assert_eq!(flag_suffix("/maildir/cur/a:b:2,RS"), "RS");
}

#[test]
fn skip_entries() {
    assert!(should_skip_entry(Some(".notmuch")));
    assert!(!should_skip_entry(Some("tmp")));
    assert!(should_skip_entry(Some(".hidden")));
    assert!(!should_skip_entry(Some("cur")));
    assert!(!should_skip_entry(None));
}
