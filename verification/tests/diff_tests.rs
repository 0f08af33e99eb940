use hamster::diff::compute_tag_diff;
use hamster::tag_set::TagSet;

fn set(items: &[&str]) -> TagSet {
    let mut s = TagSet::new();
    for i in items {
        s.insert(i);
    }
    s
}

#[test]
fn test_basic_add() {
    let desired = set(&["inbox", "unread"]);
    let forced = set(&[]);
    let actual = set(&["inbox"]);
    let managed = set(&["inbox", "unread", "archive"]);

    let (add, remove) = compute_tag_diff(&desired, &forced, &actual, &managed);
    assert_eq!(add, vec!["unread"]);
    assert!(remove.is_empty());
}

#[test]
fn test_basic_remove() {
    let desired = set(&["inbox"]);
    let forced = set(&[]);
    let actual = set(&["inbox", "spam"]);
    let managed = set(&["inbox", "spam"]);

    let (add, remove) = compute_tag_diff(&desired, &forced, &actual, &managed);
    assert!(add.is_empty());
    assert_eq!(remove, vec!["spam"]);
}

#[test]
fn test_forced_remove_wins() {
    let desired = set(&["inbox"]);
    let forced = set(&["inbox"]);
    let actual = set(&[]);
    let managed = set(&["inbox"]);

    let (add, remove) = compute_tag_diff(&desired, &forced, &actual, &managed);
    assert!(add.is_empty(), "inbox should NOT be added when forced-removed");
    assert!(remove.is_empty(), "inbox is not present, so nothing to remove");
}

#[test]
fn test_forced_remove_present() {
    let desired = set(&["inbox"]);
    let forced = set(&["inbox"]);
    let actual = set(&["inbox"]);
    let managed = set(&["inbox"]);

    let (add, remove) = compute_tag_diff(&desired, &forced, &actual, &managed);
    assert!(add.is_empty());
    assert_eq!(remove, vec!["inbox"]);
}

#[test]
fn test_unmanaged_tag_preserved() {
    let desired = set(&["inbox"]);
    let forced = set(&[]);
    let actual = set(&["inbox", "user-custom"]);
    let managed = set(&["inbox"]);

    let (add, remove) = compute_tag_diff(&desired, &forced, &actual, &managed);
    assert!(add.is_empty());
    assert!(remove.is_empty(), "user-custom is unmanaged and should stay");
}

#[test]
fn test_no_overlap_between_add_and_remove() {
    let desired = set(&["inbox", "unread"]);
    let forced = set(&["unread"]);
    let actual = set(&["inbox", "unread", "archive"]);
    let managed = set(&["inbox", "unread", "archive"]);

    let (add, remove) = compute_tag_diff(&desired, &forced, &actual, &managed);
    let intersection: Vec<&String> = add.iter().filter(|t| remove.contains(t)).collect();
    assert!(
        intersection.is_empty(),
        "No tag should be in both add and remove: {:?}",
        intersection
    );
}

#[test]
fn test_conflict_with_actual_present() {
    let desired = set(&["inbox"]);
    let forced = set(&["inbox"]);
    let actual = set(&["inbox"]);
    let managed = set(&["inbox"]);

    let (add, remove) = compute_tag_diff(&desired, &forced, &actual, &managed);
    assert!(add.is_empty());
    assert_eq!(remove, vec!["inbox"]);
}

#[test]
fn test_empty_inputs() {
    let desired = set(&[]);
    let forced = set(&[]);
    let actual = set(&["inbox"]);
    let managed = set(&["inbox"]);

    let (add, remove) = compute_tag_diff(&desired, &forced, &actual, &managed);
    assert!(add.is_empty());
    assert_eq!(remove, vec!["inbox"]);
}

#[test]
fn diff_results_come_sorted() {
    let desired = set(&["zeta", "alpha", "mid"]);
    let (add, _) = compute_tag_diff(&desired, &set(&[]), &set(&[]), &set(&[]));
    assert_eq!(add, vec!["alpha", "mid", "zeta"]);
}

#[test]
fn applying_the_diff_leaves_nothing_to_do() {
    let desired = set(&["inbox", "work"]);
    let forced = set(&["spam"]);
    let managed = set(&["inbox", "work", "old"]);
    let actual = set(&["spam", "old", "mine", "work"]);
    let (add, remove) = compute_tag_diff(&desired, &forced, &actual, &managed);
    assert_eq!(add, vec!["inbox"]);
    assert_eq!(remove, vec!["old", "spam"]);
    let after = hamster::folder_tags::apply_tag_diff(&actual, &add, &remove);
    let (add2, remove2) = compute_tag_diff(&desired, &forced, &after, &managed);
    assert!(add2.is_empty());
    assert!(remove2.is_empty());
    assert_eq!(after.as_vec(), &vec!["inbox".to_string(), "mine".to_string(), "work".to_string()]);
}
