use hamster::tag_edit::{add_tag, apply_tag_changes, remove_tag, tag_summary, validate_tag_changes};

fn strings(v: &[&str]) -> Vec<String> {
    v.iter().map(|s| s.to_string()).collect()
}

#[test]
fn changes_add_and_remove_in_order() {
    let tags = strings(&["inbox", "unread"]);
    let changes = strings(&["+work", "-unread", "+inbox", "plain"]);
    assert_eq!(apply_tag_changes(&tags, &changes), strings(&["inbox", "work"]));
}

#[test]
fn removing_then_adding_moves_tag_to_end() {
    let tags = strings(&["a", "b"]);
    assert_eq!(apply_tag_changes(&tags, &strings(&["-a", "+a"])), strings(&["b", "a"]));
}

#[test]
fn add_is_idempotent() {
    let mut tags = strings(&["x"]);
    add_tag(&mut tags, "y");
    add_tag(&mut tags, "y");
    assert_eq!(tags, strings(&["x", "y"]));
}

#[test]
fn remove_clears_every_copy() {
    let mut tags = strings(&["x", "y", "x"]);
    remove_tag(&mut tags, "x");
    assert_eq!(tags, strings(&["y"]));
    remove_tag(&mut tags, "absent");
    assert_eq!(tags, strings(&["y"]));
}

#[test]
fn invalid_change_is_reported_with_its_tag() {
    assert_eq!(validate_tag_changes(&strings(&["+ok", "-fine_1"])), Ok(()));
    assert_eq!(
        validate_tag_changes(&strings(&["+ok", "+bad tag", "+a.b"])),
        Err("Invalid tag 'bad tag': Tag cannot contain spaces. The hamster refuses to apply any tags until all of them are valid."
            .to_string())
    );
    assert_eq!(
        validate_tag_changes(&strings(&["+"])),
        Err("Invalid tag '': Tag cannot be empty. The hamster refuses to apply any tags until all of them are valid."
            .to_string())
    );
}

#[test]
fn summary_mentions_errors_only_when_there_are_some() {
    assert_eq!(tag_summary(3, 0), "Tags updated for 3 message(s).");
    assert_eq!(
        tag_summary(12, 2),
        "Tags updated for 12 message(s). (2 error(s) – check logs for details.)"
    );
}
