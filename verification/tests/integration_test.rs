use std::path::PathBuf;

use hamster::validation::{validate_tag, validate_tags};

#[test]
fn test_config_path_validation_nonexistent() {
    // Config validation should reject nonexistent paths
    let nonexistent = PathBuf::from("/nonexistent/path/that/surely/does/not/exist/anywhere");
    assert!(!nonexistent.exists(), "Path should not exist");
}

#[test]
fn test_tag_validation_spaces_rejected() {
    let invalid_tag = "my tag";
    assert!(invalid_tag.contains(' '), "Tag contains space");
    let is_valid = invalid_tag.chars().all(|c| c.is_alphanumeric() || c == '-' || c == '_');
    assert!(!is_valid, "Tag with space should be invalid");
    assert_eq!(validate_tag(invalid_tag), Err("Tag cannot contain spaces".to_string()));
}

#[test]
fn test_tag_validation_empty_rejected() {
    let empty_tag = "";
    assert!(empty_tag.is_empty(), "Tag is empty");
    assert_eq!(validate_tag(empty_tag), Err("Tag cannot be empty".to_string()));
}

#[test]
fn test_tag_validation_valid_patterns() {
    let valid_tags = vec!["inbox", "my-tag", "tag_123", "important"];
    for tag in valid_tags {
        let is_valid = tag.chars().all(|c| c.is_alphanumeric() || c == '-' || c == '_');
        assert!(is_valid, "Tag '{}' should match valid pattern", tag);
        assert_eq!(validate_tag(tag), Ok(()));
    }
}

#[test]
fn validation_messages() {
    assert_eq!(validate_tag("-"), Err("Tag cannot be empty".to_string()));
    assert_eq!(
        validate_tag("--x"),
        Err("Tag cannot start with a hyphen after optional removal prefix".to_string())
    );
    assert_eq!(
        validate_tag("a.b"),
        Err("Tag can only contain alphanumeric characters, hyphens, and underscores".to_string())
    );
    assert_eq!(validate_tag("-ok"), Ok(()));
    assert_eq!(
        validate_tags(&vec!["ok".to_string(), "bad tag".to_string(), "".to_string()]),
        Err("Tag cannot contain spaces".to_string())
    );
}
