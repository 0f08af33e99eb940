use hamster::index_metadata::{FileMeta, IndexMeta};

#[test]
fn test_needs_reindex_new_file() {
    let meta = IndexMeta::default();
    assert!(meta.needs_reindex("/some/path", 100, "S"));
}

#[test]
fn test_needs_reindex_unchanged() {
    let mut meta = IndexMeta::default();
    meta.file_states.insert(
        "/some/path".to_string(),
        FileMeta { mtime: 100, flags: "S".to_string(), message_id: "abc123".to_string() },
    );
    assert!(!meta.needs_reindex("/some/path", 100, "S"));
}

#[test]
fn test_needs_reindex_mtime_changed() {
    let mut meta = IndexMeta::default();
    meta.file_states.insert(
        "/some/path".to_string(),
        FileMeta { mtime: 100, flags: "S".to_string(), message_id: String::new() },
    );
    assert!(meta.needs_reindex("/some/path", 101, "S"));
}

#[test]
fn test_needs_reindex_flags_changed_same_mtime() {
    let mut meta = IndexMeta::default();
    meta.file_states.insert(
        "/maildir/cur/msg:2,".to_string(),
        FileMeta { mtime: 100, flags: String::new(), message_id: String::new() },
    );
    assert!(meta.needs_reindex("/maildir/cur/msg:2,S", 100, "S"));
}

#[test]
fn meta_path_is_inside_the_index() {
    assert_eq!(IndexMeta::meta_path("/idx"), "/idx/hamster_meta.json");
    assert_eq!(IndexMeta::meta_path("/idx/"), "/idx/hamster_meta.json");
}

#[test]
fn needs_reindex_flags_changed() {
    let mut meta = IndexMeta::new();
    meta.file_states.insert(
        "/p".to_string(),
        FileMeta { mtime: 5, flags: "S".to_string(), message_id: "m".to_string() },
    );
    assert!(meta.needs_reindex("/p", 5, "FS"));
    assert!(!meta.needs_reindex("/p", 5, "S"));
}
