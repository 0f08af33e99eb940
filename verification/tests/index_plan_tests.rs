use hamster::index_metadata::{FileMeta, IndexMeta};
use hamster::index_plan::{
    apply_index_results, files_to_reindex, index_is_current, message_id_or_path, IndexUpdate,
};

fn state(mtime: u64, flags: &str, id: &str) -> FileMeta {
    FileMeta { mtime, flags: flags.to_string(), message_id: id.to_string() }
}

fn walked(path: &str, mtime: u64, suffix: &str) -> (String, u64, String) {
    (path.to_string(), mtime, suffix.to_string())
}

#[test]
fn reindex_picks_new_changed_and_reflagged_files() {
    let mut meta = IndexMeta::new();
    meta.file_states.insert("/m/a".to_string(), state(10, "S", "a@x"));
    meta.file_states.insert("/m/b".to_string(), state(10, "S", "b@x"));
    meta.file_states.insert("/m/c".to_string(), state(10, "", "c@x"));
    let files = vec![
        walked("/m/a", 10, "S"),  // unchanged
        walked("/m/b", 11, "S"),  // touched
        walked("/m/c", 10, "RS"), // flags changed
        walked("/m/d", 1, ""),    // new
    ];
    assert_eq!(files_to_reindex(&meta, &files), vec![1, 2, 3]);
}

#[test]
fn reindex_nothing_when_all_known() {
    let mut meta = IndexMeta::new();
    meta.file_states.insert("/m/a".to_string(), state(10, "S", "a@x"));
    assert!(files_to_reindex(&meta, &vec![walked("/m/a", 10, "S")]).is_empty());
    assert!(index_is_current(0, &meta, 1));
    assert!(!index_is_current(0, &meta, 2));
    assert!(!index_is_current(1, &meta, 1));
}

#[test]
fn storage_id_falls_back_to_path() {
    assert_eq!(message_id_or_path(String::new(), "/m/cur/1"), "/m/cur/1");
    assert_eq!(message_id_or_path("id@host".to_string(), "/m/cur/1"), "id@host");
}

#[test]
fn results_update_states_and_report_deletions() {
    let mut meta = IndexMeta::new();
    meta.file_states.insert("/m/keep".to_string(), state(1, "S", "keep@x"));
    meta.file_states.insert("/m/gone".to_string(), state(1, "", "gone@x"));
    meta.file_states.insert("/m/old-place".to_string(), state(1, "", "moved@x"));
    meta.file_states.insert("/m/failed".to_string(), state(1, "", "failed@x"));
    meta.file_states.insert("/m/noid".to_string(), state(1, "", ""));

    let on_disk = vec![
        "/m/keep".to_string(),
        "/m/new-place".to_string(),
        "/m/failed".to_string(),
        "/m/fresh".to_string(),
    ];
    let updates = vec![
        IndexUpdate {
            path: "/m/new-place".to_string(),
            mtime: 5,
            suffix: "S".to_string(),
            message_id: "moved@x".to_string(),
        },
        IndexUpdate {
            path: "/m/failed".to_string(),
            mtime: 6,
            suffix: "F".to_string(),
            message_id: "failed@x".to_string(),
        },
        IndexUpdate {
            path: "/m/fresh".to_string(),
            mtime: 7,
            suffix: "".to_string(),
            message_id: "fresh@x".to_string(),
        },
    ];
    let succeeded = vec!["moved@x".to_string(), "fresh@x".to_string()];

    let deleted = apply_index_results(&mut meta, &on_disk, &updates, &succeeded, 99);

    assert_eq!(deleted, vec!["gone@x".to_string()]);
    assert_eq!(meta.last_indexed, 99);
    assert_eq!(meta.file_states.len(), 4);
    let keep = meta.file_states.get("/m/keep").unwrap();
    assert_eq!((keep.mtime, keep.flags.as_str(), keep.message_id.as_str()), (1, "S", "keep@x"));
    let moved = meta.file_states.get("/m/new-place").unwrap();
    assert_eq!((moved.mtime, moved.flags.as_str(), moved.message_id.as_str()), (5, "S", "moved@x"));
    // A failed file keeps its old state, so it is tried again next run.
    let failed = meta.file_states.get("/m/failed").unwrap();
    assert_eq!((failed.mtime, failed.flags.as_str()), (1, ""));
    let fresh = meta.file_states.get("/m/fresh").unwrap();
    assert_eq!(fresh.mtime, 7);
    assert!(meta.file_states.get("/m/gone").is_none());
    assert!(meta.file_states.get("/m/noid").is_none());
}

#[test]
fn failed_new_file_is_not_remembered() {
    let mut meta = IndexMeta::new();
    let on_disk = vec!["/m/x".to_string()];
    let updates = vec![IndexUpdate {
        path: "/m/x".to_string(),
        mtime: 3,
        suffix: "".to_string(),
        message_id: "x@y".to_string(),
    }];
    let deleted = apply_index_results(&mut meta, &on_disk, &updates, &vec![], 4);
    assert!(deleted.is_empty());
    assert!(meta.file_states.is_empty());
}

#[test]
fn second_run_finds_nothing_to_read() {
    let mut meta = IndexMeta::new();
    meta.file_states.insert("/m/a".to_string(), state(1, "", "a@x"));
    let files = vec![walked("/m/a", 2, "S"), walked("/m/b", 5, "")];
    let picked = files_to_reindex(&meta, &files);
    assert_eq!(picked, vec![0, 1]);
    let updates: Vec<IndexUpdate> = picked
        .iter()
        .map(|&i| IndexUpdate {
            path: files[i].0.clone(),
            mtime: files[i].1,
            suffix: files[i].2.clone(),
            message_id: format!("id{}", i),
        })
        .collect();
    let stored: Vec<String> = updates.iter().map(|u| u.message_id.clone()).collect();
    let on_disk: Vec<String> = files.iter().map(|f| f.0.clone()).collect();
    apply_index_results(&mut meta, &on_disk, &updates, &stored, 10);
    assert!(files_to_reindex(&meta, &files).is_empty());
    assert!(index_is_current(0, &meta, files.len()));
}

#[test]
fn unchanged_run_deletes_nothing() {
    let mut meta = IndexMeta::new();
    meta.file_states.insert("/m/new/msg1".to_string(), state(3, "", "msg1"));
    let files = vec![walked("/m/new/msg1", 3, "")];
    assert!(files_to_reindex(&meta, &files).is_empty());
    let on_disk = vec!["/m/new/msg1".to_string()];
    let deleted = apply_index_results(&mut meta, &on_disk, &vec![], &vec![], 8);
    assert!(deleted.is_empty());
    assert_eq!(meta.file_states.len(), 1);
    let kept = meta.file_states.get("/m/new/msg1").unwrap();
    assert_eq!((kept.mtime, kept.message_id.as_str()), (3, "msg1"));
}

#[test]
fn removed_file_is_deleted_unless_stored_again() {
    // The file is gone: its id goes.
    let mut meta = IndexMeta::new();
    meta.file_states.insert("/m/new/msg1".to_string(), state(3, "", "msg1"));
    let deleted = apply_index_results(&mut meta, &vec![], &vec![], &vec![], 9);
    assert_eq!(deleted, vec!["msg1".to_string()]);
    assert!(meta.file_states.is_empty());

    // The file came back under cur/ with the seen flag and was stored again.
    let mut meta = IndexMeta::new();
    meta.file_states.insert("/m/new/msg1".to_string(), state(3, "", "msg1"));
    let files = vec![walked("/m/cur/msg1:2,S", 4, "S")];
    assert_eq!(files_to_reindex(&meta, &files), vec![0]);
    let updates = vec![IndexUpdate {
        path: "/m/cur/msg1:2,S".to_string(),
        mtime: 4,
        suffix: "S".to_string(),
        message_id: "msg1".to_string(),
    }];
    let on_disk = vec!["/m/cur/msg1:2,S".to_string()];
    let deleted = apply_index_results(&mut meta, &on_disk, &updates, &vec!["msg1".to_string()], 10);
    assert!(deleted.is_empty());
    assert_eq!(meta.file_states.len(), 1);
    assert_eq!(meta.file_states.get("/m/cur/msg1:2,S").unwrap().flags, "S");
}
