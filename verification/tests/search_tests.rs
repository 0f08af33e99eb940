use hamster::search::{
    format_result_line, invalid_query_message, matches_everything, newest_first, result_lines,
    SearchResult,
};

fn result(date_ts: i64, tags: &[&str]) -> SearchResult {
    SearchResult {
        from: "hamster@example.com".to_string(),
        subject: "Wheels".to_string(),
        date_ts,
        message_id: "abc123".to_string(),
        path: "/tmp/mail".to_string(),
        tags: tags.iter().map(|t| t.to_string()).collect(),
    }
}

#[test]
fn blank_query_matches_everything() {
    assert!(matches_everything(""));
    assert!(matches_everything("  \t "));
    assert!(!matches_everything(" from:x "));
}

#[test]
fn newest_results_come_first_and_ties_keep_order() {
    assert_eq!(newest_first(&vec![10, 30, 20, 30, -5]), vec![1, 3, 2, 0, 4]);
    assert!(newest_first(&vec![]).is_empty());
}

#[test]
fn plain_line_has_date_sender_subject_and_tags() {
    assert_eq!(
        format_result_line(&result(0, &["inbox"]), "plain"),
        "0\thamster@example.com\tWheels [inbox]"
    );
    assert_eq!(
        format_result_line(&result(-42, &["a", "b"]), "anything"),
        "-42\thamster@example.com\tWheels [a, b]"
    );
    assert_eq!(
        format_result_line(&result(1700000000, &[]), "plain"),
        "1700000000\thamster@example.com\tWheels"
    );
}

#[test]
fn ids_and_paths_formats() {
    assert_eq!(format_result_line(&result(1, &["x"]), "ids"), "abc123");
    assert_eq!(format_result_line(&result(1, &["x"]), "paths"), "/tmp/mail");
    let lines = result_lines(&vec![result(1, &[]), result(2, &[])], "ids");
    assert_eq!(lines, vec!["abc123".to_string(), "abc123".to_string()]);
}

#[test]
fn invalid_query_text_carries_hints() {
    let m = invalid_query_message("from:", "Syntax Error");
    assert!(m.starts_with("Invalid query: 'from:'\n\nHints:\n- Try simple terms: hamster\n"));
    assert!(m.ends_with("\n\nError: Syntax Error"));
}
