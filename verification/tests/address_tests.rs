use hamster::address::{
    extract_contacts, format_contact_line, header_names_parse, normalize_email, normalize_name,
    rank_contacts, rank_scored, score_contact, format_lines, Contact,
};

#[test]
fn test_normalize_email_lowercases() {
    assert_eq!(normalize_email("TEST@EXAMPLE.COM"), "test@example.com");
}

#[test]
fn test_normalize_email_trims() {
    assert_eq!(normalize_email(" a@b.com "), "a@b.com");
}

#[test]
fn test_normalize_name_strips_quotes() {
    assert_eq!(normalize_name("\"John Doe\""), "John Doe");
}

#[test]
fn test_normalize_name_capitalises_all_lower() {
    assert_eq!(normalize_name("john doe"), "John doe");
}

#[test]
fn test_normalize_name_leaves_mixed_case_alone() {
    assert_eq!(normalize_name("John DOE"), "John DOE");
}

#[test]
fn test_normalize_name_strips_trailing_punctuation() {
    assert_eq!(normalize_name("Hamster McWheel,"), "Hamster McWheel");
}

#[test]
fn test_extract_contacts_name_and_angle_brackets() {
    let contacts = extract_contacts("John Doe <john@example.com>");
    assert_eq!(contacts.len(), 1);
    assert_eq!(contacts[0].0, "John Doe");
    assert_eq!(contacts[0].1, "john@example.com");
}

#[test]
fn test_extract_contacts_bare_email() {
    let contacts = extract_contacts("bare@example.com");
    assert_eq!(contacts.len(), 1);
    assert_eq!(contacts[0].0, "");
    assert_eq!(contacts[0].1, "bare@example.com");
}

#[test]
fn test_extract_contacts_multiple() {
    let contacts = extract_contacts("John Doe <john@example.com>, Jane Doe <jane@example.com>");
    assert_eq!(contacts.len(), 2);
}

#[test]
fn test_extract_contacts_ignores_non_email() {
    let contacts = extract_contacts("not an email at all, also not");
    assert!(contacts.is_empty());
}

#[test]
fn test_extract_contacts_normalises_email() {
    let contacts = extract_contacts("UPPER@CASE.COM");
    assert_eq!(contacts[0].1, "upper@case.com");
}

// ── Further cases ───────────────────────────────────────────────────────────

#[test]
fn normalize_name_unescapes_inner_quotes() {
    assert_eq!(normalize_name("\"The \\\"Boss\\\"\""), "The \"Boss\"");
}

#[test]
fn normalize_name_keeps_punctuation_only_names() {
    assert_eq!(normalize_name("..."), "...");
}

#[test]
fn normalize_name_blank_is_empty() {
    assert_eq!(normalize_name("   "), "");
}

#[test]
fn extract_contacts_angle_without_at_falls_back() {
    // No '@' between the brackets and none elsewhere: nothing.
    assert!(extract_contacts("Someone <nobody>").is_empty());
    // An '@' outside the brackets: the whole part is taken as an address.
    let c = extract_contacts("x@y <nobody>");
    assert_eq!(c.len(), 1);
    assert_eq!(c[0].1, "x@y <nobody>");
}

#[test]
fn lone_quote_names_are_detected() {
    assert!(!header_names_parse("\" <a@b.com>"));
    assert!(header_names_parse("\"A\" <a@b.com>, c@d.com"));
}

fn contact(name: &str, mail: &str, n: usize) -> Contact {
    Contact { name: name.to_string(), mail: mail.to_string(), occurrences: n }
}

#[test]
fn display_name_formats() {
    assert_eq!(contact("", "a@b.com", 1).display_name(), "a@b.com");
    assert_eq!(contact("Ann", "a@b.com", 1).display_name(), "Ann <a@b.com>");
}

#[test]
fn score_is_frequency_then_match() {
    assert_eq!(score_contact(3, Some(7)), Some(314));
    assert_eq!(score_contact(3, None), None);
}

#[test]
fn rank_scored_orders_by_score_keeping_ties() {
    let cs = vec![contact("A", "a@x", 1), contact("B", "b@x", 2), contact("C", "c@x", 3), contact("D", "d@x", 4)];
    let scores = vec![Some(100), None, Some(300), Some(100)];
    let r = rank_scored(&cs, &scores);
    let mails: Vec<&str> = r.iter().map(|c| c.mail.as_str()).collect();
    assert_eq!(mails, vec!["c@x", "a@x", "d@x"]);
}

#[test]
fn rank_contacts_empty_query_orders_by_frequency() {
    let cs = vec![contact("A", "a@x", 1), contact("B", "b@x", 5), contact("C", "c@x", 3)];
    let r = rank_contacts(&cs, "  ");
    let mails: Vec<&str> = r.iter().map(|c| c.mail.as_str()).collect();
    assert_eq!(mails, vec!["b@x", "c@x", "a@x"]);
}

#[test]
fn rank_contacts_query_drops_non_matches() {
    let cs = vec![contact("Hamster", "ham@wheel.org", 1), contact("Gerbil", "ger@tube.org", 9)];
    let r = rank_contacts(&cs, "hamst");
    assert_eq!(r.len(), 1);
    assert_eq!(r[0].mail, "ham@wheel.org");
}

#[test]
fn contact_lines_per_format() {
    let c = contact("Doe, John", "j@d.com", 1);
    assert_eq!(format_contact_line("mutt", &c), "j@d.com\tDoe, John");
    assert_eq!(format_contact_line("aerc", &c), "\"Doe, John \" j@d.com\tj@d.com");
    assert_eq!(format_contact_line("plain", &c), "Doe, John <j@d.com>");
    let q = contact("Say \"hi\"", "s@h.com", 1);
    assert_eq!(format_contact_line("aerc", &q), "\"Say \\\"hi\\\" \" s@h.com\ts@h.com");
    let n = contact("", "n@n.com", 1);
    assert_eq!(format_contact_line("aerc", &n), "n@n.com\tn@n.com");
    let lines = format_lines(&vec![c, n], "mutt");
    assert_eq!(lines, vec!["j@d.com\tDoe, John".to_string(), "n@n.com\t".to_string()]);
}
