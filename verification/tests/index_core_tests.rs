use hamster::index_core::{
    extract_address, extract_message_id, message_doc, message_doc_of_raw, message_id_from,
    HeaderAddress, MailAddr, MailError, ParsedMail,
};
use hamster::index_maildir::FlagSet;
use hamster::index_text::{collect_text_parts, try_collect_text_parts, MimeNode, TEXT_BUDGET};

fn addr(name: Option<&str>, address: Option<&str>) -> MailAddr {
    MailAddr { name: name.map(String::from), address: address.map(String::from) }
}

fn node(texts: &[&str], attached: Vec<MimeNode>) -> MimeNode {
    MimeNode {
        texts: texts.iter().map(|t| Some(t.to_string())).collect(),
        attached: attached.into_iter().map(Some).collect(),
    }
}

#[test]
fn parser_id_is_trimmed_and_unbracketed() {
    assert_eq!(message_id_from(Some("  <<abc@x>> ".to_string()), b""), "abc@x");
}

#[test]
fn header_lines_are_scanned_when_parser_has_nothing() {
    let raw = b"Subject: x\r\nmessage-id: <id1@host>\r\n\r\nbody";
    assert_eq!(message_id_from(None, raw), "id1@host");
    assert_eq!(message_id_from(Some("<>".to_string()), raw), "id1@host");
    // A Message-ID after the blank line is body text, not a header.
    assert_eq!(message_id_from(None, b"Subject: x\n\nMessage-ID: <z>\n"), "");
    // Headers that are not UTF-8 give no id.
    assert_eq!(message_id_from(None, &[0xff, 0xfe, b'\n']), "");
}

#[test]
fn mime_parser_finds_the_message_id() {
    let raw = b"From: Sender <sender@example.com>\r\nSubject: Test\r\nMessage-ID: <msg1@example.com>\r\n\r\nBody\r\n";
    assert_eq!(extract_message_id(raw), "msg1@example.com");
    assert_eq!(extract_message_id(b"Subject: no id\r\n\r\nBody\r\n"), "");
}

#[test]
fn first_address_is_written_with_its_name() {
    let list = HeaderAddress::List(vec![addr(Some(" Ann "), Some(" ann@x ")), addr(None, Some("b@x"))]);
    assert_eq!(extract_address(&list), "Ann <ann@x>");
    assert_eq!(extract_address(&HeaderAddress::List(vec![addr(None, Some("b@x"))])), "b@x");
    assert_eq!(extract_address(&HeaderAddress::List(vec![addr(Some("Bob"), None)])), "");
    assert_eq!(extract_address(&HeaderAddress::List(vec![])), "");
    let group = HeaderAddress::Group(vec![vec![addr(Some("G"), Some("g@x"))]]);
    assert_eq!(extract_address(&group), "G <g@x>");
    assert_eq!(extract_address(&HeaderAddress::Group(vec![vec![]])), "");
}

#[test]
fn text_parts_are_trimmed_and_joined() {
    let inner = node(&["inner text"], vec![]);
    let msg = node(&["  hello  ", "   ", "world"], vec![inner]);
    assert_eq!(collect_text_parts(&msg), "hello\n\nworld\n\ninner text");
    assert_eq!(collect_text_parts(&node(&[], vec![node(&[" "], vec![])])), "");
}

#[test]
fn text_budget_cuts_long_bodies() {
    let long = "a".repeat(TEXT_BUDGET + 10);
    let msg = node(&[long.as_str(), "never seen"], vec![node(&["nor this"], vec![])]);
    let text = collect_text_parts(&msg);
    assert_eq!(text.len(), TEXT_BUDGET);
    assert!(!text.contains("never"));
}

#[test]
fn cut_inside_a_character_is_reported() {
    let mut s = "a".repeat(TEXT_BUDGET - 1);
    s.push('é');
    assert_eq!(try_collect_text_parts(&node(&[s.as_str()], vec![])), None);
    assert_eq!(try_collect_text_parts(&node(&["ok"], vec![])), Some("ok".to_string()));
}

#[test]
fn stored_document_of_a_message() {
    let mail = ParsedMail {
        from: Some(HeaderAddress::List(vec![addr(Some("Ann"), Some("ann@x"))])),
        to: None,
        subject: Some("Hi".to_string()),
        part_count: 0,
        first_text: Some("body".to_string()),
        parts: node(&["not used"], vec![]),
        date: Some(1700000000),
    };
    let mut flags = FlagSet::new();
    flags.insert('F');
    let doc = message_doc("/m/INBOX/cur/1:2,F", &mail, &flags, "id@x");
    assert_eq!(doc.from, "Ann <ann@x>");
    assert_eq!(doc.to, "");
    assert_eq!(doc.subject, "Hi");
    assert_eq!(doc.body, "body");
    assert_eq!(doc.date, 1700000000);
    assert_eq!(doc.path, "/m/INBOX/cur/1:2,F");
    assert_eq!(doc.message_id, "id@x");
    assert_eq!(doc.tags, vec!["flagged".to_string(), "unread".to_string()]);

    let bare = ParsedMail {
        from: None,
        to: None,
        subject: None,
        part_count: 1,
        first_text: Some("not used".to_string()),
        parts: node(&["p"], vec![]),
        date: None,
    };
    flags.insert('S');
    let doc = message_doc("/p", &bare, &flags, "");
    assert_eq!((doc.subject.as_str(), doc.body.as_str(), doc.date), ("", "p", 0));
    assert_eq!(doc.tags, vec!["flagged".to_string()]);
}

#[test]
fn parts_without_text_are_skipped() {
    let inner = node(&["inner"], vec![]);
    let msg = MimeNode {
        texts: vec![None, Some(" a ".to_string()), None],
        attached: vec![None, Some(inner), None],
    };
    assert_eq!(collect_text_parts(&msg), "a\n\ninner");
}

#[test]
fn raw_message_is_parsed_into_a_document() {
    let raw = b"From: Sender <sender@example.com>\r\nTo: rcpt@example.com\r\nSubject: Test\r\nDate: Mon, 1 Jan 2024 00:00:00 +0000\r\nMessage-ID: <m1@x>\r\n\r\n  Body text  \r\n";
    let mut flags = FlagSet::new();
    flags.insert('S');
    let doc = match message_doc_of_raw("/m/cur/1:2,S", raw, &flags, "m1@x") {
        Ok(d) => d,
        Err(_) => panic!("message should parse"),
    };
    assert_eq!(doc.from, "Sender <sender@example.com>");
    assert_eq!(doc.to, "rcpt@example.com");
    assert_eq!(doc.subject, "Test");
    assert_eq!(doc.body, "Body text");
    assert_eq!(doc.date, 1704067200);
    assert_eq!(doc.path, "/m/cur/1:2,S");
    assert_eq!(doc.message_id, "m1@x");
    assert!(doc.tags.is_empty());
}

#[test]
fn attached_message_text_is_stored() {
    let raw = b"From: a@x\r\nSubject: Fwd\r\nMIME-Version: 1.0\r\nContent-Type: multipart/mixed; boundary=\"B\"\r\n\r\n--B\r\nContent-Type: text/plain\r\n\r\nouter\r\n--B\r\nContent-Type: message/rfc822\r\n\r\nSubject: inner\r\n\r\ninner body\r\n--B--\r\n";
    let doc = match message_doc_of_raw("/p", raw, &FlagSet::new(), "") {
        Ok(d) => d,
        Err(_) => panic!("message should parse"),
    };
    assert_eq!(doc.subject, "Fwd");
    assert_eq!(doc.body, "outer\n\ninner body");
    assert_eq!(doc.date, 0);
    assert_eq!(doc.tags, vec!["unread".to_string()]);
}

#[test]
fn bytes_without_headers_are_unparsable() {
    assert!(matches!(message_doc_of_raw("/p", b"", &FlagSet::new(), ""), Err(MailError::Unparsable)));
}

#[test]
fn text_cut_inside_a_character_is_refused() {
    let mut raw = b"Subject: x\r\nContent-Type: text/plain; charset=utf-8\r\n\r\n".to_vec();
    raw.extend(std::iter::repeat(b'a').take(TEXT_BUDGET - 1));
    raw.extend("\u{e9}".as_bytes());
    assert!(matches!(message_doc_of_raw("/p", &raw, &FlagSet::new(), ""), Err(MailError::TextCut)));
}
