use hamster::numfmt::{decimal_string, digit_char, pad_left_str, signed_string};
use hamster::string_map::{contains_string, StringMap};

#[test]
fn decimal_text_matches_display() {
    for n in [0u128, 7, 10, 99, 100, 12345, u64::MAX as u128, u128::MAX] {
        assert_eq!(decimal_string(n), n.to_string());
    }
    for n in [0i64, -1, 42, -9000, i64::MIN, i64::MAX] {
        assert_eq!(signed_string(n), n.to_string());
    }
    assert_eq!(digit_char(9), '9');
}

#[test]
fn padding_is_on_the_left() {
    let v: Vec<char> = "7".chars().collect();
    assert_eq!(pad_left_str(&v, 3), format!("{:>3}", "7"));
    let w: Vec<char> = "1234".chars().collect();
    assert_eq!(pad_left_str(&w, 3), "1234");
}

#[test]
fn string_map_inserts_replace_and_retain_filters() {
    let mut m: StringMap<u32> = StringMap::new();
    assert!(m.is_empty());
    m.insert("a".to_string(), 1);
    m.insert("b".to_string(), 2);
    m.insert("a".to_string(), 3);
    assert_eq!(m.len(), 2);
    assert_eq!(m.get("a"), Some(&3));
    assert!(m.contains_key("b"));
    assert_eq!(m.get("zz"), None);
    m.retain_keys(&vec!["b".to_string(), "c".to_string()]);
    assert_eq!(m.len(), 1);
    assert_eq!(m.key_at(0), "b");
    assert_eq!(*m.value_at(0), 2);
    assert!(contains_string(&vec!["x".to_string()], "x"));
    assert!(!contains_string(&vec!["x".to_string()], "y"));
}
