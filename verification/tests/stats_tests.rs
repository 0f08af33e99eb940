use hamster::stats::{age_text, format_bytes, tally_tags, Age, HamsterStats};
use hamster::address_cache::AddressCache;

#[test]
fn test_format_bytes_bytes() {
    assert_eq!(format_bytes(100), "100 B");
}

#[test]
fn test_format_bytes_kilobytes() {
    assert_eq!(format_bytes(1024), "1.0 KB");
    assert_eq!(format_bytes(1536), "1.5 KB");
}

#[test]
fn test_format_bytes_megabytes() {
    assert_eq!(format_bytes(1024 * 1024), "1.0 MB");
    assert_eq!(format_bytes(50 * 1024 * 1024), "50.0 MB");
}

#[test]
fn test_format_bytes_gigabytes() {
    assert_eq!(format_bytes(1024 * 1024 * 1024), "1.0 GB");
}

fn float_format(bytes: u64) -> String {
    const KB: u64 = 1024;
    const MB: u64 = KB * 1024;
    const GB: u64 = MB * 1024;
    if bytes >= GB {
        format!("{:.1} GB", bytes as f64 / GB as f64)
    } else if bytes >= MB {
        format!("{:.1} MB", bytes as f64 / MB as f64)
    } else if bytes >= KB {
        format!("{:.1} KB", bytes as f64 / KB as f64)
    } else {
        format!("{} B", bytes)
    }
}

#[test]
fn format_bytes_agrees_with_float_formatting() {
    let mut samples: Vec<u64> = vec![
        0, 1, 1023, 1024, 1075, 1126, 1280, 1331, 1535, 1536, 1587, 10239, 10240, 1048575,
        1048576, 1101004, 1153434, 1310720, 1073741823, 1073741824, 1181116006, 1288490188,
        1342177280, (1u64 << 53) - 1, 1u64 << 53, (1u64 << 53) + 1, (1u64 << 53) + 3,
        (1u64 << 60) + 12345, u64::MAX - 1, u64::MAX,
    ];
    let mut x: u64 = 7;
    for _ in 0..2000 {
        x = x.wrapping_mul(6364136223846793005).wrapping_add(1442695040888963407);
        samples.push(x >> (x % 64));
    }
    for b in samples {
        assert_eq!(format_bytes(b), float_format(b), "bytes = {}", b);
    }
}

#[test]
fn age_phrases() {
    let a = |days, hours| Age { date: "2024-01-02".to_string(), clock: "13:45".to_string(), days, hours };
    assert_eq!(age_text(&a(800, 0)), "2024-01-02 (2 years ago)");
    assert_eq!(age_text(&a(65, 0)), "2024-01-02 (2 months ago)");
    assert_eq!(age_text(&a(1, 0)), "2024-01-02 (1 day ago)");
    assert_eq!(age_text(&a(3, 0)), "2024-01-02 (3 days ago)");
    assert_eq!(age_text(&a(0, 1)), "13:45 (1 hour ago)");
    assert_eq!(age_text(&a(0, 5)), "13:45 (5 hours ago)");
    assert_eq!(age_text(&a(0, 0)), "13:45 (just now)");
}

#[test]
fn tally_counts_and_orders() {
    let tags: Vec<String> = ["inbox", "spam", "inbox", "work", "inbox", "spam"].iter().map(|s| s.to_string()).collect();
    let t = tally_tags(&tags);
    assert_eq!(t, vec![("inbox".to_string(), 3), ("spam".to_string(), 2), ("work".to_string(), 1)]);
}

#[test]
fn tally_keeps_twenty() {
    let mut tags = Vec::new();
    for i in 0..30 {
        for _ in 0..(i + 1) {
            tags.push(format!("t{}", i));
        }
    }
    let t = tally_tags(&tags);
    assert_eq!(t.len(), 20);
    assert_eq!(t[0], ("t29".to_string(), 30));
    assert_eq!(t[19], ("t10".to_string(), 11));
}

#[test]
fn census_from_parts() {
    let mut cache = AddressCache::new();
    cache.ingest("a@x", "");
    let s = HamsterStats::from_parts(10, 2048, &cache, &vec!["inbox".to_string()], None);
    assert_eq!(s.unique_addresses, 1);
    assert_eq!(s.nameless_addresses, 1);
    assert_eq!(s.formatted_size(), "2.0 KB");
    assert_eq!(s.formatted_last_indexed(None), "never");
    let s2 = HamsterStats::from_parts(0, 0, &cache, &vec![], Some(5));
    assert_eq!(s2.formatted_last_indexed(None), "unknown");
}
