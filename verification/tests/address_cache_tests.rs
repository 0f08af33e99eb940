use hamster::address_cache::{AddressCache, AddressCacheEntry};

#[test]
fn test_ingest_basic() {
    let mut cache = AddressCache::default();
    cache.ingest("hamster@wheel.com", "Hamster McWheel");
    let entry = cache.get("hamster@wheel.com").unwrap();
    assert_eq!(entry.name, "Hamster McWheel");
    assert_eq!(entry.count, 1);
}

#[test]
fn test_ingest_normalises_email() {
    let mut cache = AddressCache::default();
    cache.ingest("HAMSTER@WHEEL.COM", "");
    assert!(cache.contains_key("hamster@wheel.com"));
}

#[test]
fn test_ingest_ignores_non_email() {
    let mut cache = AddressCache::default();
    cache.ingest("not-an-email", "Some Name");
    cache.ingest("", "Empty");
    cache.ingest("   ", "Whitespace");
    assert!(cache.is_empty(), "Non-emails should be silently ignored");
}

#[test]
fn test_ingest_increments_count() {
    let mut cache = AddressCache::default();
    cache.ingest("a@b.com", "");
    cache.ingest("a@b.com", "");
    cache.ingest("a@b.com", "");
    assert_eq!(cache.get("a@b.com").unwrap().count, 3);
}

#[test]
fn test_ingest_first_name_wins() {
    let mut cache = AddressCache::default();
    cache.ingest("a@b.com", "First Name");
    cache.ingest("a@b.com", "Should Not Overwrite");
    assert_eq!(cache.get("a@b.com").unwrap().name, "First Name");
}

#[test]
fn test_ingest_empty_name_then_real_name() {
    let mut cache = AddressCache::default();
    cache.ingest("a@b.com", "");
    cache.ingest("a@b.com", "Real Name");
    // Empty name doesn't win – the first *non-empty* name does.
    assert_eq!(cache.get("a@b.com").unwrap().name, "Real Name");
}

// ── Further cases ───────────────────────────────────────────────────────────

#[test]
fn ingest_trims_the_name() {
    let mut cache = AddressCache::default();
    cache.ingest("a@b.com", "  Padded  ");
    assert_eq!(cache.get("a@b.com").unwrap().name, "Padded");
}

#[test]
fn ingest_header_counts_every_contact() {
    let mut cache = AddressCache::new();
    cache.ingest_header("Ann <ann@x.org>, bob@x.org");
    cache.ingest_header("ANN@X.ORG");
    assert_eq!(cache.len(), 2);
    assert_eq!(cache.get("ann@x.org").unwrap().count, 2);
    assert_eq!(cache.get("ann@x.org").unwrap().name, "Ann");
    assert_eq!(cache.get("bob@x.org").unwrap().count, 1);
}

#[test]
fn top_contact_and_nameless() {
    let mut cache = AddressCache::new();
    assert_eq!(cache.top_contact(), (None, 0));
    cache.ingest("a@x", "A");
    cache.ingest("b@x", "");
    cache.ingest("b@x", "");
    cache.ingest("c@x", "");
    let (top, nameless) = cache.top_contact();
    assert_eq!(top, Some(("b@x".to_string(), 2)));
    assert_eq!(nameless, 2);
}

#[test]
fn put_overwrites_and_entries_list_each_address_once() {
    let mut cache = AddressCache::new();
    cache.put("a@x".to_string(), AddressCacheEntry { name: "A".to_string(), count: 1 });
    cache.put("a@x".to_string(), AddressCacheEntry { name: "B".to_string(), count: 5 });
    let entries = cache.entries();
    assert_eq!(entries.len(), 1);
    assert_eq!(entries[0].0, "a@x");
    assert_eq!(entries[0].1.name, "B");
    assert_eq!(entries[0].1.count, 5);
}

#[test]
fn cache_path_is_inside_the_index() {
    assert_eq!(AddressCache::cache_path("/idx"), "/idx/hamster_addresses.json");
}

#[test]
fn lookup_ranks_and_formats() {
    let mut cache = AddressCache::new();
    cache.ingest("ham@wheel.org", "Ham Ster");
    cache.ingest("ham@wheel.org", "");
    cache.ingest("seed@bag.org", "Seed");
    let lines = cache.lookup("mutt", "");
    assert_eq!(lines, vec!["ham@wheel.org\tHam Ster".to_string(), "seed@bag.org\tSeed".to_string()]);
}
