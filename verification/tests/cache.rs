use statusline::cache::{entry_valid, slot_ttl, CacheEntry, CacheSlot, SessionCache};

fn entry(disc: &str, payload: &str, recorded_at: u64) -> CacheEntry {
    CacheEntry {
        discriminator: disc.to_string(),
        payload: payload.to_string(),
        recorded_at,
    }
}

#[test]
fn validity_boundary_is_exclusive() {
    // recorded at T with TTL S: valid at T+S-1, invalid at T+S
    let e = entry("main", "value", 100);
    assert!(entry_valid(&e, 60, 159));
    assert!(!entry_valid(&e, 60, 160));
    assert!(entry_valid(&e, 60, 100));
}

#[test]
fn slot_ttls() {
    assert_eq!(slot_ttl(CacheSlot::PrUrl), 60);
    assert_eq!(slot_ttl(CacheSlot::PrStatus), 30);
    assert_eq!(slot_ttl(CacheSlot::GitMeta), 5);
}

#[test]
fn lookup_hits_fresh_matching_entry() {
    let mut c = SessionCache::empty();
    c.store(CacheSlot::PrUrl, "main", "https://example.invalid/pr/7", 100);
    assert_eq!(
        c.lookup(CacheSlot::PrUrl, "main", 150).unwrap(),
        "https://example.invalid/pr/7"
    );
}

#[test]
fn discriminator_mismatch_forces_refetch() {
    let mut c = SessionCache::empty();
    c.store(CacheSlot::PrUrl, "main", "https://example.invalid/pr/7", 100);
    // fresh, but recorded for another branch: must miss
    assert_eq!(c.lookup(CacheSlot::PrUrl, "feature", 101), None);
}

#[test]
fn stale_entry_misses() {
    let mut c = SessionCache::empty();
    c.store(CacheSlot::PrStatus, "main", "ok", 100);
    assert!(c.lookup(CacheSlot::PrStatus, "main", 129).is_some());
    assert_eq!(c.lookup(CacheSlot::PrStatus, "main", 130), None);
}

#[test]
fn slots_are_independent() {
    let mut c = SessionCache::empty();
    c.store(CacheSlot::PrUrl, "main", "url", 100);
    c.store(CacheSlot::GitMeta, "main", "meta", 100);
    assert_eq!(c.lookup(CacheSlot::PrStatus, "main", 100), None);
    assert_eq!(c.lookup(CacheSlot::PrUrl, "main", 100).unwrap(), "url");
    assert_eq!(c.lookup(CacheSlot::GitMeta, "main", 100).unwrap(), "meta");
}

#[test]
fn store_overwrites_slot() {
    let mut c = SessionCache::empty();
    c.store(CacheSlot::PrUrl, "main", "old", 100);
    c.store(CacheSlot::PrUrl, "feature", "new", 200);
    assert_eq!(c.lookup(CacheSlot::PrUrl, "main", 201), None);
    assert_eq!(c.lookup(CacheSlot::PrUrl, "feature", 201).unwrap(), "new");
}

#[test]
fn codec_round_trips_every_field() {
    let mut c = SessionCache::empty();
    c.store(CacheSlot::PrUrl, "main", "https://example.invalid/pr/7", 1234567890);
    c.store(CacheSlot::PrStatus, "fea\tture", "line one\nline\\two", 42);
    c.store(CacheSlot::GitMeta, "", "", 0);
    let lines = c.encode();
    let back = SessionCache::decode(&lines);
    let u = back.pr_url.as_ref().unwrap();
    assert_eq!(u.discriminator, "main");
    assert_eq!(u.payload, "https://example.invalid/pr/7");
    assert_eq!(u.recorded_at, 1234567890);
    let s = back.pr_status.as_ref().unwrap();
    assert_eq!(s.discriminator, "fea\tture");
    assert_eq!(s.payload, "line one\nline\\two");
    assert_eq!(s.recorded_at, 42);
    let g = back.git_meta.as_ref().unwrap();
    assert_eq!(g.discriminator, "");
    assert_eq!(g.payload, "");
    assert_eq!(g.recorded_at, 0);
}

#[test]
fn encoded_lines_never_hold_raw_newlines() {
    let mut c = SessionCache::empty();
    c.store(CacheSlot::PrUrl, "a\nb", "c\nd", 7);
    for line in c.encode() {
        assert!(!line.contains('\n'));
    }
}

#[test]
fn decode_of_malformed_lines_is_empty() {
    let garbage = vec!["not a cache line".to_string()];
    let c = SessionCache::decode(&garbage);
    assert!(c.pr_url.is_none() && c.pr_status.is_none() && c.git_meta.is_none());
    // one bad line spoils the file: parse failure yields an empty cache
    let mut good = SessionCache::empty();
    good.store(CacheSlot::PrUrl, "main", "url", 9);
    let mut mixed = good.encode();
    mixed.push("pr_url\tnot-a-number\tx\ty".to_string());
    let c2 = SessionCache::decode(&mixed);
    assert!(c2.pr_url.is_none());
}

#[test]
fn decode_of_nothing_is_empty() {
    let c = SessionCache::decode(&Vec::new());
    assert!(c.pr_url.is_none() && c.pr_status.is_none() && c.git_meta.is_none());
}
