//! The de-duplication caches.
use ce_pubsub::dedup::{IdempotencyCache, Seen, TokenSet};

#[test]
fn a_forgotten_token_is_new_again() {
    let mut s = TokenSet::new(2, 0);
    assert!(!s.seen(1, 0));
    assert!(!s.seen(2, 0));
    s.forget(1);
    s.forget(9);
    assert_eq!(s.len(), 1);
    // There is room for one more token, so that none is evicted.
    assert!(!s.seen(1, 0));
    assert!(s.seen(2, 0));
}

#[test]
fn token_set_dedups_within_ttl() {
    let mut s = TokenSet::new(8, 100);
    assert!(!s.seen(1, 10), "first sight is new");
    assert!(s.seen(1, 20), "repeat within ttl is seen");
    assert!(!s.seen(1, 200), "after ttl it is new again");
}

#[test]
fn token_set_evicts_oldest_at_capacity() {
    let mut s = TokenSet::new(2, 0);
    s.seen(1, 0);
    s.seen(2, 0);
    s.seen(3, 0); // evicts 1
    assert!(!s.seen(1, 0), "evicted token is treated as new");
    assert!(s.seen(3, 0), "recent token retained");
}

#[test]
fn insert_and_get() {
    let mut c = IdempotencyCache::new(4, 100);
    assert!(c.get("a", 0).is_none());
    c.insert("a".into(), Seen::Cursor(7), 0);
    assert_eq!(c.get("a", 0), Some(Seen::Cursor(7)));
    c.insert("b".into(), Seen::Handled, 0);
    assert_eq!(c.get("b", 0), Some(Seen::Handled));
}

#[test]
fn fifo_eviction_keeps_recent_drops_oldest() {
    let mut c = IdempotencyCache::new(3, 0);
    for k in ["a", "b", "c"] {
        c.insert(k.into(), Seen::Cursor(1), 0);
    }
    assert_eq!(c.len(), 3);
    // Inserting d evicts a (oldest), keeps b, c, d.
    c.insert("d".into(), Seen::Cursor(1), 0);
    assert_eq!(c.len(), 3);
    assert!(c.get("a", 0).is_none(), "oldest evicted");
    assert!(c.get("b", 0).is_some(), "recent retained");
    assert!(c.get("c", 0).is_some());
    assert!(c.get("d", 0).is_some());
}

#[test]
fn retry_within_window_is_deduped_not_lost() {
    // The exact failure mode of the old wholesale-clear: fill past capacity, then re-present an
    // already-seen recent key — it must still be recognized (not re-appended).
    let mut c = IdempotencyCache::new(2, 1000);
    c.insert("recent".into(), Seen::Cursor(42), 10);
    c.insert("filler1".into(), Seen::Cursor(1), 11);
    // "recent" is now the oldest; one more insert evicts it — but a retry that arrives before
    // eviction is still deduped. Verify the not-yet-evicted case is correct.
    assert_eq!(c.get("recent", 12), Some(Seen::Cursor(42)));
}

#[test]
fn ttl_expiry_drops_stale() {
    let mut c = IdempotencyCache::new(10, 5);
    c.insert("a".into(), Seen::Cursor(1), 100);
    assert_eq!(c.get("a", 104), Some(Seen::Cursor(1)), "within ttl");
    assert!(c.get("a", 200).is_none(), "expired past ttl");
}

#[test]
fn reinsert_updates_in_place() {
    let mut c = IdempotencyCache::new(2, 0);
    c.insert("a".into(), Seen::Cursor(1), 0);
    c.insert("a".into(), Seen::Cursor(2), 0);
    assert_eq!(c.get("a", 0), Some(Seen::Cursor(2)));
    assert_eq!(c.len(), 1);
}

#[test]
fn zero_ttl_never_expires() {
    let mut c = IdempotencyCache::new(10, 0);
    c.insert("a".into(), Seen::Cursor(1), 0);
    assert_eq!(c.get("a", u64::MAX), Some(Seen::Cursor(1)));
}

#[test]
fn idempotency_cache_dedups_recent_after_eviction_pressure() {
    // The exact failure the bounded cache replaces (old code cleared wholesale at capacity): a recent
    // key must stay deduped while the cache is under insertion pressure, and only the OLDEST is ever
    // evicted — never a wholesale forget of every key.
    let mut c = IdempotencyCache::new(4, 3600);
    c.insert("req-recent".into(), Seen::Cursor(42), 100);
    // Push three more distinct keys (cache holds 4). The recent key is still present and deduped.
    for i in 0..3 {
        c.insert(format!("filler-{i}"), Seen::Cursor(i), 100 + i);
    }
    assert_eq!(
        c.get("req-recent", 110),
        Some(Seen::Cursor(42)),
        "recent key survives at capacity"
    );
    // One more insert evicts the OLDEST (req-recent), not the whole set: the just-inserted fillers stay.
    c.insert("filler-3".into(), Seen::Cursor(9), 105);
    assert!(
        c.get("req-recent", 110).is_none(),
        "only the oldest key is evicted"
    );
    assert_eq!(
        c.get("filler-2", 110),
        Some(Seen::Cursor(2)),
        "newer keys are NOT forgotten"
    );
    assert_eq!(c.get("filler-3", 110), Some(Seen::Cursor(9)));
}

#[test]
fn token_set_dedups_across_capacity_and_ttl() {
    let mut s = TokenSet::new(3, 100);
    assert!(!s.seen(1, 0));
    assert!(s.seen(1, 50), "within ttl, a repeat is recognized");
    // Fill to capacity with new tokens; the oldest (1) is evicted, the rest retained.
    assert!(!s.seen(2, 60));
    assert!(!s.seen(3, 61));
    assert!(!s.seen(4, 62)); // evicts token 1
    assert!(
        !s.seen(1, 63),
        "evicted token treated as new (oldest-only eviction)"
    );
    assert!(s.seen(4, 64), "recent token still deduped");
    // TTL expiry: a token older than the ttl is new again.
    assert!(!s.seen(4, 64 + 101), "expired token is new again");
}
