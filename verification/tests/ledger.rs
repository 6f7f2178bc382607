use amigo::ledger::LinkLedger;

fn insert_basic(
    ledger: &mut LinkLedger,
    slug: &str,
    url: Option<&str>,
    note: Option<&str>,
    created_at: i64,
    expires_at: Option<i64>,
    max_views: Option<i64>,
) -> bool {
    ledger
        .insert_link(
            slug,
            url.map(|s| s.to_string()),
            note.map(|s| s.to_string()),
            created_at,
            expires_at,
            max_views,
            None,
            None,
        )
        .is_ok()
}

#[test]
fn insert_then_peek_returns_payload_unchanged() {
    let mut ledger = LinkLedger::new();
    assert!(insert_basic(
        &mut ledger,
        "abc123",
        Some("https://example.com"),
        Some("hello"),
        1000,
        Some(2000),
        None,
    ));
    let row = ledger.get_link("abc123", 1500).expect("entry should be visible before expiry");
    assert_eq!(row.url.as_deref(), Some("https://example.com"));
    assert_eq!(row.note.as_deref(), Some("hello"));
    assert_eq!(row.expires_at, Some(2000));
    assert_eq!(row.reply_to, None);
    assert_eq!(row.emoji, None);
}

#[test]
fn peek_after_expiry_is_not_found_but_burn_still_works() {
    let mut ledger = LinkLedger::new();
    assert!(insert_basic(
        &mut ledger,
        "abc123",
        Some("https://example.com"),
        None,
        1000,
        Some(2000),
        None,
    ));
    assert!(ledger.get_link("abc123", 2000).is_none());
    assert!(ledger.get_link("abc123", 9999).is_none());
    // The row is still physically present: burn reports a removal.
    assert!(ledger.burn_link("abc123"));
    assert!(!ledger.burn_link("abc123"));
}

#[test]
fn insert_conflict_on_taken_slug() {
    let mut ledger = LinkLedger::new();
    assert!(insert_basic(&mut ledger, "dup", Some("https://a"), None, 1, None, None));
    assert!(!insert_basic(&mut ledger, "dup", Some("https://b"), None, 2, None, None));
    // The first entry is untouched.
    let row = ledger.get_link("dup", 3).unwrap();
    assert_eq!(row.url.as_deref(), Some("https://a"));
}

#[test]
fn view_budget_exhausts_exactly_at_k() {
    let k: i64 = 3;
    let mut ledger = LinkLedger::new();
    assert!(insert_basic(&mut ledger, "budget", Some("https://x"), None, 10, None, Some(k)));
    // k - 1 consumes succeed and keep the entry readable.
    for _ in 0..(k - 1) {
        assert!(ledger.commence_journey("budget", 20));
        assert!(ledger.get_link("budget", 20).is_some());
    }
    // The k-th consume succeeds and deletes the row.
    assert!(ledger.commence_journey("budget", 20));
    assert!(ledger.get_link("budget", 20).is_none());
    // Every further consume or peek misses.
    assert!(!ledger.commence_journey("budget", 20));
    assert!(!ledger.burn_link("budget"));
}

#[test]
fn single_view_entry_consumed_exactly_once() {
    let mut ledger = LinkLedger::new();
    assert!(insert_basic(&mut ledger, "once", Some("https://x"), None, 10, None, Some(1)));
    // Serialized per slug: the first consume wins, the second misses.
    assert!(ledger.commence_journey("once", 20));
    assert!(!ledger.commence_journey("once", 20));
    assert!(ledger.get_link("once", 20).is_none());
    assert!(!ledger.burn_link("once"));
}

#[test]
fn consume_without_budget_never_exhausts() {
    let mut ledger = LinkLedger::new();
    assert!(insert_basic(&mut ledger, "free", Some("https://x"), None, 10, None, None));
    for _ in 0..10 {
        assert!(ledger.commence_journey("free", 20));
    }
    assert!(ledger.get_link("free", 20).is_some());
}

#[test]
fn burn_removes_fresh_entry_and_misses_absent_slug() {
    let mut ledger = LinkLedger::new();
    assert!(insert_basic(&mut ledger, "fresh", Some("https://x"), None, 10, Some(100), Some(5)));
    assert!(ledger.burn_link("fresh"));
    assert!(ledger.get_link("fresh", 11).is_none());
    assert!(!ledger.burn_link("fresh"));
    assert!(!ledger.burn_link("never-existed"));
}

#[test]
fn expired_at_creation_is_dead_on_arrival() {
    let created_at: i64 = 1000;
    let mut ledger = LinkLedger::new();
    assert!(insert_basic(
        &mut ledger,
        "doa",
        Some("https://x"),
        None,
        created_at,
        Some(created_at - 1),
        None,
    ));
    // Both reads miss immediately.
    assert!(ledger.get_link("doa", created_at).is_none());
    assert!(!ledger.commence_journey("doa", created_at));
    // Only the explicit burn removes the row.
    assert!(ledger.burn_link("doa"));
    assert!(!ledger.burn_link("doa"));
}

#[test]
fn consume_respects_expiry() {
    let mut ledger = LinkLedger::new();
    assert!(insert_basic(&mut ledger, "timed", Some("https://x"), None, 0, Some(50), Some(10)));
    assert!(ledger.commence_journey("timed", 49));
    assert!(!ledger.commence_journey("timed", 50));
    assert!(!ledger.commence_journey("timed", 51));
}
