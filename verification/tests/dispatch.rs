use amigo::dispatch::{create_link, plan_dispatch, DispatchError, DispatchRequest};
use amigo::ledger::LinkLedger;

fn request() -> DispatchRequest {
    DispatchRequest {
        url: None,
        note: None,
        text: None,
        ttl: None,
        burn: None,
        max_views: None,
        reply_to: None,
        emoji: None,
    }
}

#[test]
fn empty_payload_is_missing_content() {
    assert!(matches!(plan_dispatch(request(), 100), Err(DispatchError::MissingContent)));
    let mut blank = request();
    blank.url = Some("   ".to_string());
    blank.note = Some("\t".to_string());
    assert!(matches!(plan_dispatch(blank, 100), Err(DispatchError::MissingContent)));
}

#[test]
fn url_needs_an_accepted_scheme() {
    let mut req = request();
    req.url = Some("ftp://example.com".to_string());
    assert!(matches!(plan_dispatch(req, 100), Err(DispatchError::InvalidUrl)));
    let mut req2 = request();
    req2.url = Some("example.com".to_string());
    assert!(matches!(plan_dispatch(req2, 100), Err(DispatchError::InvalidUrl)));
    let mut req3 = request();
    req3.url = Some("https://example.com".to_string());
    assert!(plan_dispatch(req3, 100).is_ok());
    let mut req4 = request();
    req4.url = Some("http://example.com".to_string());
    assert!(plan_dispatch(req4, 100).is_ok());
}

#[test]
fn default_expiry_is_seven_days() {
    let mut req = request();
    req.url = Some("https://example.com".to_string());
    let plan = plan_dispatch(req, 1000).unwrap();
    assert_eq!(plan.expires_at, 1000 + 7 * 24 * 3600);
    assert_eq!(plan.max_views, None);
}

#[test]
fn requested_ttl_is_honoured_and_junk_falls_back() {
    let mut req = request();
    req.url = Some("https://example.com".to_string());
    req.ttl = Some("30m".to_string());
    assert_eq!(plan_dispatch(req, 1000).unwrap().expires_at, 1000 + 1800);

    let mut req2 = request();
    req2.url = Some("https://example.com".to_string());
    req2.ttl = Some("soon".to_string());
    assert_eq!(plan_dispatch(req2, 1000).unwrap().expires_at, 1000 + 7 * 24 * 3600);
}

#[test]
fn burn_flag_and_note_only_force_single_view() {
    let mut req = request();
    req.url = Some("https://example.com".to_string());
    req.burn = Some(true);
    req.max_views = Some(10);
    assert_eq!(plan_dispatch(req, 0).unwrap().max_views, Some(1));

    let mut note_only = request();
    note_only.note = Some("psst".to_string());
    assert_eq!(plan_dispatch(note_only, 0).unwrap().max_views, Some(1));
}

#[test]
fn non_positive_view_budget_means_none() {
    let mut req = request();
    req.url = Some("https://example.com".to_string());
    req.max_views = Some(0);
    assert_eq!(plan_dispatch(req, 0).unwrap().max_views, None);
    let mut req2 = request();
    req2.url = Some("https://example.com".to_string());
    req2.max_views = Some(-4);
    assert_eq!(plan_dispatch(req2, 0).unwrap().max_views, None);
    let mut req3 = request();
    req3.url = Some("https://example.com".to_string());
    req3.max_views = Some(3);
    assert_eq!(plan_dispatch(req3, 0).unwrap().max_views, Some(3));
}

#[test]
fn text_field_backs_up_the_note() {
    let mut req = request();
    req.text = Some("  fallback  ".to_string());
    let plan = plan_dispatch(req, 0).unwrap();
    assert_eq!(plan.note.as_deref(), Some("fallback"));

    let mut both = request();
    both.note = Some("primary".to_string());
    both.text = Some("fallback".to_string());
    assert_eq!(plan_dispatch(both, 0).unwrap().note.as_deref(), Some("primary"));
}

#[test]
fn explicit_tag_survives_into_the_plan() {
    let mut req = request();
    req.note = Some("hi".to_string());
    req.emoji = Some(" \u{2728} ".to_string());
    assert_eq!(plan_dispatch(req, 0).unwrap().emoji, "\u{2728}");

    let mut untagged = request();
    untagged.url = Some("https://github.com/x".to_string());
    assert_eq!(plan_dispatch(untagged, 0).unwrap().emoji, "\u{1F9D1}\u{200D}\u{1F4BB}");
}

#[test]
fn create_link_stores_a_readable_entry() {
    let mut req = request();
    req.url = Some("https://example.com/page".to_string());
    req.note = Some("a note".to_string());
    let created_at = 5000;
    let plan = plan_dispatch(req, created_at).unwrap();
    let mut ledger = LinkLedger::new();
    let slug = create_link(&mut ledger, &plan, created_at).expect("creation should succeed");
    assert_eq!(slug.len(), 6);
    let row = ledger.get_link(&slug, created_at + 1).expect("fresh entry is visible");
    assert_eq!(row.url.as_deref(), Some("https://example.com/page"));
    assert_eq!(row.note.as_deref(), Some("a note"));
    assert_eq!(row.expires_at, Some(created_at + 7 * 24 * 3600));
    assert_eq!(row.emoji.as_deref(), Some("\u{1F496}"));
}
