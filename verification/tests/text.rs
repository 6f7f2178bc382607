use amigo::text::{clean_opt, sanitize_emoji, trim_str};

#[test]
fn trim_drops_unicode_whitespace() {
    assert_eq!(trim_str("  hello  "), "hello");
    assert_eq!(trim_str("\t\n x \u{00a0}\u{3000}"), "x");
    assert_eq!(trim_str(""), "");
    assert_eq!(trim_str("   \t "), "");
    assert_eq!(trim_str("inner space stays"), "inner space stays");
}

#[test]
fn clean_opt_drops_blank_and_trims() {
    assert_eq!(clean_opt(None), None);
    assert_eq!(clean_opt(Some("   ".to_string())), None);
    assert_eq!(clean_opt(Some("".to_string())), None);
    assert_eq!(clean_opt(Some("  note  ".to_string())), Some("note".to_string()));
}

#[test]
fn sanitize_emoji_accepts_short_clean_tags() {
    assert_eq!(sanitize_emoji(None), None);
    assert_eq!(sanitize_emoji(Some("  ".to_string())), None);
    assert_eq!(sanitize_emoji(Some(" \u{1F4E6} ".to_string())), Some("\u{1F4E6}".to_string()));
    assert_eq!(sanitize_emoji(Some("ok".to_string())), Some("ok".to_string()));
}

#[test]
fn sanitize_emoji_rejects_long_or_control_values() {
    // 33 ASCII bytes: one over the budget.
    let long = "a".repeat(33);
    assert_eq!(sanitize_emoji(Some(long)), None);
    // Exactly 32 bytes passes.
    let fits = "a".repeat(32);
    assert_eq!(sanitize_emoji(Some(fits.clone())), Some(fits));
    // 9 four-byte emoji are 36 bytes.
    let wide = "\u{1F4E6}".repeat(9);
    assert_eq!(sanitize_emoji(Some(wide)), None);
    // Control codes are refused even in the middle.
    assert_eq!(sanitize_emoji(Some("a\u{0007}b".to_string())), None);
}
