use amigo::vibe::{detect_vibe, is_cli_request, resolve_signet};

#[test]
fn detect_vibe_classifies_by_family() {
    assert_eq!(detect_vibe("https://fancourier.ro/awb/123"), "\u{1F4E6}");
    assert_eq!(detect_vibe("https://x.com/report.PDF"), "\u{1F4DC}");
    assert_eq!(detect_vibe("https://soundcloud.com/artist/song"), "\u{1F4FB}");
    assert_eq!(detect_vibe("https://example.com/waze/route"), "\u{1F4CD}");
    assert_eq!(detect_vibe("https://pay.stripe.com/x"), "\u{1F4B3}");
    assert_eq!(detect_vibe("https://github.com/octo/repo"), "\u{1F9D1}\u{200D}\u{1F4BB}");
    assert_eq!(detect_vibe("https://example.com/plain"), "\u{1F496}");
}

#[test]
fn detect_vibe_first_family_wins() {
    // "track" (shipping) is checked before ".pdf" (documents).
    assert_eq!(detect_vibe("https://example.com/track/invoice.pdf"), "\u{1F4E6}");
    // Matching is case-insensitive through lowercasing.
    assert_eq!(detect_vibe("HTTPS://GITHUB.COM/X"), "\u{1F9D1}\u{200D}\u{1F4BB}");
}

#[test]
fn resolve_signet_prefers_explicit_tag() {
    assert_eq!(
        resolve_signet(Some("https://github.com/x"), Some("\u{2728}".to_string())),
        "\u{2728}"
    );
    // A blank tag falls back to the URL.
    assert_eq!(
        resolve_signet(Some("https://github.com/x"), Some("   ".to_string())),
        "\u{1F9D1}\u{200D}\u{1F4BB}"
    );
    // No URL and no tag: the default.
    assert_eq!(resolve_signet(None, None), "\u{1F496}");
    assert_eq!(resolve_signet(None, Some(" ".to_string())), "\u{1F496}");
}

#[test]
fn cli_requests_are_sniffed_from_headers() {
    assert!(is_cli_request("curl/8.0.1", ""));
    assert!(is_cli_request("Wget/1.21", ""));
    assert!(is_cli_request("HTTPie/3.2", ""));
    assert!(is_cli_request("Mozilla/5.0", "text/plain, */*"));
    assert!(is_cli_request("Mozilla/5.0", "TEXT/PLAIN"));
    assert!(!is_cli_request("Mozilla/5.0", "text/html"));
    assert!(!is_cli_request("", ""));
}
