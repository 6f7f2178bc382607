use amigo::ttl::{parse_i64, parse_ttl};

#[test]
fn parse_i64_reads_signed_decimals() {
    assert_eq!(parse_i64("0"), Some(0));
    assert_eq!(parse_i64("42"), Some(42));
    assert_eq!(parse_i64("+7"), Some(7));
    assert_eq!(parse_i64("-13"), Some(-13));
    assert_eq!(parse_i64("9223372036854775807"), Some(i64::MAX));
    assert_eq!(parse_i64("-9223372036854775808"), Some(i64::MIN));
}

#[test]
fn parse_i64_rejects_junk_and_overflow() {
    assert_eq!(parse_i64(""), None);
    assert_eq!(parse_i64("-"), None);
    assert_eq!(parse_i64("+"), None);
    assert_eq!(parse_i64("12x"), None);
    assert_eq!(parse_i64("x12"), None);
    assert_eq!(parse_i64("1 2"), None);
    assert_eq!(parse_i64("9223372036854775808"), None);
    assert_eq!(parse_i64("-9223372036854775809"), None);
    assert_eq!(parse_i64("99999999999999999999999999"), None);
}

#[test]
fn parse_ttl_reads_days_hours_minutes() {
    assert_eq!(parse_ttl(Some("7d")), Some(7 * 24 * 3600));
    assert_eq!(parse_ttl(Some("24h")), Some(24 * 3600));
    assert_eq!(parse_ttl(Some("30m")), Some(30 * 60));
    assert_eq!(parse_ttl(Some("1d")), Some(86400));
    assert_eq!(parse_ttl(Some("-3d")), Some(-3 * 86400));
}

#[test]
fn parse_ttl_rejects_everything_else() {
    assert_eq!(parse_ttl(None), None);
    assert_eq!(parse_ttl(Some("")), None);
    assert_eq!(parse_ttl(Some("d")), None);
    assert_eq!(parse_ttl(Some("7")), None);
    assert_eq!(parse_ttl(Some("7s")), None);
    assert_eq!(parse_ttl(Some("7 d")), None);
    assert_eq!(parse_ttl(Some("x7d")), None);
    // The second count itself must be representable.
    assert_eq!(parse_ttl(Some("9223372036854775807d")), None);
}
