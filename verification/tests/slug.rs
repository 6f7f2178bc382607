use amigo::slug::gen_slug;

const CHARSET: &str = "abcdefghjkmnpqrstuvwxyz23456789";

#[test]
fn slug_has_requested_length() {
    assert_eq!(gen_slug(0).chars().count(), 0);
    assert_eq!(gen_slug(6).chars().count(), 6);
    assert_eq!(gen_slug(7).chars().count(), 7);
    assert_eq!(gen_slug(32).chars().count(), 32);
}

#[test]
fn slug_uses_only_unambiguous_characters() {
    for _ in 0..50 {
        let slug = gen_slug(16);
        for c in slug.chars() {
            assert!(CHARSET.contains(c), "unexpected slug character {:?}", c);
        }
    }
}
