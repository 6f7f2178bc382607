use amigo::codec::{decode_client_frame, encode_event, JointClientEvent};
use amigo::hub::JointEvent;

fn decoded_chat(frame: &str) -> Option<String> {
    match decode_client_frame(frame) {
        Some(JointClientEvent::Chat { text }) => Some(text),
        _ => None,
    }
}

#[test]
fn frames_have_the_exact_wire_shape() {
    let chat = JointEvent::Chat { name: "ann".to_string(), text: "hi".to_string(), ts: 7 };
    assert_eq!(
        encode_event(&chat),
        "{\"type\":\"chat\",\"name\":\"ann\",\"text\":\"hi\",\"ts\":7}"
    );
    let system = JointEvent::System { text: "ann joined".to_string(), ts: -3 };
    assert_eq!(encode_event(&system), "{\"type\":\"system\",\"text\":\"ann joined\",\"ts\":-3}");
    let burn = JointEvent::Burn { ts: 1700000000 };
    assert_eq!(encode_event(&burn), "{\"type\":\"burn\",\"ts\":1700000000}");
}

#[test]
fn quotes_backslashes_and_controls_are_escaped() {
    let tricky = JointEvent::Chat {
        name: "a\"b".to_string(),
        text: "line\none\\two\tend".to_string(),
        ts: 0,
    };
    assert_eq!(
        encode_event(&tricky),
        "{\"type\":\"chat\",\"name\":\"a\\\"b\",\"text\":\"line\\u000aone\\\\two\\u0009end\",\"ts\":0}"
    );
}

#[test]
fn extreme_timestamps_render_in_full() {
    let max = JointEvent::Burn { ts: i64::MAX };
    assert_eq!(encode_event(&max), "{\"type\":\"burn\",\"ts\":9223372036854775807}");
    let min = JointEvent::Burn { ts: i64::MIN };
    assert_eq!(encode_event(&min), "{\"type\":\"burn\",\"ts\":-9223372036854775808}");
}

#[test]
fn client_frames_decode_in_canonical_form() {
    assert!(matches!(
        decode_client_frame("{\"type\":\"ping\"}"),
        Some(JointClientEvent::Ping)
    ));
    assert_eq!(
        decoded_chat("{\"type\":\"chat\",\"text\":\"hello\"}"),
        Some("hello".to_string())
    );
}

#[test]
fn client_frames_decode_with_whitespace_and_reordered_members() {
    assert!(matches!(
        decode_client_frame("  { \"type\" : \"ping\" }\n"),
        Some(JointClientEvent::Ping)
    ));
    assert_eq!(
        decoded_chat("{ \"text\" : \"hi there\" , \"type\" : \"chat\" }"),
        Some("hi there".to_string())
    );
    assert_eq!(
        decoded_chat("\t{\"type\"\n:\n\"chat\",\r\"text\":\"x\"}\r\n"),
        Some("x".to_string())
    );
}

#[test]
fn client_frame_string_escapes_are_unescaped() {
    assert_eq!(
        decoded_chat("{\"type\":\"chat\",\"text\":\"a\\\"b\\\\c\\/d\\ne\\tf\\rg\"}"),
        Some("a\"b\\c/d\ne\tf\rg".to_string())
    );
}

#[test]
fn client_frame_unicode_escapes_are_decoded() {
    assert_eq!(
        decoded_chat("{\"type\":\"chat\",\"text\":\"\\u0041\\u004a\\u004A\"}"),
        Some("AJJ".to_string())
    );
    assert_eq!(
        decoded_chat("{\"type\":\"chat\",\"text\":\"caf\\u00e9 \\u20ac\"}"),
        Some("caf\u{e9} \u{20ac}".to_string())
    );
    // An astral character arrives as a surrogate pair.
    assert_eq!(
        decoded_chat("{\"type\":\"chat\",\"text\":\"\\ud83d\\ude00!\"}"),
        Some("\u{1F600}!".to_string())
    );
    // Control codes may come escaped even though raw ones are invalid.
    assert_eq!(
        decoded_chat("{\"type\":\"chat\",\"text\":\"a\\u0001b\"}"),
        Some("a\u{0001}b".to_string())
    );
}

#[test]
fn client_frame_bad_unicode_escapes_are_rejected() {
    // Too few digits, junk digits, lone surrogates, unpaired halves.
    assert!(decode_client_frame("{\"type\":\"chat\",\"text\":\"\\u12\"}").is_none());
    assert!(decode_client_frame("{\"type\":\"chat\",\"text\":\"\\uZZZZ\"}").is_none());
    assert!(decode_client_frame("{\"type\":\"chat\",\"text\":\"\\ud800\"}").is_none());
    assert!(decode_client_frame("{\"type\":\"chat\",\"text\":\"\\ude00\"}").is_none());
    assert!(decode_client_frame("{\"type\":\"chat\",\"text\":\"\\ud83d x\"}").is_none());
}

#[test]
fn undecodable_client_frames_are_rejected() {
    assert!(decode_client_frame("").is_none());
    assert!(decode_client_frame("ping").is_none());
    assert!(decode_client_frame("{}").is_none());
    assert!(decode_client_frame("{\"type\":\"ping\"").is_none());
    assert!(decode_client_frame("{\"type\":\"burn\"}").is_none());
    assert!(decode_client_frame("{\"type\":\"chat\"}").is_none());
    assert!(decode_client_frame("{\"type\":\"ping\"} trailing").is_none());
    assert!(decode_client_frame("{\"type\":\"chat\",\"text\":42}").is_none());
    assert!(decode_client_frame("{\"type\":\"chat\",\"text\":\"unterminated}").is_none());
    // A raw control character inside a string is not valid JSON.
    assert!(decode_client_frame("{\"type\":\"chat\",\"text\":\"a\u{0001}b\"}").is_none());
}

#[test]
fn frames_parse_back_as_the_same_json() {
    let chat = JointEvent::Chat {
        name: "we\u{1F4E6}ird \"name\"".to_string(),
        text: " spaced\ttext\r\n".to_string(),
        ts: 42,
    };
    let frame = encode_event(&chat);
    let value: serde_json::Value = serde_json::from_str(&frame).expect("frame is valid JSON");
    assert_eq!(value["type"], serde_json::Value::String("chat".to_string()));
    assert_eq!(value["name"], serde_json::Value::String("we\u{1F4E6}ird \"name\"".to_string()));
    assert_eq!(value["text"], serde_json::Value::String(" spaced\ttext\r\n".to_string()));
    assert_eq!(value["ts"], serde_json::Value::from(42i64));
}
