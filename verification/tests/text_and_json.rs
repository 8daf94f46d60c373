use sightingdb::json::to_json_str;
use sightingdb::text::{after_chars, push_i64, push_u128, same_text, starts_with};

#[test]
fn plain_text_is_written_as_it_is() {
    assert_eq!(to_json_str("plain text 123"), "\"plain text 123\"");
    assert_eq!(to_json_str(""), "\"\"");
}

#[test]
fn escapes_match_serde_json() {
    for s in ["\"", "\\", "\u{8}\u{c}\n\r\t", "\u{0}\u{1f}", "/", "ünï", "\u{7f}"] {
        assert_eq!(to_json_str(s), serde_json::to_string(s).unwrap());
    }
}

#[test]
fn decimal_forms() {
    let mut s = String::new();
    push_u128(&mut s, 0);
    push_u128(&mut s, 1234567890);
    push_i64(&mut s, -42);
    push_i64(&mut s, i64::MIN);
    assert_eq!(s, format!("01234567890-42{}", i64::MIN));
}

#[test]
fn prefixes_and_tails() {
    assert!(starts_with("_config/x", "_config/"));
    assert!(!starts_with("_conf", "_config/"));
    assert!(starts_with("abc", ""));
    assert_eq!(after_chars("/r/my/ns", 3), "my/ns");
    assert_eq!(after_chars("ééx", 2), "x");
    assert!(same_text("false", "false"));
    assert!(!same_text("false", "fals"));
}
