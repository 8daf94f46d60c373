use sightingdb::b64::{decode_value, encode_value};
use sightingdb::client::command::{describe, parse_line, ClientCommand};

#[test]
fn read_command() {
    let c = parse_line("r my/ns 127.0.0.1").unwrap();
    match &c {
        ClientCommand::Read { namespace, value } => {
            assert_eq!(namespace, "my/ns");
            assert_eq!(value, "127.0.0.1");
        }
        _ => panic!("not a read"),
    }
    assert_eq!(describe(&c), Some(String::from("read namespace=my/ns; value=127.0.0.1")));
}

#[test]
fn write_command_keeps_spaces_in_value() {
    let c = parse_line("w ns a value with spaces").unwrap();
    match &c {
        ClientCommand::Write { namespace, value } => {
            assert_eq!(namespace, "ns");
            assert_eq!(value, "a value with spaces");
        }
        _ => panic!("not a write"),
    }
    assert_eq!(describe(&c), Some(String::from("write namespace=ns; value=a value with spaces")));
}

#[test]
fn other_lines_do_not_match() {
    assert!(parse_line("x ns v").is_none());
    assert!(parse_line("r ns").is_none());
    assert!(parse_line("").is_none());
}

#[test]
fn other_command_says_nothing() {
    assert_eq!(describe(&ClientCommand::Other), None);
}

#[test]
fn base64_url_safe_without_padding() {
    assert_eq!(encode_value("127.0.0.1"), "MTI3LjAuMC4x");
    assert_eq!(encode_value(""), "");
    assert_eq!(encode_value("a"), "YQ");
    assert_eq!(encode_value("ab"), "YWI");
    assert_eq!(encode_value("abc"), "YWJj");
    assert_eq!(encode_value("\u{fb}\u{ff}"), "w7vDvw");
    assert_eq!(encode_value("??>"), "Pz8-");
}

#[test]
fn base64_length_follows_the_byte_count() {
    let text = "abcdefghij";
    for n in 0..=text.len() {
        let expected = 4 * (n / 3) + if n % 3 == 0 { 0 } else { n % 3 + 1 };
        assert_eq!(encode_value(&text[..n]).len(), expected);
    }
}

#[test]
fn decoding_gives_back_the_encoded_text() {
    for text in ["", "a", "ab", "abc", "127.0.0.1", "héllo wörld ✓", "??>>~~"] {
        assert_eq!(decode_value(&encode_value(text)).as_deref(), Some(text));
    }
    assert_eq!(decode_value("MTI3LjAuMC4x").as_deref(), Some("127.0.0.1"));
    assert_eq!(decode_value("Pz8-Pn5-").as_deref(), Some("??>>~~"));
}

#[test]
fn decoding_refuses_other_forms() {
    assert_eq!(decode_value("YQ=="), None);
    assert_eq!(decode_value("Pz8+Pn5+"), None);
    assert_eq!(decode_value("Y"), None);
    assert_eq!(decode_value("YR"), None);
    assert_eq!(decode_value("_w"), None);
    assert_eq!(decode_value("YW J"), None);
}
