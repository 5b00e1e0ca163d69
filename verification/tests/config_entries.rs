//! Tests for the configuration-file grammar.

use borp::config::{entries, idchar, is_base64, make_hex, Value};

#[test]
fn character_classes() {
    assert!(idchar(b'a') && idchar(b'z') && idchar(b'_'));
    assert!(!idchar(b'A') && !idchar(b'0') && !idchar(b' '));
    assert!(is_base64(b'a') && is_base64(b'Z') && is_base64(b'0'));
    assert!(is_base64(b'+') && is_base64(b'/') && is_base64(b'='));
    assert!(!is_base64(b' ') && !is_base64(b'\n') && !is_base64(b'-'));
}

#[test]
fn hex_wrapping() {
    match make_hex("abc123".as_bytes()) {
        Value::Hex(s) => assert_eq!(s, "abc123"),
        other => panic!("unexpected value {:?}", other),
    }
}

#[test]
fn parses_sections_and_values() {
    let text = "[repository]\nversion = 1\nsegments_per_dir = 1000\nid = abcdef0123\n";
    let items = entries(text.as_bytes()).unwrap();
    assert_eq!(items.len(), 4);
    assert_eq!(items[0].0, "");
    assert!(matches!(&items[0].1, Value::Text(s) if s == "repository"));
    assert_eq!(items[1].0, "version");
    assert!(matches!(items[1].1, Value::Int(1)));
    assert_eq!(items[2].0, "segments_per_dir");
    assert!(matches!(items[2].1, Value::Int(1000)));
    assert_eq!(items[3].0, "id");
    assert!(matches!(&items[3].1, Value::Hex(s) if s == "abcdef0123"));
}

#[test]
fn base64_values_decode() {
    // A single-line base64 value that is not a hex string.
    let text = "key = aGVsbG8=\n";
    let items = entries(text.as_bytes()).unwrap();
    assert_eq!(items.len(), 1);
    assert!(matches!(&items[0].1, Value::Base64(b) if b.as_slice() == "hello".as_bytes()));

    // The same blob split over continuation lines led by a tab.
    let text = "key = aGVs\n\tbG8=\n";
    let items = entries(text.as_bytes()).unwrap();
    assert_eq!(items.len(), 1);
    assert!(matches!(&items[0].1, Value::Base64(b) if b.as_slice() == "hello".as_bytes()));
}

#[test]
fn oversized_integers_fall_back_to_hex() {
    let text = "key = 99999999999999999999999\n";
    let items = entries(text.as_bytes()).unwrap();
    assert!(matches!(&items[0].1, Value::Hex(s) if s == "99999999999999999999999"));
    // The largest value that still fits stays an integer.
    let text = "key = 18446744073709551615\n";
    let items = entries(text.as_bytes()).unwrap();
    assert!(matches!(items[0].1, Value::Int(u64::MAX)));
    // Leading zeros are accepted.
    let text = "key = 007\n";
    let items = entries(text.as_bytes()).unwrap();
    assert!(matches!(items[0].1, Value::Int(7)));
}

#[test]
fn windows_line_endings_and_blank_lines() {
    let text = "[cache]\r\n\r\nversion = 2\r\n";
    let items = entries(text.as_bytes()).unwrap();
    assert_eq!(items.len(), 2);
    assert!(matches!(&items[0].1, Value::Text(s) if s == "cache"));
    assert!(matches!(items[1].1, Value::Int(2)));
}

#[test]
fn malformed_inputs_are_rejected() {
    // Missing trailing newline.
    assert!(entries("version = 1".as_bytes()).is_none());
    // Key with an illegal character.
    assert!(entries("Version = 1\n".as_bytes()).is_none());
    // No spaces around the equals sign.
    assert!(entries("version=1\n".as_bytes()).is_none());
    // A value that decodes as nothing: not int, not hex, not valid base64.
    assert!(entries("key = zz\n".as_bytes()).is_none());
    // Unclosed section heading.
    assert!(entries("[repo\n".as_bytes()).is_none());
    // An empty file parses to no entries.
    assert_eq!(entries("".as_bytes()).unwrap().len(), 0);
}
