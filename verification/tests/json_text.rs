use jsoncdc::json::{append_escaped_byte, append_json};
use jsoncdc::text::{append_bytes, append_decimal, append_str};

fn json(s: &[u8]) -> Vec<u8> {
    let mut out = Vec::new();
    append_json(&mut out, s);
    out
}

#[test]
fn json_plain_text_is_quoted() {
    assert_eq!(json(b"hello"), b"\"hello\"".to_vec());
}

#[test]
fn json_empty_string() {
    assert_eq!(json(b""), b"\"\"".to_vec());
}

#[test]
fn json_short_escapes() {
    assert_eq!(
        json(b"a\x08b\x0cc\nd\re\tf"),
        b"\"a\\bb\\fc\\nd\\re\\tf\"".to_vec()
    );
}

#[test]
fn json_quote_and_backslash() {
    assert_eq!(json(b"say \"hi\" \\o/"), b"\"say \\\"hi\\\" \\\\o/\"".to_vec());
}

#[test]
fn json_other_control_bytes_as_unicode_escapes() {
    assert_eq!(json(b"\x01\x1f\x1b"), b"\"\\u0001\\u001f\\u001b\"".to_vec());
}

#[test]
fn json_high_bytes_pass_through() {
    // UTF-8 for "é" and DEL stay as they are.
    assert_eq!(json(b"caf\xc3\xa9\x7f"), b"\"caf\xc3\xa9\x7f\"".to_vec());
}

#[test]
fn json_appends_after_existing_bytes() {
    let mut out = b"x=".to_vec();
    append_json(&mut out, b"1");
    assert_eq!(out, b"x=\"1\"".to_vec());
}

#[test]
fn escaped_byte_forms() {
    let mut out = Vec::new();
    append_escaped_byte(&mut out, b'a');
    append_escaped_byte(&mut out, 0x00);
    append_escaped_byte(&mut out, b'"');
    assert_eq!(out, b"a\\u0000\\\"".to_vec());
}

#[test]
fn json_distinct_strings_print_differently() {
    // A line feed and the two characters backslash, n differ in the output.
    assert_ne!(json(b"\n"), json(b"\\n"));
    assert_eq!(json(b"\\n"), b"\"\\\\n\"".to_vec());
}

#[test]
fn json_output_has_no_control_bytes() {
    let input: Vec<u8> = (1u8..=255).collect();
    let out = json(&input);
    assert!(out.iter().all(|&b| b >= 0x20));
}

#[test]
fn decimal_numbers() {
    let mut out = Vec::new();
    append_decimal(&mut out, 0);
    append_str(&mut out, " ");
    append_decimal(&mut out, 7);
    append_str(&mut out, " ");
    append_decimal(&mut out, 10);
    append_str(&mut out, " ");
    append_decimal(&mut out, 1234567);
    append_str(&mut out, " ");
    append_decimal(&mut out, u32::MAX);
    assert_eq!(out, b"0 7 10 1234567 4294967295".to_vec());
}

#[test]
fn append_bytes_copies() {
    let mut out = b"ab".to_vec();
    append_bytes(&mut out, b"\x00cd");
    assert_eq!(out, b"ab\x00cd".to_vec());
}
