use krown_memory::{
    escape_into, escape_json, escape_json_bytes, escape_json_string, needs_escaping, EscapeError,
};

#[test]
fn escape_quote() {
    assert_eq!(escape_json_string("a\"b"), "a\\\"b");
}

#[test]
fn escape_newline() {
    assert_eq!(escape_json_string("line1\nline2"), "line1\\nline2");
}

#[test]
fn escape_control_as_unicode() {
    assert_eq!(escape_json_string("\u{0001}"), "\\u0001");
    assert_eq!(escape_json_string("\u{001f}"), "\\u001f");
}

#[test]
fn escape_empty() {
    assert_eq!(escape_json_string(""), "");
}

#[test]
fn escape_full_table() {
    assert_eq!(
        escape_json_string("\\ \r \t \u{0008} \u{000c}"),
        "\\\\ \\r \\t \\b \\f"
    );
}

#[test]
fn escape_keeps_non_ascii() {
    assert_eq!(escape_json_string("caf\u{e9} \u{1f600}"), "caf\u{e9} \u{1f600}");
}

#[test]
fn needs_escaping_cases() {
    assert!(!needs_escaping("plain text"));
    assert!(needs_escaping("has\ttab"));
    assert!(needs_escaping("q\""));
    assert!(needs_escaping("back\\slash"));
    assert!(!needs_escaping(""));
}

#[test]
fn safe_text_escapes_to_itself() {
    for text in ["plain text", "", "caf\u{e9}", "{}[]:,"] {
        assert!(!needs_escaping(text));
        assert_eq!(escape_json_string(text), text);
    }
}

#[test]
fn escape_into_appends() {
    let mut out = String::from("x=");
    escape_into("a\nb", &mut out);
    assert_eq!(out, "x=a\\nb");
}

#[test]
fn bounded_escape_exact_fit() {
    // escaped "a\"b" is four bytes, plus the terminator
    let mut out = [0xffu8; 5];
    assert_eq!(escape_json("a\"b", &mut out), Ok(4));
    assert_eq!(&out, b"a\\\"b\0");
}

#[test]
fn bounded_escape_one_byte_short() {
    let mut out = [0xffu8; 4];
    assert_eq!(escape_json("a\"b", &mut out), Err(EscapeError::BufferTooSmall));
    assert_eq!(out, [0xffu8; 4]);
}

#[test]
fn bounded_copy_exact_fit_and_short() {
    let mut fits = [0xffu8; 6];
    assert_eq!(escape_json("hello", &mut fits), Ok(5));
    assert_eq!(&fits, b"hello\0");
    let mut short = [0xffu8; 5];
    assert_eq!(escape_json("hello", &mut short), Err(EscapeError::BufferTooSmall));
}

#[test]
fn bounded_escape_leaves_tail() {
    let mut out = [0xffu8; 8];
    assert_eq!(escape_json("a\n", &mut out), Ok(3));
    assert_eq!(&out[..4], b"a\\n\0");
    assert_eq!(&out[4..], &[0xff; 4]);
}

#[test]
fn bounded_escape_empty_destination() {
    let mut out: [u8; 0] = [];
    assert_eq!(escape_json("", &mut out), Err(EscapeError::BufferTooSmall));
}

#[test]
fn bounded_escape_bytes_rejects_invalid_utf8() {
    let mut out = [0u8; 16];
    assert_eq!(
        escape_json_bytes(&[0x61, 0xff, 0x62], &mut out),
        Err(EscapeError::InvalidEncoding)
    );
    assert_eq!(out, [0u8; 16]);
}

#[test]
fn bounded_escape_bytes_escapes_valid_text() {
    let mut out = [0u8; 16];
    assert_eq!(escape_json_bytes(b"\x01", &mut out), Ok(6));
    assert_eq!(&out[..7], b"\\u0001\0");
}
