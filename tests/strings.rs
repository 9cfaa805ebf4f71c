use guarding::str_support::{replace_string_markers, unescape};

#[test]
fn removes_quote_markers() {
    assert_eq!("abc", replace_string_markers("\"abc\""));
    assert_eq!("a'b", replace_string_markers("'a'b'"));
    assert_eq!("a\\\"b", replace_string_markers("\"a\\\"b\""));
    assert_eq!("", replace_string_markers("\"\""));
    assert_eq!("x", replace_string_markers("`x`"));
}

#[test]
fn resolves_simple_escapes() {
    assert_eq!(Some("a\"b\\c\n\t\r\0'".to_string()), unescape("a\\\"b\\\\c\\n\\t\\r\\0\\'"));
}

#[test]
fn resolves_hex_and_unicode_escapes() {
    assert_eq!(Some("A".to_string()), unescape("\\x41"));
    assert_eq!(Some("\u{1F600}!".to_string()), unescape("\\u{1F600}!"));
    assert_eq!(Some("\u{e9}".to_string()), unescape("\\u{e9}"));
}

#[test]
fn rejects_malformed_escapes() {
    assert_eq!(None, unescape("\\q"));
    assert_eq!(None, unescape("\\x4"));
    assert_eq!(None, unescape("\\xZZ"));
    assert_eq!(None, unescape("\\u{1}"));
    assert_eq!(None, unescape("\\u{1234567}"));
    assert_eq!(None, unescape("\\u{D800}"));
    assert_eq!(None, unescape("\\u{41"));
    assert_eq!(None, unescape("\\u41"));
    assert_eq!(None, unescape("end\\"));
}
