use nest_unzip::text::{char_is_space, decimal_string, join_strings, str_eq, trim_str};

#[test]
fn decimal_strings() {
    assert_eq!(decimal_string(0), "0");
    assert_eq!(decimal_string(7), "7");
    assert_eq!(decimal_string(1020), "1020");
    assert_eq!(decimal_string(u128::MAX), u128::MAX.to_string());
}

#[test]
fn joined_strings() {
    let v: Vec<String> = vec!["a".to_string(), "bc".to_string(), "".to_string()];
    assert_eq!(join_strings(&v, ", "), "a, bc, ");
    assert_eq!(join_strings(&Vec::new(), ", "), "");
    assert_eq!(join_strings(&vec!["x".to_string()], "-"), "x");
}

#[test]
fn trimming_follows_unicode_white_space() {
    assert_eq!(trim_str(" \t\u{2003}a b\u{85}\r\n"), "a b");
    assert_eq!(trim_str("   "), "");
    assert!(char_is_space('\u{1680}'));
    assert!(!char_is_space('\u{200b}'));
    assert!(!char_is_space('x'));
    for c in ['\u{9}', '\u{a}', '\u{b}', '\u{c}', '\u{d}', ' ', '\u{85}', '\u{a0}', '\u{2028}', '\u{3000}'] {
        assert_eq!(char_is_space(c), c.is_whitespace());
    }
}

#[test]
fn string_equality() {
    assert!(str_eq("7z", "7z"));
    assert!(!str_eq("7z", "7z "));
    assert!(str_eq("", ""));
}
