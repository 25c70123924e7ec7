use tswift::foundation::{is_white_space, ns_string_bool_value, ns_string_integer_value};

#[test]
fn bool_value_reads_the_documented_leading_characters() {
    assert!(ns_string_bool_value("YES"));
    assert!(!ns_string_bool_value("no"));
    assert!(ns_string_bool_value("  true"));
    assert!(ns_string_bool_value("7"));
    assert!(!ns_string_bool_value("0"));
    assert!(!ns_string_bool_value(""));
    assert!(!ns_string_bool_value("   "));
    assert!(ns_string_bool_value("\u{3000}Yep"));
}

#[test]
fn integer_value_reads_the_leading_signed_digits() {
    assert_eq!(ns_string_integer_value("12abc"), 12);
    assert_eq!(ns_string_integer_value("abc"), 0);
    assert_eq!(ns_string_integer_value("  -42xyz"), -42);
    assert_eq!(ns_string_integer_value("+7"), 7);
    assert_eq!(ns_string_integer_value("-"), 0);
    assert_eq!(ns_string_integer_value("\t\n 00042"), 42);
}

#[test]
fn integer_value_is_zero_when_out_of_range() {
    assert_eq!(ns_string_integer_value("9223372036854775807"), i64::MAX);
    assert_eq!(ns_string_integer_value("9223372036854775808"), 0);
    assert_eq!(ns_string_integer_value("-9223372036854775808"), i64::MIN);
    assert_eq!(ns_string_integer_value("-9223372036854775809"), 0);
    assert_eq!(ns_string_integer_value("123456789012345678901234567890"), 0);
}

#[test]
fn white_space_matches_std() {
    for c in ['\t', '\n', '\u{0B}', ' ', '\u{85}', '\u{A0}', '\u{2003}', '\u{3000}', 'a', '0', '\u{200B}'] {
        assert_eq!(is_white_space(c), c.is_whitespace(), "{:?}", c);
    }
}
