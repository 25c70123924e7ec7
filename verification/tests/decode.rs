use tswift::decode::{
    flag_names, float_literal_parts, modifier_bits, parse_int_literal, FloatForm, FloatParts, PUBLIC, STATIC, THROWS,
};
use tswift::foundation::ns_double_prefix;

#[test]
fn integer_literals_in_every_radix() {
    assert_eq!(parse_int_literal("1_000"), Some(1000));
    assert_eq!(parse_int_literal("0xFF"), Some(255));
    assert_eq!(parse_int_literal("0o755"), Some(493));
    assert_eq!(parse_int_literal("0b1010"), Some(10));
    assert_eq!(parse_int_literal("-42"), Some(-42));
}

#[test]
fn integer_literal_edge_values() {
    assert_eq!(parse_int_literal("9223372036854775807"), Some(i64::MAX));
    assert_eq!(parse_int_literal("9223372036854775808"), None);
    assert_eq!(parse_int_literal("0x"), None);
    assert_eq!(parse_int_literal("12a"), None);
    assert_eq!(parse_int_literal("0"), Some(0));
}

#[test]
fn modifier_words_round_trip_through_the_mask() {
    let words = vec!["public".to_string(), "static".to_string(), "throws".to_string(), "bogus".to_string()];
    let bits = modifier_bits(&words);
    assert_eq!(bits, PUBLIC | STATIC | THROWS);
    assert_eq!(flag_names(bits), vec!["public", "static", "throws"]);
    assert_eq!(modifier_bits(&["class".to_string()]), STATIC);
}

fn hex_parts(text: &str) -> Option<(bool, Vec<u32>, Vec<u32>, i32)> {
    match float_literal_parts(text)? {
        FloatParts { negative, form: FloatForm::Hex { int_digits, frac_digits, exponent } } => {
            Some((negative, int_digits, frac_digits, exponent))
        }
        _ => panic!("{text} is not hexadecimal"),
    }
}

fn decimal_parts(text: &str) -> (bool, String) {
    match float_literal_parts(text) {
        Some(FloatParts { negative, form: FloatForm::Decimal(body) }) => (negative, body),
        _ => panic!("{text} is not a decimal float"),
    }
}

#[test]
fn decimal_float_text_drops_separators_and_sign() {
    assert_eq!(decimal_parts("3.5"), (false, "3.5".to_string()));
    assert_eq!(decimal_parts("1.5e3"), (false, "1.5e3".to_string()));
    assert_eq!(decimal_parts("1_000.5"), (false, "1000.5".to_string()));
    assert_eq!(decimal_parts("-2.25"), (true, "2.25".to_string()));
}

#[test]
fn hex_float_text_splits_into_digits_and_exponent() {
    assert_eq!(hex_parts("0x1.8p1"), Some((false, vec![1], vec![8], 1)));
    assert_eq!(hex_parts("0x1p4"), Some((false, vec![1], vec![], 4)));
    assert_eq!(hex_parts("0xA.8p0"), Some((false, vec![10], vec![8], 0)));
    assert_eq!(hex_parts("-0x1.0p2"), Some((true, vec![1], vec![0], 2)));
    assert_eq!(hex_parts("0X1_F.cP-3"), Some((false, vec![1, 15], vec![12], -3)));
}

#[test]
fn malformed_hex_floats_have_no_parts() {
    assert!(float_literal_parts("0x1.8").is_none());
    assert!(float_literal_parts("0x1.8pz").is_none());
    assert!(float_literal_parts("0xG.1p1").is_none());
    assert!(float_literal_parts("0x1.2.3p1").is_none());
    assert!(float_literal_parts("0x1p99999999999").is_none());
}

#[test]
fn double_value_reads_the_numeric_prefix() {
    assert_eq!(ns_double_prefix("3.75xyz"), "3.75");
    assert_eq!(ns_double_prefix("  -2.5e3q"), "-2.5e3");
    assert_eq!(ns_double_prefix("1e"), "1");
    assert_eq!(ns_double_prefix("1e+"), "1");
    assert_eq!(ns_double_prefix("4.E-2x"), "4.E-2");
    assert_eq!(ns_double_prefix("+.5"), "+.5");
    assert_eq!(ns_double_prefix("."), "");
    assert_eq!(ns_double_prefix("abc"), "");
    assert_eq!(ns_double_prefix("-"), "");
    assert_eq!(ns_double_prefix("\u{3000}7"), "7");
}

#[test]
fn decoding_an_encoded_modifier_list_names_its_keywords_in_bit_order() {
    let ms = vec!["weak".to_string(), "static".to_string(), "public".to_string(), "class".to_string()];
    assert_eq!(flag_names(modifier_bits(&ms)), vec!["public", "static", "weak"]);
    let none: Vec<String> = vec!["?.".to_string(), "inout".to_string(), "bogus".to_string()];
    assert!(flag_names(modifier_bits(&none)).is_empty());
}
