use openlcd::text::{contains_chars, decimal_string, parse_u32, str_less, to_ascii_lowercase};

#[test]
fn writes_decimals() {
    assert_eq!(decimal_string(0), "0");
    assert_eq!(decimal_string(42), "42");
    assert_eq!(decimal_string(u64::MAX), "18446744073709551615");
}

#[test]
fn lowers_ascii_only() {
    assert_eq!(to_ascii_lowercase("CoreTemp Ä"), "coretemp Ä".chars().collect::<Vec<char>>());
}

#[test]
fn orders_strings_by_chars() {
    assert!(str_less("abc", "abd"));
    assert!(str_less("ab", "abc"));
    assert!(!str_less("abc", "abc"));
    assert!(!str_less("b", "abc"));
}

#[test]
fn parses_unsigned_numbers() {
    let chars = |s: &str| s.chars().collect::<Vec<char>>();
    assert_eq!(parse_u32(&chars("4294967295")), Some(u32::MAX));
    assert_eq!(parse_u32(&chars("4294967296")), None);
    assert_eq!(parse_u32(&chars("+7")), Some(7));
    assert_eq!(parse_u32(&chars("+")), None);
    assert_eq!(parse_u32(&chars("")), None);
    assert_eq!(parse_u32(&chars("1a")), None);
    assert!(contains_chars(&chars("package id"), &chars("age")));
    assert!(!contains_chars(&chars("core"), &chars("cpu")));
}
