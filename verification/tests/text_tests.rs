use alglobo::text::{decimal_string, parse_unsigned_decimal, push_bool, push_decimal, split_fields};

#[test]
fn split_fields_on_every_comma() {
    let fields = split_fields("aa,bb,american,package");
    assert_eq!(fields, vec!["aa", "bb", "american", "package"]);
}

#[test]
fn split_fields_keeps_empty_fields() {
    assert_eq!(split_fields(""), vec![""]);
    assert_eq!(split_fields(","), vec!["", ""]);
    assert_eq!(split_fields("a,,b,"), vec!["a", "", "b", ""]);
}

#[test]
fn split_fields_counts_characters_not_bytes() {
    assert_eq!(split_fields("São Paulo,Río"), vec!["São Paulo", "Río"]);
}

#[test]
fn decimal_rendering() {
    assert_eq!(decimal_string(0), "0");
    assert_eq!(decimal_string(7), "7");
    assert_eq!(decimal_string(10), "10");
    assert_eq!(decimal_string(1234567890), "1234567890");
    assert_eq!(decimal_string(u64::MAX), u64::MAX.to_string());
    let mut s = String::from("n=");
    push_decimal(&mut s, 42);
    assert_eq!(s, "n=42");
}

#[test]
fn bool_rendering() {
    let mut s = String::new();
    push_bool(&mut s, true);
    s.push('/');
    push_bool(&mut s, false);
    assert_eq!(s, "true/false");
}

#[test]
fn parse_unsigned_accepts_digits_and_plus() {
    assert_eq!(parse_unsigned_decimal("0", u32::MAX as u64), Some(0));
    assert_eq!(parse_unsigned_decimal("100", u32::MAX as u64), Some(100));
    assert_eq!(parse_unsigned_decimal("+25", u32::MAX as u64), Some(25));
    assert_eq!(parse_unsigned_decimal("007", u32::MAX as u64), Some(7));
    assert_eq!(parse_unsigned_decimal("4294967295", u32::MAX as u64), Some(4294967295));
    assert_eq!(parse_unsigned_decimal("18446744073709551615", u64::MAX), Some(u64::MAX));
}

#[test]
fn parse_unsigned_rejects_what_str_parse_rejects() {
    for s in ["", "+", "-1", " 1", "1 ", "1a", "4294967296", "18446744073709551616", "99999999999999999999999"] {
        assert_eq!(parse_unsigned_decimal(s, u32::MAX as u64).is_some(), s.parse::<u32>().is_ok(), "{}", s);
    }
    assert_eq!(parse_unsigned_decimal("18446744073709551616", u64::MAX), None);
}

#[test]
fn parse_unsigned_agrees_with_str_parse() {
    for s in ["0", "1", "+1", "12", "65535", "65536", "4294967295", "4294967296", "x", "++1", "1+"] {
        let ours = parse_unsigned_decimal(s, u32::MAX as u64).map(|v| v as u32);
        assert_eq!(ours, s.parse::<u32>().ok(), "{}", s);
        let ours64 = parse_unsigned_decimal(s, u64::MAX);
        assert_eq!(ours64, s.parse::<u64>().ok(), "{}", s);
    }
}
