use wsaas::text::{decimal_text, parse_bounded, parse_u16, parse_usize, setting_or};

#[test]
fn decimal_text_values() {
    assert_eq!(decimal_text(0), "0");
    assert_eq!(decimal_text(7), "7");
    assert_eq!(decimal_text(10), "10");
    assert_eq!(decimal_text(30000), "30000");
    assert_eq!(decimal_text(u64::MAX), u64::MAX.to_string());
}

#[test]
fn parse_u16_accepts_decimal_numbers() {
    assert_eq!(parse_u16("8080"), Some(8080));
    assert_eq!(parse_u16("0"), Some(0));
    assert_eq!(parse_u16("0007"), Some(7));
    assert_eq!(parse_u16("+5"), Some(5));
    assert_eq!(parse_u16("65535"), Some(65535));
}

#[test]
fn parse_u16_refuses_what_std_refuses() {
    for s in ["", "+", "-1", "65536", "12a", " 1", "1 ", "++1", "99999999999999999999999"] {
        assert_eq!(parse_u16(s), None, "{:?}", s);
        assert!(s.parse::<u16>().is_err(), "{:?}", s);
    }
}

#[test]
fn parse_u16_agrees_with_std() {
    for s in ["1", "42", "+42", "00", "65535", "65536", "x", "4-2", "٣"] {
        assert_eq!(parse_u16(s), s.parse::<u16>().ok(), "{:?}", s);
    }
}

#[test]
fn parse_usize_values() {
    assert_eq!(parse_usize("4"), Some(4));
    assert_eq!(parse_usize(&usize::MAX.to_string()), Some(usize::MAX));
    assert_eq!(parse_usize("18446744073709551616"), None);
    assert_eq!(parse_usize("four"), None);
}

#[test]
fn parse_bounded_respects_bound() {
    assert_eq!(parse_bounded("10", 10), Some(10));
    assert_eq!(parse_bounded("11", 10), None);
    assert_eq!(parse_bounded("9", 0), None);
}

#[test]
fn setting_or_prefers_given_value() {
    assert_eq!(setting_or(Some("9000".to_string()), "8080"), "9000");
    assert_eq!(setting_or(None, "8080"), "8080");
}

#[test]
fn parse_reads_back_decimal_text() {
    for n in [0u64, 1, 9, 10, 99, 100, 4096, 30000, 65535] {
        assert_eq!(parse_u16(&decimal_text(n)), Some(n as u16));
    }
    assert_eq!(parse_u16(&decimal_text(65536)), None);
    assert_eq!(parse_bounded(&decimal_text(u64::MAX), u64::MAX), Some(u64::MAX));
}
