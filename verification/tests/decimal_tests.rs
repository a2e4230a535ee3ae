use stock_stalker::decimal::{format_u64, parse_u16, parse_u32, parse_u64, IntErrorKind};

#[test]
fn parse_agrees_with_std() {
    for s in [
        "0", "1", "+1", "-1", "+", "-", "", "65535", "65536", "007", "99999", "1a", "a1",
        "99999999999999999999a", "4294967295", "4294967296", "18446744073709551615",
        "18446744073709551616", " 1", "1 ", "١",
    ] {
        assert_eq!(parse_u16(s).ok(), s.parse::<u16>().ok(), "u16 {:?}", s);
        assert_eq!(parse_u32(s).ok(), s.parse::<u32>().ok(), "u32 {:?}", s);
        assert_eq!(parse_u64(s).ok(), s.parse::<u64>().ok(), "u64 {:?}", s);
        if let Err(k) = parse_u32(s) {
            assert_eq!(k.description(), s.parse::<u32>().unwrap_err().to_string(), "{:?}", s);
        }
    }
}

#[test]
fn parse_error_kinds() {
    assert_eq!(parse_u16(""), Err(IntErrorKind::Empty));
    assert_eq!(parse_u16("+"), Err(IntErrorKind::InvalidDigit));
    assert_eq!(parse_u16("12x"), Err(IntErrorKind::InvalidDigit));
    assert_eq!(parse_u16("70000"), Err(IntErrorKind::PosOverflow));
    // the first problem from the left decides
    assert_eq!(parse_u16("99999x"), Err(IntErrorKind::PosOverflow));
    assert_eq!(parse_u16("9x9999"), Err(IntErrorKind::InvalidDigit));
}

#[test]
fn format_agrees_with_std_and_round_trips() {
    for n in [0u64, 7, 10, 99, 100, 12345, u32::MAX as u64, u64::MAX] {
        let s = format_u64(n);
        assert_eq!(s, n.to_string());
        assert_eq!(parse_u64(&s), Ok(n));
    }
}
