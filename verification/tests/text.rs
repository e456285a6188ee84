use chronicle_data_api::text::{i64_to_decimal, parse_i32, parse_u32, parse_u64, str_eq, u64_to_decimal, IntErrorKind};

#[test]
fn decimal_rendering() {
    assert_eq!(u64_to_decimal(0), "0");
    assert_eq!(u64_to_decimal(u64::MAX), "18446744073709551615");
    assert_eq!(i64_to_decimal(-42), "-42");
    assert_eq!(i64_to_decimal(i64::MIN), "-9223372036854775808");
}

#[test]
fn integer_parsing_matches_std() {
    for s in ["", "+", "-", "0", "+12", "-12", "12a", "4294967295", "4294967296", "-2147483648", "-2147483649", "2147483648", "99999999999999999999", "1x99999999999999999999"] {
        let want_i32 = s.parse::<i32>().map_err(|e| e.kind().clone());
        let got_i32 = parse_i32(s).map_err(|k| match k {
            IntErrorKind::Empty => std::num::IntErrorKind::Empty,
            IntErrorKind::InvalidDigit => std::num::IntErrorKind::InvalidDigit,
            IntErrorKind::PosOverflow => std::num::IntErrorKind::PosOverflow,
            IntErrorKind::NegOverflow => std::num::IntErrorKind::NegOverflow,
        });
        assert_eq!(got_i32, want_i32, "i32 {s:?}");
        assert_eq!(parse_u32(s).ok(), s.parse::<u32>().ok(), "u32 {s:?}");
        assert_eq!(parse_u64(s).ok(), s.parse::<u64>().ok(), "u64 {s:?}");
    }
    assert_eq!(parse_i32("x").unwrap_err().message(), "invalid digit found in string");
    assert_eq!(parse_u64("").unwrap_err().message(), "cannot parse integer from empty string");
}

#[test]
fn string_equality() {
    assert!(str_eq("abc", "abc"));
    assert!(!str_eq("abc", "abd"));
    assert!(!str_eq("ab", "abc"));
    assert!(str_eq("", ""));
}
