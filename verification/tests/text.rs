use server::text::{is_whitespace, parse_u32, trim_bounds, u32_to_decimal};

#[test]
fn decimal_of_small_and_large_numbers() {
    assert_eq!(u32_to_decimal(0), "0");
    assert_eq!(u32_to_decimal(7), "7");
    assert_eq!(u32_to_decimal(10), "10");
    assert_eq!(u32_to_decimal(1234567), "1234567");
    assert_eq!(u32_to_decimal(u32::MAX), "4294967295");
}

#[test]
fn decimal_matches_to_string() {
    for n in [0u32, 1, 9, 10, 99, 100, 65535, 1_000_000, u32::MAX - 1, u32::MAX] {
        assert_eq!(u32_to_decimal(n), n.to_string());
    }
}

#[test]
fn parse_accepts_plain_and_plus_signed_digits() {
    assert_eq!(parse_u32("42"), Some(42));
    assert_eq!(parse_u32("+7"), Some(7));
    assert_eq!(parse_u32("007"), Some(7));
    assert_eq!(parse_u32("4294967295"), Some(u32::MAX));
}

#[test]
fn parse_refuses_what_std_refuses() {
    for s in ["", "+", "-", "-1", "4294967296", "99999999999", "12a", " 1", "1 ", "++1", "+-1", "١"] {
        assert_eq!(parse_u32(s), None, "input {:?}", s);
        assert!(s.parse::<u32>().is_err(), "input {:?}", s);
    }
}

#[test]
fn parse_agrees_with_std() {
    for s in ["0", "1", "+0", "000000000000000000001", "2147483648", "4294967295", "4294967296"] {
        assert_eq!(parse_u32(s), s.parse::<u32>().ok(), "input {:?}", s);
    }
}

#[test]
fn parse_reads_back_decimal() {
    for n in [0u32, 5, 10, 123, 4000000000, u32::MAX] {
        assert_eq!(parse_u32(&u32_to_decimal(n)), Some(n));
    }
}

#[test]
fn whitespace_matches_char_is_whitespace() {
    for c in ['\t', '\n', '\u{b}', '\u{c}', '\r', ' ', '\u{85}', '\u{a0}', '\u{1680}', '\u{2000}', '\u{200a}', '\u{2028}', '\u{2029}', '\u{202f}', '\u{205f}', '\u{3000}', 'a', '0', ',', '\u{200b}', '\u{180e}', '\u{feff}'] {
        assert_eq!(is_whitespace(c), c.is_whitespace(), "char {:?}", c);
    }
}

#[test]
fn trim_bounds_match_str_trim() {
    for s in ["", "   ", " a ", "\tab\n", "x", " x y "] {
        let chars: Vec<char> = s.chars().collect();
        let (lo, hi) = trim_bounds(&chars, 0, chars.len());
        let got: String = chars[lo..hi].iter().collect();
        assert_eq!(got, s.trim());
    }
}

#[test]
fn chars_of_keeps_order() {
    assert_eq!(server::text::chars_of("héllo, 世界"), "héllo, 世界".chars().collect::<Vec<char>>());
    assert!(server::text::chars_of("").is_empty());
}

#[test]
fn parse_u64_matches_std_results_and_errors() {
    let cases = [
        "", "+", "-", "0", "+0", "18446744073709551615", "18446744073709551616",
        "99999999999999999999", "9999999999999999999x", "99999999999999999999x", "x99999999999999999999",
        "12 ", "-5", "+12345", "00000000000000000000000000000000000042",
    ];
    for s in cases {
        let ours = server::text::parse_u64(s);
        let std = s.parse::<u64>();
        match (ours, std) {
            (Ok(a), Ok(b)) => assert_eq!(a, b, "input {:?}", s),
            (Err(k), Err(e)) => {
                let expected = match e.kind() {
                    std::num::IntErrorKind::Empty => server::text::IntErrorKind::Empty,
                    std::num::IntErrorKind::InvalidDigit => server::text::IntErrorKind::InvalidDigit,
                    std::num::IntErrorKind::PosOverflow => server::text::IntErrorKind::PosOverflow,
                    other => panic!("unexpected kind {:?}", other),
                };
                assert_eq!(k, expected, "input {:?}", s);
            }
            (a, b) => panic!("input {:?}: {:?} vs {:?}", s, a, b),
        }
    }
}
