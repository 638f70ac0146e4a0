use captcha_engine::text::{
    char_is_space, decimal_text, has_several_tokens, parse_decimal, push_decimal,
};

#[test]
fn parse_decimal_reads_plain_numbers() {
    assert_eq!(parse_decimal("0"), Some(0));
    assert_eq!(parse_decimal("7"), Some(7));
    assert_eq!(parse_decimal("04821"), Some(4821));
    assert_eq!(parse_decimal("00000"), Some(0));
    assert_eq!(parse_decimal("2576980377"), Some(2576980377));
    assert_eq!(parse_decimal("4294967295"), Some(u32::MAX));
    assert_eq!(parse_decimal("0000000000000004294967295"), Some(u32::MAX));
}

#[test]
fn parse_decimal_takes_a_leading_plus() {
    assert_eq!(parse_decimal("+5"), Some(5));
    assert_eq!(parse_decimal("+042"), Some(42));
    assert_eq!(parse_decimal("+"), None);
    assert_eq!(parse_decimal("++5"), None);
    assert_eq!(parse_decimal("5+"), None);
}

#[test]
fn parse_decimal_refuses_what_is_no_number() {
    assert_eq!(parse_decimal(""), None);
    assert_eq!(parse_decimal("-"), None);
    assert_eq!(parse_decimal("-5"), None);
    assert_eq!(parse_decimal("-0"), None);
    assert_eq!(parse_decimal(" 5"), None);
    assert_eq!(parse_decimal("5 "), None);
    assert_eq!(parse_decimal("12a"), None);
    assert_eq!(parse_decimal("0x10"), None);
    assert_eq!(parse_decimal("1_000"), None);
    assert_eq!(parse_decimal("1.0"), None);
    assert_eq!(parse_decimal("\u{661}\u{662}"), None);
    assert_eq!(parse_decimal("\u{ff11}"), None);
}

#[test]
fn parse_decimal_refuses_what_does_not_fit() {
    assert_eq!(parse_decimal("4294967296"), None);
    assert_eq!(parse_decimal("4294967300"), None);
    assert_eq!(parse_decimal("42949672950"), None);
    assert_eq!(parse_decimal("99999999999999999999999999"), None);
    assert_eq!(parse_decimal("+4294967296"), None);
}

#[test]
fn parse_decimal_agrees_with_the_standard_reading() {
    let samples = [
        "", "0", "1", "+1", "-1", "+", "-", "00", "+00", "0+", "12345", "99999", "100000",
        "4294967295", "4294967296", "04294967295", "+4294967295", "18446744073709551616", " 1",
        "1 ", "1\n", "\t1", "a", "1a", "a1", "1e3", "١٢", "１２", "1١", "٣", "+-1", "--1", "0x1",
        "1,000", "1.5", "∞", "１", "+0", "-0", "000", "2576980377", "2576980378",
    ];
    for s in samples {
        assert_eq!(parse_decimal(s), s.parse::<u32>().ok(), "on {:?}", s);
        assert_eq!(parse_decimal(s), u32::from_str_radix(s, 10).ok(), "on {:?}", s);
    }
}

#[test]
fn decimal_text_writes_without_leading_zeros() {
    assert_eq!(decimal_text(0), "0");
    assert_eq!(decimal_text(9), "9");
    assert_eq!(decimal_text(10), "10");
    assert_eq!(decimal_text(4821), "4821");
    assert_eq!(decimal_text(2576980377), "2576980377");
    assert_eq!(decimal_text(u32::MAX), "4294967295");
}

#[test]
fn decimal_text_agrees_with_the_standard_writing() {
    let mut n: u32 = 1;
    for _ in 0..2000 {
        assert_eq!(decimal_text(n), format!("{}", n));
        n = n.wrapping_mul(1664525).wrapping_add(1013904223);
    }
    for n in 0..1200u32 {
        assert_eq!(decimal_text(n), format!("{}", n));
    }
}

#[test]
fn decimal_text_is_read_back() {
    let mut n: u32 = 7;
    for _ in 0..2000 {
        assert_eq!(parse_decimal(&decimal_text(n)), Some(n));
        n = n.wrapping_mul(22695477).wrapping_add(1);
    }
    assert_eq!(parse_decimal(&decimal_text(0)), Some(0));
    assert_eq!(parse_decimal(&decimal_text(u32::MAX)), Some(u32::MAX));
}

#[test]
fn push_decimal_writes_at_the_end() {
    let mut out = String::from("x=");
    push_decimal(&mut out, 120);
    assert_eq!(out, "x=120");
    push_decimal(&mut out, 0);
    assert_eq!(out, "x=1200");
}

#[test]
fn char_is_space_agrees_with_the_standard_on_every_character() {
    let mut spaces = 0;
    for code in 0..=0x10FFFFu32 {
        if let Some(c) = char::from_u32(code) {
            assert_eq!(char_is_space(c), c.is_whitespace(), "on U+{:04X}", code);
            if char_is_space(c) {
                spaces += 1;
            }
        }
    }
    assert_eq!(spaces, 25);
}

#[test]
fn has_several_tokens_counts_runs_between_white_space() {
    assert!(!has_several_tokens(""));
    assert!(!has_several_tokens(" "));
    assert!(!has_several_tokens("   \t\n"));
    assert!(!has_several_tokens("alice"));
    assert!(!has_several_tokens("  alice  "));
    assert!(!has_several_tokens("\talice\n"));
    assert!(has_several_tokens("alice bob"));
    assert!(has_several_tokens("alice  bob"));
    assert!(has_several_tokens(" a b "));
    assert!(has_several_tokens("a\tb"));
    assert!(has_several_tokens("a\nb"));
    assert!(has_several_tokens("a\u{a0}b"));
    assert!(has_several_tokens("a\u{3000}b"));
    assert!(has_several_tokens("a b c d"));
    assert!(!has_several_tokens("a\u{200b}b"));
    assert!(!has_several_tokens("a_b"));
    assert!(!has_several_tokens("żółw"));
}

#[test]
fn has_several_tokens_agrees_with_the_standard_split() {
    let pieces = ["", " ", "a", "bc", "\t", "\u{a0}", "\u{2003}", "é", "\n", "\u{200b}", "x y"];
    for a in pieces {
        for b in pieces {
            for c in pieces {
                let s = format!("{}{}{}", a, b, c);
                assert_eq!(
                    has_several_tokens(&s),
                    s.split_whitespace().count() > 1,
                    "on {:?}",
                    s
                );
            }
        }
    }
}
