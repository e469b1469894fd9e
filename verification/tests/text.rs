use fit::text::{
    bytes_eq, char_is_space, has_nul, parse_decimal, parse_number, split_trimmed, str_eq,
    trim_bounds,
};

#[test]
fn texts_compare_by_their_characters() {
    assert!(str_eq("uint8", "uint8"));
    assert!(!str_eq("uint8", "uint8z"));
    assert!(!str_eq("uint8", "Uint8"));
    assert!(str_eq("", ""));
    assert!(str_eq("gr\u{fc}n", "gr\u{fc}n"));
    assert!(!str_eq("gr\u{fc}n", "grun"));
    assert!(bytes_eq(&[1, 2, 3], &[1, 2, 3]));
    assert!(!bytes_eq(&[1, 2, 3], &[1, 2]));
    assert!(!bytes_eq(&[1, 2, 3], &[1, 2, 4]));
}

#[test]
fn nul_is_found() {
    assert!(!has_nul("abc"));
    assert!(has_nul("a\0c"));
    assert!(has_nul("\0"));
    assert!(!has_nul(""));
}

#[test]
fn decimal_numbers() {
    assert_eq!(parse_decimal("0", 255), Some(0));
    assert_eq!(parse_decimal("253", 255), Some(253));
    assert_eq!(parse_decimal("255", 255), Some(255));
    assert_eq!(parse_decimal("256", 255), None);
    assert_eq!(parse_decimal("+7", 255), Some(7));
    assert_eq!(parse_decimal("007", 255), Some(7));
    assert_eq!(parse_decimal("", 255), None);
    assert_eq!(parse_decimal("+", 255), None);
    assert_eq!(parse_decimal("-1", 255), None);
    assert_eq!(parse_decimal("1 ", 255), None);
    assert_eq!(parse_decimal("1.0", 255), None);
    assert_eq!(parse_decimal("x", 255), None);
    assert_eq!(parse_decimal("18446744073709551615", u64::MAX), Some(u64::MAX));
    assert_eq!(parse_decimal("18446744073709551616", u64::MAX), None);
    assert_eq!(parse_decimal("99999999999999999999999999", u64::MAX), None);
    for n in 0..300u64 {
        let text = n.to_string();
        assert_eq!(parse_decimal(&text, 255).map(|v| v as u8), text.parse::<u8>().ok());
    }
}

#[test]
fn numbers_of_both_bases() {
    assert_eq!(parse_number("4", u64::MAX), Some(4));
    assert_eq!(parse_number("0x10", u64::MAX), Some(16));
    assert_eq!(parse_number("0XfF00", u64::MAX), Some(0xFF00));
    assert_eq!(parse_number("0x10000000", u64::MAX), Some(0x1000_0000));
    assert_eq!(parse_number("0xFFFFFFFFFFFFFFFF", u64::MAX), Some(u64::MAX));
    assert_eq!(parse_number("0x10000000000000000", u64::MAX), None);
    assert_eq!(parse_number("0x", u64::MAX), None);
    assert_eq!(parse_number("0xg", u64::MAX), None);
    assert_eq!(parse_number("x10", u64::MAX), None);
    assert_eq!(parse_number("0", u64::MAX), Some(0));
    assert_eq!(parse_number("", u64::MAX), None);
}

#[test]
fn white_space_is_that_of_the_standard() {
    for n in 0..0x11_0000u32 {
        if let Some(c) = char::from_u32(n) {
            assert_eq!(char_is_space(c), c.is_whitespace(), "{:x}", n);
        }
    }
}

#[test]
fn trimming_agrees_with_the_standard() {
    let texts =
        ["", " ", "a", " a", "a ", "  a b  ", "\t[3]\n", "\u{a0}x\u{3000}", "   ", "\u{fc} \u{fc}"];
    for text in texts {
        let (from, to) = trim_bounds(text);
        let chars: Vec<char> = text.chars().collect();
        let trimmed: String = chars[from..to].iter().collect();
        assert_eq!(trimmed, text.trim());
    }
}

#[test]
fn a_text_splits_at_its_commas() {
    assert_eq!(split_trimmed("a, b ,c"), ["a", "b", "c"]);
    assert_eq!(split_trimmed(" 8 ,\t8,8\n"), ["8", "8", "8"]);
    assert_eq!(split_trimmed("speed"), ["speed"]);
    assert_eq!(split_trimmed(""), [""]);
    assert_eq!(split_trimmed(","), ["", ""]);
    assert_eq!(split_trimmed("a,,b,"), ["a", "", "b", ""]);
    assert_eq!(split_trimmed(" \u{3000}x y\u{a0} , "), ["x y", ""]);
}

#[test]
fn a_split_is_that_of_the_standard_library() {
    for text in ["", " ", "a", "a,b", " a , b ", ",,", "1.5, 2 ,x", "é, ü ,\u{2028}z"] {
        let expected: Vec<String> = text.split(',').map(|part| part.trim().to_string()).collect();
        assert_eq!(split_trimmed(text), expected);
    }
}
