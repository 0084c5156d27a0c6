use spikeling_os::numbers::{decimal, hex, padded_decimal, parse_number, signed_decimal};
use spikeling_os::text::{
    chars_of, find_char, is_control, is_whitespace, join3, owned, pad_right, same_text, split_once,
    split_whitespace, strip_prefix, trim,
};

#[test]
fn numbers_print_in_decimal() {
    assert_eq!(decimal(0), "0");
    assert_eq!(decimal(7), "7");
    assert_eq!(decimal(10), "10");
    assert_eq!(decimal(4096), "4096");
    assert_eq!(decimal(u64::MAX), "18446744073709551615");
}

#[test]
fn signed_numbers_print_with_their_sign() {
    assert_eq!(signed_decimal(0), "0");
    assert_eq!(signed_decimal(-1), "-1");
    assert_eq!(signed_decimal(i32::MAX), "2147483647");
    assert_eq!(signed_decimal(i32::MIN), "-2147483648");
}

#[test]
fn hexadecimal_has_a_fixed_width() {
    assert_eq!(hex(0x8086, 4), "8086");
    assert_eq!(hex(0x2, 2), "02");
    assert_eq!(hex(0xabcd, 4), "abcd");
    assert_eq!(hex(0, 0), "");
}

#[test]
fn padded_numbers_have_zeros_in_front() {
    assert_eq!(padded_decimal(5, 2), "05");
    assert_eq!(padded_decimal(2024, 4), "2024");
    assert_eq!(padded_decimal(12345, 4), "12345");
    assert_eq!(padded_decimal(0, 1), "0");
}

#[test]
fn numbers_are_read_like_std_reads_them() {
    for s in ["0", "42", "+7", "007", "4294967295", "4294967296", "", "+", "-1", "12a", " 1", "++1"] {
        let expected = s.parse::<u32>().ok().map(|v| v as u64);
        assert_eq!(parse_number(s, u32::MAX as u64), expected, "{}", s);
    }
    for s in ["18446744073709551615", "18446744073709551616", "99999999999999999999999"] {
        assert_eq!(parse_number(s, u64::MAX), s.parse::<u64>().ok(), "{}", s);
    }
    assert_eq!(parse_number("255", 255), Some(255));
    assert_eq!(parse_number("256", 255), None);
}

#[test]
fn a_printed_number_reads_back() {
    for n in [0u64, 1, 9, 10, 99, 100, 65535, u64::MAX] {
        assert_eq!(parse_number(&decimal(n), u64::MAX), Some(n));
    }
}

#[test]
fn trimming_agrees_with_std() {
    for s in ["", " ", "  a b \t", "x", "\u{3000}y\u{a0}", "\u{200b}z", "\n\r\u{85}q\u{2028}"] {
        assert_eq!(trim(s), s.trim());
    }
}

#[test]
fn whitespace_and_control_agree_with_std() {
    for u in 0u32..0x3100 {
        if let Some(c) = char::from_u32(u) {
            assert_eq!(is_whitespace(c), c.is_whitespace(), "{:x}", u);
            assert_eq!(is_control(c), c.is_control(), "{:x}", u);
        }
    }
}

#[test]
fn splitting_agrees_with_std() {
    for s in ["", "  ", "a", " a  b\tc ", "1 2 3 4", "\u{2003}x y"] {
        let expected: Vec<String> = s.split_whitespace().map(|w| w.to_string()).collect();
        assert_eq!(split_whitespace(s), expected);
    }
    for s in ["", "a/b", "a/b/c", "/", "x/", "/y", "\u{e9}/\u{fc}"] {
        assert_eq!(split_once(s, '/'), s.split_once('/'));
    }
}

#[test]
fn prefixes_are_stripped() {
    assert_eq!(strip_prefix("beep 440", "beep "), Some("440"));
    assert_eq!(strip_prefix("beep", "beep "), None);
    assert_eq!(strip_prefix("read x", "rm "), None);
    assert_eq!(strip_prefix("\u{e9}a", "\u{e9}"), Some("a"));
}

#[test]
fn names_are_padded_on_the_right() {
    assert_eq!(pad_right("a", 4), format!("{:<4}", "a"));
    assert_eq!(pad_right("abcdef", 4), "abcdef");
    assert_eq!(pad_right("\u{e9}", 3), format!("{:<3}", "\u{e9}"));
}

#[test]
fn texts_are_searched_and_joined() {
    assert_eq!(find_char("abcabc", 'c'), Some(2));
    assert_eq!(find_char("abc", 'x'), None);
    assert_eq!(chars_of("a\u{e9}"), vec!['a', '\u{e9}']);
    assert_eq!(join3("a", "", "c"), "ac");
    assert_eq!(owned("abc"), "abc");
    assert!(same_text("abc", "abc"));
    assert!(!same_text("abc", "abd"));
    assert!(!same_text("abc", "ab"));
}
