use font_enumerator::text::{
    append_decimal, append_signed, chars_of, contains, parse_i32, str_lt, trim_trailing_nuls,
    wide_to_string,
};

fn decimal(n: u64) -> String {
    let mut out = String::new();
    append_decimal(&mut out, n);
    out
}

fn signed(n: i32) -> String {
    let mut out = String::new();
    append_signed(&mut out, n);
    out
}

#[test]
fn decimal_of_small_and_large_numbers() {
    assert_eq!(decimal(0), "0");
    assert_eq!(decimal(7), "7");
    assert_eq!(decimal(10), "10");
    assert_eq!(decimal(50), "50");
    assert_eq!(decimal(1234567890), "1234567890");
    assert_eq!(decimal(u64::MAX), "18446744073709551615");
}

#[test]
fn decimal_is_appended_to_what_is_there() {
    let mut out = String::from("n=");
    append_decimal(&mut out, 42);
    assert_eq!(out, "n=42");
}

#[test]
fn signed_decimal_of_both_signs() {
    assert_eq!(signed(0), "0");
    assert_eq!(signed(400), "400");
    assert_eq!(signed(-1), "-1");
    assert_eq!(signed(-900), "-900");
    assert_eq!(signed(i32::MAX), "2147483647");
    assert_eq!(signed(i32::MIN), "-2147483648");
}

#[test]
fn signed_decimal_agrees_with_std() {
    for n in [-100000, -99, -10, -9, 0, 9, 10, 99, 100, 101, 65535, 1000000] {
        assert_eq!(signed(n), n.to_string());
    }
}

#[test]
fn parse_reads_plain_numbers() {
    assert_eq!(parse_i32("0"), Some(0));
    assert_eq!(parse_i32("400"), Some(400));
    assert_eq!(parse_i32("700"), Some(700));
    assert_eq!(parse_i32("007"), Some(7));
}

#[test]
fn parse_reads_signs() {
    assert_eq!(parse_i32("+5"), Some(5));
    assert_eq!(parse_i32("-5"), Some(-5));
    assert_eq!(parse_i32("-0"), Some(0));
}

#[test]
fn parse_reads_the_limits() {
    assert_eq!(parse_i32("2147483647"), Some(i32::MAX));
    assert_eq!(parse_i32("-2147483648"), Some(i32::MIN));
    assert_eq!(parse_i32("2147483648"), None);
    assert_eq!(parse_i32("-2147483649"), None);
    assert_eq!(parse_i32("99999999999999999999999999"), None);
    assert_eq!(parse_i32("00000000000000000000000001"), Some(1));
}

#[test]
fn parse_rejects_what_is_no_number() {
    assert_eq!(parse_i32(""), None);
    assert_eq!(parse_i32("+"), None);
    assert_eq!(parse_i32("-"), None);
    assert_eq!(parse_i32("abc"), None);
    assert_eq!(parse_i32("12a"), None);
    assert_eq!(parse_i32(" 12"), None);
    assert_eq!(parse_i32("12 "), None);
    assert_eq!(parse_i32("+-1"), None);
    assert_eq!(parse_i32("1_000"), None);
    assert_eq!(parse_i32("4.5"), None);
}

#[test]
fn parse_agrees_with_std() {
    for text in ["", "0", "-", "+", "+0", "-12", "12", "٣", "1e3", "0x10", "2147483647", "2147483648"] {
        assert_eq!(parse_i32(text), text.parse::<i32>().ok());
    }
}

#[test]
fn trailing_nuls_are_removed() {
    assert_eq!(trim_trailing_nuls("Arial\0\0\0"), "Arial");
    assert_eq!(trim_trailing_nuls("Arial"), "Arial");
    assert_eq!(trim_trailing_nuls(""), "");
    assert_eq!(trim_trailing_nuls("\0\0"), "");
}

#[test]
fn inner_nuls_stay() {
    assert_eq!(trim_trailing_nuls("a\0b\0"), "a\0b");
    assert_eq!(trim_trailing_nuls("\0a"), "\0a");
}

#[test]
fn trimming_counts_characters_not_bytes() {
    assert_eq!(trim_trailing_nuls("Żółć\0"), "Żółć");
    assert_eq!(trim_trailing_nuls("游ゴシック\0\0"), "游ゴシック");
}

#[test]
fn wide_buffer_is_decoded_and_trimmed() {
    let mut units: Vec<u16> = "Segoe UI".encode_utf16().collect();
    units.resize(32, 0);
    assert_eq!(wide_to_string(&units), "Segoe UI");
}

#[test]
fn wide_buffer_with_surrogate_pair() {
    let mut units: Vec<u16> = "A\u{1F600}".encode_utf16().collect();
    units.push(0);
    assert_eq!(units.len(), 4);
    assert_eq!(wide_to_string(&units), "A\u{1F600}");
}

#[test]
fn wide_buffer_with_lone_surrogate_is_replaced() {
    let units: Vec<u16> = vec![0x0041, 0xD800, 0x0042, 0, 0];
    assert_eq!(wide_to_string(&units), "A\u{FFFD}B");
}

#[test]
fn empty_wide_buffer_gives_empty_text() {
    assert_eq!(wide_to_string(&Vec::new()), "");
    assert_eq!(wide_to_string(&vec![0u16; 8]), "");
}

#[test]
fn characters_of_a_text() {
    assert_eq!(chars_of(""), Vec::<char>::new());
    assert_eq!(chars_of("Ab"), vec!['A', 'b']);
    assert_eq!(chars_of("é\u{1F600}"), vec!['é', '\u{1F600}']);
}

#[test]
fn substring_search() {
    assert!(contains("segoe ui", "seg"));
    assert!(contains("segoe ui", "ui"));
    assert!(contains("segoe ui", "e u"));
    assert!(contains("segoe ui", "segoe ui"));
    assert!(contains("segoe ui", ""));
    assert!(contains("", ""));
    assert!(!contains("", "a"));
    assert!(!contains("segoe ui", "segoe ui "));
    assert!(!contains("segoe ui", "sego ui"));
    assert!(!contains("aab", "abb"));
    assert!(contains("aaab", "aab"));
    assert!(contains("游ゴシック", "シッ"));
}

#[test]
fn substring_search_agrees_with_std() {
    let texts = ["", "a", "ab", "aab", "abab", "bold italic", "é", "aé"];
    for hay in texts {
        for needle in texts {
            assert_eq!(contains(hay, needle), hay.contains(needle));
        }
    }
}

#[test]
fn order_of_texts() {
    assert!(str_lt("", "a"));
    assert!(!str_lt("", ""));
    assert!(!str_lt("a", ""));
    assert!(str_lt("Arial", "Arial Black"));
    assert!(str_lt("Arial", "Arian"));
    assert!(!str_lt("Arial", "Arial"));
    assert!(str_lt("Z", "a"));
    assert!(!str_lt("b", "abc"));
}

#[test]
fn order_of_texts_agrees_with_std() {
    let texts = ["", "a", "A", "ab", "b", "é", "z", "\u{FFFD}", "\u{1F600}", "Arial", "arial"];
    for a in texts {
        for b in texts {
            assert_eq!(str_lt(a, b), a < b);
        }
    }
}
