use bookmeter_discounts::text::{
    chars_of, contains_text, decimal_text, last_part, parse_u32, precedes, same_text, strip_ends,
    Strip,
};

#[test]
fn parse_u32_reads_plain_digits() {
    assert_eq!(parse_u32("4088843142"), Some(4088843142));
    assert_eq!(parse_u32("+17"), Some(17));
    assert_eq!(parse_u32("007"), Some(7));
}

#[test]
fn parse_u32_refuses_what_is_no_number() {
    assert_eq!(parse_u32(""), None);
    assert_eq!(parse_u32("+"), None);
    assert_eq!(parse_u32("-1"), None);
    assert_eq!(parse_u32("12a"), None);
    assert_eq!(parse_u32("4294967296"), None);
    assert_eq!(parse_u32("4294967295"), Some(u32::MAX));
}

#[test]
fn strip_ends_takes_quotes_off_both_ends() {
    assert_eq!(strip_ends("'https://x/dp/1'", Strip::Quote), "https://x/dp/1");
    assert_eq!(strip_ends("''", Strip::Quote), "");
    assert_eq!(strip_ends(" \t 1,234\u{3000}\n", Strip::Whitespace), "1,234");
}

#[test]
fn strip_ends_leaves_the_middle_alone() {
    assert_eq!(strip_ends("a'b", Strip::Quote), "a'b");
    assert_eq!(strip_ends("'a'b''", Strip::Quote), "a'b");
    assert_eq!(strip_ends(" a b ", Strip::Whitespace), "a b");
    assert_eq!(strip_ends("", Strip::Whitespace), "");
    assert_eq!(strip_ends(" \u{a0}\u{2003}\u{85}", Strip::Whitespace), "");
    assert_eq!(strip_ends("\u{200b}x\u{200b}", Strip::Whitespace), "\u{200b}x\u{200b}");
    assert_eq!(strip_ends("'本'", Strip::Quote), "本");
}

#[test]
fn strip_agrees_with_the_standard_library() {
    let samples =
        ["", " ", "  x  ", "\t\n x y \r\n", "\u{3000}本\u{3000}", "\u{1680}a\u{feff}", "'q'"];
    for s in samples {
        assert_eq!(strip_ends(s, Strip::Whitespace), s.trim());
        assert_eq!(strip_ends(s, Strip::Quote), s.trim_matches('\''));
    }
    for n in 0..=0x10ffffu32 {
        if let Some(c) = char::from_u32(n) {
            assert_eq!(Strip::Whitespace.takes(c), c.is_whitespace());
            assert_eq!(Strip::Quote.takes(c), c == '\'');
        }
    }
}

#[test]
fn last_part_is_what_follows_the_last_separator() {
    assert_eq!(last_part("/books/123", '/'), "123");
    assert_eq!(last_part("123", '/'), "123");
    assert_eq!(last_part("/books/123/", '/'), "");
    assert_eq!(last_part("", '/'), "");
    assert_eq!(last_part("/本/猫", '/'), "猫");
}

#[test]
fn contains_text_finds_a_run_of_characters() {
    assert!(contains_text("https://www.amazon.co.jp/dp/1", "amazon"));
    assert!(contains_text("amazon", "amazon"));
    assert!(contains_text("xamazo amazon", "amazon"));
    assert!(contains_text("anything", ""));
    assert!(contains_text("", ""));
    assert!(!contains_text("amazo", "amazon"));
    assert!(!contains_text("", "amazon"));
    assert!(!contains_text("a-m-a-z-o-n", "amazon"));
    assert!(contains_text("読書メーター", "メーター"));
}

#[test]
fn precedes_is_dictionary_order() {
    assert!(precedes("", "a"));
    assert!(precedes("a", "b"));
    assert!(precedes("a", "ab"));
    assert!(precedes("Z", "a"));
    assert!(precedes("ab", "b"));
    assert!(!precedes("a", "a"));
    assert!(!precedes("b", "a"));
    assert!(!precedes("", ""));
    assert!(!precedes("ab", "a"));
    let words = ["", "A", "a", "ab", "b", "é", "猫", "\u{FF21}", "\u{1F4D6}"];
    for a in words {
        for b in words {
            assert_eq!(precedes(a, b), a < b);
        }
    }
}

#[test]
fn same_text_and_chars() {
    assert!(same_text("dp", "dp"));
    assert!(!same_text("dp", "DP"));
    assert!(!same_text("dp", "dp "));
    assert_eq!(chars_of("a本"), vec!['a', '本']);
    assert_eq!(chars_of(""), Vec::<char>::new());
}

#[test]
fn parse_u32_agrees_with_the_standard_library() {
    for s in ["0", "+0", "00", "1", "42", "4294967295", "4294967296", "99999999999999999999",
        "", "+", "-", "-0", "++1", "1+", " 1", "1 ", "１", "0x10", "1_000", "+4294967295"] {
        assert_eq!(parse_u32(s), s.parse::<u32>().ok());
    }
}

#[test]
fn decimal_text_writes_what_parse_reads() {
    for n in [0u32, 1, 9, 10, 11, 99, 100, 101, 65535, 1_000_000, 4294967294, u32::MAX] {
        assert_eq!(decimal_text(n), n.to_string());
        assert_eq!(parse_u32(&decimal_text(n)), Some(n));
    }
}
