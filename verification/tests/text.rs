use godot_version::text::{
    all_digits_in, chars_of, find_in, has_suffix, is_digit_char, is_whitespace_char, matches_at,
    parse_u32_chars, push_decimal, replaced, same_text, slice_of, string_of, trimmed,
};

fn chars(text: &str) -> Vec<char> {
    text.chars().collect()
}

#[test]
fn whitespace_is_what_unicode_says() {
    for code in 0..=0x10FFFFu32 {
        if let Some(c) = char::from_u32(code) {
            assert_eq!(is_whitespace_char(c), c.is_whitespace(), "{:x}", code);
        }
    }
}

#[test]
fn digits_are_the_ten_ascii_ones() {
    for code in 0..=0x10FFFFu32 {
        if let Some(c) = char::from_u32(code) {
            assert_eq!(is_digit_char(c), c.is_ascii_digit(), "{:x}", code);
        }
    }
    assert!(all_digits_in(&chars("a123b"), 1, 4));
    assert!(all_digits_in(&chars("a123b"), 2, 2));
    assert!(!all_digits_in(&chars("a123b"), 0, 4));
    assert!(!all_digits_in(&chars("a123b"), 1, 5));
}

#[test]
fn strings_and_characters_convert_both_ways() {
    for text in ["", "a", "4.2.1-stable", "h\u{e9}llo \u{1f600}"] {
        assert_eq!(chars_of(text), chars(text));
        assert_eq!(string_of(&chars(text)), text);
    }
    assert!(same_text("linux", "linux"));
    assert!(same_text("", ""));
    assert!(!same_text("linux", "linus"));
    assert!(!same_text("linux", "linu"));
    assert!(!same_text("", "x"));
}

#[test]
fn trimming_agrees_with_str_trim() {
    for text in ["", " ", "a", " a", "a ", "  a b  ", "\t\n4.2.1\r\n", "\u{a0}x\u{2009}", "\u{200b}x"] {
        assert_eq!(string_of(&trimmed(&chars(text))), text.trim());
    }
}

#[test]
fn searching_finds_the_leftmost_occurrence() {
    let hay = chars("1.0.0-rc.1-rc2");
    assert_eq!(find_in(&hay, &chars("-rc")), Some(5));
    assert_eq!(find_in(&hay, &chars("-rc2")), Some(10));
    assert_eq!(find_in(&hay, &chars("-beta")), None);
    assert_eq!(find_in(&hay, &chars("")), Some(0));
    assert_eq!(find_in(&chars(""), &chars("")), Some(0));
    assert_eq!(find_in(&chars(""), &chars("a")), None);
    assert_eq!(find_in(&chars("aab"), &chars("ab")), Some(1));
    assert_eq!(find_in(&chars("ab"), &chars("abc")), None);
    assert!(matches_at(&hay, &chars("rc"), 6));
    assert!(!matches_at(&hay, &chars("rc"), 5));
    assert!(matches_at(&hay, &chars(""), 14));
    assert!(!matches_at(&hay, &chars("2x"), 13));
    assert!(has_suffix(&hay, &chars("-rc2")));
    assert!(has_suffix(&hay, &chars("")));
    assert!(!has_suffix(&hay, &chars("-rc")));
    assert!(!has_suffix(&chars("rc2"), &chars("-rc2")));
    assert_eq!(slice_of(&hay, 6, 8), chars("rc"));
    assert_eq!(slice_of(&hay, 3, 3), chars(""));
}

#[test]
fn decimal_notation_agrees_with_to_string() {
    for n in [0, 1, 9, 10, 11, 99, 100, 4294967295, 4294967296, u64::MAX - 1, u64::MAX] {
        let mut out = chars("v");
        push_decimal(&mut out, n);
        assert_eq!(string_of(&out), format!("v{}", n));
    }
}

#[test]
fn unsigned_integers_parse_as_in_std() {
    for text in [
        "", "0", "7", "42", "007", "+5", "+", "++5", "-5", "-0", "5+", " 5", "5 ", "1x", "x1",
        "4294967295", "4294967296", "04294967295", "99999999999999999999999", "+0000",
        "\u{663}", "1_000",
    ] {
        assert_eq!(parse_u32_chars(&chars(text)), text.parse::<u32>().ok(), "{:?}", text);
    }
    assert_eq!(parse_u32_chars(&chars("12")), Some(12));
    assert_eq!(parse_u32_chars(&chars("+007")), Some(7));
    assert_eq!(parse_u32_chars(&chars("4294967296")), None);
}

#[test]
fn replacing_agrees_with_str_replace() {
    for (text, from, to) in [
        ("4.3.0-beta.2", "-beta.", "-beta"),
        ("4.3.0-rc.2", "-beta.", "-beta"),
        ("1.0.0-rc.1-rc.2", "-rc.", "-rc"),
        ("aaaa", "aa", "a"),
        ("aaa", "aa", "b"),
        ("abab", "ab", "abab"),
        ("", "a", "b"),
        ("abc", "abc", ""),
        ("abc", "abcd", "x"),
        ("-alpha.-alpha.", "-alpha.", "-alpha"),
    ] {
        assert_eq!(string_of(&replaced(&chars(text), &chars(from), &chars(to))), text.replace(from, to));
    }
    assert_eq!(string_of(&replaced(&chars("abc"), &chars(""), &chars("x"))), "abc");
}
