use yunexal_panel::text::{
    chars_of, eq_ignore_ascii_case_exec, join_strings, lines_of, parse_unsigned_chars,
    push_signed_decimal, remove_char, split_on, trimmed_string, u64_to_string, words_of,
};

fn strs(v: Vec<Vec<char>>) -> Vec<String> {
    v.into_iter().map(|c| c.into_iter().collect()).collect()
}

#[test]
fn decimal_forms() {
    assert_eq!(u64_to_string(0), "0");
    assert_eq!(u64_to_string(1234567890), "1234567890");
    assert_eq!(u64_to_string(u64::MAX), u64::MAX.to_string());
    let mut s = String::from("id=");
    push_signed_decimal(&mut s, i64::MIN);
    assert_eq!(s, format!("id={}", i64::MIN));
}

#[test]
fn unsigned_parsing_matches_str_parse() {
    for text in ["0", "42", "+7", "", "+", "-1", " 1", "1 ", "18446744073709551615", "18446744073709551616", "٣"] {
        let expected = text.parse::<u64>().ok();
        assert_eq!(parse_unsigned_chars(&chars_of(text), u64::MAX), expected, "{:?}", text);
    }
    assert_eq!(parse_unsigned_chars(&chars_of("256"), 255), None);
    assert_eq!(parse_unsigned_chars(&chars_of("255"), 255), Some(255));
}

#[test]
fn splitting_like_std() {
    for text in ["a:b::c", "", ":", "abc"] {
        let expected: Vec<String> = text.split(':').map(|s| s.to_string()).collect();
        assert_eq!(strs(split_on(&chars_of(text), ':')), expected);
    }
    for text in ["a\nb\r\nc", "a\n", "", "\n\n", "x\r", "a\r\n\r\nb"] {
        let expected: Vec<String> = text.lines().map(|s| s.to_string()).collect();
        assert_eq!(strs(lines_of(&chars_of(text))), expected, "{:?}", text);
    }
    for text in ["  a  b\tc\n", "", "   ", "one"] {
        let expected: Vec<String> = text.split_whitespace().map(|s| s.to_string()).collect();
        assert_eq!(strs(words_of(&chars_of(text))), expected);
    }
}

#[test]
fn trimming_and_case() {
    assert_eq!(trimmed_string(" \t\u{3000}x y\u{a0}\n"), "x y");
    assert!(eq_ignore_ascii_case_exec(&chars_of("ALL"), "all"));
    assert!(!eq_ignore_ascii_case_exec(&chars_of("al"), "all"));
    assert_eq!(join_strings(&["a".to_string(), "b".to_string()], ", "), "a, b");
    assert_eq!(join_strings(&[], ", "), "");
    assert_eq!(remove_char(&chars_of("o'ne'il"), '\'').into_iter().collect::<String>(), "oneil");
}
