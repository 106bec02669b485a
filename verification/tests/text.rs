use deltegic::text::{
    chars_eq, chars_eq_ignore_ascii_case, has_prefix, has_suffix, i64_to_string, parse_i64_chars,
    split_chars, trim_chars, trim_start_char_exec, u64_to_string,
};

fn chars(s: &str) -> Vec<char> {
    s.chars().collect()
}

fn text(v: &[char]) -> String {
    v.iter().collect()
}

#[test]
fn trims_like_str_trim() {
    for s in ["", "  ", " a ", "\tab c\r\n", "x", "  lead", "trail  ", "\u{3000}wide\u{3000}"] {
        assert_eq!(text(&trim_chars(&chars(s))), s.trim(), "input {:?}", s);
    }
}

#[test]
fn splits_like_str_split() {
    for s in ["", "a", "a\tb", "\t", "a\t\tb\t", "one\ttwo\tthree"] {
        let parts: Vec<String> = split_chars(&chars(s), '\t').iter().map(|p| text(p)).collect();
        let expected: Vec<String> = s.split('\t').map(|p| p.to_string()).collect();
        assert_eq!(parts, expected, "input {:?}", s);
    }
}

#[test]
fn prefixes_and_suffixes() {
    assert!(has_prefix(&chars("#HttpOnly_x"), &chars("#HttpOnly_")));
    assert!(!has_prefix(&chars("#Http"), &chars("#HttpOnly_")));
    assert!(has_suffix(&chars("www.example.com"), &chars("example.com")));
    assert!(!has_suffix(&chars("example.org"), &chars("example.com")));
    assert!(has_suffix(&chars("abc"), &chars("")));
}

#[test]
fn numerals() {
    assert_eq!(u64_to_string(0), "0");
    assert_eq!(u64_to_string(1234567890), "1234567890");
    assert_eq!(u64_to_string(u64::MAX), u64::MAX.to_string());
    assert_eq!(i64_to_string(-1), "-1");
    assert_eq!(i64_to_string(i64::MIN), i64::MIN.to_string());
    assert_eq!(i64_to_string(i64::MAX), i64::MAX.to_string());
}

#[test]
fn parses_like_str_parse() {
    for s in [
        "", "0", "-0", "+5", "-", "+", "12a", "9223372036854775807", "9223372036854775808",
        "-9223372036854775808", "-9223372036854775809", "0001", " 1", "1700000000",
    ] {
        assert_eq!(parse_i64_chars(&chars(s)), s.parse::<i64>().ok(), "input {:?}", s);
    }
}

#[test]
fn compares_text() {
    assert!(chars_eq(&chars("abc"), &chars("abc")));
    assert!(!chars_eq(&chars("abc"), &chars("abd")));
    assert!(chars_eq_ignore_ascii_case(&chars("TRUE"), &chars("true")));
    assert!(chars_eq_ignore_ascii_case(&chars("TrUe"), &chars("tRuE")));
    assert!(!chars_eq_ignore_ascii_case(&chars("TRUE"), &chars("FALSE")));
    assert_eq!(text(&trim_start_char_exec(&chars("..a.b"), '.')), "a.b");
    assert_eq!(text(&trim_start_char_exec(&chars("***"), '*')), "");
}
