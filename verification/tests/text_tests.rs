use charm::text::{
    chars_of, contains_chars, decimal_string, find_chars, lines_chars, nonblank_lines,
    parse_u16_chars, string_of, trim_str, words_chars,
};

fn v(s: &str) -> Vec<char> {
    s.chars().collect()
}

fn strs(ls: Vec<Vec<char>>) -> Vec<String> {
    ls.into_iter().map(|l| l.into_iter().collect()).collect()
}

#[test]
fn trim_removes_unicode_whitespace_at_both_ends() {
    assert_eq!(trim_str("  \t a b \n\u{3000}"), "a b");
    assert_eq!(trim_str("   "), "");
    assert_eq!(trim_str("x"), "x");
}

#[test]
fn lines_follow_str_lines() {
    assert_eq!(strs(lines_chars(&v("a\nb\r\n\nc"))), vec!["a", "b", "", "c"]);
    assert_eq!(strs(lines_chars(&v("a\n"))), vec!["a"]);
    assert_eq!(strs(lines_chars(&v("a\r"))), vec!["a\r"]);
    assert!(lines_chars(&v("")).is_empty());
    assert_eq!(strs(lines_chars(&v("\n"))), vec![""]);
}

#[test]
fn words_follow_split_whitespace() {
    assert_eq!(strs(words_chars(&v("  ssh-ed25519  AAAA\tme@x  "))), vec!["ssh-ed25519", "AAAA", "me@x"]);
    assert!(words_chars(&v(" \t ")).is_empty());
}

#[test]
fn nonblank_lines_trim_and_skip_blank() {
    assert_eq!(nonblank_lines(" a \n\n  \nb\r\n"), vec!["a", "b"]);
}

#[test]
fn find_gives_first_occurrence() {
    assert_eq!(find_chars(&v("a:b:c"), &v(":")), Some(1));
    assert_eq!(find_chars(&v("abc"), &v(":")), None);
    assert_eq!(find_chars(&v("ab"), &v("abc")), None);
    assert!(contains_chars(&v("hello world"), &v("o w")));
    assert!(!contains_chars(&v("hello"), &v("x")));
}

#[test]
fn u16_parse_accepts_plus_and_rejects_overflow() {
    assert_eq!(parse_u16_chars(&v("8080")), Some(8080));
    assert_eq!(parse_u16_chars(&v("+80")), Some(80));
    assert_eq!(parse_u16_chars(&v("65535")), Some(65535));
    assert_eq!(parse_u16_chars(&v("065535")), Some(65535));
    assert_eq!(parse_u16_chars(&v("65536")), None);
    assert_eq!(parse_u16_chars(&v("")), None);
    assert_eq!(parse_u16_chars(&v("+")), None);
    assert_eq!(parse_u16_chars(&v("-1")), None);
    assert_eq!(parse_u16_chars(&v("8a")), None);
    assert_eq!(parse_u16_chars(&v(" 80")), None);
}

#[test]
fn decimal_formats_without_leading_zeros() {
    assert_eq!(decimal_string(0), "0");
    assert_eq!(decimal_string(7), "7");
    assert_eq!(decimal_string(8080), "8080");
    assert_eq!(decimal_string(18446744073709551615), "18446744073709551615");
}

#[test]
fn decimal_then_parse_round_trips() {
    for p in [0u16, 1, 9, 10, 443, 8080, 65535] {
        let s = decimal_string(p as u64);
        assert_eq!(parse_u16_chars(&v(&s)), Some(p));
    }
}

#[test]
fn chars_and_string_round_trip() {
    let c = chars_of("héllo ☃");
    assert_eq!(c.len(), 7);
    assert_eq!(string_of(&c), "héllo ☃");
}
