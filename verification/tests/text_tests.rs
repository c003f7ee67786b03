use ripdiff::text::{
    chars_of, decode_chars, find_char_from, is_whitespace, parse_u32, push_decimal, push_repeated, push_right_aligned,
    split_lines, split_nul_records, string_from, sub_chars, trim_chars, trim_start_chars, trim_str,
};
use ripdiff::width::{char_utf8_len, column_width};

fn chars(s: &str) -> Vec<char> {
    s.chars().collect()
}

#[test]
fn trimming_follows_unicode_white_space() {
    assert_eq!(trim_str("  a b \t\n"), "a b");
    assert_eq!(trim_str("\u{3000}x\u{a0}"), "x");
    assert_eq!(trim_str("   "), "");
    assert_eq!(string_from(&trim_start_chars(&chars("  a "))), "a ");
    assert_eq!(string_from(&trim_chars(&chars("\u{2003}a\u{2003}"))), "a");
    assert!(is_whitespace('\u{85}'));
    assert!(!is_whitespace('\u{200b}'));
}

#[test]
fn numbers_parse_as_u32() {
    assert_eq!(parse_u32(&chars("42")), Some(42));
    assert_eq!(parse_u32(&chars("+7")), Some(7));
    assert_eq!(parse_u32(&chars("4294967295")), Some(u32::MAX));
    assert_eq!(parse_u32(&chars("4294967296")), None);
    assert_eq!(parse_u32(&chars("-")), None);
    assert_eq!(parse_u32(&chars("")), None);
    assert_eq!(parse_u32(&chars("1a")), None);
    assert_eq!(parse_u32(&chars("+")), None);
}

#[test]
fn records_and_lines_split_as_std_does() {
    let records = split_nul_records(b"a\0\0bc\0");
    assert_eq!(records, vec![b"a".to_vec(), b"bc".to_vec()]);
    assert!(split_nul_records(b"").is_empty());
    let lines: Vec<String> = split_lines(&chars("a\r\nb\n\nc")).iter().map(|l| string_from(l)).collect();
    assert_eq!(lines, vec!["a", "b", "", "c"]);
    assert!(split_lines(&chars("")).is_empty());
}

#[test]
fn decimal_formatting() {
    let mut s = String::new();
    push_decimal(&mut s, 0);
    push_decimal(&mut s, 1234);
    assert_eq!(s, "01234");
    let mut t = String::new();
    push_right_aligned(&mut t, 7, 4);
    push_right_aligned(&mut t, 123456, 4);
    assert_eq!(t, "   7123456");
    let mut u = String::from("x");
    push_repeated(&mut u, '-', 3);
    assert_eq!(u, "x---");
}

#[test]
fn character_helpers() {
    assert_eq!(chars_of("héllo"), chars("héllo"));
    assert_eq!(sub_chars(&chars("hello"), 1, 3), vec!['e', 'l']);
    assert_eq!(find_char_from(&chars("a\tb\tc"), 2, '\t'), 3);
    assert_eq!(find_char_from(&chars("abc"), 0, '\t'), 3);
    assert_eq!(decode_chars(b"h\xc3\xa9"), Some(vec!['h', 'é']));
    assert_eq!(decode_chars(b"\xff"), None);
    assert_eq!(char_utf8_len('a'), 1);
    assert_eq!(char_utf8_len('é'), 2);
    assert_eq!(char_utf8_len('日'), 3);
    assert_eq!(char_utf8_len('🦀'), 4);
    assert_eq!(column_width('a'), 1);
    assert_eq!(column_width('日'), 2);
    assert_eq!(column_width('\u{7}'), 1);
    assert_eq!(column_width('\u{301}'), 1);
}
