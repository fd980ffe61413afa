use firemage_runtime::text::{
    decimal_text, lines_of, parse_unsigned_of, split_chars, to_ascii_lowercase, trim_of, utf8_len,
    words_of,
};

fn chars(s: &str) -> Vec<char> {
    s.chars().collect()
}

fn strings(v: Vec<Vec<char>>) -> Vec<String> {
    v.into_iter().map(|c| c.into_iter().collect()).collect()
}

#[test]
fn lines_split_like_str_lines() {
    assert_eq!(strings(lines_of("a\r\nb\n\nc")), vec!["a", "b", "", "c"]);
    assert_eq!(strings(lines_of("a\n")), vec!["a"]);
    assert!(lines_of("").is_empty());
}

#[test]
fn words_split_on_white_space() {
    assert_eq!(strings(words_of(&chars("  Uid:\t1 2\n 3 "))), vec!["Uid:", "1", "2", "3"]);
    assert!(words_of(&chars(" \t ")).is_empty());
    assert_eq!(trim_of(&chars(" \tab c\n")).into_iter().collect::<String>(), "ab c");
}

#[test]
fn numbers_parse_and_print_in_decimal() {
    assert_eq!(parse_unsigned_of(&chars("900001"), u32::MAX as u64), Some(900001));
    assert_eq!(parse_unsigned_of(&chars("4294967296"), u32::MAX as u64), None);
    assert_eq!(parse_unsigned_of(&chars(""), u32::MAX as u64), None);
    assert_eq!(parse_unsigned_of(&chars("12a"), u32::MAX as u64), None);
    assert_eq!(decimal_text(0), "0");
    assert_eq!(decimal_text(u64::MAX), "18446744073709551615");
}

#[test]
fn splitting_keeps_empty_pieces() {
    assert_eq!(strings(split_chars(&chars("/a//b/"), '/')), vec!["", "a", "", "b", ""]);
    assert_eq!(to_ascii_lowercase("02:AB:Cd:éÉ"), "02:ab:cd:éÉ");
    assert_eq!(utf8_len("é"), 2);
}
