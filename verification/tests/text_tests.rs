use opnsense_bind9::text::{
    join_with, parse_u32, split_char_str, split_lines, str_contains, str_starts_with, trim_of,
    u32_to_string,
};

#[test]
fn starts_with_matches_textual_prefixes() {
    assert!(str_starts_with("10.0.1.5", "10.0.1"));
    assert!(str_starts_with("10.0.10.5", "10.0.1"));
    assert!(!str_starts_with("10.0.2.5", "10.0.1"));
    assert!(str_starts_with("anything", ""));
    assert!(!str_starts_with("short", "shorter"));
}

#[test]
fn contains_finds_inner_substrings() {
    assert!(str_contains("\t2024060100\t; serial", ";"));
    assert!(str_contains("\t2024060100\t; serial", "serial"));
    assert!(!str_contains("no marker", ";"));
    assert!(str_contains("abc", ""));
}

#[test]
fn parse_u32_accepts_exactly_all_digit_strings_in_range() {
    assert_eq!(parse_u32("2024060100"), Some(2024060100));
    assert_eq!(parse_u32("0"), Some(0));
    assert_eq!(parse_u32("4294967295"), Some(u32::MAX));
    assert_eq!(parse_u32("4294967296"), None);
    assert_eq!(parse_u32(""), None);
    assert_eq!(parse_u32("12a"), None);
    assert_eq!(parse_u32("-5"), None);
}

#[test]
fn u32_to_string_renders_decimal() {
    assert_eq!(u32_to_string(0), "0");
    assert_eq!(u32_to_string(7), "7");
    assert_eq!(u32_to_string(2024060101), "2024060101");
    assert_eq!(u32_to_string(u32::MAX), "4294967295");
}

#[test]
fn split_lines_handles_terminators_like_the_standard_library() {
    let cases: Vec<&str> = vec!["", "\n", "a", "a\n", "a\nb", "a\r\nb\n", "a\r", "a\r\r\n"];
    for case in cases {
        let got = split_lines(case);
        let want: Vec<String> = case.lines().map(|s| s.to_string()).collect();
        assert_eq!(got, want, "splitting {:?}", case);
    }
}

#[test]
fn join_with_rebuilds_from_pieces() {
    let pieces = vec!["a".to_string(), "b".to_string(), "".to_string()];
    assert_eq!(join_with(&pieces, "\n"), "a\nb\n");
    assert_eq!(join_with(&pieces, "."), "a.b.");
    let empty: Vec<String> = Vec::new();
    assert_eq!(join_with(&empty, "\n"), "");
}

#[test]
fn split_char_matches_the_standard_split() {
    let cases: Vec<&str> = vec!["", "a", "a,b", ",", "a,,b,"];
    for case in cases {
        let got = split_char_str(case, ',');
        let want: Vec<String> = case.split(',').map(|s| s.to_string()).collect();
        assert_eq!(got, want, "splitting {:?}", case);
    }
}

#[test]
fn trim_strips_ascii_whitespace_on_both_ends() {
    assert_eq!(trim_of("  key\t"), "key");
    assert_eq!(trim_of("value"), "value");
    assert_eq!(trim_of(" \t "), "");
    assert_eq!(trim_of("a b"), "a b");
}
